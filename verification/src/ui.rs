//! The settings of a window of the overlay.

use vstd::prelude::*;

verus! {

/// How a window of the overlay is shown.
#[derive(Debug)]
pub struct WindowParams {
    pub label: String,
    pub movable: bool,
    pub close_button: bool,
    pub titlebar: bool,
}

impl Default for WindowParams {
    /// A movable window with a title bar, without a label or a close button.
    fn default() -> (params: WindowParams)
        ensures
            params.label@.len() == 0,
            params.movable,
            !params.close_button,
            params.titlebar,
    {
        WindowParams { label: String::new(), movable: true, close_button: false, titlebar: true }
    }
}

} // verus!
