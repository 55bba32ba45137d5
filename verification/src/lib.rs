//! The simulation core of a snake game: an entity-component world that holds
//! the head, the tail segments, the food and the score, and the systems that
//! advance it tick by tick.
//!
//! The world is a `hecs::World`. The module `store` says what it holds and
//! gives each call into it a contract; `systems` holds the steps of a tick,
//! `stages` the tick itself and the screens of the game, and `laws` what
//! relates several of them.

pub mod assets;
pub mod chain;
pub mod components;
pub mod events;
pub mod graphics;
pub mod laws;
pub mod queue;
pub mod random;
pub mod score;
pub mod stages;
pub mod store;
pub mod systems;
pub mod types;
pub mod ui;
pub mod walk;

pub use types::AssetIdentity;
