//! The identity under which an asset is kept: a number made from its name.

use vstd::prelude::*;
use vstd::std_specs::convert::FromSpecImpl;
use vstd::std_specs::hash::DefaultHasherAdditionalSpecFns;
use std::collections::hash_map::DefaultHasher;
use std::hash::Hash;
use std::hash::Hasher;
use crate::assets::AssetType;

verus! {

/// What hashing a string feeds to a hasher, write by write.
pub uninterp spec fn name_writes(name: Seq<char>) -> Seq<Seq<u8>>;

/// Feeds a string to a hasher, through the `Hash` impl of `str`. What the
/// hasher is fed depends on the string alone; the contract gives it a name
/// and says no more of it.
#[verifier::external_body]
fn feed_name(name: &str, hasher: &mut DefaultHasher)
    ensures
        final(hasher)@ == old(hasher)@ + name_writes(name@),
{
    name.hash(hasher)
}

/// The number that stands for the asset with the given name.
pub open spec fn identity_of(name: Seq<char>) -> u64 {
    DefaultHasher::spec_finish(Seq::<Seq<u8>>::empty() + name_writes(name))
}

/// The identity of an asset: the hash of its name.
#[derive(Debug, Clone, Copy, Hash, Eq, PartialEq)]
pub struct AssetIdentity(pub u64);

impl AssetIdentity {
    /// The identity of the asset with the given name.
    pub fn of(name: &str) -> (id: AssetIdentity)
        ensures
            id.0 == identity_of(name@),
    {
        let mut hasher = DefaultHasher::new();
        feed_name(name, &mut hasher);
        AssetIdentity(hasher.finish())
    }
}

impl From<String> for AssetIdentity {
    fn from(v: String) -> (id: Self) {
        AssetIdentity::of(v.as_str())
    }
}

impl FromSpecImpl<String> for AssetIdentity {
    open spec fn obeys_from_spec() -> bool {
        true
    }

    open spec fn from_spec(v: String) -> Self {
        AssetIdentity(identity_of(v@))
    }
}

impl From<&str> for AssetIdentity {
    fn from(v: &str) -> (id: Self) {
        AssetIdentity::of(v)
    }
}

impl FromSpecImpl<&str> for AssetIdentity {
    open spec fn obeys_from_spec() -> bool {
        true
    }

    open spec fn from_spec(v: &str) -> Self {
        AssetIdentity(identity_of(v@))
    }
}

impl From<AssetType> for AssetIdentity {
    fn from(v: AssetType) -> (id: Self) {
        AssetIdentity::of(v.name())
    }
}

impl FromSpecImpl<AssetType> for AssetIdentity {
    open spec fn obeys_from_spec() -> bool {
        true
    }

    open spec fn from_spec(v: AssetType) -> Self {
        AssetIdentity(identity_of(v.spec_name()))
    }
}

} // verus!
