use vstd::prelude::*;

use roead::byml::Byml;

use crate::error::UKError;
use crate::platform::Endian;

verus! {

/// A resource whose mods are kept as differences from the base game:
/// `diff` gives what `other` changes of `self`, and `merge` applies such a
/// difference to `self`.
pub trait Mergeable: Sized {
    #[must_use]
    fn diff(&self, other: &Self) -> Self;

    #[must_use]
    fn merge(&self, diff: &Self) -> Self;
}

/// A game resource that is read from and written to its binary form.
pub trait Resource: Sized {
    fn from_binary(data: &[u8]) -> Result<Self, UKError>;

    fn into_binary(self, endian: Endian) -> Vec<u8>;

    fn path_matches(path: &str) -> bool;
}

/// A value that is read from a BYML node.
pub trait FromByml: Sized {
    fn from_byml(byml: &Byml) -> Result<Self, UKError>;
}

} // verus!
