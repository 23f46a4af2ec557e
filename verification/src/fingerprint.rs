//! Type fingerprints for the dynamically loaded reporter plugins.
//!
//! A value handed across a plugin boundary is stored type-erased; the
//! fingerprint of its type — its size and alignment — is checked before
//! any cast back, so a mismatched plugin fails loudly instead of
//! corrupting memory.

use vstd::prelude::*;

verus! {

/// The identity a type-erased value is checked against: the size and
/// alignment of its type.
#[derive(PartialEq, Eq, Structural, Debug)]
pub struct Fingerprint {
    pub size: usize,
    pub align: usize,
}

impl Fingerprint {
    /// The fingerprint of `T`.
    pub fn of<T>() -> (r: Fingerprint)
        ensures
            r.size == vstd::layout::size_of::<T>(),
            r.align == vstd::layout::align_of::<T>(),
    {
        Fingerprint { size: core::mem::size_of::<T>(), align: core::mem::align_of::<T>() }
    }
}

/// Whether a value of `T` fits the two-word inline slot of a
/// type-erased container, so no allocation is needed to store it.
pub fn is_small<T>() -> (r: bool)
    ensures
        r == (vstd::layout::size_of::<T>() <= 2 * vstd::layout::size_of::<usize>()
            && vstd::layout::align_of::<T>() <= vstd::layout::align_of::<usize>()),
{
    core::mem::size_of::<T>() <= 2 * core::mem::size_of::<usize>() && core::mem::align_of::<T>()
        <= core::mem::align_of::<usize>()
}

} // verus!
