use vstd::prelude::*;

verus! {

/// Seals the metering traits: a public supertrait whose name is not
/// publicly exported, so only allow-listed implementers gain the
/// meter capability.
pub trait Sealed {}

} // verus!
