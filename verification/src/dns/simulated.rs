use vstd::prelude::*;

verus! {

/// A provider that only reports the changes it would make.
pub struct Simulated;

} // verus!
