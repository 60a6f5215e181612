use vstd::prelude::*;

verus! {

/// The host stands in for an accelerator.
#[derive(Debug, Clone, Copy)]
pub struct CpuCompute;

} // verus!
