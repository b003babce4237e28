//! The calling convention of a callable, as the code generator records it.

use vstd::prelude::*;
use crate::ir::IrParam;

verus! {

/// How a callable takes its arguments.
#[derive(Debug, Clone, PartialEq, Eq)]
pub struct CallableAbi {
    pub params: Vec<IrParam>,
    /// Parameters that are passed with a type hash.
    pub type_hash_param_indices: Vec<usize>,
    /// Parameters whose bound is only known at run time.
    pub runtime_bound_param_indices: Vec<usize>,
    /// Parameters that carry a bounded collection plan.
    pub bounded_plan_param_indices: Vec<usize>,
}

} // verus!
