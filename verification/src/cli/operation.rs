//! The operation whose fixtures are run.

use crate::operation::OperationName;
use vstd::prelude::*;

verus! {

/// The operation argument; none where it is not given.
#[derive(Debug, Clone, Copy)]
pub struct OperationArgs {
    pub operation_name: Option<OperationName>,
}

} // verus!
