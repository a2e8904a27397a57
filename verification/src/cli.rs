//! The values that the command line selects.

pub mod fork;
pub mod operation;
pub mod stf_mode;
