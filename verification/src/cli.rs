//! The arguments of the formatting command.
use vstd::prelude::*;

verus! {

/// The paths or glob patterns to format, and whether only to check that they
/// are formatted.
#[derive(Debug, Clone)]
pub struct FmtArgs {
    pub paths: Vec<String>,
    pub check: bool,
}

} // verus!
