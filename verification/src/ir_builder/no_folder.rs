//! Folder that never folds.

use vstd::prelude::*;
use crate::ir_builder::folder::IRBuilderFolder;

verus! {

/// Folder that declines every fold, so the builder always emits an
/// instruction.
#[derive(Debug, Clone, Copy)]
pub struct NoFolder;

impl IRBuilderFolder for NoFolder {
}

} // verus!
