//! The reflink copier's handle.  The copy itself is a kernel range-copy
//! on two open descriptors, issued by the shell around this crate; after
//! it succeeds on a copy-on-write filesystem, the two files' extent lists
//! satisfy `crate::fiemap::spec_extents_match`.

use vstd::prelude::*;

verus! {

/// The performer of copy-on-write file copies.
pub struct CopyRefOperator {}

impl CopyRefOperator {
    /// A fresh copier; it holds no state of its own.
    pub fn new() -> (r: CopyRefOperator) {
        CopyRefOperator {  }
    }
}

} // verus!
