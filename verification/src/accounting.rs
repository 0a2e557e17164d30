//! Extent accounting: per-file shared bytes and per-branch aggregation.
//!
//! For each regular file the walker sums the file's size into the logical
//! total and, over the extents that carry the SHARED flag, the extent
//! lengths into the shared total.  The unique size an operator sees is the
//! logical size less the shared size.

use vstd::prelude::*;

use crate::fiemap::{FiemapExtent, extent_is_encoded, extent_is_shared};

verus! {

/// The bytes of `s` that sit in SHARED extents.
pub open spec fn spec_shared_sum(s: Seq<FiemapExtent>) -> int
    decreases s.len(),
{
    if s.len() == 0 {
        0
    } else {
        spec_shared_sum(s.drop_last()) + if extent_is_shared(s.last()) {
            s.last().fe_length as int
        } else {
            0
        }
    }
}

/// Whether any extent of `s` carries the ENCODED flag.
pub open spec fn spec_any_encoded(s: Seq<FiemapExtent>) -> bool {
    exists|i: int| 0 <= i < s.len() && extent_is_encoded(s[i])
}

/// The shared sum is never negative.
pub proof fn lemma_shared_sum_nonneg(s: Seq<FiemapExtent>)
    ensures
        spec_shared_sum(s) >= 0,
    decreases s.len(),
{
    if s.len() > 0 {
        lemma_shared_sum_nonneg(s.drop_last());
    }
}

/// A longer extent list never has a smaller shared sum.
pub proof fn lemma_shared_sum_monotone(s: Seq<FiemapExtent>, m: int)
    requires
        0 <= m <= s.len(),
    ensures
        spec_shared_sum(s.take(m)) <= spec_shared_sum(s),
    decreases s.len() - m,
{
    if m == s.len() {
        assert(s.take(m) =~= s);
    } else {
        lemma_shared_sum_monotone(s, m + 1);
        assert(s.take(m + 1).drop_last() =~= s.take(m));
        assert(s.take(m + 1).last() == s[m]);
        if extent_is_shared(s[m]) {
        }
    }
}

/// Sum the lengths of the SHARED extents.  `None` exactly when the sum does
/// not fit a 64-bit count.
pub fn shared_length_sum(extents: &Vec<FiemapExtent>) -> (r: Option<u64>)
    ensures
        match r {
            Some(n) => n as int == spec_shared_sum(extents@),
            None => spec_shared_sum(extents@) > u64::MAX,
        },
{
    let mut total: u64 = 0;
    let mut i: usize = 0;
    while i < extents.len()
        invariant
            i <= extents@.len(),
            total as int == spec_shared_sum(extents@.take(i as int)),
        decreases extents@.len() - i,
    {
        let e = extents[i];
        proof {
            assert(extents@.take(i as int + 1).drop_last() =~= extents@.take(i as int));
            assert(extents@.take(i as int + 1).last() == extents@[i as int]);
        }
        if e.fe_flags & 0x00002000u32 != 0u32 {
            proof {
                assert(extent_is_shared(extents@[i as int]));
            }
            if total > u64::MAX - e.fe_length {
                proof {
                    lemma_shared_sum_monotone(extents@, i as int + 1);
                }
                return None;
            }
            total = total + e.fe_length;
        } else {
            proof {
                assert(!extent_is_shared(extents@[i as int]));
            }
        }
        i += 1;
    }
    proof {
        assert(extents@.take(extents@.len() as int) =~= extents@);
    }
    Some(total)
}

/// Whether any extent is stored encoded (compressed or encrypted).
pub fn any_encoded(extents: &Vec<FiemapExtent>) -> (r: bool)
    ensures
        r == spec_any_encoded(extents@),
{
    let mut i: usize = 0;
    while i < extents.len()
        invariant
            i <= extents@.len(),
            forall|j: int| 0 <= j < i ==> !extent_is_encoded(#[trigger] extents@[j]),
        decreases extents@.len() - i,
    {
        let e = extents[i];
        if e.fe_flags & 0x00000008u32 != 0u32 {
            proof {
                assert(extent_is_encoded(extents@[i as int]));
            }
            return true;
        }
        proof {
            assert(!extent_is_encoded(extents@[i as int]));
        }
        i += 1;
    }
    false
}

/// What the accounting walker records of one regular file.
#[derive(Debug, Clone)]
pub struct FileInfo {
    /// The file's size, as its metadata reports it.
    pub real_size: u64,
    /// The bytes of the file that sit in SHARED extents.
    pub shared_size: u64,
    /// Whether any extent carries the ENCODED flag.
    pub is_compressed: bool,
    /// The file's name.
    pub name: String,
}

/// Build the record of one file from its metadata size and extent list.
/// `None` exactly when the shared bytes do not fit a 64-bit count.
pub fn file_info_from_extents(name: String, real_size: u64, extents: &Vec<FiemapExtent>) -> (r:
    Option<FileInfo>)
    ensures
        match r {
            Some(fi) => {
                &&& fi.name@ == name@
                &&& fi.real_size == real_size
                &&& fi.shared_size as int == spec_shared_sum(extents@)
                &&& fi.is_compressed == spec_any_encoded(extents@)
            },
            None => spec_shared_sum(extents@) > u64::MAX,
        },
{
    let shared = match shared_length_sum(extents) {
        Some(n) => n,
        None => {
            return None;
        },
    };
    let compressed = any_encoded(extents);
    Some(FileInfo { real_size, shared_size: shared, is_compressed: compressed, name })
}

/// The running totals of one branch directory.
#[derive(Debug, Clone)]
pub struct FolderInfo {
    /// The sum of the metadata sizes of every file seen.
    pub logical_size: u64,
    /// The sum of the shared bytes of every file seen.
    pub shared_size: u64,
    /// The per-file records, in the order the walk met them.
    pub files: Vec<FileInfo>,
}

impl FolderInfo {
    /// Empty totals, before any file is seen.
    pub fn new() -> (r: FolderInfo)
        ensures
            r.logical_size == 0,
            r.shared_size == 0,
            r.files@ == Seq::<FileInfo>::empty(),
    {
        FolderInfo { logical_size: 0, shared_size: 0, files: Vec::new() }
    }

    /// Fold one file into the totals.  Returns false, changing nothing,
    /// exactly when a sum would not fit a 64-bit count.
    pub fn add_file(&mut self, fi: FileInfo) -> (ok: bool)
        ensures
            ok == (old(self).logical_size + fi.real_size <= u64::MAX && old(self).shared_size
                + fi.shared_size <= u64::MAX),
            ok ==> {
                &&& final(self).logical_size == old(self).logical_size + fi.real_size
                &&& final(self).shared_size == old(self).shared_size + fi.shared_size
                &&& final(self).files@ == old(self).files@.push(fi)
            },
            !ok ==> *final(self) == *old(self),
    {
        if self.logical_size > u64::MAX - fi.real_size || self.shared_size > u64::MAX
            - fi.shared_size {
            return false;
        }
        self.logical_size = self.logical_size + fi.real_size;
        self.shared_size = self.shared_size + fi.shared_size;
        self.files.push(fi);
        true
    }

    /// Fold a subdirectory's totals into these.  Returns false, changing
    /// nothing, exactly when a sum would not fit a 64-bit count.
    pub fn absorb(&mut self, sub: FolderInfo) -> (ok: bool)
        ensures
            ok == (old(self).logical_size + sub.logical_size <= u64::MAX && old(self).shared_size
                + sub.shared_size <= u64::MAX),
            ok ==> {
                &&& final(self).logical_size == old(self).logical_size + sub.logical_size
                &&& final(self).shared_size == old(self).shared_size + sub.shared_size
                &&& final(self).files@ == old(self).files@ + sub.files@
            },
            !ok ==> *final(self) == *old(self),
    {
        if self.logical_size > u64::MAX - sub.logical_size || self.shared_size > u64::MAX
            - sub.shared_size {
            return false;
        }
        self.logical_size = self.logical_size + sub.logical_size;
        self.shared_size = self.shared_size + sub.shared_size;
        let mut rest = sub.files;
        self.files.append(&mut rest);
        true
    }

    /// The unique (non-shared) size the operator sees: the logical size
    /// less the shared size, and zero when sharing exceeds it.
    pub fn unique_size(&self) -> (r: u64)
        ensures
            r == if self.shared_size <= self.logical_size {
                self.logical_size - self.shared_size
            } else {
                0
            },
    {
        if self.shared_size <= self.logical_size {
            self.logical_size - self.shared_size
        } else {
            0
        }
    }
}

} // verus!
