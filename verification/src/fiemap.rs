//! The extent map reader: per-extent flags, the batched kernel-scan driver,
//! and the extent-list comparison that witnesses copy-on-write sharing.
//!
//! The kernel call itself is issued by the unverified shell; this module
//! decides what to request, when the scan is finished, and what the answers
//! mean.

use vstd::prelude::*;
use vstd::seq_lib::group_seq_properties;

verus! {

/// Per-extent flags, as the kernel's extent-map interface reports them.
#[derive(Debug, Clone, Copy, PartialEq, Eq, Structural)]
pub enum FiemapFlags {
    /// Last extent in file.
    Last,
    /// Data location unknown.
    Unknown,
    /// Location still pending.
    Delalloc,
    /// Data compressed or encrypted.
    Encoded,
    /// Data is encrypted.
    DataCrypted,
    /// Extent not aligned.
    NotAligned,
    /// Data mixed with metadata.
    DataInline,
    /// Multiple files in block.
    DataTail,
    /// Space allocated, no data.
    Unwritten,
    /// File does not natively support extents.
    Merged,
    /// Space shared with other files (reflink, copy-on-write).
    Shared,
}

impl FiemapFlags {
    /// The bit this flag occupies in the kernel's flag word.
    pub open spec fn spec_bits(self) -> u32 {
        match self {
            FiemapFlags::Last => 0x00000001u32,
            FiemapFlags::Unknown => 0x00000002u32,
            FiemapFlags::Delalloc => 0x00000004u32,
            FiemapFlags::Encoded => 0x00000008u32,
            FiemapFlags::DataCrypted => 0x00000080u32,
            FiemapFlags::NotAligned => 0x00000100u32,
            FiemapFlags::DataInline => 0x00000200u32,
            FiemapFlags::DataTail => 0x00000400u32,
            FiemapFlags::Unwritten => 0x00000800u32,
            FiemapFlags::Merged => 0x00001000u32,
            FiemapFlags::Shared => 0x00002000u32,
        }
    }

    /// The bit this flag occupies in the kernel's flag word.
    pub fn bits(self) -> (r: u32)
        ensures
            r == self.spec_bits(),
    {
        match self {
            FiemapFlags::Last => 0x00000001u32,
            FiemapFlags::Unknown => 0x00000002u32,
            FiemapFlags::Delalloc => 0x00000004u32,
            FiemapFlags::Encoded => 0x00000008u32,
            FiemapFlags::DataCrypted => 0x00000080u32,
            FiemapFlags::NotAligned => 0x00000100u32,
            FiemapFlags::DataInline => 0x00000200u32,
            FiemapFlags::DataTail => 0x00000400u32,
            FiemapFlags::Unwritten => 0x00000800u32,
            FiemapFlags::Merged => 0x00001000u32,
            FiemapFlags::Shared => 0x00002000u32,
        }
    }

    /// Decode a kernel flag word into the list of set flags, in the fixed
    /// order of `all_flags`.
    pub fn from_bits(flags: u32) -> (r: Vec<FiemapFlags>)
        ensures
            r@ == spec_from_bits(flags),
            forall|f: FiemapFlags| #[trigger] r@.contains(f) <==> has_flag(flags, f),
    {
        let table: Vec<FiemapFlags> = flag_table();
        let mut result: Vec<FiemapFlags> = Vec::new();
        let mut i: usize = 0;
        while i < table.len()
            invariant
                table@ == all_flags(),
                i <= table@.len(),
                result@ == all_flags().take(i as int).filter(keep(flags)),
            decreases table@.len() - i,
        {
            let f = table[i];
            proof {
                reveal(Seq::filter);
                let t1 = all_flags().take(i as int + 1);
                assert(t1.drop_last() =~= all_flags().take(i as int));
                assert(t1.last() == all_flags()[i as int]);
            }
            if flags & f.bits() != 0u32 {
                result.push(f);
            }
            i += 1;
        }
        proof {
            assert(all_flags().take(11) =~= all_flags());
            lemma_from_bits_contains(flags);
        }
        result
    }
}

/// Every flag, in the order `from_bits` reports them.
pub open spec fn all_flags() -> Seq<FiemapFlags> {
    seq![
        FiemapFlags::Last,
        FiemapFlags::Unknown,
        FiemapFlags::Delalloc,
        FiemapFlags::Encoded,
        FiemapFlags::DataCrypted,
        FiemapFlags::NotAligned,
        FiemapFlags::DataInline,
        FiemapFlags::DataTail,
        FiemapFlags::Unwritten,
        FiemapFlags::Merged,
        FiemapFlags::Shared,
    ]
}

/// Whether the flag word has `f`'s bit set.
pub open spec fn has_flag(bits: u32, f: FiemapFlags) -> bool {
    bits & f.spec_bits() != 0u32
}

/// The predicate `from_bits` filters with.
pub open spec fn keep(bits: u32) -> spec_fn(FiemapFlags) -> bool {
    |f: FiemapFlags| has_flag(bits, f)
}

/// What `from_bits` returns: the set flags, in the fixed order.
pub open spec fn spec_from_bits(bits: u32) -> Seq<FiemapFlags> {
    all_flags().filter(keep(bits))
}

/// A flag is in the decoded list exactly when its bit is set in the word.
pub proof fn lemma_from_bits_contains(bits: u32)
    ensures
        forall|f: FiemapFlags| #[trigger] spec_from_bits(bits).contains(f) <==> has_flag(bits, f),
{
    broadcast use group_seq_properties;

    assert forall|f: FiemapFlags| #[trigger] spec_from_bits(bits).contains(f) <==> has_flag(
        bits,
        f,
    ) by {
        if has_flag(bits, f) {
            let i: int = match f {
                FiemapFlags::Last => 0,
                FiemapFlags::Unknown => 1,
                FiemapFlags::Delalloc => 2,
                FiemapFlags::Encoded => 3,
                FiemapFlags::DataCrypted => 4,
                FiemapFlags::NotAligned => 5,
                FiemapFlags::DataInline => 6,
                FiemapFlags::DataTail => 7,
                FiemapFlags::Unwritten => 8,
                FiemapFlags::Merged => 9,
                FiemapFlags::Shared => 10,
            };
            assert(all_flags()[i] == f);
            all_flags().lemma_filter_contains(keep(bits), i);
        }
        if spec_from_bits(bits).contains(f) {
            let j = choose|j: int|
                0 <= j < spec_from_bits(bits).len() && spec_from_bits(bits)[j] == f;
            all_flags().lemma_filter_pred(keep(bits), j);
        }
    }
}

/// The executable flag table, one entry per flag in order.
fn flag_table() -> (r: Vec<FiemapFlags>)
    ensures
        r@ == all_flags(),
{
    let mut v: Vec<FiemapFlags> = Vec::new();
    v.push(FiemapFlags::Last);
    v.push(FiemapFlags::Unknown);
    v.push(FiemapFlags::Delalloc);
    v.push(FiemapFlags::Encoded);
    v.push(FiemapFlags::DataCrypted);
    v.push(FiemapFlags::NotAligned);
    v.push(FiemapFlags::DataInline);
    v.push(FiemapFlags::DataTail);
    v.push(FiemapFlags::Unwritten);
    v.push(FiemapFlags::Merged);
    v.push(FiemapFlags::Shared);
    proof {
        assert(v@ =~= all_flags());
    }
    v
}

/// One extent record: where the run sits in the file, where it sits on the
/// device, how long it is, and its flag word.
#[derive(Debug, Clone, Copy, PartialEq, Eq, Structural)]
pub struct FiemapExtent {
    /// Byte offset of the extent in the file.
    pub fe_logical: u64,
    /// Byte offset of the extent on the device.
    pub fe_physical: u64,
    /// Length in bytes of this extent.
    pub fe_length: u64,
    /// Flag word for this extent.
    pub fe_flags: u32,
}

/// Whether this extent is the file's last one.
pub open spec fn extent_is_last(e: FiemapExtent) -> bool {
    has_flag(e.fe_flags, FiemapFlags::Last)
}

/// Whether this extent's storage is shared with another file.
pub open spec fn extent_is_shared(e: FiemapExtent) -> bool {
    has_flag(e.fe_flags, FiemapFlags::Shared)
}

/// Whether this extent's data is stored encoded (compressed or encrypted).
pub open spec fn extent_is_encoded(e: FiemapExtent) -> bool {
    has_flag(e.fe_flags, FiemapFlags::Encoded)
}

/// An extent together with its decoded flag list.
#[derive(Debug, Clone)]
pub struct Fiemap {
    /// The raw extent record.
    pub extent: FiemapExtent,
    /// The decoded flags of `extent`.
    pub flags: Vec<FiemapFlags>,
}

/// Decode the flag word of each extent in the list.
pub fn decorate_extents(extents: &Vec<FiemapExtent>) -> (r: Vec<Fiemap>)
    ensures
        r@.len() == extents@.len(),
        forall|i: int|
            0 <= i < r@.len() ==> #[trigger] r@[i].extent == extents@[i] && r@[i].flags@
                == spec_from_bits(extents@[i].fe_flags),
{
    let mut r: Vec<Fiemap> = Vec::new();
    let mut i: usize = 0;
    while i < extents.len()
        invariant
            i <= extents@.len(),
            r@.len() == i,
            forall|j: int|
                0 <= j < i ==> #[trigger] r@[j].extent == extents@[j] && r@[j].flags@
                    == spec_from_bits(extents@[j].fe_flags),
        decreases extents@.len() - i,
    {
        let e = extents[i];
        r.push(Fiemap { extent: e, flags: FiemapFlags::from_bits(e.fe_flags) });
        i += 1;
    }
    r
}

/// How many extents the scan asks the kernel for in one call.
pub const EXTENTS_PER_CALL: usize = 32;

/// The extents a batch contributes: every record up to and with the first
/// one that carries the LAST flag.
pub open spec fn spec_absorbed(batch: Seq<FiemapExtent>) -> Seq<FiemapExtent>
    decreases batch.len(),
{
    if batch.len() == 0 {
        Seq::empty()
    } else if extent_is_last(batch[0]) {
        seq![batch[0]]
    } else {
        seq![batch[0]] + spec_absorbed(batch.drop_first())
    }
}

/// Whether any record in the batch carries the LAST flag.
pub open spec fn spec_batch_has_last(batch: Seq<FiemapExtent>) -> bool {
    exists|i: int| 0 <= i < batch.len() && extent_is_last(batch[i])
}

/// The driver for one file's extent scan.
///
/// The kernel is asked for up to `EXTENTS_PER_CALL` extents per call,
/// starting at offset 0 with length equal to the file size minus the offset.
/// The scan ends when an extent carries the LAST flag, when a call returns
/// fewer than `EXTENTS_PER_CALL` extents, or when a call returns none.
/// Between calls, the start offset advances past the last extent seen.
/// A file of length 0 ends the scan before any kernel call.
pub struct ExtentScan {
    /// The file's size in bytes, fixed at the start.
    pub file_size: u64,
    /// Where the next kernel request starts.
    pub offset: u64,
    /// Every extent absorbed so far, in file order.
    pub extents: Vec<FiemapExtent>,
    /// Whether the scan is finished.
    pub done: bool,
}

impl ExtentScan {
    /// Start a scan of a file of the given size.  A file of length 0 is
    /// finished at once, with an empty extent list and no kernel call owed.
    pub fn new(file_size: u64) -> (r: ExtentScan)
        ensures
            r.file_size == file_size,
            r.offset == 0,
            r.extents@ == Seq::<FiemapExtent>::empty(),
            r.done == (file_size == 0),
    {
        ExtentScan { file_size, offset: 0, extents: Vec::new(), done: file_size == 0 }
    }

    /// The length the next kernel request should carry: the bytes that
    /// remain from the current offset to the end of the file.
    pub fn request_length(&self) -> (r: u64)
        requires
            !self.done,
        ensures
            r == if self.offset <= self.file_size {
                (self.file_size - self.offset) as u64
            } else {
                0u64
            },
    {
        if self.offset <= self.file_size {
            self.file_size - self.offset
        } else {
            0
        }
    }

    /// Feed one kernel answer into the scan.  `batch` holds exactly the
    /// mapped extents of that call, in order.
    ///
    /// Records are absorbed up to and with the first LAST-flagged one; the
    /// scan finishes on a LAST flag, on a short batch, or on an empty one,
    /// and otherwise advances the offset past the batch's final extent.
    pub fn absorb_batch(&mut self, batch: &Vec<FiemapExtent>)
        requires
            !old(self).done,
        ensures
            final(self).file_size == old(self).file_size,
            final(self).extents@ == old(self).extents@ + spec_absorbed(batch@),
            final(self).done == (batch@.len() == 0 || spec_batch_has_last(batch@) || batch@.len()
                < EXTENTS_PER_CALL),
            !final(self).done ==> final(self).offset == sat_add_u64(
                batch@.last().fe_logical,
                batch@.last().fe_length,
            ),
    {
        if batch.len() == 0 {
            self.done = true;
            proof {
                assert(self.extents@ =~= old(self).extents@ + spec_absorbed(batch@));
            }
            return ;
        }
        let ghost prior = self.extents@;
        let mut i: usize = 0;
        let mut found_last: bool = false;
        while i < batch.len() && !found_last
            invariant
                i <= batch@.len(),
                batch@.len() > 0,
                self.file_size == old(self).file_size,
                self.done == old(self).done,
                !found_last ==> {
                    &&& forall|j: int| 0 <= j < i ==> !extent_is_last(#[trigger] batch@[j])
                    &&& self.extents@ == prior + batch@.take(i as int)
                    &&& i > 0 ==> self.offset == sat_add_u64(
                        batch@[i - 1].fe_logical,
                        batch@[i - 1].fe_length,
                    )
                    &&& i == 0 ==> self.offset == old(self).offset
                },
                found_last ==> {
                    &&& i >= 1
                    &&& extent_is_last(batch@[i - 1])
                    &&& forall|j: int| 0 <= j < i - 1 ==> !extent_is_last(#[trigger] batch@[j])
                    &&& self.extents@ == prior + batch@.take(i as int)
                },
            decreases batch@.len() - i,
        {
            let e = batch[i];
            self.extents.push(e);
            if e.fe_flags & 0x00000001u32 != 0u32 {
                found_last = true;
            } else {
                if e.fe_logical <= u64::MAX - e.fe_length {
                    self.offset = e.fe_logical + e.fe_length;
                } else {
                    self.offset = u64::MAX;
                }
            }
            i += 1;
            proof {
                assert(self.extents@ =~= prior + batch@.take(i as int));
            }
        }
        if found_last || batch.len() < EXTENTS_PER_CALL {
            self.done = true;
        }
        proof {
            if found_last {
                lemma_absorbed_of_prefix(batch@, i as int - 1);
                assert(spec_batch_has_last(batch@));
            } else {
                assert(i == batch@.len());
                lemma_absorbed_no_last(batch@);
                assert(batch@.take(i as int) =~= batch@);
                assert(!spec_batch_has_last(batch@));
                assert(batch@[i - 1] == batch@.last());
            }
        }
    }
}

/// Addition on byte offsets that stops at the top of the range.
pub open spec fn sat_add_u64(a: u64, b: u64) -> u64 {
    if a + b <= u64::MAX {
        (a + b) as u64
    } else {
        u64::MAX
    }
}

/// When index `k` holds the first LAST-flagged record, the absorbed prefix
/// is everything up to and with `k`.
proof fn lemma_absorbed_of_prefix(batch: Seq<FiemapExtent>, k: int)
    requires
        0 <= k < batch.len(),
        extent_is_last(batch[k]),
        forall|j: int| 0 <= j < k ==> !extent_is_last(#[trigger] batch[j]),
    ensures
        spec_absorbed(batch) == batch.take(k + 1),
    decreases k,
{
    if k == 0 {
        assert(spec_absorbed(batch) =~= batch.take(1));
    } else {
        lemma_absorbed_of_prefix(batch.drop_first(), k - 1);
        assert(batch.drop_first().take(k) =~= batch.take(k + 1).drop_first());
        assert(spec_absorbed(batch) =~= seq![batch[0]] + batch.drop_first().take(k));
        assert(spec_absorbed(batch) =~= batch.take(k + 1));
    }
}

/// When no record carries the LAST flag, everything is absorbed.
proof fn lemma_absorbed_no_last(batch: Seq<FiemapExtent>)
    requires
        forall|j: int| 0 <= j < batch.len() ==> !extent_is_last(#[trigger] batch[j]),
    ensures
        spec_absorbed(batch) == batch,
    decreases batch.len(),
{
    if batch.len() > 0 {
        lemma_absorbed_no_last(batch.drop_first());
        assert(spec_absorbed(batch) =~= batch);
    } else {
        assert(spec_absorbed(batch) =~= batch);
    }
}

/// What a successful reflink copy guarantees of the two extent lists: the
/// same length, matching logical offset, physical offset and length at each
/// index, and the SHARED flag set on both sides of every pair.
pub open spec fn spec_extents_match(a: Seq<FiemapExtent>, b: Seq<FiemapExtent>) -> bool {
    &&& a.len() == b.len()
    &&& forall|i: int|
        0 <= i < a.len() ==> {
            &&& (#[trigger] a[i]).fe_logical == (#[trigger] b[i]).fe_logical
            &&& a[i].fe_physical == b[i].fe_physical
            &&& a[i].fe_length == b[i].fe_length
            &&& extent_is_shared(a[i])
            &&& extent_is_shared(b[i])
        }
}

/// Check that two extent lists witness copy-on-write sharing.
pub fn extents_match(a: &Vec<FiemapExtent>, b: &Vec<FiemapExtent>) -> (r: bool)
    ensures
        r == spec_extents_match(a@, b@),
{
    if a.len() != b.len() {
        return false;
    }
    let mut i: usize = 0;
    while i < a.len()
        invariant
            i <= a@.len(),
            a@.len() == b@.len(),
            forall|j: int|
                0 <= j < i ==> {
                    &&& (#[trigger] a@[j]).fe_logical == (#[trigger] b@[j]).fe_logical
                    &&& a@[j].fe_physical == b@[j].fe_physical
                    &&& a@[j].fe_length == b@[j].fe_length
                    &&& extent_is_shared(a@[j])
                    &&& extent_is_shared(b@[j])
                },
        decreases a@.len() - i,
    {
        let x = a[i];
        let y = b[i];
        if x.fe_logical != y.fe_logical || x.fe_physical != y.fe_physical || x.fe_length
            != y.fe_length {
            return false;
        }
        if x.fe_flags & 0x00002000u32 == 0u32 || y.fe_flags & 0x00002000u32 == 0u32 {
            return false;
        }
        proof {
            assert(FiemapFlags::Shared.spec_bits() == 0x00002000u32);
            assert forall|j: int| 0 <= j < i + 1 implies {
                &&& (#[trigger] a@[j]).fe_logical == (#[trigger] b@[j]).fe_logical
                &&& a@[j].fe_physical == b@[j].fe_physical
                &&& a@[j].fe_length == b@[j].fe_length
                &&& extent_is_shared(a@[j])
                &&& extent_is_shared(b@[j])
            } by {
                if j == i {
                    assert(a@[j] == x);
                    assert(b@[j] == y);
                }
            }
        }
        i += 1;
    }
    true
}

} // verus!
