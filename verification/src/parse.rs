//! The Unchained Index chunk reader: block ranges, the in-memory chunk file,
//! and the selective scan that filters appearances by address prefix and
//! block range.

use vstd::prelude::*;

use crate::constants::{AD_ENTRY, AP_ENTRY, HEAD};
use crate::files::{
    file_structure, get_range, has_range_pattern, no_unexpected_appearances, spec_chunk_range,
    FilesError,
};
use crate::hexutil::{hex_decode, is_valid_hex_string, spec_hex_decode};
use crate::structure::{
    spec_address_at, spec_appearance_at, spec_count_at, spec_header_ok, spec_n_addresses,
    spec_n_appearances, spec_offset_at, AddressData, AddressEntry, Body, Header, StructureError,
    TransactionId,
};

verus! {

/// Errors raised while opening or scanning a chunk file.
#[derive(Debug, Clone, PartialEq, Eq)]
pub enum ParseError {
    /// The chunk only has appearances outside the desired block range.
    AppearancesOutOfRange { present_old: u32, present_new: u32, desired_old: u32, desired_new: u32 },
    /// A desired range must have its older bound strictly below its newer bound.
    RangeReversed { old: u32, new: u32 },
    /// A binary record could not be decoded.
    StructureError(StructureError),
    /// A chunk file was unusable or contradicted its file name.
    FilesError(FilesError),
    /// The address prefix filter was not a hex string; carries the input.
    FromHexError { input: String },
}

/// An inclusive range of block numbers.
#[derive(Clone, Copy, PartialEq, Eq, Structural, Debug)]
pub struct BlockRange {
    pub old: u32,
    pub new: u32,
}

impl BlockRange {
    /// True iff the two inclusive ranges share at least one block.
    pub open spec fn spec_intersects(self, other: BlockRange) -> bool {
        self.old <= other.new && other.old <= self.new
    }

    /// True iff every block of `self` lies within `other`.
    pub open spec fn spec_is_volume_of(self, other: BlockRange) -> bool {
        self.old >= other.old && self.new <= other.new
    }

    /// True iff `block` lies within the inclusive range.
    pub open spec fn spec_contains_block(self, block: u32) -> bool {
        self.old <= block && block <= self.new
    }

    /// New range of blocks; the older bound must be strictly below the newer.
    pub fn new(old_block_number: u32, new_block_number: u32) -> (r: Result<Self, ParseError>)
        ensures
            r is Ok <==> old_block_number < new_block_number,
            old_block_number < new_block_number ==> (r matches Ok(b) && b.old == old_block_number
                && b.new == new_block_number),
            old_block_number >= new_block_number ==> (r matches Err(
                ParseError::RangeReversed { old: o, new: n },
            ) && o == old_block_number && n == new_block_number),
    {
        if old_block_number >= new_block_number {
            return Err(ParseError::RangeReversed {
                old: old_block_number,
                new: new_block_number,
            });
        }
        Ok(BlockRange { old: old_block_number, new: new_block_number })
    }

    /// True if there are any common blocks for two ranges.
    pub fn intersection_exists(&self, other: &BlockRange) -> (r: bool)
        ensures
            r == self.spec_intersects(*other),
    {
        self.old <= other.new && other.old <= self.new
    }

    /// True if blocks in a range are all within another range.
    pub fn is_volume_of(&self, other: &BlockRange) -> (r: bool)
        ensures
            r == self.spec_is_volume_of(*other),
    {
        self.old >= other.old && self.new <= other.new
    }

    /// True if the range contains the specified transaction's block.
    pub fn contains(&self, tx: &TransactionId) -> (r: bool)
        ensures
            r == self.spec_contains_block(tx.block),
    {
        self.old <= tx.block && tx.block <= self.new
    }
}

/// Two ranges intersect exactly when they do so in the other order.
pub proof fn lemma_intersection_symmetric(a: BlockRange, b: BlockRange)
    ensures
        a.spec_intersects(b) == b.spec_intersects(a),
{
}

/// A well-formed range that lies entirely within another range intersects it.
pub proof fn lemma_volume_implies_intersection(a: BlockRange, b: BlockRange)
    requires
        a.old <= a.new,
    ensures
        a.spec_is_volume_of(b) ==> a.spec_intersects(b),
{
}

/// Byte position of address table entry `i`.
pub open spec fn addr_entry_pos(i: int) -> int {
    HEAD + i * AD_ENTRY
}

/// Byte position where the appearance table starts.
pub open spec fn app_table_start(data: Seq<u8>) -> int {
    HEAD + spec_n_addresses(data) * AD_ENTRY
}

/// Byte position of appearance table entry `j` (`j` is an entry index,
/// not a byte offset: it must be scaled by the entry size).
pub open spec fn app_entry_pos(data: Seq<u8>, j: int) -> int {
    app_table_start(data) + j * AP_ENTRY
}

/// Appearance table entry `j` of the chunk.
pub open spec fn app_entry(data: Seq<u8>, j: int) -> TransactionId {
    spec_appearance_at(data, app_entry_pos(data, j))
}

/// The raw address bytes of address table entry `i`.
pub open spec fn addr_entry_address(data: Seq<u8>, i: int) -> Seq<u8> {
    spec_address_at(data, addr_entry_pos(i))
}

/// The offset field of address table entry `i`.
pub open spec fn addr_entry_offset(data: Seq<u8>, i: int) -> u32 {
    spec_offset_at(data, addr_entry_pos(i))
}

/// The count field of address table entry `i`.
pub open spec fn addr_entry_count(data: Seq<u8>, i: int) -> u32 {
    spec_count_at(data, addr_entry_pos(i))
}

/// True when the whole address table fits within the file bytes.
pub open spec fn addr_table_fits(data: Seq<u8>) -> bool {
    HEAD + spec_n_addresses(data) * AD_ENTRY <= data.len()
}

/// True when the appearance run of address table entry `i` fits within the
/// file bytes.
pub open spec fn run_fits(data: Seq<u8>, i: int) -> bool {
    addr_entry_count(data, i) == 0 || app_entry_pos(
        data,
        addr_entry_offset(data, i) + addr_entry_count(data, i),
    ) <= data.len()
}

/// True when every appearance of address table entry `i` lies within the
/// given (filename-declared) present range.
pub open spec fn run_in_present(data: Seq<u8>, i: int, present: BlockRange) -> bool {
    forall|k: int|
        0 <= k < addr_entry_count(data, i) ==> present.spec_contains_block(
            (#[trigger] app_entry(data, addr_entry_offset(data, i) + k)).block,
        )
}

/// True when a scan with the given address prefix succeeds: the address table
/// fits in the file, and for every matching address entry the appearance run
/// fits and every appearance in it lies within the present range.
pub open spec fn scan_ok(data: Seq<u8>, prefix: Seq<u8>, present: BlockRange) -> bool {
    &&& addr_table_fits(data)
    &&& forall|i: int|
        0 <= i < spec_n_addresses(data) && prefix.is_prefix_of(
            #[trigger] addr_entry_address(data, i),
        ) ==> run_fits(data, i) && run_in_present(data, i, present)
}

/// The appearances of one address entry that the scan keeps, in table order:
/// all `c` entries starting at entry index `o` when the chunk holds no
/// unwanted blocks, else only those whose block the desired range contains.
pub open spec fn kept_run(
    data: Seq<u8>,
    o: int,
    c: int,
    desired: BlockRange,
    unwanted: bool,
) -> Seq<TransactionId>
    decreases c,
{
    if c <= 0 {
        Seq::empty()
    } else {
        let rest = kept_run(data, o, c - 1, desired, unwanted);
        let t = app_entry(data, o + c - 1);
        if !unwanted || desired.spec_contains_block(t.block) {
            rest.push(t)
        } else {
            rest
        }
    }
}

/// The kept appearances of address table entry `i`.
pub open spec fn kept_run_of_entry(
    data: Seq<u8>,
    i: int,
    desired: BlockRange,
    unwanted: bool,
) -> Seq<TransactionId> {
    kept_run(
        data,
        addr_entry_offset(data, i) as int,
        addr_entry_count(data, i) as int,
        desired,
        unwanted,
    )
}

/// The records a successful scan produces from the first `n` address table
/// entries: for every entry whose address starts with `prefix` and whose kept
/// appearances are not empty, the address paired with those appearances, in
/// table order.
pub open spec fn scan_records(
    data: Seq<u8>,
    prefix: Seq<u8>,
    desired: BlockRange,
    unwanted: bool,
    n: int,
) -> Seq<(Seq<u8>, Seq<TransactionId>)>
    decreases n,
{
    if n <= 0 {
        Seq::empty()
    } else {
        let rest = scan_records(data, prefix, desired, unwanted, n - 1);
        let i = n - 1;
        let kept = kept_run_of_entry(data, i, desired, unwanted);
        if prefix.is_prefix_of(addr_entry_address(data, i)) && kept.len() > 0 {
            rest.push((addr_entry_address(data, i), kept))
        } else {
            rest
        }
    }
}

/// The addresses of the first `n` address table entries that have at least
/// one appearance, in table order.
pub open spec fn present_addresses(data: Seq<u8>, n: int) -> Seq<Seq<u8>>
    decreases n,
{
    if n <= 0 {
        Seq::empty()
    } else {
        let rest = present_addresses(data, n - 1);
        if addr_entry_count(data, n - 1) > 0 {
            rest.push(addr_entry_address(data, n - 1))
        } else {
            rest
        }
    }
}

/// The records of `records` whose address starts with `prefix`, in order.
pub open spec fn matching_records(
    records: Seq<(Seq<u8>, Seq<TransactionId>)>,
    prefix: Seq<u8>,
) -> Seq<(Seq<u8>, Seq<TransactionId>)>
    decreases records.len(),
{
    if records.len() == 0 {
        Seq::empty()
    } else {
        let rest = matching_records(records.drop_last(), prefix);
        if prefix.is_prefix_of(records.last().0) {
            rest.push(records.last())
        } else {
            rest
        }
    }
}

/// Without range filtering the scan keeps every appearance of a run.
pub proof fn lemma_kept_run_unfiltered(data: Seq<u8>, o: int, c: int, desired: BlockRange)
    requires
        0 <= c,
    ensures
        kept_run(data, o, c, desired, false) =~= Seq::new(c as nat, |k: int| app_entry(data, o + k)),
    decreases c,
{
    if c > 0 {
        lemma_kept_run_unfiltered(data, o, c - 1, desired);
    }
}

/// Appearances that all lie within the desired range are kept whether or not
/// per-appearance filtering is applied.
pub proof fn lemma_kept_run_in_desired(data: Seq<u8>, o: int, c: int, desired: BlockRange)
    requires
        0 <= c,
        forall|k: int|
            0 <= k < c ==> desired.spec_contains_block(
                (#[trigger] app_entry(data, o + k)).block,
            ),
    ensures
        kept_run(data, o, c, desired, true) =~= kept_run(data, o, c, desired, false),
    decreases c,
{
    if c > 0 {
        lemma_kept_run_in_desired(data, o, c - 1, desired);
    }
}

/// Every appearance that the filtering scan keeps lies within the desired
/// range.
pub proof fn lemma_kept_run_filtered_within(data: Seq<u8>, o: int, c: int, desired: BlockRange)
    requires
        0 <= c,
    ensures
        forall|k: int|
            0 <= k < kept_run(data, o, c, desired, true).len() ==> desired.spec_contains_block(
                kept_run(data, o, c, desired, true)[k].block,
            ),
    decreases c,
{
    if c > 0 {
        lemma_kept_run_filtered_within(data, o, c - 1, desired);
        let s0 = kept_run(data, o, c - 1, desired, true);
        let s = kept_run(data, o, c, desired, true);
        let t = app_entry(data, o + c - 1);
        assert forall|k: int| 0 <= k < s.len() implies desired.spec_contains_block(
            s[k].block,
        ) by {
            if desired.spec_contains_block(t.block) {
                assert(s == s0.push(t));
                if k < s0.len() {
                    assert(s[k] == s0[k]);
                } else {
                    assert(s[k] == t);
                }
            } else {
                assert(s == s0);
            }
        }
    }
}

/// Scanning with an empty address-prefix filter, a chunk whose blocks all lie
/// within the desired range yields the address of every entry that has at
/// least one appearance, in ascending on-disk order.
pub proof fn lemma_empty_prefix_returns_every_address(data: Seq<u8>, desired: BlockRange, n: int)
    requires
        0 <= n,
    ensures
        scan_records(data, Seq::empty(), desired, false, n).map_values(
            |r: (Seq<u8>, Seq<TransactionId>)| r.0,
        ) =~= present_addresses(data, n),
    decreases n,
{
    if n > 0 {
        lemma_empty_prefix_returns_every_address(data, desired, n - 1);
        let i = n - 1;
        let addr = addr_entry_address(data, i);
        assert(Seq::<u8>::empty().is_prefix_of(addr)) by {
            assert(addr.subrange(0, 0) =~= Seq::<u8>::empty());
        }
        lemma_kept_run_unfiltered(
            data,
            addr_entry_offset(data, i) as int,
            addr_entry_count(data, i) as int,
            desired,
        );
        let rest = scan_records(data, Seq::empty(), desired, false, n - 1);
        let kept = kept_run_of_entry(data, i, desired, false);
        if kept.len() > 0 {
            assert(rest.push((addr, kept)).map_values(|r: (Seq<u8>, Seq<TransactionId>)| r.0)
                =~= rest.map_values(|r: (Seq<u8>, Seq<TransactionId>)| r.0).push(addr));
        }
    }
}

/// Scanning with a prefix returns exactly the records of the unfiltered scan
/// whose raw address bytes start with that prefix.
pub proof fn lemma_prefix_scan_filters_unfiltered(
    data: Seq<u8>,
    prefix: Seq<u8>,
    desired: BlockRange,
    unwanted: bool,
    n: int,
)
    requires
        0 <= n,
    ensures
        scan_records(data, prefix, desired, unwanted, n) =~= matching_records(
            scan_records(data, Seq::empty(), desired, unwanted, n),
            prefix,
        ),
    decreases n,
{
    if n > 0 {
        lemma_prefix_scan_filters_unfiltered(data, prefix, desired, unwanted, n - 1);
        let i = n - 1;
        let addr = addr_entry_address(data, i);
        assert(Seq::<u8>::empty().is_prefix_of(addr)) by {
            assert(addr.subrange(0, 0) =~= Seq::<u8>::empty());
        }
        let rest_full = scan_records(data, Seq::empty(), desired, unwanted, n - 1);
        let kept = kept_run_of_entry(data, i, desired, unwanted);
        if kept.len() > 0 {
            let rec = (addr, kept);
            assert(rest_full.push(rec).drop_last() =~= rest_full);
            assert(rest_full.push(rec).last() == rec);
        }
    }
}

/// If a chunk's present range is a subset of the desired range, and the
/// chunk's appearances all lie within the present range, per-appearance
/// filtering is a no-op: the filtered scan result equals the unfiltered one.
pub proof fn lemma_subset_filter_noop(
    data: Seq<u8>,
    prefix: Seq<u8>,
    desired: BlockRange,
    present: BlockRange,
    n: int,
)
    requires
        0 <= n <= spec_n_addresses(data),
        present.spec_is_volume_of(desired),
        scan_ok(data, prefix, present),
    ensures
        scan_records(data, prefix, desired, true, n) =~= scan_records(
            data,
            prefix,
            desired,
            false,
            n,
        ),
    decreases n,
{
    if n > 0 {
        lemma_subset_filter_noop(data, prefix, desired, present, n - 1);
        let i = n - 1;
        if prefix.is_prefix_of(addr_entry_address(data, i)) {
            let o = addr_entry_offset(data, i) as int;
            let c = addr_entry_count(data, i) as int;
            assert(run_in_present(data, i, present));
            assert forall|k: int| 0 <= k < c implies desired.spec_contains_block(
                (#[trigger] app_entry(data, o + k)).block,
            ) by {
                assert(present.spec_contains_block(app_entry(data, o + k).block));
            }
            lemma_kept_run_in_desired(data, o, c, desired);
        }
    }
}

/// When per-appearance filtering is applied, every appearance of every
/// returned record lies within the desired range.
pub proof fn lemma_filtered_scan_within_desired(
    data: Seq<u8>,
    prefix: Seq<u8>,
    desired: BlockRange,
    n: int,
)
    requires
        0 <= n,
    ensures
        forall|j: int, k: int|
            0 <= j < scan_records(data, prefix, desired, true, n).len() && 0 <= k < scan_records(
                data,
                prefix,
                desired,
                true,
                n,
            )[j].1.len() ==> desired.spec_contains_block(
                scan_records(data, prefix, desired, true, n)[j].1[k].block,
            ),
    decreases n,
{
    if n > 0 {
        lemma_filtered_scan_within_desired(data, prefix, desired, n - 1);
        let i = n - 1;
        lemma_kept_run_filtered_within(
            data,
            addr_entry_offset(data, i) as int,
            addr_entry_count(data, i) as int,
            desired,
        );
        let s0 = scan_records(data, prefix, desired, true, n - 1);
        let s = scan_records(data, prefix, desired, true, n);
        let kept = kept_run_of_entry(data, i, desired, true);
        let addr = addr_entry_address(data, i);
        assert forall|j: int, k: int|
            0 <= j < s.len() && 0 <= k < s[j].1.len() implies desired.spec_contains_block(
            s[j].1[k].block,
        ) by {
            if prefix.is_prefix_of(addr) && kept.len() > 0 {
                assert(s == s0.push((addr, kept)));
                if j < s0.len() {
                    assert(s[j] == s0[j]);
                } else {
                    assert(s[j] == (addr, kept));
                }
            } else {
                assert(s == s0);
            }
        }
    }
}

/// An appearance whose block lies outside the chunk's file-name-declared
/// present range always makes the scan of its address fail, whether or not
/// the desired range would have kept it.
pub proof fn lemma_out_of_present_fails(
    data: Seq<u8>,
    prefix: Seq<u8>,
    present: BlockRange,
    i: int,
    k: int,
)
    requires
        0 <= i < spec_n_addresses(data),
        prefix.is_prefix_of(addr_entry_address(data, i)),
        0 <= k < addr_entry_count(data, i),
        !present.spec_contains_block(
            app_entry(data, addr_entry_offset(data, i) + k).block,
        ),
    ensures
        !scan_ok(data, prefix, present),
{
    assert(!run_in_present(data, i, present));
}

/// True iff `prefix` is a prefix of `address`.
fn starts_with_bytes(address: &Vec<u8>, prefix: &Vec<u8>) -> (r: bool)
    ensures
        r == prefix@.is_prefix_of(address@),
{
    if prefix.len() > address.len() {
        return false;
    }
    let mut k: usize = 0;
    while k < prefix.len()
        invariant
            prefix.len() <= address.len(),
            k <= prefix.len(),
            forall|j: int| 0 <= j < k ==> address@[j] == prefix@[j],
        decreases prefix.len() - k,
    {
        if address[k] != prefix[k] {
            proof {
                assert(address@.subrange(0, prefix@.len() as int)[k as int] != prefix@[k as int]);
            }
            return false;
        }
        k = k + 1;
    }
    proof {
        assert(address@.subrange(0, prefix@.len() as int) =~= prefix@);
    }
    true
}

/// An Unchained Index chunk file held in memory, read and tracked.
///
/// `new` decodes and validates the header, derives the byte layout of the two
/// tables and the file-name-declared present range; `with_parsed` then runs
/// the selective scan and replaces `parsed` with the records it produced.
pub struct UnchainedFile {
    /// The path the chunk was read from; its file name declares the present range.
    pub path: String,
    /// The raw bytes of the whole chunk file.
    pub data: Vec<u8>,
    pub header: Header,
    pub body: Body,
    /// The block range the file name declares the chunk to cover.
    pub present: BlockRange,
    /// The block range the caller asked for.
    pub desired: BlockRange,
    /// True when the chunk may hold blocks outside the desired range, so the
    /// scan must filter every appearance.
    pub contains_unwanted_blocks: bool,
    /// The records the latest scan produced.
    pub parsed: Vec<AddressData>,
}

impl UnchainedFile {
    /// The facts that `new` establishes and every scan preserves.
    pub open spec fn wf(self) -> bool {
        &&& spec_header_ok(self.data@)
        &&& self.header.n_addresses == spec_n_addresses(self.data@)
        &&& self.header.n_appearances == spec_n_appearances(self.data@)
        &&& has_range_pattern(self.path@)
        &&& self.present == spec_chunk_range(self.path@)
        &&& self.present.spec_intersects(self.desired)
        &&& self.contains_unwanted_blocks == !self.present.spec_is_volume_of(self.desired)
        &&& self.body.addresses.start == HEAD
        &&& self.body.addresses.current == HEAD
        &&& self.body.addresses.end == app_table_start(self.data@) - 1
        &&& self.body.appearances.start == app_table_start(self.data@)
        &&& self.body.appearances.current == app_table_start(self.data@)
        &&& self.body.appearances.end == app_table_start(self.data@)
            + self.header.n_appearances * AP_ENTRY - 1
    }

    /// Obtains metadata and prepares an Unchained Index file for scanning.
    ///
    /// `data` holds the chunk file's bytes and `path` the name it was read
    /// from. Fails when the header is malformed, when the file name declares
    /// no block range, or when the declared range does not intersect the
    /// desired one.
    pub fn new(path: String, data: Vec<u8>, desired: BlockRange) -> (r: Result<
        UnchainedFile,
        ParseError,
    >)
        ensures
            r is Ok <==> spec_header_ok(data@) && has_range_pattern(path@) && spec_chunk_range(
                path@,
            ).spec_intersects(desired),
            r matches Ok(uf) ==> uf.wf() && uf.path@ == path@ && uf.data@ == data@ && uf.desired
                == desired && uf.present == spec_chunk_range(path@) && uf.header.n_addresses
                == spec_n_addresses(data@) && uf.header.n_appearances == spec_n_appearances(data@)
                && uf.contains_unwanted_blocks == !spec_chunk_range(path@).spec_is_volume_of(
                desired,
            ) && uf.parsed@.len() == 1 && uf.parsed@[0]@.0 =~= Seq::<u8>::empty()
                && uf.parsed@[0]@.1 =~= Seq::<TransactionId>::empty(),
            !spec_header_ok(data@) ==> r matches Err(ParseError::StructureError(_)),
            spec_header_ok(data@) && !has_range_pattern(path@) ==> (r matches Err(
                ParseError::FilesError(FilesError::InvalidFilenameRange { filename }),
            ) && filename@ == path@),
            spec_header_ok(data@) && has_range_pattern(path@) && !spec_chunk_range(
                path@,
            ).spec_intersects(desired) ==> (r matches Err(
                ParseError::AppearancesOutOfRange {
                    present_old,
                    present_new,
                    desired_old,
                    desired_new,
                },
            ) && present_old == spec_chunk_range(path@).old && present_new == spec_chunk_range(
                path@,
            ).new && desired_old == desired.old && desired_new == desired.new),
    {
        let header = match Header::from_reader(&data, path.as_str()) {
            Ok(h) => h,
            Err(e) => { return Err(ParseError::StructureError(e)) },
        };
        let body = file_structure(&header);
        let mut parsed: Vec<AddressData> = Vec::new();
        parsed.push(AddressData { address: Vec::new(), appearances: Vec::new() });
        let present = match get_range(path.as_str()) {
            Ok(b) => b,
            Err(e) => { return Err(ParseError::FilesError(e)) },
        };
        if !present.intersection_exists(&desired) {
            return Err(
                ParseError::AppearancesOutOfRange {
                    present_old: present.old,
                    present_new: present.new,
                    desired_old: desired.old,
                    desired_new: desired.new,
                },
            );
        }
        let contains_unwanted_blocks = !present.is_volume_of(&desired);
        Ok(
            UnchainedFile {
                path,
                data,
                header,
                body,
                present,
                desired,
                contains_unwanted_blocks,
                parsed,
            },
        )
    }

    /// Populates the `parsed` field with the relevant records.
    ///
    /// Only addresses whose raw bytes begin with the hex-decoded prefix are
    /// included (an empty prefix matches every address). For each matching
    /// address the scan jumps to its appearance run — the entry's offset is an
    /// entry count, so it is scaled by the appearance entry size — checks each
    /// appearance against the file-name-declared present range, and keeps it
    /// if the desired range allows it. Addresses whose appearances were all
    /// filtered out contribute nothing.
    pub fn with_parsed(&mut self, address_leading_char: &str) -> (r: Result<(), ParseError>)
        requires
            old(self).wf(),
        ensures
            final(self).wf(),
            final(self).path == old(self).path,
            final(self).data == old(self).data,
            final(self).header == old(self).header,
            final(self).body == old(self).body,
            final(self).present == old(self).present,
            final(self).desired == old(self).desired,
            final(self).contains_unwanted_blocks == old(self).contains_unwanted_blocks,
            r is Ok <==> is_valid_hex_string(address_leading_char@) && scan_ok(
                old(self).data@,
                spec_hex_decode(address_leading_char@),
                old(self).present,
            ),
            r is Ok ==> final(self).parsed@.map_values(|ad: AddressData| ad@) == scan_records(
                old(self).data@,
                spec_hex_decode(address_leading_char@),
                old(self).desired,
                old(self).contains_unwanted_blocks,
                spec_n_addresses(old(self).data@) as int,
            ),
            r is Err ==> final(self).parsed == old(self).parsed,
            !is_valid_hex_string(address_leading_char@) ==> (r matches Err(
                ParseError::FromHexError { input },
            ) && input@ == address_leading_char@),
            r is Err ==> (r matches Err(ParseError::FromHexError { .. }) || r matches Err(
                ParseError::StructureError(_),
            ) || r matches Err(ParseError::FilesError(FilesError::AppearanceOutOfRange { .. }))),
            r matches Err(
                ParseError::FilesError(
                    FilesError::AppearanceOutOfRange { path, oldest, newest, block, index },
                ),
            ) ==> path@ == old(self).path@ && oldest == old(self).present.old && newest == old(
                self,
            ).present.new && !old(self).present.spec_contains_block(block),
    {
        let ghost orig = *self;
        let prefix: Vec<u8> = match hex_decode(address_leading_char) {
            Some(v) => v,
            None => {
                return Err(ParseError::FromHexError { input: address_leading_char.to_owned() })
            },
        };
        let mut txs: Vec<AddressData> = Vec::new();
        let n_addresses: u32 = self.header.n_addresses;
        let mut addresses_parsed: u32 = 0;
        while addresses_parsed < n_addresses
            invariant
                *self == orig,
                self.wf(),
                n_addresses == self.header.n_addresses,
                addresses_parsed <= n_addresses,
                prefix@ == spec_hex_decode(address_leading_char@),
                is_valid_hex_string(address_leading_char@),
                HEAD + addresses_parsed * AD_ENTRY <= self.data@.len(),
                forall|i: int|
                    0 <= i < addresses_parsed && prefix@.is_prefix_of(
                        #[trigger] addr_entry_address(self.data@, i),
                    ) ==> run_fits(self.data@, i) && run_in_present(self.data@, i, self.present),
                txs@.map_values(|ad: AddressData| ad@) == scan_records(
                    self.data@,
                    prefix@,
                    self.desired,
                    self.contains_unwanted_blocks,
                    addresses_parsed as int,
                ),
            decreases n_addresses - addresses_parsed,
        {
            let ghost i = addresses_parsed as int;
            proof {
                assert(HEAD == 44 && AD_ENTRY == 28);
            }
            let ad_pos: u64 = HEAD as u64 + (addresses_parsed as u64) * (AD_ENTRY as u64);
            proof {
                assert(ad_pos == addr_entry_pos(i));
            }
            let address_entry = match AddressEntry::from_reader(&self.data, ad_pos) {
                Ok(e) => e,
                Err(e) => {
                    proof {
                        assert(ad_pos + AD_ENTRY > self.data@.len());
                        assert((i + 1) * AD_ENTRY <= spec_n_addresses(self.data@) * AD_ENTRY)
                            by (nonlinear_arith)
                            requires
                                i + 1 <= spec_n_addresses(self.data@),
                                AD_ENTRY > 0,
                        ;
                        assert(!addr_table_fits(self.data@));
                    }
                    return Err(ParseError::StructureError(e));
                },
            };
            proof {
                assert(address_entry.address@ == addr_entry_address(self.data@, i));
                assert(address_entry.offset == addr_entry_offset(self.data@, i));
                assert(address_entry.count == addr_entry_count(self.data@, i));
            }
            addresses_parsed = addresses_parsed + 1;
            if starts_with_bytes(&address_entry.address, &prefix) {
                let potential_appearances = match self.parse_appearances(&address_entry) {
                    Ok(v) => v,
                    Err(e) => {
                        proof {
                            assert(!(run_fits(self.data@, i) && run_in_present(
                                self.data@,
                                i,
                                self.present,
                            )));
                            assert(!scan_ok(self.data@, prefix@, self.present));
                        }
                        return Err(e);
                    },
                };
                if let Some(appearances) = potential_appearances {
                    let appearances_for_address = AddressData {
                        address: address_entry.address,
                        appearances,
                    };
                    txs.push(appearances_for_address);
                    proof {
                        assert(txs@.map_values(|ad: AddressData| ad@) =~= scan_records(
                            self.data@,
                            prefix@,
                            self.desired,
                            self.contains_unwanted_blocks,
                            addresses_parsed as int,
                        ));
                    }
                }
                // (else) All transactions for this address were outside the desired range.
            }
        }
        self.parsed = txs;
        Ok(())
    }

    /// Processes the appearances (transactions) for a given address entry.
    ///
    /// Returns the kept appearances, `None` when the entry has appearances in
    /// the chunk but none within the desired block range. Fails when the run
    /// does not fit in the file or an appearance contradicts the present range.
    fn parse_appearances(&self, address_entry: &AddressEntry) -> (r: Result<
        Option<Vec<TransactionId>>,
        ParseError,
    >)
        requires
            self.wf(),
        ensures
            ({
                let o = address_entry.offset as int;
                let c = address_entry.count as int;
                let kept = kept_run(
                    self.data@,
                    o,
                    c,
                    self.desired,
                    self.contains_unwanted_blocks,
                );
                let fits = c == 0 || app_entry_pos(self.data@, o + c) <= self.data@.len();
                let in_present = forall|k: int|
                    0 <= k < c ==> self.present.spec_contains_block(
                        (#[trigger] app_entry(self.data@, o + k)).block,
                    );
                &&& r is Ok <==> fits && in_present
                &&& r matches Ok(Some(v)) ==> v@ == kept && kept.len() > 0
                &&& r matches Ok(None) ==> kept.len() == 0
                &&& r is Err ==> ({
                    ||| r matches Err(
                        ParseError::StructureError(StructureError::InvalidTransactionBlock),
                    )
                    ||| r matches Err(
                        ParseError::StructureError(StructureError::InvalidTransactionIndex),
                    )
                    ||| r matches Err(
                        ParseError::FilesError(FilesError::AppearanceOutOfRange { .. }),
                    )
                })
                &&& r matches Err(
                    ParseError::FilesError(
                        FilesError::AppearanceOutOfRange { path, oldest, newest, block, index },
                    ),
                ) ==> path@ == self.path@ && oldest == self.present.old && newest
                    == self.present.new && !self.present.spec_contains_block(block) && (exists|
                    k: int,
                |
                    0 <= k < c && #[trigger] app_entry(self.data@, o + k) == (TransactionId {
                        block,
                        index,
                    }))
            }),
    {
        let mut appearances_parsed: u32 = 0;
        let mut entries: Vec<TransactionId> = Vec::new();
        let o: u32 = address_entry.offset;
        let c: u32 = address_entry.count;
        let table_start: u64 = self.body.appearances.start;
        while appearances_parsed < c
            invariant
                self.wf(),
                o == address_entry.offset,
                c == address_entry.count,
                appearances_parsed <= c,
                table_start == app_table_start(self.data@),
                forall|k: int|
                    0 <= k < appearances_parsed ==> self.present.spec_contains_block(
                        (#[trigger] app_entry(self.data@, o + k)).block,
                    ),
                appearances_parsed > 0 ==> app_entry_pos(self.data@, o + appearances_parsed)
                    <= self.data@.len(),
                entries@ == kept_run(
                    self.data@,
                    o as int,
                    appearances_parsed as int,
                    self.desired,
                    self.contains_unwanted_blocks,
                ),
            decreases c - appearances_parsed,
        {
            proof {
                assert(HEAD == 44 && AD_ENTRY == 28 && AP_ENTRY == 8);
                assert(table_start <= 44 + 28 * 0xffff_ffff);
                assert((o as u64 + appearances_parsed as u64) * (AP_ENTRY as u64)
                    <= 0x1_ffff_fffe * 8) by (nonlinear_arith)
                    requires
                        AP_ENTRY == 8,
                        o as u64 + appearances_parsed as u64 <= 0x1_ffff_fffe,
                ;
            }
            let pos: u64 = table_start + (o as u64 + appearances_parsed as u64) * (AP_ENTRY as u64);
            proof {
                assert(pos == app_entry_pos(self.data@, o + appearances_parsed));
            }
            let appearance: TransactionId = match TransactionId::from_reader(&self.data, pos) {
                Ok(t) => t,
                Err(e) => {
                    proof {
                        let ap = appearances_parsed as int;
                        assert(app_entry_pos(self.data@, o + ap) + AP_ENTRY > self.data@.len());
                        assert((o + ap + 1) * AP_ENTRY == (o + ap) * AP_ENTRY + AP_ENTRY)
                            by (nonlinear_arith);
                        assert((o + ap + 1) * AP_ENTRY <= (o + c) * AP_ENTRY) by (nonlinear_arith)
                            requires
                                AP_ENTRY == 8,
                                o + ap + 1 <= o + c,
                        ;
                        assert(app_entry_pos(self.data@, o + c) > self.data@.len());
                    }
                    return Err(ParseError::StructureError(e));
                },
            };
            match no_unexpected_appearances(&appearance, self) {
                Ok(_) => {},
                Err(e) => {
                    proof {
                        assert(app_entry(self.data@, o + appearances_parsed) == appearance);
                    }
                    return Err(ParseError::FilesError(e));
                },
            }
            if self.contains_unwanted_blocks {
                if self.desired.contains(&appearance) {
                    entries.push(appearance);
                } else {
                    // Exclude transactions not within the desired block range.
                }
            } else {
                entries.push(appearance);
            }
            appearances_parsed = appearances_parsed + 1;
        }
        if entries.len() == 0 {
            // Transactions exist in the chunk file, but not within the desired
            // block range. No errors, no transactions.
            return Ok(None);
        }
        Ok(Some(entries))
    }
}

} // verus!
