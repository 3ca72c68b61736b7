//! Chunk files: the block range a file name declares, the byte layout derived
//! from a decoded header, and the directory of chunk files.

use vstd::prelude::*;
use vstd::string::StrSliceExecFns;

use crate::constants::{AD_ENTRY, AP_ENTRY, HEAD};
use crate::parse::{BlockRange, UnchainedFile};
use crate::structure::{Body, Header, Section, TransactionId};

verus! {

/// Errors attributable to one chunk file.
#[derive(Debug, Clone, PartialEq, Eq)]
pub enum FilesError {
    /// The chunk holds an appearance whose block lies outside the range that
    /// the chunk's file name declares; carries the declared bounds and the
    /// offending entry.
    AppearanceOutOfRange { path: String, oldest: u32, newest: u32, block: u32, index: u32 },
    /// The file name lacks a 9-digit block range.
    InvalidFilenameRange { filename: String },
}

/// True for a decimal digit character.
pub open spec fn is_dec_digit(c: char) -> bool {
    48 <= c as u32 && c as u32 <= 57
}

/// The numeric value of a run of decimal digit characters, most significant
/// digit first.
pub open spec fn dec_value(s: Seq<char>) -> int
    recommends
        forall|i: int| 0 <= i < s.len() ==> is_dec_digit(#[trigger] s[i]),
    decreases s.len(),
{
    if s.len() == 0 {
        0
    } else {
        dec_value(s.drop_last()) * 10 + (s.last() as u32 - 48)
    }
}

/// Ten to the power `k`.
pub open spec fn pow10(k: int) -> int
    decreases k,
{
    if k <= 0 {
        1
    } else {
        10 * pow10(k - 1)
    }
}

/// A run of `n` digits is worth less than ten to the power `n`.
pub proof fn lemma_dec_value_bound(s: Seq<char>)
    requires
        forall|i: int| 0 <= i < s.len() ==> is_dec_digit(#[trigger] s[i]),
    ensures
        0 <= dec_value(s) < pow10(s.len() as int),
    decreases s.len(),
{
    if s.len() > 0 {
        lemma_dec_value_bound(s.drop_last());
    }
}

/// True when two 9-digit block numbers joined by a hyphen stand at position
/// `i` of the file name.
pub open spec fn range_pattern_at(s: Seq<char>, i: int) -> bool {
    &&& 0 <= i
    &&& i + 19 <= s.len()
    &&& forall|k: int| i <= k < i + 9 ==> is_dec_digit(#[trigger] s[k])
    &&& s[i + 9] == '-'
    &&& forall|k: int| i + 10 <= k < i + 19 ==> is_dec_digit(#[trigger] s[k])
}

/// True when the file name holds a 9-digit block range anywhere.
pub open spec fn has_range_pattern(s: Seq<char>) -> bool {
    exists|i: int| range_pattern_at(s, i)
}

/// True when position `i` holds the leftmost block-range pattern.
pub open spec fn first_range_pattern_at(s: Seq<char>, i: int) -> bool {
    range_pattern_at(s, i) && (forall|j: int| 0 <= j < i ==> !range_pattern_at(s, j))
}

/// The block range written at position `i` of the file name.
pub open spec fn range_at(s: Seq<char>, i: int) -> BlockRange {
    BlockRange {
        old: dec_value(s.subrange(i, i + 9)) as u32,
        new: dec_value(s.subrange(i + 10, i + 19)) as u32,
    }
}

/// The block range a chunk's file name declares: the one written at the
/// leftmost position where the pattern occurs.
pub open spec fn spec_chunk_range(s: Seq<char>) -> BlockRange {
    range_at(s, choose|i: int| first_range_pattern_at(s, i))
}

/// The leftmost pattern position is unique, so the declared range is the one
/// written there.
pub proof fn lemma_chunk_range_at_first(s: Seq<char>, i: int)
    requires
        first_range_pattern_at(s, i),
    ensures
        spec_chunk_range(s) == range_at(s, i),
{
    let j = choose|j: int| first_range_pattern_at(s, j);
    if j < i {
        assert(!range_pattern_at(s, j));
    }
    if i < j {
        assert(!range_pattern_at(s, i));
    }
    assert(j == i);
}

/// True iff `path` has a decimal digit at position `i`.
fn is_digit_char_at(path: &str, i: usize) -> (r: bool)
    requires
        path@.len() <= usize::MAX,
        i < path@.len(),
    ensures
        r == is_dec_digit(path@[i as int]),
{
    let c = path.get_char(i);
    let u = c as u32;
    48 <= u && u <= 57
}

/// True iff the block-range pattern stands at position `i` of `path`.
fn range_pattern_check(path: &str, i: usize) -> (r: bool)
    requires
        path@.len() <= usize::MAX,
        i + 19 <= path@.len(),
    ensures
        r == range_pattern_at(path@, i as int),
{
    let mut k: usize = 0;
    while k < 9
        invariant
            path@.len() <= usize::MAX,
            i + 19 <= path@.len(),
            k <= 9,
            forall|j: int| i <= j < i + k ==> is_dec_digit(#[trigger] path@[j]),
        decreases 9 - k,
    {
        if !is_digit_char_at(path, i + k) {
            return false;
        }
        k = k + 1;
    }
    if path.get_char(i + 9) != '-' {
        return false;
    }
    let mut k: usize = 0;
    while k < 9
        invariant
            path@.len() <= usize::MAX,
            i + 19 <= path@.len(),
            k <= 9,
            forall|j: int| i + 10 <= j < i + 10 + k ==> is_dec_digit(#[trigger] path@[j]),
        decreases 9 - k,
    {
        if !is_digit_char_at(path, i + 10 + k) {
            return false;
        }
        k = k + 1;
    }
    true
}

/// Reads the 9-digit block number at position `i` of `path`.
fn parse_block_number(path: &str, i: usize) -> (v: u32)
    requires
        path@.len() <= usize::MAX,
        i + 9 <= path@.len(),
        forall|k: int| i <= k < i + 9 ==> is_dec_digit(#[trigger] path@[k]),
    ensures
        v == dec_value(path@.subrange(i as int, i + 9)),
{
    let mut v: u32 = 0;
    let mut k: usize = 0;
    while k < 9
        invariant
            path@.len() <= usize::MAX,
            i + 9 <= path@.len(),
            k <= 9,
            forall|j: int| i <= j < i + 9 ==> is_dec_digit(#[trigger] path@[j]),
            v == dec_value(path@.subrange(i as int, i + k)),
            v < pow10(k as int),
        decreases 9 - k,
    {
        proof {
            reveal_with_fuel(pow10, 10);
        }
        let c = path.get_char(i + k);
        let d = c as u32 - 48;
        v = v * 10 + d;
        k = k + 1;
        proof {
            let s = path@.subrange(i as int, i + k);
            assert(s.drop_last() =~= path@.subrange(i as int, i + k - 1));
            assert(s.last() == path@[i + k - 1]);
        }
    }
    proof {
        lemma_dec_value_bound(path@.subrange(i as int, i + 9));
    }
    v
}

/// Get the first and last block that an index chunk covers, as declared by the
/// two 9-digit numbers in its file name.
pub fn get_range(path: &str) -> (r: Result<BlockRange, FilesError>)
    ensures
        r is Ok <==> has_range_pattern(path@),
        r matches Ok(b) ==> b == spec_chunk_range(path@),
        r matches Err(e) ==> (e matches FilesError::InvalidFilenameRange { filename } && filename@
            == path@),
{
    let n = path.unicode_len();
    if n < 19 {
        proof {
            assert(forall|i: int| !range_pattern_at(path@, i));
        }
        return Err(FilesError::InvalidFilenameRange { filename: path.to_owned() });
    }
    let mut i: usize = 0;
    while i <= n - 19
        invariant
            n == path@.len(),
            n >= 19,
            i <= n,
            forall|j: int| 0 <= j < i ==> !range_pattern_at(path@, j),
        decreases n - i,
    {
        if range_pattern_check(path, i) {
            proof {
                assert(first_range_pattern_at(path@, i as int));
                lemma_chunk_range_at_first(path@, i as int);
                lemma_dec_value_bound(path@.subrange(i as int, i + 9));
                lemma_dec_value_bound(path@.subrange(i + 10, i + 19));
                reveal_with_fuel(pow10, 10);
            }
            let old_block = parse_block_number(path, i);
            let new_block = parse_block_number(path, i + 10);
            return Ok(BlockRange { old: old_block, new: new_block });
        }
        i = i + 1;
    }
    proof {
        assert(forall|j: int| range_pattern_at(path@, j) ==> 0 <= j && j + 19 <= n);
        assert(forall|j: int| 0 <= j < i ==> !range_pattern_at(path@, j));
        assert(!has_range_pattern(path@));
    }
    Err(FilesError::InvalidFilenameRange { filename: path.to_owned() })
}

/// Determines the byte indices for a given chunk file: the address table
/// starts right after the header, the appearance table right after the
/// address table.
pub fn file_structure(h: &Header) -> (b: Body)
    ensures
        b.addresses.start == HEAD,
        b.addresses.current == HEAD,
        b.addresses.end == HEAD + h.n_addresses * AD_ENTRY - 1,
        b.appearances.start == HEAD + h.n_addresses * AD_ENTRY,
        b.appearances.current == b.appearances.start,
        b.appearances.end == HEAD + h.n_addresses * AD_ENTRY + h.n_appearances * AP_ENTRY - 1,
{
    proof {
        assert(HEAD == 44 && AD_ENTRY == 28 && AP_ENTRY == 8);
        assert(h.n_addresses as u64 * 28u64 <= 0xffff_ffffu64 * 28u64) by (nonlinear_arith);
        assert(h.n_appearances as u64 * 8u64 <= 0xffff_ffffu64 * 8u64) by (nonlinear_arith);
    }
    let app_start: u64 = HEAD as u64 + (h.n_addresses as u64) * (AD_ENTRY as u64);
    let total_bytes: u64 = app_start + (h.n_appearances as u64) * (AP_ENTRY as u64);
    Body {
        addresses: Section { start: HEAD as u64, current: HEAD as u64, end: app_start - 1 },
        appearances: Section { start: app_start, current: app_start, end: total_bytes - 1 },
    }
}

/// One chunk file: its path and the block range its file name declares.
#[derive(Clone, Debug)]
pub struct ChunkFile {
    pub path: String,
    pub range: BlockRange,
}

impl View for ChunkFile {
    type V = (Seq<char>, BlockRange);

    open spec fn view(&self) -> Self::V {
        (self.path@, self.range)
    }
}

/// The chunks of `chunks` whose declared range intersects `desired`, in the
/// order they stand in `chunks`.
pub open spec fn relevant_chunks(chunks: Seq<ChunkFile>, desired: BlockRange) -> Seq<ChunkFile>
    decreases chunks.len(),
{
    if chunks.len() == 0 {
        Seq::empty()
    } else {
        let rest = relevant_chunks(chunks.drop_last(), desired);
        let c = chunks.last();
        if c.range.spec_intersects(desired) {
            rest.push(c)
        } else {
            rest
        }
    }
}

/// Inserting an element anywhere in a sequence adds it to the sequence's
/// multiset.
pub(crate) proof fn lemma_seq_insert_multiset<A>(s: Seq<A>, i: int, x: A)
    requires
        0 <= i <= s.len(),
    ensures
        s.insert(i, x).to_multiset() =~= s.to_multiset().insert(x),
{
    broadcast use vstd::multiset::group_multiset_axioms;

    let l = s.subrange(0, i);
    let r = s.subrange(i, s.len() as int);
    assert(s.insert(i, x) =~= l.push(x) + r);
    assert(s =~= l + r);
    vstd::seq_lib::lemma_multiset_commutative(l.push(x), r);
    vstd::seq_lib::lemma_multiset_commutative(l, r);
    l.to_multiset_ensures();
    assert(l.push(x).to_multiset() =~= l.to_multiset().insert(x));
}

/// Inserting a chunk anywhere in a sequence adds its view to the multiset of
/// views.
proof fn lemma_insert_view_multiset(s: Seq<ChunkFile>, i: int, x: ChunkFile)
    requires
        0 <= i <= s.len(),
    ensures
        s.insert(i, x).map_values(|c: ChunkFile| c@).to_multiset() =~= s.map_values(
            |c: ChunkFile| c@,
        ).to_multiset().insert(x@),
{
    let f = |c: ChunkFile| c@;
    s.insert_ensures(i, x);
    assert(s.insert(i, x).map_values(f) =~= s.map_values(f).insert(i, f(x)));
    lemma_seq_insert_multiset(s.map_values(f), i, f(x));
}

/// Sorts chunks ascending by the start of their declared range, keeping
/// exactly the same chunks.
fn sort_chunks(v: &mut Vec<ChunkFile>)
    ensures
        final(v)@.len() == old(v)@.len(),
        final(v)@.map_values(|c: ChunkFile| c@).to_multiset() == old(v)@.map_values(
            |c: ChunkFile| c@,
        ).to_multiset(),
        forall|a: int, b: int|
            0 <= a <= b < final(v)@.len() ==> final(v)@[a].range.old <= final(v)@[b].range.old,
{
    let n = v.len();
    let mut out: Vec<ChunkFile> = Vec::new();
    let mut idx: usize = 0;
    proof {
        assert(out@.map_values(|c: ChunkFile| c@) =~= v@.subrange(0, 0).map_values(
            |c: ChunkFile| c@,
        ));
    }
    while idx < n
        invariant
            n == v@.len(),
            idx <= n,
            out@.len() == idx,
            forall|a: int, b: int|
                0 <= a <= b < out@.len() ==> out@[a].range.old <= out@[b].range.old,
            out@.map_values(|c: ChunkFile| c@).to_multiset() =~= v@.subrange(
                0,
                idx as int,
            ).map_values(|c: ChunkFile| c@).to_multiset(),
        decreases n - idx,
    {
        let c = &v[idx];
        let x = ChunkFile { path: c.path.clone(), range: c.range };
        let mut pos: usize = 0;
        while pos < out.len() && out[pos].range.old <= x.range.old
            invariant
                pos <= out@.len(),
                forall|j: int| 0 <= j < pos ==> #[trigger] out@[j].range.old <= x.range.old,
                forall|a: int, b: int|
                    0 <= a <= b < out@.len() ==> out@[a].range.old <= out@[b].range.old,
            decreases out@.len() - pos,
        {
            pos = pos + 1;
        }
        let ghost out_before = out@;
        out.insert(pos, x);
        proof {
            out_before.insert_ensures(pos as int, x);
            lemma_insert_view_multiset(out_before, pos as int, x);
            assert(v@.subrange(0, idx + 1).drop_last() =~= v@.subrange(0, idx as int));
            assert(v@.subrange(0, idx + 1).map_values(|c: ChunkFile| c@) =~= v@.subrange(
                0,
                idx as int,
            ).map_values(|c: ChunkFile| c@).push(x@));
            v@.subrange(0, idx as int).map_values(|c: ChunkFile| c@).to_multiset_ensures();
        }
        idx = idx + 1;
    }
    proof {
        assert(v@.subrange(0, n as int) =~= v@);
    }
    *v = out;
}

/// Details for files in the Unchained Index chunk directory.
pub struct ChunksDir {
    pub dir: String,
    pub paths: Vec<ChunkFile>,
}

impl ChunksDir {
    /// Obtains information about all the available chunk files: parses each
    /// file name's declared block range and sorts the chunks ascending by the
    /// start of that range. A file name without a block range is a fatal,
    /// per-file-attributable error.
    pub fn new(dir_path: &str, file_paths: &Vec<String>) -> (r: Result<ChunksDir, FilesError>)
        ensures
            r is Ok <==> (forall|k: int|
                0 <= k < file_paths@.len() ==> has_range_pattern(#[trigger] file_paths@[k]@)),
            r matches Ok(d) ==> d.dir@ == dir_path@ && d.paths@.len() == file_paths@.len()
                && d.paths@.map_values(|c: ChunkFile| c@).to_multiset() == file_paths@.map_values(
                |f: String| (f@, spec_chunk_range(f@)),
            ).to_multiset() && (forall|a: int, b: int|
                0 <= a <= b < d.paths@.len() ==> d.paths@[a].range.old <= d.paths@[b].range.old),
            r matches Err(FilesError::InvalidFilenameRange { filename }) ==> exists|k: int|
                0 <= k < file_paths@.len() && filename@ == #[trigger] file_paths@[k]@
                    && !has_range_pattern(file_paths@[k]@),
            r is Err ==> r matches Err(FilesError::InvalidFilenameRange { .. }),
    {
        let mut paths: Vec<ChunkFile> = Vec::new();
        let mut idx: usize = 0;
        while idx < file_paths.len()
            invariant
                idx <= file_paths@.len(),
                paths@.len() == idx,
                forall|j: int| 0 <= j < idx ==> has_range_pattern(#[trigger] file_paths@[j]@),
                forall|j: int|
                    0 <= j < idx ==> #[trigger] paths@[j]@ == (
                        file_paths@[j]@,
                        spec_chunk_range(file_paths@[j]@),
                    ),
            decreases file_paths@.len() - idx,
        {
            let p = &file_paths[idx];
            let range = match get_range(p.as_str()) {
                Ok(b) => b,
                Err(e) => { return Err(e) },
            };
            paths.push(ChunkFile { path: p.clone(), range });
            idx = idx + 1;
        }
        proof {
            assert(paths@.map_values(|c: ChunkFile| c@) =~= file_paths@.map_values(
                |f: String| (f@, spec_chunk_range(f@)),
            ));
        }
        sort_chunks(&mut paths);
        Ok(ChunksDir { dir: dir_path.to_owned(), paths })
    }

    /// Obtains the details of chunk files relevant for a given block range.
    ///
    /// Chunks are relevant if they intersect the desired range; no relevant
    /// chunk is a distinguishable empty result, not an error.
    pub fn for_range<'a>(&'a self, desired_range: &BlockRange) -> (r: Option<Vec<&'a ChunkFile>>)
        ensures
            r is Some <==> relevant_chunks(self.paths@, *desired_range).len() > 0,
            r matches Some(v) ==> v@.len() == relevant_chunks(self.paths@, *desired_range).len()
                && (forall|j: int|
                0 <= j < v@.len() ==> *v@[j] == relevant_chunks(self.paths@, *desired_range)[j]),
    {
        let mut relevant: Vec<&ChunkFile> = Vec::new();
        let mut idx: usize = 0;
        while idx < self.paths.len()
            invariant
                idx <= self.paths@.len(),
                relevant@.len() == relevant_chunks(self.paths@.subrange(0, idx as int), *desired_range).len(),
                forall|j: int|
                    0 <= j < relevant@.len() ==> *(#[trigger] relevant@[j]) == relevant_chunks(
                        self.paths@.subrange(0, idx as int),
                        *desired_range,
                    )[j],
            decreases self.paths@.len() - idx,
        {
            let chunk = &self.paths[idx];
            proof {
                assert(self.paths@.subrange(0, idx + 1).drop_last() =~= self.paths@.subrange(
                    0,
                    idx as int,
                ));
                assert(self.paths@.subrange(0, idx + 1).last() == self.paths@[idx as int]);
            }
            if chunk.range.intersection_exists(desired_range) {
                relevant.push(chunk);
            }
            idx = idx + 1;
        }
        proof {
            assert(self.paths@.subrange(0, self.paths@.len() as int) =~= self.paths@);
        }
        if relevant.len() == 0 {
            return None;
        }
        Some(relevant)
    }
}

/// Checks that the given appearance is within the chunk file's declared
/// bounds: the file's content must not contradict its file name.
pub fn no_unexpected_appearances(appearance: &TransactionId, uf: &UnchainedFile) -> (r: Result<
    (),
    FilesError,
>)
    ensures
        r is Ok <==> uf.present.spec_contains_block(appearance.block),
        r matches Err(e) ==> (e matches FilesError::AppearanceOutOfRange {
            path,
            oldest,
            newest,
            block,
            index,
        } && path@ == uf.path@ && oldest == uf.present.old && newest == uf.present.new && block
            == appearance.block && index == appearance.index),
{
    if appearance.block < uf.present.old || appearance.block > uf.present.new {
        return Err(
            FilesError::AppearanceOutOfRange {
                path: uf.path.clone(),
                oldest: uf.present.old,
                newest: uf.present.new,
                block: appearance.block,
                index: appearance.index,
            },
        );
    }
    Ok(())
}

} // verus!
