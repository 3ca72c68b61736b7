//! Shapes responses for the addresses appearing in a single block.

use vstd::prelude::*;
use vstd::string::StringExecFns;

use crate::files::lemma_seq_insert_multiset;
use crate::hexutil::{hex_encode, spec_hex_encode};
use crate::structure::{AddressData, TransactionId};
use crate::utils::{
    hex_literal, push_char, spec_hex_literal, spec_location_of, unchained_index_to_location,
};

verus! {

/// Block of the merge (Ethereum consensus/execution).
pub const THE_MERGE: u32 = 15537393;

/// The one post-merge block whose withdrawal appearance is provided manually.
pub const KNOWN_WITHDRAWAL_BLOCK: u32 = 17190873;

/// Cases the index format does not represent; surfaced as explicit errors
/// rather than guessed at.
#[derive(Debug, Clone, PartialEq, Eq)]
pub enum BlockResponseError {
    /// Genesis appearances are allocation-style and not held by the index.
    UnsupportedGenesisBlock,
    /// Post-merge blocks may have withdrawal appearances the index does not
    /// store; only one block's withdrawal is provided manually.
    UnsupportedPostMergeBlock { block: u32 },
}

/// Response listing the addresses of one block.
#[derive(Clone, Debug)]
pub struct AddressesInBlockResponse {
    pub id: u32,
    pub jsonrpc: String,
    pub result: BlockAddresses,
}

/// The block number with the addresses that appear in it.
#[derive(Clone, Debug)]
pub struct BlockAddresses {
    pub block_number: String,
    pub addresses: Vec<BlockAppearance>,
}

/// Holds selected transactions for a given address in a single block.
#[derive(Clone, Debug, PartialEq)]
pub struct BlockAppearance {
    /// The address that appeared in a transaction, as a `0x`-prefixed hex string.
    pub address: String,
    /// The locations within the block where the address appeared.
    pub locations: Vec<String>,
}

impl View for BlockAppearance {
    type V = (Seq<char>, Seq<Seq<char>>);

    open spec fn view(&self) -> Self::V {
        (self.address@, self.locations@.map_values(|s: String| s@))
    }
}

/// The location names of a run of appearances, in order, skipping the
/// ignorable sentinel values.
pub open spec fn spec_locations(apps: Seq<TransactionId>) -> Seq<Seq<char>>
    decreases apps.len(),
{
    if apps.len() == 0 {
        Seq::empty()
    } else {
        let rest = spec_locations(apps.drop_last());
        match spec_location_of(apps.last().index) {
            Some(l) => rest.push(l),
            None => rest,
        }
    }
}

/// The record for one scanned address: its bytes as a `0x`-prefixed hex
/// string, with the location of each of its appearances.
pub open spec fn spec_block_appearance_of(ad: (Seq<u8>, Seq<TransactionId>)) -> (
    Seq<char>,
    Seq<Seq<char>>,
) {
    (seq!['0', 'x'] + spec_hex_encode(ad.0), spec_locations(ad.1))
}

/// The manually provided withdrawal record for the one known block.
pub open spec fn spec_withdrawal_record() -> (Seq<char>, Seq<Seq<char>>) {
    ("0x1cedc0f3af8f9841b0a1f5c1a4ddc6e1a1629074"@, seq!["withdrawals"@])
}

/// The records the response holds before sorting: one per scanned address,
/// plus the manual withdrawal record for post-merge blocks.
pub open spec fn spec_expected_records(data: Seq<AddressData>, block_number: u32) -> Seq<
    (Seq<char>, Seq<Seq<char>>),
> {
    let base = data.map_values(|ad: AddressData| spec_block_appearance_of(ad@));
    if block_number > THE_MERGE {
        base.push(spec_withdrawal_record())
    } else {
        base
    }
}

/// Lexicographic order on character sequences by scalar value: the order in
/// which `str` values compare.
pub open spec fn lex_le(a: Seq<char>, b: Seq<char>) -> bool
    decreases a.len(),
{
    if a.len() == 0 {
        true
    } else if b.len() == 0 {
        false
    } else if (a[0] as u32) < (b[0] as u32) {
        true
    } else if (a[0] as u32) > (b[0] as u32) {
        false
    } else {
        lex_le(a.drop_first(), b.drop_first())
    }
}

/// Any two character sequences compare in at least one direction.
pub proof fn lemma_lex_le_total(a: Seq<char>, b: Seq<char>)
    ensures
        lex_le(a, b) || lex_le(b, a),
    decreases a.len(),
{
    if a.len() > 0 && b.len() > 0 && a[0] as u32 == b[0] as u32 {
        lemma_lex_le_total(a.drop_first(), b.drop_first());
    }
}

/// Lexicographic order is transitive.
pub proof fn lemma_lex_le_trans(a: Seq<char>, b: Seq<char>, c: Seq<char>)
    requires
        lex_le(a, b),
        lex_le(b, c),
    ensures
        lex_le(a, c),
    decreases a.len(),
{
    if a.len() > 0 {
        assert(b.len() > 0);
        assert(c.len() > 0);
        if a[0] as u32 == b[0] as u32 && b[0] as u32 == c[0] as u32 {
            lemma_lex_le_trans(a.drop_first(), b.drop_first(), c.drop_first());
        }
    }
}

/// True iff `a` compares at or before `b` in `str` order.
fn str_le(a: &str, b: &str) -> (r: bool)
    ensures
        r == lex_le(a@, b@),
{
    let na = a.unicode_len();
    let nb = b.unicode_len();
    let mut i: usize = 0;
    proof {
        assert(a@.skip(0) =~= a@);
        assert(b@.skip(0) =~= b@);
    }
    while i < na && i < nb
        invariant
            na == a@.len(),
            nb == b@.len(),
            i <= na,
            i <= nb,
            lex_le(a@, b@) == lex_le(a@.skip(i as int), b@.skip(i as int)),
        decreases na - i,
    {
        let ca = a.get_char(i) as u32;
        let cb = b.get_char(i) as u32;
        proof {
            assert(a@.skip(i as int)[0] == a@[i as int]);
            assert(b@.skip(i as int)[0] == b@[i as int]);
        }
        if ca < cb {
            return true;
        }
        if ca > cb {
            return false;
        }
        proof {
            assert(a@.skip(i as int).drop_first() =~= a@.skip(i + 1));
            assert(b@.skip(i as int).drop_first() =~= b@.skip(i + 1));
        }
        i = i + 1;
    }
    proof {
        if i == na {
            assert(a@.skip(i as int).len() == 0);
        } else {
            assert(b@.skip(i as int).len() == 0);
            assert(a@.skip(i as int).len() > 0);
        }
    }
    na <= nb
}

/// True when the records stand in ascending address order.
pub open spec fn sorted_by_address(s: Seq<BlockAppearance>) -> bool {
    forall|a: int, b: int| 0 <= a <= b < s.len() ==> lex_le(s[a].address@, s[b].address@)
}

/// Inserting a record anywhere in a sequence adds its view to the multiset of
/// views.
proof fn lemma_insert_block_view_multiset(s: Seq<BlockAppearance>, i: int, x: BlockAppearance)
    requires
        0 <= i <= s.len(),
    ensures
        s.insert(i, x).map_values(|r: BlockAppearance| r@).to_multiset() =~= s.map_values(
            |r: BlockAppearance| r@,
        ).to_multiset().insert(x@),
{
    let f = |r: BlockAppearance| r@;
    s.insert_ensures(i, x);
    assert(s.insert(i, x).map_values(f) =~= s.map_values(f).insert(i, f(x)));
    lemma_seq_insert_multiset(s.map_values(f), i, f(x));
}

/// Sorts the records ascending by address, keeping exactly the same records.
fn sort_block_appearances(v: &mut Vec<BlockAppearance>)
    ensures
        final(v)@.len() == old(v)@.len(),
        final(v)@.map_values(|r: BlockAppearance| r@).to_multiset() == old(v)@.map_values(
            |r: BlockAppearance| r@,
        ).to_multiset(),
        sorted_by_address(final(v)@),
{
    let n = v.len();
    let mut out: Vec<BlockAppearance> = Vec::new();
    let mut idx: usize = 0;
    proof {
        assert(out@.map_values(|r: BlockAppearance| r@) =~= v@.subrange(0, 0).map_values(
            |r: BlockAppearance| r@,
        ));
    }
    while idx < n
        invariant
            n == v@.len(),
            idx <= n,
            out@.len() == idx,
            sorted_by_address(out@),
            out@.map_values(|r: BlockAppearance| r@).to_multiset() =~= v@.subrange(
                0,
                idx as int,
            ).map_values(|r: BlockAppearance| r@).to_multiset(),
        decreases n - idx,
    {
        let c = &v[idx];
        let x = BlockAppearance { address: c.address.clone(), locations: c.locations.clone() };
        proof {
            assert(x@ == v@[idx as int]@);
        }
        let mut pos: usize = 0;
        while pos < out.len() && str_le(out[pos].address.as_str(), x.address.as_str())
            invariant
                pos <= out@.len(),
                sorted_by_address(out@),
                forall|j: int| 0 <= j < pos ==> lex_le(#[trigger] out@[j].address@, x.address@),
            decreases out@.len() - pos,
        {
            pos = pos + 1;
        }
        proof {
            if pos < out@.len() {
                lemma_lex_le_total(out@[pos as int].address@, x.address@);
            }
        }
        let ghost out_before = out@;
        out.insert(pos, x);
        proof {
            out_before.insert_ensures(pos as int, x);
            assert forall|a: int, b: int|
                0 <= a <= b < out@.len() implies lex_le(out@[a].address@, out@[b].address@) by {
                if a < pos && b < pos {
                    assert(out@[a] == out_before[a] && out@[b] == out_before[b]);
                } else if a < pos && b == pos {
                    assert(out@[a] == out_before[a] && out@[b] == x);
                } else if a < pos && b > pos {
                    assert(out@[a] == out_before[a] && out@[b] == out_before[b - 1]);
                } else if a == pos && b == pos {
                    lemma_lex_le_total(x.address@, x.address@);
                } else if a == pos && b > pos {
                    assert(out@[a] == x && out@[b] == out_before[b - 1]);
                    assert(lex_le(x.address@, out_before[pos as int].address@));
                    assert(lex_le(out_before[pos as int].address@, out_before[b - 1].address@));
                    lemma_lex_le_trans(
                        x.address@,
                        out_before[pos as int].address@,
                        out_before[b - 1].address@,
                    );
                } else {
                    assert(out@[a] == out_before[a - 1] && out@[b] == out_before[b - 1]);
                }
            }
            lemma_insert_block_view_multiset(out_before, pos as int, x);
            assert(v@.subrange(0, idx + 1).drop_last() =~= v@.subrange(0, idx as int));
            assert(v@.subrange(0, idx + 1).map_values(|r: BlockAppearance| r@) =~= v@.subrange(
                0,
                idx as int,
            ).map_values(|r: BlockAppearance| r@).push(x@));
            v@.subrange(0, idx as int).map_values(|r: BlockAppearance| r@).to_multiset_ensures();
        }
        idx = idx + 1;
    }
    proof {
        assert(v@.subrange(0, n as int) =~= v@);
    }
    *v = out;
}

impl AddressesInBlockResponse {
    /// Creates the response: one record per scanned address with its
    /// locations, the manual withdrawal record for the one known post-merge
    /// block, sorted ascending by address. Blocks the index format cannot
    /// represent are surfaced as explicit unsupported cases.
    pub fn create(data: Vec<AddressData>, block_number: u32) -> (r: Result<
        Self,
        BlockResponseError,
    >)
        ensures
            r is Ok <==> !(block_number == 0 || (block_number > THE_MERGE && block_number
                != KNOWN_WITHDRAWAL_BLOCK)),
            block_number == 0 ==> r matches Err(BlockResponseError::UnsupportedGenesisBlock),
            block_number > THE_MERGE && block_number != KNOWN_WITHDRAWAL_BLOCK ==> (r matches Err(
                BlockResponseError::UnsupportedPostMergeBlock { block },
            ) && block == block_number),
            r matches Ok(resp) ==> resp.id == 1 && resp.jsonrpc@ == "2.0"@
                && resp.result.block_number@ == spec_hex_literal(block_number as int)
                && resp.result.addresses@.map_values(|a: BlockAppearance| a@).to_multiset()
                == spec_expected_records(data@, block_number).to_multiset() && sorted_by_address(
                resp.result.addresses@,
            ),
    {
        if block_number == 0 {
            // Genesis appearances are allocation-style; the index format does
            // not represent them.
            return Err(BlockResponseError::UnsupportedGenesisBlock);
        }
        let mut addresses: Vec<BlockAppearance> = Vec::new();
        let mut idx: usize = 0;
        proof {
            assert(addresses@.map_values(|r: BlockAppearance| r@) =~= data@.subrange(
                0,
                0,
            ).map_values(|ad: AddressData| spec_block_appearance_of(ad@)));
        }
        while idx < data.len()
            invariant
                idx <= data@.len(),
                addresses@.len() == idx,
                addresses@.map_values(|r: BlockAppearance| r@) == data@.subrange(
                    0,
                    idx as int,
                ).map_values(|ad: AddressData| spec_block_appearance_of(ad@)),
            decreases data@.len() - idx,
        {
            let x = &data[idx];
            let mut address = String::new();
            push_char(&mut address, '0');
            push_char(&mut address, 'x');
            let encoded = hex_encode(&x.address);
            address.append(encoded.as_str());
            proof {
                assert(address@ =~= seq!['0', 'x'] + spec_hex_encode(x.address@));
            }
            let mut locations: Vec<String> = Vec::new();
            let mut j: usize = 0;
            proof {
                assert(locations@.map_values(|s: String| s@) =~= spec_locations(
                    x.appearances@.subrange(0, 0),
                ));
            }
            while j < x.appearances.len()
                invariant
                    j <= x.appearances@.len(),
                    locations@.map_values(|s: String| s@) == spec_locations(
                        x.appearances@.subrange(0, j as int),
                    ),
                decreases x.appearances@.len() - j,
            {
                proof {
                    assert(x.appearances@.subrange(0, j + 1).drop_last() =~= x.appearances@
                        .subrange(0, j as int));
                    assert(x.appearances@.subrange(0, j + 1).last() == x.appearances@[j as int]);
                }
                match unchained_index_to_location(x.appearances[j].index) {
                    Some(location) => {
                        locations.push(location);
                        proof {
                            assert(locations@.map_values(|s: String| s@) =~= spec_locations(
                                x.appearances@.subrange(0, j + 1),
                            ));
                        }
                    },
                    None => {},
                }
                j = j + 1;
            }
            proof {
                assert(x.appearances@.subrange(0, x.appearances@.len() as int) =~= x.appearances@);
            }
            let record = BlockAppearance { address, locations };
            let ghost addresses_before = addresses@;
            addresses.push(record);
            proof {
                let f = |r: BlockAppearance| r@;
                let g = |ad: AddressData| spec_block_appearance_of(ad@);
                assert(record@ == spec_block_appearance_of(data@[idx as int]@));
                assert forall|k: int|
                    0 <= k < idx + 1 implies addresses@.map_values(f)[k] == data@.subrange(
                    0,
                    idx + 1,
                ).map_values(g)[k] by {
                    assert(data@.subrange(0, idx + 1)[k] == data@[k]);
                    if k < idx {
                        assert(addresses@[k] == addresses_before[k]);
                        assert(addresses_before.map_values(f)[k] == data@.subrange(
                            0,
                            idx as int,
                        ).map_values(g)[k]);
                    } else {
                        assert(addresses@[k] == record);
                    }
                }
                assert(addresses@.map_values(f) =~= data@.subrange(0, idx + 1).map_values(g));
            }
            idx = idx + 1;
        }
        proof {
            assert(data@.subrange(0, data@.len() as int) =~= data@);
        }
        if block_number > THE_MERGE {
            if block_number == KNOWN_WITHDRAWAL_BLOCK {
                // The Unchained Index did not store withdrawals; this block's
                // withdrawal appearance is provided manually as a stopgap.
                let mut locations: Vec<String> = Vec::new();
                locations.push("withdrawals".to_owned());
                let withdrawal = BlockAppearance {
                    address: "0x1cedc0f3af8f9841b0a1f5c1a4ddc6e1a1629074".to_owned(),
                    locations,
                };
                proof {
                    assert(withdrawal@.1 =~= spec_withdrawal_record().1);
                    assert(withdrawal@ == spec_withdrawal_record());
                }
                addresses.push(withdrawal);
                proof {
                    assert(addresses@.map_values(|r: BlockAppearance| r@) =~= spec_expected_records(
                        data@,
                        block_number,
                    ));
                }
            } else {
                // Whether the index includes withdrawals for other post-merge
                // blocks is unresolved; surfaced as an unsupported case.
                return Err(BlockResponseError::UnsupportedPostMergeBlock { block: block_number });
            }
        }
        proof {
            assert(addresses@.map_values(|r: BlockAppearance| r@) =~= spec_expected_records(
                data@,
                block_number,
            ));
        }
        sort_block_appearances(&mut addresses);
        Ok(
            AddressesInBlockResponse {
                id: 1,
                jsonrpc: "2.0".to_owned(),
                result: BlockAddresses { block_number: hex_literal(block_number), addresses },
            },
        )
    }
}

} // verus!
