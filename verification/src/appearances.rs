//! Shapes responses for the appearances of a single address.

use vstd::prelude::*;

use crate::cli::RangeParam;
use crate::utils::{hex_literal, spec_hex_literal, spec_location_of, unchained_index_to_location};

verus! {

/// Errors raised while shaping an appearances response.
#[derive(Debug, Clone, PartialEq, Eq)]
pub enum ResponseError {
    /// A single-block or custom range needs a start block.
    MissingStartBlock,
    /// A custom range needs an end block.
    MissingEndBlock,
    /// A custom range's start must not come after its end.
    RangeStartAfterEnd { start: u32, end: u32 },
}

/// Response to address_getAppearances.
#[derive(Clone, Debug)]
pub struct AppearancesResponse {
    pub id: u32,
    pub jsonrpc: String,
    pub result: Vec<RelevantTransaction>,
}

/// A transaction identifier that is relevant for a particular address.
#[derive(Clone, Debug, PartialEq)]
pub struct RelevantTransaction {
    pub block_number: String,
    /// The location within the block in which the address appeared.
    pub location: String,
}

impl View for RelevantTransaction {
    type V = (Seq<char>, Seq<char>);

    open spec fn view(&self) -> Self::V {
        (self.block_number@, self.location@)
    }
}

/// Source data for test vector generation: appearances of addresses as
/// reported by an external index tool.
#[derive(Clone, Debug, PartialEq)]
pub struct AppearanceSource {
    pub data: Vec<AppearanceData>,
}

/// One known appearance of an address.
#[derive(Clone, Debug, PartialEq)]
pub struct AppearanceData {
    pub address: String,
    pub block_number: u32,
    pub transaction_index: u32,
}

/// True when the chosen range kind and optional bounds keep an appearance at
/// the given block.
pub open spec fn spec_range_keeps(
    range: RangeParam,
    start_block: Option<u32>,
    end_block: Option<u32>,
    block_number: u32,
) -> bool {
    match range {
        RangeParam::All => true,
        RangeParam::Single => match start_block {
            Some(b) => block_number == b,
            None => false,
        },
        RangeParam::Custom => match (start_block, end_block) {
            (Some(s), Some(e)) => s <= block_number && block_number <= e,
            _ => false,
        },
    }
}

/// The response records for `data`, in order: the entries for the given
/// address that the range keeps and whose transaction index maps to a
/// location, the block number formatted as a hex literal.
pub open spec fn spec_relevant(
    data: Seq<AppearanceData>,
    address: Seq<char>,
    range: RangeParam,
    start_block: Option<u32>,
    end_block: Option<u32>,
) -> Seq<(Seq<char>, Seq<char>)>
    decreases data.len(),
{
    if data.len() == 0 {
        Seq::empty()
    } else {
        let rest = spec_relevant(data.drop_last(), address, range, start_block, end_block);
        let x = data.last();
        if x.address@ == address && spec_range_keeps(range, start_block, end_block, x.block_number)
            && spec_location_of(x.transaction_index) is Some {
            rest.push(
                (spec_hex_literal(x.block_number as int), spec_location_of(
                    x.transaction_index,
                ).unwrap()),
            )
        } else {
            rest
        }
    }
}

/// True iff the range kind and bounds are an acceptable query.
pub open spec fn spec_query_ok(
    range: RangeParam,
    start_block: Option<u32>,
    end_block: Option<u32>,
) -> bool {
    &&& !(start_block is None && (range is Single || range is Custom))
    &&& !(end_block is None && range is Custom)
    &&& !(range is Custom && start_block is Some && end_block is Some
        && end_block.unwrap() < start_block.unwrap())
}

/// True when the chosen range keeps an appearance at `block_number`.
fn range_keeps(
    range: RangeParam,
    start_block: Option<u32>,
    end_block: Option<u32>,
    block_number: u32,
) -> (r: bool)
    ensures
        r == spec_range_keeps(range, start_block, end_block, block_number),
{
    match range {
        RangeParam::All => true,
        RangeParam::Single => match start_block {
            Some(b) => block_number == b,
            None => false,
        },
        RangeParam::Custom => match (start_block, end_block) {
            (Some(s), Some(e)) => s <= block_number && block_number <= e,
            _ => false,
        },
    }
}

impl AppearancesResponse {
    /// Creates the response: the appearances of `address` that lie within the
    /// chosen range, in source order, with block numbers and locations
    /// formatted as hex literals. Fails when the range kind lacks a needed
    /// bound or a custom range is reversed.
    pub fn create(
        value: AppearanceSource,
        address: String,
        range: RangeParam,
        start_block: Option<u32>,
        end_block: Option<u32>,
    ) -> (r: Result<Self, ResponseError>)
        ensures
            r is Ok <==> spec_query_ok(range, start_block, end_block),
            r matches Ok(resp) ==> resp.id == 1 && resp.jsonrpc@ == "2.0"@
                && resp.result@.map_values(|t: RelevantTransaction| t@) == spec_relevant(
                value.data@,
                address@,
                range,
                start_block,
                end_block,
            ),
            start_block is None && (range is Single || range is Custom) ==> r matches Err(
                ResponseError::MissingStartBlock,
            ),
            start_block is Some && end_block is None && range is Custom ==> r matches Err(
                ResponseError::MissingEndBlock,
            ),
            start_block is Some && end_block is Some && range is Custom && end_block.unwrap()
                < start_block.unwrap() ==> (r matches Err(
                ResponseError::RangeStartAfterEnd { start, end },
            ) && start == start_block.unwrap() && end == end_block.unwrap()),
    {
        let single = range == RangeParam::Single;
        let custom = range == RangeParam::Custom;
        if start_block.is_none() && (single || custom) {
            return Err(ResponseError::MissingStartBlock);
        }
        if custom {
            if end_block.is_none() {
                return Err(ResponseError::MissingEndBlock);
            }
            let s = start_block.unwrap();
            let e = end_block.unwrap();
            if e < s {
                return Err(ResponseError::RangeStartAfterEnd { start: s, end: e });
            }
        }
        let mut result: Vec<RelevantTransaction> = Vec::new();
        let mut idx: usize = 0;
        proof {
            assert(result@.map_values(|t: RelevantTransaction| t@) =~= spec_relevant(
                value.data@.subrange(0, 0),
                address@,
                range,
                start_block,
                end_block,
            ));
        }
        while idx < value.data.len()
            invariant
                idx <= value.data@.len(),
                result@.map_values(|t: RelevantTransaction| t@) == spec_relevant(
                    value.data@.subrange(0, idx as int),
                    address@,
                    range,
                    start_block,
                    end_block,
                ),
            decreases value.data@.len() - idx,
        {
            let x = &value.data[idx];
            proof {
                assert(value.data@.subrange(0, idx + 1).drop_last() =~= value.data@.subrange(
                    0,
                    idx as int,
                ));
                assert(value.data@.subrange(0, idx + 1).last() == value.data@[idx as int]);
            }
            if x.address == address && range_keeps(range, start_block, end_block, x.block_number) {
                match unchained_index_to_location(x.transaction_index) {
                    Some(location) => {
                        let rt = RelevantTransaction {
                            block_number: hex_literal(x.block_number),
                            location,
                        };
                        result.push(rt);
                        proof {
                            assert(result@.map_values(|t: RelevantTransaction| t@) =~= spec_relevant(
                                value.data@.subrange(0, idx + 1),
                                address@,
                                range,
                                start_block,
                                end_block,
                            ));
                        }
                    },
                    None => {},
                }
            }
            idx = idx + 1;
        }
        proof {
            assert(value.data@.subrange(0, value.data@.len() as int) =~= value.data@);
        }
        Ok(AppearancesResponse { id: 1, jsonrpc: "2.0".to_owned(), result })
    }
}

} // verus!
