//! Shapes responses that list, for every address of a scan, the transaction
//! indices it appeared at.

use vstd::prelude::*;

use crate::hexutil::{hex_encode, spec_hex_encode};
use crate::structure::{AddressData, TransactionId};

verus! {

/// Response listing each address with its transaction indices.
#[derive(Clone, Debug)]
pub struct AddressesInBlockResponse {
    pub id: u32,
    pub jsonrpc: String,
    pub result: Vec<AddressAppearance>,
}

/// Holds selected transactions for a given address.
#[derive(Clone, Debug, PartialEq)]
pub struct AddressAppearance {
    /// The address that appeared in a transaction, hex encoded.
    pub address: String,
    /// The transaction indices where the address appeared.
    pub transaction_indices: Vec<u32>,
}

impl View for AddressAppearance {
    type V = (Seq<char>, Seq<u32>);

    open spec fn view(&self) -> Self::V {
        (self.address@, self.transaction_indices@)
    }
}

/// The record for one scanned address: its bytes hex encoded, and the index
/// of each of its appearances, in order.
pub open spec fn spec_address_appearance_of(ad: (Seq<u8>, Seq<TransactionId>)) -> (
    Seq<char>,
    Seq<u32>,
) {
    (spec_hex_encode(ad.0), ad.1.map_values(|t: TransactionId| t.index))
}

/// A copy of the given bytes.
fn copy_bytes(v: &Vec<u8>) -> (r: Vec<u8>)
    ensures
        r@ == v@,
{
    let mut r: Vec<u8> = Vec::new();
    let mut k: usize = 0;
    while k < v.len()
        invariant
            k <= v@.len(),
            r@ =~= v@.subrange(0, k as int),
        decreases v@.len() - k,
    {
        r.push(v[k]);
        k = k + 1;
    }
    proof {
        assert(v@.subrange(0, v@.len() as int) =~= v@);
    }
    r
}

impl AddressesInBlockResponse {
    /// Creates the response: one record per scanned address, in scan order,
    /// with the address hex encoded and its transaction indices unchanged.
    pub fn create(data: Vec<AddressData>) -> (r: Self)
        ensures
            r.id == 1,
            r.jsonrpc@ == "2.0"@,
            r.result@.map_values(|a: AddressAppearance| a@) == data@.map_values(
                |ad: AddressData| spec_address_appearance_of(ad@),
            ),
    {
        let mut result: Vec<AddressAppearance> = Vec::new();
        let mut idx: usize = 0;
        proof {
            assert(result@.map_values(|a: AddressAppearance| a@) =~= data@.subrange(
                0,
                0,
            ).map_values(|ad: AddressData| spec_address_appearance_of(ad@)));
        }
        while idx < data.len()
            invariant
                idx <= data@.len(),
                result@.len() == idx,
                result@.map_values(|a: AddressAppearance| a@) == data@.subrange(
                    0,
                    idx as int,
                ).map_values(|ad: AddressData| spec_address_appearance_of(ad@)),
            decreases data@.len() - idx,
        {
            let x = &data[idx];
            let address = hex_encode(&x.address);
            let mut transaction_indices: Vec<u32> = Vec::new();
            let mut j: usize = 0;
            while j < x.appearances.len()
                invariant
                    j <= x.appearances@.len(),
                    transaction_indices@ =~= x.appearances@.subrange(0, j as int).map_values(
                        |t: TransactionId| t.index,
                    ),
                decreases x.appearances@.len() - j,
            {
                transaction_indices.push(x.appearances[j].index);
                proof {
                    assert(x.appearances@.subrange(0, j + 1).drop_last() =~= x.appearances@
                        .subrange(0, j as int));
                    assert(x.appearances@.subrange(0, j + 1).map_values(|t: TransactionId| t.index)
                        =~= x.appearances@.subrange(0, j as int).map_values(
                        |t: TransactionId| t.index,
                    ).push(x.appearances@[j as int].index));
                }
                j = j + 1;
            }
            proof {
                assert(x.appearances@.subrange(0, x.appearances@.len() as int) =~= x.appearances@);
            }
            let record = AddressAppearance { address, transaction_indices };
            let ghost result_before = result@;
            result.push(record);
            proof {
                let lhs = result@.map_values(|a: AddressAppearance| a@);
                let rhs = data@.subrange(0, idx + 1).map_values(
                    |ad: AddressData| spec_address_appearance_of(ad@),
                );
                assert(record.transaction_indices@ == (data@[idx as int]@).1.map_values(
                    |t: TransactionId| t.index,
                ));
                assert(record@ == spec_address_appearance_of(data@[idx as int]@));
                assert(result_before.len() == idx);
                assert forall|k: int| 0 <= k < idx + 1 implies lhs[k] == rhs[k] by {
                    assert(data@.subrange(0, idx + 1)[k] == data@[k]);
                    if k < idx {
                        assert(result@[k] == result_before[k]);
                        assert(result_before.map_values(|a: AddressAppearance| a@)[k]
                            == data@.subrange(0, idx as int).map_values(
                            |ad: AddressData| spec_address_appearance_of(ad@),
                        )[k]);
                    } else {
                        assert(result@[k] == record);
                    }
                }
                assert(lhs =~= rhs);
            }
            idx = idx + 1;
        }
        proof {
            assert(data@.subrange(0, data@.len() as int) =~= data@);
        }
        AddressesInBlockResponse { id: 1, jsonrpc: "2.0".to_owned(), result }
    }
}

} // verus!
