//! Binary structure of the Unchained Index chunk format: the header and the
//! two kinds of fixed-size table entries, decoded straight from the file bytes.

use vstd::prelude::*;

use crate::constants::{magic_bytes, spec_magic, AD_ENTRY, ADDR, AP_ENTRY, HEAD, VAL, VER};
use crate::hexutil::{hex_encode, spec_hex_encode};

verus! {

/// Errors raised while decoding the fixed-size binary records.
///
/// Every variant names the exact field that could not be decoded, so a caller
/// can tell which part of a malformed file was short or wrong.
#[derive(Debug, Clone, PartialEq, Eq)]
pub enum StructureError {
    /// The file starts with other bytes than the magic constant; carries both
    /// the found and the expected bytes as hex strings.
    InvalidMagicBytes { path: String, found: String, expected: String },
    /// The address bytes of an address entry could not be read.
    InvalidAddress,
    /// The count field of an address entry could not be read.
    InvalidCount,
    /// The offset field of an address entry could not be read.
    InvalidOffset,
    /// The number-of-addresses field of the header could not be read.
    InvalidNumAddresses,
    /// The number-of-appearances field of the header could not be read.
    InvalidNumAppearances,
    /// The block field of an appearance entry could not be read.
    InvalidTransactionBlock,
    /// The index field of an appearance entry could not be read.
    InvalidTransactionIndex,
    /// The file is too short to hold the magic bytes.
    NoMagicBytes { path: String },
    /// The file is too short to hold the version hash.
    NoVersion { path: String },
}

/// The little-endian 32-bit value stored at byte position `pos`.
pub open spec fn le32_at(data: Seq<u8>, pos: int) -> u32
    recommends
        0 <= pos,
        pos + 4 <= data.len(),
{
    (data[pos] + data[pos + 1] * 0x100 + data[pos + 2] * 0x10000 + data[pos + 3]
        * 0x1000000) as u32
}

/// The byte at position `pos`, addressed as a `u64`.
pub(crate) fn byte_at(data: &Vec<u8>, pos: u64) -> (r: u8)
    requires
        pos < data.len(),
    ensures
        r == data@[pos as int],
{
    data[pos as usize]
}

/// Reads the little-endian 32-bit value stored at byte position `pos`.
pub(crate) fn read_u32_le(data: &Vec<u8>, pos: u64) -> (r: u32)
    requires
        pos + 4 <= data.len(),
    ensures
        r == le32_at(data@, pos as int),
{
    let b0 = byte_at(data, pos) as u32;
    let b1 = byte_at(data, pos + 1) as u32;
    let b2 = byte_at(data, pos + 2) as u32;
    let b3 = byte_at(data, pos + 3) as u32;
    b0 + b1 * 0x100 + b2 * 0x10000 + b3 * 0x1000000
}

/// Stores values extracted from the file header.
#[derive(Clone, Copy, PartialEq, Eq, Structural, Debug)]
pub struct Header {
    pub n_addresses: u32,
    pub n_appearances: u32,
}

/// True when the data starts with the magic bytes.
pub open spec fn spec_magic_ok(data: Seq<u8>) -> bool {
    data.len() >= 4 && data.subrange(0, 4) == spec_magic()
}

/// True when the data is long enough for a whole header and starts with the
/// magic bytes.
pub open spec fn spec_header_ok(data: Seq<u8>) -> bool {
    data.len() >= HEAD && spec_magic_ok(data)
}

/// The header's number-of-addresses field.
pub open spec fn spec_n_addresses(data: Seq<u8>) -> u32 {
    le32_at(data, 4 + VER)
}

/// The header's number-of-appearances field.
pub open spec fn spec_n_appearances(data: Seq<u8>) -> u32 {
    le32_at(data, 4 + VER + VAL)
}

impl Header {
    /// Obtains values from the file header and validates the magic number.
    pub fn from_reader(data: &Vec<u8>, path: &str) -> (r: Result<Header, StructureError>)
        ensures
            r is Ok <==> spec_header_ok(data@),
            r matches Ok(h) ==> h.n_addresses == spec_n_addresses(data@) && h.n_appearances
                == spec_n_appearances(data@),
            data@.len() < 4 ==> (r matches Err(StructureError::NoMagicBytes { path: p }) && p@
                == path@),
            data@.len() >= 4 && data@.subrange(0, 4) != spec_magic() ==> (r matches Err(
                StructureError::InvalidMagicBytes { path: p, found, expected },
            ) && p@ == path@ && found@ == spec_hex_encode(data@.subrange(0, 4)) && expected@
                == spec_hex_encode(spec_magic())),
            spec_magic_ok(data@) && data@.len() < 4 + VER ==> (r matches Err(
                StructureError::NoVersion { path: p },
            ) && p@ == path@),
            spec_magic_ok(data@) && 4 + VER <= data@.len() < 4 + VER + VAL ==> r matches Err(
                StructureError::InvalidNumAddresses,
            ),
            spec_magic_ok(data@) && 4 + VER + VAL <= data@.len() < HEAD ==> r matches Err(
                StructureError::InvalidNumAppearances,
            ),
    {
        if data.len() < 4 {
            return Err(StructureError::NoMagicBytes { path: path.to_owned() });
        }
        let m0 = byte_at(data, 0);
        let m1 = byte_at(data, 1);
        let m2 = byte_at(data, 2);
        let m3 = byte_at(data, 3);
        if !(m0 == 0xef && m1 == 0xbe && m2 == 0xad && m3 == 0xde) {
            let mut found_bytes: Vec<u8> = Vec::new();
            found_bytes.push(m0);
            found_bytes.push(m1);
            found_bytes.push(m2);
            found_bytes.push(m3);
            proof {
                assert(found_bytes@ =~= data@.subrange(0, 4));
                assert(data@.subrange(0, 4) != spec_magic()) by {
                    assert(spec_magic()[0] == 0xef && spec_magic()[1] == 0xbe && spec_magic()[2]
                        == 0xad && spec_magic()[3] == 0xde);
                }
            }
            return Err(
                StructureError::InvalidMagicBytes {
                    path: path.to_owned(),
                    found: hex_encode(&found_bytes),
                    expected: hex_encode(&magic_bytes()),
                },
            );
        }
        proof {
            assert(data@.subrange(0, 4) =~= spec_magic());
        }
        if data.len() < 4 + VER {
            return Err(StructureError::NoVersion { path: path.to_owned() });
        }
        if data.len() < 4 + VER + VAL {
            return Err(StructureError::InvalidNumAddresses);
        }
        if data.len() < HEAD {
            return Err(StructureError::InvalidNumAppearances);
        }
        let n_addresses = read_u32_le(data, (4 + VER) as u64);
        let n_appearances = read_u32_le(data, (4 + VER + VAL) as u64);
        Ok(Header { n_addresses, n_appearances })
    }
}

/// Records information about important byte indices in the chunk file.
#[derive(Clone, Copy, PartialEq, Eq, Structural, Debug)]
pub struct Body {
    /// Table in the binary file containing addresses.
    pub addresses: Section,
    /// Table in the binary file containing appearances (transaction IDs).
    pub appearances: Section,
}

/// Byte indices of a particular section of the file.
#[derive(Clone, Copy, PartialEq, Eq, Structural, Debug)]
pub struct Section {
    /// Byte index of the start of the section.
    pub start: u64,
    /// Which byte is currently of interest for this section.
    pub current: u64,
    /// Byte index of the end of the section.
    pub end: u64,
}

/// The raw address bytes of an address entry at byte position `pos`.
pub open spec fn spec_address_at(data: Seq<u8>, pos: int) -> Seq<u8> {
    data.subrange(pos, pos + ADDR)
}

/// The offset field of an address entry at byte position `pos`; it counts
/// appearance-table entries, not bytes.
pub open spec fn spec_offset_at(data: Seq<u8>, pos: int) -> u32 {
    le32_at(data, pos + ADDR)
}

/// The count field of an address entry at byte position `pos`.
pub open spec fn spec_count_at(data: Seq<u8>, pos: int) -> u32 {
    le32_at(data, pos + ADDR + VAL)
}

/// Content of an entry in the addresses table.
#[derive(Clone, Debug)]
pub struct AddressEntry {
    /// Address bytes. Length 20 bytes.
    pub address: Vec<u8>,
    pub offset: u32,
    pub count: u32,
}

impl AddressEntry {
    /// Reads an address entry from byte position `pos`.
    pub fn from_reader(data: &Vec<u8>, pos: u64) -> (r: Result<AddressEntry, StructureError>)
        ensures
            r is Ok <==> pos + AD_ENTRY <= data@.len(),
            r matches Ok(e) ==> e.address@ == spec_address_at(data@, pos as int) && e.offset
                == spec_offset_at(data@, pos as int) && e.count == spec_count_at(
                data@,
                pos as int,
            ),
            data@.len() < pos + ADDR ==> r matches Err(StructureError::InvalidAddress),
            pos + ADDR <= data@.len() < pos + ADDR + VAL ==> r matches Err(
                StructureError::InvalidOffset,
            ),
            pos + ADDR + VAL <= data@.len() < pos + AD_ENTRY ==> r matches Err(
                StructureError::InvalidCount,
            ),
    {
        if data.len() < ADDR || pos > (data.len() - ADDR) as u64 {
            return Err(StructureError::InvalidAddress);
        }
        if data.len() < ADDR + VAL || pos > (data.len() - (ADDR + VAL)) as u64 {
            return Err(StructureError::InvalidOffset);
        }
        if data.len() < AD_ENTRY || pos > (data.len() - AD_ENTRY) as u64 {
            return Err(StructureError::InvalidCount);
        }
        let mut address: Vec<u8> = Vec::new();
        let mut k: u64 = 0;
        while k < ADDR as u64
            invariant
                0 <= k <= ADDR,
                pos + AD_ENTRY <= data.len(),
                address@ =~= data@.subrange(pos as int, pos + k),
            decreases ADDR - k,
        {
            address.push(byte_at(data, pos + k));
            k = k + 1;
        }
        proof {
            assert(address@ =~= spec_address_at(data@, pos as int));
        }
        let offset = read_u32_le(data, pos + ADDR as u64);
        let count = read_u32_le(data, pos + (ADDR + VAL) as u64);
        Ok(AddressEntry { address, offset, count })
    }
}

/// Holds selected transactions for a given address.
#[derive(Clone, Debug, PartialEq)]
pub struct AddressData {
    /// The address that appeared in a transaction.
    pub address: Vec<u8>,
    /// The transactions where the address appeared.
    pub appearances: Vec<TransactionId>,
}

impl View for AddressData {
    type V = (Seq<u8>, Seq<TransactionId>);

    open spec fn view(&self) -> Self::V {
        (self.address@, self.appearances@)
    }
}

/// Content of an entry in the appearances (transactions) table.
#[derive(Clone, Copy, PartialEq, Eq, Structural, Debug)]
pub struct TransactionId {
    /// The Ethereum execution block number.
    pub block: u32,
    /// The index of the transaction in a block.
    pub index: u32,
}

/// The appearance entry stored at byte position `pos`.
pub open spec fn spec_appearance_at(data: Seq<u8>, pos: int) -> TransactionId {
    TransactionId { block: le32_at(data, pos), index: le32_at(data, pos + VAL) }
}

impl TransactionId {
    /// Reads an appearance (transaction) entry from byte position `pos`.
    pub fn from_reader(data: &Vec<u8>, pos: u64) -> (r: Result<TransactionId, StructureError>)
        ensures
            r is Ok <==> pos + AP_ENTRY <= data@.len(),
            r matches Ok(t) ==> t == spec_appearance_at(data@, pos as int),
            data@.len() < pos + VAL ==> r matches Err(StructureError::InvalidTransactionBlock),
            pos + VAL <= data@.len() < pos + AP_ENTRY ==> r matches Err(
                StructureError::InvalidTransactionIndex,
            ),
    {
        if data.len() < VAL || pos > (data.len() - VAL) as u64 {
            return Err(StructureError::InvalidTransactionBlock);
        }
        if data.len() < AP_ENTRY || pos > (data.len() - AP_ENTRY) as u64 {
            return Err(StructureError::InvalidTransactionIndex);
        }
        let block = read_u32_le(data, pos);
        let index = read_u32_le(data, pos + VAL as u64);
        Ok(TransactionId { block, index })
    }
}

} // verus!
