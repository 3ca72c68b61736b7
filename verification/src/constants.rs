//! Constants particular to Unchained Index chunk files.
//!
//! A chunk file has this layout, all integers little-endian:
//! - header (44 bytes): magic `0xdeadbeef` (4 bytes), version hash (32 bytes),
//!   n_addresses (4 bytes), n_appearances (4 bytes)
//! - address table (n_addresses x 28 bytes): address (20 bytes),
//!   offset (4 bytes, an entry index into the appearance table), count (4 bytes)
//! - appearance table (n_appearances x 8 bytes): block number (4 bytes),
//!   transaction index (4 bytes)

use vstd::prelude::*;

verus! {

/// Byte size of an address.
pub const ADDR: usize = 20;

/// Byte size of a standard value.
pub const VAL: usize = 4;

/// Byte size of the file version hash.
pub const VER: usize = 32;

/// Byte size of an address table entry (28).
pub const AD_ENTRY: usize = ADDR + VAL + VAL;

/// Byte size of an appearance table entry (8).
pub const AP_ENTRY: usize = VAL + VAL;

/// Byte size of the file header (44).
pub const HEAD: usize = 4 + VER + VAL + VAL;

/// The magic bytes that start every chunk file (0xdeadbeef little-endian).
pub open spec fn spec_magic() -> Seq<u8> {
    seq![0xefu8, 0xbeu8, 0xadu8, 0xdeu8]
}

/// The magic bytes as a vector, for comparison against a file's first bytes.
pub fn magic_bytes() -> (r: Vec<u8>)
    ensures
        r@ == spec_magic(),
{
    let mut v: Vec<u8> = Vec::new();
    v.push(0xef);
    v.push(0xbe);
    v.push(0xad);
    v.push(0xde);
    proof {
        assert(v@ =~= spec_magic());
    }
    v
}

} // verus!
