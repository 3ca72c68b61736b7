//! Small helpers shared by the response builders: hex literals for numbers
//! and the mapping from raw transaction index values to location names.

use vstd::prelude::*;

use crate::hexutil::hex_digit_char;

verus! {

/// The minimal lowercase hex digits of `n`, most significant first.
pub open spec fn spec_hex_digits(n: int) -> Seq<char>
    decreases n,
{
    if n < 16 {
        seq![hex_digit_char(n)]
    } else {
        spec_hex_digits(n / 16).push(hex_digit_char(n % 16))
    }
}

/// The `0x`-prefixed lowercase hex literal for `n`.
pub open spec fn spec_hex_literal(n: int) -> Seq<char> {
    seq!['0', 'x'] + spec_hex_digits(n)
}

/// Relies on `String::push`: appends the given character at the end.
#[verifier::external_body]
pub(crate) fn push_char(s: &mut String, c: char)
    ensures
        final(s)@ == old(s)@.push(c),
{
    s.push(c);
}

/// Appends the minimal hex digits of `n` to `s`, most significant first.
fn push_hex_digits(s: &mut String, n: u32)
    ensures
        final(s)@ == old(s)@ + spec_hex_digits(n as int),
    decreases n,
{
    if n < 16 {
        push_char(s, hex_digit(n));
        proof {
            assert(s@ =~= old(s)@ + spec_hex_digits(n as int));
        }
    } else {
        push_hex_digits(s, n / 16);
        push_char(s, hex_digit(n % 16));
        proof {
            assert(s@ =~= old(s)@ + spec_hex_digits(n as int));
        }
    }
}

/// The lowercase hex digit character for a value below 16.
fn hex_digit(v: u32) -> (c: char)
    requires
        v < 16,
    ensures
        c == hex_digit_char(v as int),
{
    if v < 10 {
        (48 + v as u8) as char
    } else {
        (87 + v as u8) as char
    }
}

/// Formats `n` as a `0x`-prefixed lowercase hex literal.
pub fn hex_literal(n: u32) -> (r: String)
    ensures
        r@ == spec_hex_literal(n as int),
{
    let mut s = String::new();
    push_char(&mut s, '0');
    push_char(&mut s, 'x');
    proof {
        assert(s@ =~= seq!['0', 'x']);
    }
    push_hex_digits(&mut s, n);
    s
}

/// The location name an Unchained Index transaction index stands for, if any.
pub open spec fn spec_location_of(tx: u32) -> Option<Seq<char>> {
    if tx == 99999 {
        Some("miner"@)
    } else if tx == 99998 {
        Some("uncle"@)
    } else if tx == 99997 || tx == 99996 {
        None
    } else {
        Some(spec_hex_literal(tx as int))
    }
}

/// Converts a transaction id in Unchained Index format to one compatible with
/// the Appearances specification: sentinel values denote miner and uncle
/// rewards, two reserved values are ignorable, everything else becomes the
/// hex transaction index.
pub fn unchained_index_to_location(tx: u32) -> (r: Option<String>)
    ensures
        r is Some <==> spec_location_of(tx) is Some,
        r matches Some(s) ==> spec_location_of(tx) matches Some(l) && s@ == l,
{
    if tx == 99999 {
        Some("miner".to_owned())
    } else if tx == 99998 {
        Some("uncle".to_owned())
    } else if tx == 99997 {
        // stores address 0xdeaddead..., can ignore
        None
    } else if tx == 99996 {
        // external pseudo-transactions, can ignore
        None
    } else {
        Some(hex_literal(tx))
    }
}

} // verus!
