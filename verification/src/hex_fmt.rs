use vstd::prelude::*;

verus! {

/// The lowercase hex digit for a value below sixteen.
pub open spec fn hex_digit(n: int) -> char
    recommends
        0 <= n < 16,
{
    if n < 10 {
        (('0' as int) + n) as char
    } else {
        (('a' as int) + (n - 10)) as char
    }
}

/// The two hex digits of one byte, high nibble first.
pub open spec fn hex_pair(b: u8) -> Seq<char> {
    seq![hex_digit(b as int / 16), hex_digit(b as int % 16)]
}

/// The lowercase hex rendering of a byte sequence.
pub open spec fn hex_seq(bytes: Seq<u8>) -> Seq<char>
    decreases bytes.len(),
{
    if bytes.len() == 0 {
        Seq::empty()
    } else {
        hex_pair(bytes[0]) + hex_seq(bytes.drop_first())
    }
}

/// Relies on hex::encode: each byte becomes two lowercase hex digits, high
/// nibble first, drawn from the table "0123456789abcdef".
#[verifier::external_body]
fn hex_encode(bytes: &Vec<u8>) -> (r: String)
    ensures
        r@ == hex_seq(bytes@),
{
    hex::encode(bytes.as_slice())
}

/// Relies on format!: the result is "0x" followed by the argument.
#[verifier::external_body]
fn prefix_0x(s: String) -> (r: String)
    ensures
        r@ == seq!['0', 'x'] + s@,
{
    format!("0x{}", s)
}

/// Render bytes in the 0x-prefixed lowercase hex form that the rpc
/// protocol's string parameters use.
pub fn to_hex(bytes: &Vec<u8>) -> (r: String)
    ensures
        r@ == seq!['0', 'x'] + hex_seq(bytes@),
{
    prefix_0x(hex_encode(bytes))
}

} // verus!
