use vstd::prelude::*;
use vstd::string::{StrSliceExecFns, StringSliceAdditionalSpecFns};

verus! {

/// The lowercase ASCII hexadecimal digit of a value below 16.
pub open spec fn hex_digit(v: u8) -> u8 {
    if v < 10 {
        (48 + v) as u8
    } else {
        (87 + v) as u8
    }
}

/// Each byte as two lowercase hexadecimal digits, the high one first.
pub open spec fn hex_of(b: Seq<u8>) -> Seq<u8>
    decreases b.len(),
{
    if b.len() == 0 {
        Seq::empty()
    } else {
        seq![hex_digit(b[0] / 16), hex_digit(b[0] % 16)] + hex_of(b.drop_first())
    }
}

/// The ASCII decimal digits of a number, without sign or leading zeros.
pub open spec fn decimal_of(n: nat) -> Seq<u8>
    decreases n,
{
    if n < 10 {
        seq![(48 + n) as u8]
    } else {
        decimal_of(n / 10).push((48 + n % 10) as u8)
    }
}

/// The ASCII dot that separates the fields of a hashed record.
pub open spec fn dot() -> Seq<u8> {
    seq![46u8]
}

/// Relies on hex::encode: it writes each byte as two lowercase hexadecimal
/// digits, high nibble first.
#[verifier::external_body]
pub(crate) fn hex_encode(b: &[u8]) -> (r: Vec<u8>)
    ensures
        r@ == hex_of(b@),
{
    hex::encode(b).into_bytes()
}

/// The decimal digits of a number, as characters.
pub open spec fn decimal_chars(n: nat) -> Seq<char> {
    decimal_of(n).map_values(|b: u8| b as char)
}

/// Relies on the standard library's `Display` for `u128`: the decimal digits
/// of the value, without sign or leading zeros.
#[verifier::external_body]
pub(crate) fn decimal_string(n: u128) -> (r: String)
    ensures
        r@ == decimal_chars(n as nat),
{
    n.to_string()
}

/// Every decimal digit is an ASCII digit.
proof fn lemma_decimal_digits(n: nat)
    ensures
        forall|i: int| 0 <= i < decimal_of(n).len() ==> 48 <= #[trigger] decimal_of(n)[i] <= 57,
    decreases n,
{
    if n >= 10 {
        lemma_decimal_digits(n / 10);
        let p = decimal_of(n / 10);
        assert(decimal_of(n) == p.push((48 + n % 10) as u8));
        assert forall|i: int| 0 <= i < decimal_of(n).len() implies 48 <= #[trigger] decimal_of(n)[i] <= 57 by {
            if i < p.len() {
                assert(decimal_of(n)[i] == p[i]);
            }
        }
    } else {
        assert(decimal_of(n) == seq![(48 + n) as u8]);
    }
}

/// The ASCII decimal digits of a number.
pub(crate) fn decimal(n: u128) -> (r: Vec<u8>)
    ensures
        r@ == decimal_of(n as nat),
{
    let s = decimal_string(n);
    let st = s.as_str();
    proof {
        lemma_decimal_digits(n as nat);
        assert(vstd::utf8::is_ascii_chars(st@));
        vstd::string::is_ascii_spec_bytes(st);
    }
    let v = st.as_bytes_vec();
    assert(v@ =~= decimal_of(n as nat));
    v
}

/// Appends a dot to a byte buffer.
pub(crate) fn push_dot(buf: &mut Vec<u8>)
    ensures
        final(buf)@ == old(buf)@ + dot(),
{
    buf.push(46u8);
    assert(final(buf)@ =~= old(buf)@ + dot());
}

/// Appends the bytes of `b` to a byte buffer.
pub(crate) fn push_all(buf: &mut Vec<u8>, b: Vec<u8>)
    ensures
        final(buf)@ == old(buf)@ + b@,
{
    let mut b = b;
    buf.append(&mut b);
}

} // verus!
