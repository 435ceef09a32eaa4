use vstd::prelude::*;

verus! {

/// The leading zero bits of one byte.
pub open spec fn byte_leading_zeros(b: u8) -> nat {
    if b >= 128 {
        0
    } else if b >= 64 {
        1
    } else if b >= 32 {
        2
    } else if b >= 16 {
        3
    } else if b >= 8 {
        4
    } else if b >= 4 {
        5
    } else if b >= 2 {
        6
    } else if b >= 1 {
        7
    } else {
        8
    }
}

/// The leading zero bits of a byte string read as one big-endian number.
pub open spec fn leading_zero_bits(s: Seq<u8>) -> nat
    decreases s.len(),
{
    if s.len() == 0 {
        0
    } else if s[0] == 0 {
        8 + leading_zero_bits(s.drop_first())
    } else {
        byte_leading_zeros(s[0])
    }
}

fn byte_zeros(b: u8) -> (r: u32)
    ensures
        r == byte_leading_zeros(b),
{
    if b >= 128 {
        0
    } else if b >= 64 {
        1
    } else if b >= 32 {
        2
    } else if b >= 16 {
        3
    } else if b >= 8 {
        4
    } else if b >= 4 {
        5
    } else if b >= 2 {
        6
    } else if b >= 1 {
        7
    } else {
        8
    }
}

/// The number of leading zero bits of a byte string.
pub fn leading_zeros_vec_u8(vec: &[u8]) -> (r: u32)
    requires
        vec@.len() <= 0x1fff_ffff,
    ensures
        r == leading_zero_bits(vec@),
{
    let mut acc: u32 = 0;
    let mut i: usize = 0;
    assert(vec@.subrange(0, vec@.len() as int) =~= vec@);
    while i < vec.len()
        invariant
            i <= vec@.len(),
            vec@.len() <= 0x1fff_ffff,
            acc == 8 * i,
            forall|j: int| 0 <= j < i ==> vec@[j] == 0,
            leading_zero_bits(vec@) == acc + leading_zero_bits(vec@.subrange(i as int, vec@.len() as int)),
        decreases vec@.len() - i,
    {
        let ghost rest = vec@.subrange(i as int, vec@.len() as int);
        if vec[i] != 0 {
            assert(rest[0] == vec@[i as int]);
            return acc + byte_zeros(vec[i]);
        }
        assert(rest.drop_first() =~= vec@.subrange(i + 1, vec@.len() as int));
        acc = acc + 8;
        i = i + 1;
    }
    assert(vec@.subrange(i as int, vec@.len() as int) =~= Seq::<u8>::empty());
    acc
}

} // verus!
