use vstd::prelude::*;

use crate::hash::{blake3_of, hash};

verus! {

/// The root of an empty list of leaves: 32 zero bytes.
pub open spec fn empty_root() -> Seq<u8> {
    Seq::new(32, |i: int| 0u8)
}

/// One level up the tree: each pair of neighbours is hashed together, and a
/// last node without a partner is hashed alone.
pub open spec fn merkle_level(s: Seq<Seq<u8>>) -> Seq<Seq<u8>> {
    Seq::new(
        ((s.len() + 1) / 2) as nat,
        |k: int|
            if 2 * k + 1 < s.len() {
                blake3_of(s[2 * k] + s[2 * k + 1])
            } else {
                blake3_of(s[2 * k])
            },
    )
}

/// The Merkle root of a list of 32-byte leaves.
pub open spec fn merkle_root(s: Seq<Seq<u8>>) -> Seq<u8>
    decreases s.len(),
{
    if s.len() == 0 {
        empty_root()
    } else if s.len() == 1 {
        s[0]
    } else {
        merkle_root(merkle_level(s))
    }
}

/// The leaves of a list of digests, as byte strings.
pub open spec fn leaves(data: Seq<[u8; 32]>) -> Seq<Seq<u8>> {
    data.map_values(|h: [u8; 32]| h@)
}

/// Hashes the leaves level by level until one node is left.
pub fn calculate_merkle_root(data: Vec<[u8; 32]>) -> (r: [u8; 32])
    ensures
        r@ == merkle_root(leaves(data@)),
    decreases data.len(),
{
    if data.len() == 0 {
        let z = [0u8; 32];
        assert(z@ =~= empty_root());
        return z;
    }
    if data.len() == 1 {
        return data[0];
    }
    let n = data.len();
    let mut new_data: Vec<[u8; 32]> = Vec::new();
    let mut i: usize = 0;
    while i + 1 < n
        invariant
            n == data.len(),
            n >= 2,
            i % 2 == 0,
            i <= n,
            new_data.len() == i / 2,
            forall|k: int|
                0 <= k < i / 2 ==> (#[trigger] new_data@[k])@ == merkle_level(leaves(data@))[k],
        decreases n - i,
    {
        let mut combined: Vec<u8> = Vec::new();
        combined.extend_from_slice(&data[i]);
        combined.extend_from_slice(&data[i + 1]);
        assert(combined@ =~= data@[i as int]@ + data@[i + 1]@);
        let h = hash(combined.as_slice());
        new_data.push(h);
        i = i + 2;
    }
    if i < n {
        let h = hash(&data[i]);
        new_data.push(h);
    }
    assert(leaves(new_data@) =~= merkle_level(leaves(data@)));
    calculate_merkle_root(new_data)
}

} // verus!
