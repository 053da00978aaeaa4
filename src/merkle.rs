use vstd::prelude::*;

use crate::bytes::{le_bytes, lemma_le_bytes_len, push_u64_le};
use crate::field::is_elem;
use crate::hash::{hash_to_poly, hash_to_poly_spec};
use crate::msm::{msm_spec, VariableBase};
use crate::poly::is_poly;

verus! {

/// The domain tag that the tree's generators are expanded from.
pub const MERKLE_DOMAIN: u64 = 0x4d45524b4c45;

/// The number of leaves a tree of depth two holds.
pub const MERKLE_CAPACITY: usize = 4;

/// The `n` Pedersen generators, one per input byte.
pub open spec fn generators_spec(n: nat) -> Seq<u64> {
    hash_to_poly_spec(le_bytes(MERKLE_DOMAIN as nat, 8), (n - 1) as nat)
}

/// The windowed Pedersen hash of `input`: `sum_i input_i * G_i`, one eight-bit window per byte.
pub open spec fn pedersen_spec(input: Seq<u8>) -> int {
    msm_spec(generators_spec(input.len()), input.map_values(|b: u8| b as u64), input.len() as int)
}

/// The hash of the leaf in slot `i`; an empty slot holds 32 zero bytes.
pub open spec fn leaf_hash_spec(leaves: Seq<[u8; 32]>, i: int) -> int {
    if i < leaves.len() {
        pedersen_spec(leaves[i]@)
    } else {
        pedersen_spec(Seq::new(32, |k: int| 0u8))
    }
}

/// The hash of an inner node: the Pedersen hash of both children's eight-byte encodings.
pub open spec fn node_hash_spec(left: int, right: int) -> int {
    pedersen_spec(le_bytes(left as nat, 8) + le_bytes(right as nat, 8))
}

/// The root of the depth-two tree over `leaves`.
pub open spec fn root_spec(leaves: Seq<[u8; 32]>) -> int {
    node_hash_spec(
        node_hash_spec(leaf_hash_spec(leaves, 0), leaf_hash_spec(leaves, 1)),
        node_hash_spec(leaf_hash_spec(leaves, 2), leaf_hash_spec(leaves, 3)),
    )
}

/// The Pedersen hash of `input`.
pub fn pedersen_hash(input: &[u8]) -> (r: u64)
    requires
        1 <= input@.len(),
    ensures
        is_elem(r),
        r as int == pedersen_spec(input@),
{
    let mut tag: Vec<u8> = Vec::new();
    push_u64_le(&mut tag, MERKLE_DOMAIN);
    assert(tag@ =~= le_bytes(MERKLE_DOMAIN as nat, 8));
    let gens = hash_to_poly(tag.as_slice(), input.len() - 1);
    let mut scalars: Vec<u64> = Vec::new();
    let mut i: usize = 0;
    while i < input.len()
        invariant
            i <= input@.len(),
            scalars@ == input@.map_values(|b: u8| b as u64).subrange(0, i as int),
            is_poly(scalars@),
        decreases input@.len() - i,
    {
        scalars.push(input[i] as u64);
        proof {
            assert(input@.map_values(|b: u8| b as u64).subrange(0, i + 1) =~= input@.map_values(
                |b: u8| b as u64,
            ).subrange(0, i as int).push(input@[i as int] as u64));
        }
        i = i + 1;
    }
    assert(scalars@ =~= input@.map_values(|b: u8| b as u64));
    VariableBase::msm(gens.as_slice(), scalars.as_slice())
}

fn node_hash(left: u64, right: u64) -> (r: u64)
    ensures
        is_elem(r),
        r as int == node_hash_spec(left as int, right as int),
{
    let mut buf: Vec<u8> = Vec::new();
    push_u64_le(&mut buf, left);
    push_u64_le(&mut buf, right);
    assert(buf@ =~= le_bytes(left as nat, 8) + le_bytes(right as nat, 8));
    pedersen_hash(buf.as_slice())
}

fn leaf_hash(leaves: &[[u8; 32]], i: usize) -> (r: u64)
    ensures
        is_elem(r),
        r as int == leaf_hash_spec(leaves@, i as int),
{
    let mut buf: Vec<u8> = Vec::new();
    let mut k: usize = 0;
    while k < 32
        invariant
            k <= 32,
            buf@.len() == k,
            forall|t: int|
                0 <= t < k ==> #[trigger] buf@[t] == if i < leaves@.len() {
                    leaves@[i as int]@[t]
                } else {
                    0u8
                },
        decreases 32 - k,
    {
        let b: u8 = if i < leaves.len() { leaves[i][k] } else { 0 };
        buf.push(b);
        k = k + 1;
    }
    if i < leaves.len() {
        assert(buf@ =~= leaves@[i as int]@);
    } else {
        assert(buf@ =~= Seq::new(32, |k: int| 0u8));
    }
    pedersen_hash(buf.as_slice())
}

/// The lower-case hexadecimal digit of `d < 16`.
pub open spec fn hex_digit(d: int) -> char {
    if d < 10 {
        (('0' as int) + d) as char
    } else {
        (('a' as int) + d - 10) as char
    }
}

/// Two lower-case hexadecimal digits per byte, high nibble first.
pub open spec fn hex_spec(b: Seq<u8>) -> Seq<char>
    decreases b.len(),
{
    if b.len() == 0 {
        Seq::empty()
    } else {
        seq![hex_digit(b[0] as int / 16), hex_digit(b[0] as int % 16)] + hex_spec(b.drop_first())
    }
}

/// Relies on `hex::encode`: two lower-case hexadecimal digits per byte, high nibble first.
#[verifier::external_body]
fn encode_hex(bytes: &[u8; 32]) -> (r: String)
    ensures
        r@ == hex_spec(bytes@),
{
    hex::encode(bytes)
}

/// A field element as 32 little-endian bytes: its eight bytes, then zeros.
pub open spec fn field_bytes_spec(x: int) -> Seq<u8> {
    le_bytes(x as nat, 8) + Seq::new(24, |t: int| 0u8)
}

/// The root of a Pedersen Merkle tree, as 32 little-endian bytes.
#[derive(Clone, Copy, Debug, PartialEq, Eq)]
pub struct PedersenMerkleRoot(pub [u8; 32]);

impl PedersenMerkleRoot {
    /// The root of the depth-two tree over `leaves`, empty slots holding zero bytes.
    pub fn from_leaves(leaves: &[[u8; 32]]) -> (r: Self)
        requires
            leaves@.len() <= MERKLE_CAPACITY,
        ensures
            r.0@ == field_bytes_spec(root_spec(leaves@)),
    {
        let left = node_hash(leaf_hash(leaves, 0), leaf_hash(leaves, 1));
        let right = node_hash(leaf_hash(leaves, 2), leaf_hash(leaves, 3));
        let root = node_hash(left, right);
        Self::from_field(root)
    }

    /// The 32-byte little-endian encoding of a field element.
    pub fn from_field(root: u64) -> (r: Self)
        ensures
            r.0@ == field_bytes_spec(root as int),
    {
        let mut buf: Vec<u8> = Vec::new();
        push_u64_le(&mut buf, root);
        let mut k: usize = 8;
        while k < 32
            invariant
                8 <= k <= 32,
                buf@ == le_bytes(root as nat, 8) + Seq::new((k - 8) as nat, |t: int| 0u8),
            decreases 32 - k,
        {
            buf.push(0);
            assert(buf@ =~= le_bytes(root as nat, 8) + Seq::new((k + 1 - 8) as nat, |t: int| 0u8));
            k = k + 1;
        }
        proof {
            lemma_le_bytes_len(root as nat, 8);
        }
        let mut out: [u8; 32] = [0u8; 32];
        let mut i: usize = 0;
        while i < 32
            invariant
                i <= 32,
                buf@ == field_bytes_spec(root as int),
                buf@.len() == 32,
                forall|t: int| 0 <= t < i ==> out@[t] == buf@[t],
            decreases 32 - i,
        {
            out[i] = buf[i];
            i = i + 1;
        }
        assert(out@ =~= buf@);
        PedersenMerkleRoot(out)
    }

    /// The root as 64 lower-case hexadecimal digits.
    pub fn to_hex_string(&self) -> (r: String)
        ensures
            r@ == hex_spec(self.0@),
    {
        encode_hex(&self.0)
    }

    pub fn size() -> (r: usize)
        ensures
            r == 32,
    {
        32
    }
}

} // verus!
