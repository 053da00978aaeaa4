use vstd::arithmetic::div_mod::{lemma_add_mod_noop, lemma_mul_mod_noop_left};
use vstd::prelude::*;

use crate::bytes::{le_bytes, le_value, push_all, push_u64_le};
use crate::field::{is_elem, MODULUS};

use sha2::Digest;

verus! {

/// The SHA-256 digest of `data`.
pub uninterp spec fn sha256_of(data: Seq<u8>) -> Seq<u8>;

/// Relies on `sha2::Sha256::digest`: a 32-byte digest that depends on the input alone.
#[verifier::external_body]
pub(crate) fn sha256(data: &[u8]) -> (r: Vec<u8>)
    ensures
        r@ == sha256_of(data@),
        r@.len() == 32,
{
    sha2::Sha256::digest(data).to_vec()
}

/// The field element that a byte string reduces to: its little-endian value modulo the field order.
pub open spec fn to_field(s: Seq<u8>) -> int {
    le_value(s) as int % (MODULUS as int)
}

/// The field element that the digest of `input` reduces to.
pub open spec fn hash_to_field_spec(input: Seq<u8>) -> int {
    to_field(sha256_of(input))
}

/// The coefficients `c_0, ..., c_degree` that `input` expands to, in counter mode:
/// `c_i` is the hash of `input` followed by the eight little-endian bytes of `i`.
pub open spec fn hash_to_poly_spec(input: Seq<u8>, degree: nat) -> Seq<u64> {
    Seq::new(degree + 1, |i: int| hash_to_field_spec(input + le_bytes(i as nat, 8)) as u64)
}

/// Reduces a little-endian byte string modulo the field order.
pub fn bytes_to_field(s: &[u8]) -> (r: u64)
    ensures
        is_elem(r),
        r as int == to_field(s@),
{
    let m: u128 = MODULUS as u128;
    let mut acc: u128 = 0;
    let mut i: usize = s.len();
    while i > 0
        invariant
            i <= s@.len(),
            acc < m,
            m == MODULUS,
            acc as int == le_value(s@.subrange(i as int, s@.len() as int)) as int % (MODULUS as int),
        decreases i,
    {
        i = i - 1;
        let ghost tail = s@.subrange(i + 1, s@.len() as int);
        proof {
            let cur = s@.subrange(i as int, s@.len() as int);
            assert(cur.drop_first() =~= tail);
            let mm = MODULUS as int;
            let lv = le_value(tail) as int;
            lemma_mul_mod_noop_left(lv, 256, mm);
            lemma_add_mod_noop(s@[i as int] as int, 256 * lv, mm);
            lemma_add_mod_noop(s@[i as int] as int, 256 * (lv % mm), mm);
            assert((256 * (lv % mm)) % mm == (256 * lv) % mm) by {
                lemma_mul_mod_noop_left(lv, 256, mm);
                assert(256 * (lv % mm) == (lv % mm) * 256) by (nonlinear_arith);
                assert(256 * lv == lv * 256) by (nonlinear_arith);
            };
        }
        acc = (acc * 256 + s[i] as u128) % m;
    }
    assert(s@.subrange(0, s@.len() as int) =~= s@);
    acc as u64
}

/// The field element that the SHA-256 digest of `input` reduces to.
pub fn hash_to_field(input: &[u8]) -> (r: u64)
    ensures
        is_elem(r),
        r as int == hash_to_field_spec(input@),
{
    let d = sha256(input);
    bytes_to_field(d.as_slice())
}

/// Expands `input` into the `degree + 1` coefficients of a dense polynomial.
pub fn hash_to_poly(input: &[u8], degree: usize) -> (r: Vec<u64>)
    requires
        degree < usize::MAX,
    ensures
        r@ == hash_to_poly_spec(input@, degree as nat),
        forall|i: int| 0 <= i < r@.len() ==> is_elem(#[trigger] r@[i]),
{
    let mut out: Vec<u64> = Vec::new();
    let mut i: usize = 0;
    while i <= degree
        invariant
            i <= degree + 1,
            degree < usize::MAX,
            out@.len() == i,
            forall|k: int|
                0 <= k < i ==> #[trigger] out@[k] == hash_to_poly_spec(input@, degree as nat)[k],
            forall|k: int| 0 <= k < i ==> is_elem(#[trigger] out@[k]),
        decreases degree + 1 - i,
    {
        let mut buf: Vec<u8> = Vec::new();
        push_all(&mut buf, input);
        push_u64_le(&mut buf, i as u64);
        assert(buf@ =~= input@ + le_bytes(i as nat, 8));
        let c = hash_to_field(buf.as_slice());
        out.push(c);
        i = i + 1;
    }
    assert(out@ =~= hash_to_poly_spec(input@, degree as nat));
    out
}

/// The byte transcript of a list of group elements: their little-endian encodings, in order.
pub open spec fn transcript(cs: Seq<u64>) -> Seq<u8>
    decreases cs.len(),
{
    if cs.len() == 0 {
        Seq::empty()
    } else {
        transcript(cs.drop_last()) + le_bytes(cs.last() as nat, 8)
    }
}

/// The challenges for a list of commitments: one per commitment, then the evaluation point,
/// expanded in counter mode from the digest of the transcript.
pub open spec fn hash_commitments_spec(cs: Seq<u64>) -> Seq<u64> {
    hash_to_poly_spec(sha256_of(transcript(cs)), cs.len())
}

/// The single challenge derived from one commitment's encoding.
pub open spec fn hash_commitment_spec(c: u64) -> int {
    hash_to_field_spec(le_bytes(c as nat, 8))
}

pub fn hash_commitment(c: u64) -> (r: u64)
    ensures
        is_elem(r),
        r as int == hash_commitment_spec(c),
{
    let mut buf: Vec<u8> = Vec::new();
    push_u64_le(&mut buf, c);
    assert(buf@ =~= le_bytes(c as nat, 8));
    hash_to_field(buf.as_slice())
}

pub fn hash_commitments(cs: &[u64]) -> (r: Vec<u64>)
    requires
        cs@.len() < usize::MAX,
    ensures
        r@ == hash_commitments_spec(cs@),
        r@.len() == cs@.len() + 1,
        forall|i: int| 0 <= i < r@.len() ==> is_elem(#[trigger] r@[i]),
{
    let mut buf: Vec<u8> = Vec::new();
    let mut i: usize = 0;
    while i < cs.len()
        invariant
            i <= cs@.len(),
            buf@ == transcript(cs@.subrange(0, i as int)),
        decreases cs@.len() - i,
    {
        push_u64_le(&mut buf, cs[i]);
        proof {
            let next = cs@.subrange(0, i + 1);
            assert(next.drop_last() =~= cs@.subrange(0, i as int));
        }
        i = i + 1;
    }
    assert(cs@.subrange(0, cs@.len() as int) =~= cs@);
    let state = sha256(buf.as_slice());
    hash_to_poly(state.as_slice(), cs.len())
}

} // verus!
