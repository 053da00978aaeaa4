use vstd::prelude::*;

verus! {

/// The `n` low-order bytes of `x`, least significant first.
pub open spec fn le_bytes(x: nat, n: nat) -> Seq<u8>
    decreases n,
{
    if n == 0 {
        Seq::empty()
    } else {
        seq![(x % 256) as u8] + le_bytes(x / 256, (n - 1) as nat)
    }
}

/// The unsigned integer that `s` encodes, least significant byte first.
pub open spec fn le_value(s: Seq<u8>) -> nat
    decreases s.len(),
{
    if s.len() == 0 {
        0
    } else {
        (s[0] as nat + 256 * le_value(s.drop_first())) as nat
    }
}

/// `256^n`.
pub open spec fn pow256(n: nat) -> nat
    decreases n,
{
    if n == 0 {
        1
    } else {
        256 * pow256((n - 1) as nat)
    }
}

/// An `n`-byte string encodes a value below `256^n`.
pub proof fn lemma_le_value_bound(s: Seq<u8>)
    ensures
        le_value(s) < pow256(s.len()),
    decreases s.len(),
{
    if s.len() > 0 {
        lemma_le_value_bound(s.drop_first());
        let v = le_value(s.drop_first());
        let p = pow256((s.len() - 1) as nat);
        let b = s[0] as nat;
        assert(b + 256 * v < 256 * p) by (nonlinear_arith)
            requires
                v < p,
                b < 256,
        ;
    }
}

/// Reads the value of eight little-endian bytes.
pub fn u64_from_le(s: &[u8]) -> (r: u64)
    requires
        s@.len() == 8,
    ensures
        r as nat == le_value(s@),
{
    let mut acc: u64 = 0;
    let mut i: usize = 8;
    proof {
        reveal_with_fuel(pow256, 9);
    }
    while i > 0
        invariant
            i <= 8,
            s@.len() == 8,
            acc as nat == le_value(s@.subrange(i as int, 8)),
            pow256((8 - i) as nat) * pow256(i as nat) == pow256(8),
            pow256(8) == 0x1_0000_0000_0000_0000,
        decreases i,
    {
        i = i - 1;
        let ghost tail = s@.subrange(i + 1, 8);
        proof {
            assert(s@.subrange(i as int, 8).drop_first() =~= tail);
            lemma_le_value_bound(tail);
            let p = pow256((8 - i - 1) as nat);
            let q = pow256(i as nat);
            lemma_pow256_positive(i as nat);
            assert(pow256((8 - i) as nat) == 256 * p);
            assert(pow256((i + 1) as nat) == 256 * q);
            assert(p * (256 * q) == 256 * p * q) by (nonlinear_arith);
            assert(acc as nat * 256 + s@[i as int] < 256 * p) by (nonlinear_arith)
                requires
                    acc < p,
                    s@[i as int] < 256,
            ;
            assert(256 * p <= 256 * p * q) by (nonlinear_arith)
                requires
                    q >= 1,
            ;
        }
        acc = acc * 256 + s[i] as u64;
    }
    assert(s@.subrange(0, 8) =~= s@);
    acc
}

proof fn lemma_pow256_positive(n: nat)
    ensures
        pow256(n) >= 1,
    decreases n,
{
    if n > 0 {
        lemma_pow256_positive((n - 1) as nat);
    }
}

/// `le_bytes` yields exactly `n` bytes.
pub proof fn lemma_le_bytes_len(x: nat, n: nat)
    ensures
        le_bytes(x, n).len() == n,
    decreases n,
{
    if n > 0 {
        lemma_le_bytes_len(x / 256, (n - 1) as nat);
    }
}

/// Appends the eight little-endian bytes of `x` to `out`.
pub fn push_u64_le(out: &mut Vec<u8>, x: u64)
    ensures
        final(out)@ == old(out)@ + le_bytes(x as nat, 8),
{
    let mut v: u64 = x;
    let mut k: usize = 0;
    let ghost start = out@;
    while k < 8
        invariant
            k <= 8,
            out@ + le_bytes(v as nat, (8 - k) as nat) == start + le_bytes(x as nat, 8),
        decreases 8 - k,
    {
        proof {
            assert(le_bytes(v as nat, (8 - k) as nat) =~= seq![(v % 256) as u8] + le_bytes(
                (v / 256) as nat,
                (8 - k - 1) as nat,
            ));
        }
        out.push((v % 256) as u8);
        proof {
            assert(out@ + le_bytes((v / 256) as nat, (8 - k - 1) as nat) =~= start + le_bytes(
                x as nat,
                8,
            ));
        }
        v = v / 256;
        k = k + 1;
    }
    assert(out@ =~= out@ + le_bytes(v as nat, 0));
}

/// Appends all of `src` to `out`.
pub fn push_all(out: &mut Vec<u8>, src: &[u8])
    ensures
        final(out)@ == old(out)@ + src@,
{
    let ghost start = out@;
    let mut i: usize = 0;
    while i < src.len()
        invariant
            i <= src@.len(),
            out@ == start + src@.subrange(0, i as int),
        decreases src@.len() - i,
    {
        out.push(src[i]);
        proof {
            assert(src@.subrange(0, i + 1) =~= src@.subrange(0, i as int).push(src@[i as int]));
        }
        i = i + 1;
    }
    assert(src@.subrange(0, src@.len() as int) =~= src@);
}

} // verus!
