//! Little-endian integers: the byte model shared by the wire format.

use vstd::prelude::*;

verus! {

/// `256^n`.
pub open spec fn pow256(n: nat) -> nat
    decreases n,
{
    if n == 0 {
        1
    } else {
        256 * pow256((n - 1) as nat)
    }
}

/// The `n` least significant bytes of `v`, least significant first.
pub open spec fn le_bytes(v: nat, n: nat) -> Seq<u8>
    decreases n,
{
    if n == 0 {
        Seq::empty()
    } else {
        seq![(v % 256) as u8] + le_bytes(v / 256, (n - 1) as nat)
    }
}

/// The number that a little-endian byte string denotes.
pub open spec fn le_value(s: Seq<u8>) -> nat
    decreases s.len(),
{
    if s.len() == 0 {
        0
    } else {
        s[0] as nat + 256 * le_value(s.drop_first())
    }
}

pub proof fn lemma_pow256_values()
    ensures
        pow256(1) == 256,
        pow256(2) == 0x1_0000,
        pow256(4) == 0x1_0000_0000,
        pow256(7) == 0x100_0000_0000_0000,
        pow256(8) == 0x1_0000_0000_0000_0000,
{
    reveal_with_fuel(pow256, 9);
}

pub proof fn lemma_pow256_monotonic(a: nat, b: nat)
    requires
        a <= b,
    ensures
        pow256(a) <= pow256(b),
        pow256(a) >= 1,
    decreases b,
{
    if a < b {
        lemma_pow256_monotonic(a, (b - 1) as nat);
    } else if b > 0 {
        lemma_pow256_monotonic(0, (b - 1) as nat);
    }
}

pub proof fn lemma_le_bytes_len(v: nat, n: nat)
    ensures
        le_bytes(v, n).len() == n,
    decreases n,
{
    if n > 0 {
        lemma_le_bytes_len(v / 256, (n - 1) as nat);
    }
}

/// A little-endian byte string denotes a number below `256^len`.
pub proof fn lemma_le_value_bound(s: Seq<u8>)
    ensures
        le_value(s) < pow256(s.len()),
    decreases s.len(),
{
    if s.len() > 0 {
        lemma_le_value_bound(s.drop_first());
        let r = le_value(s.drop_first());
        assert(s[0] as nat + 256 * r < 256 * pow256((s.len() - 1) as nat)) by (nonlinear_arith)
            requires
                s[0] < 256,
                r < pow256((s.len() - 1) as nat),
        ;
    }
}

/// Writing `n` bytes of a number below `256^n` and reading them back gives the number.
pub proof fn lemma_le_value_of_bytes(v: nat, n: nat)
    requires
        v < pow256(n),
    ensures
        le_bytes(v, n).len() == n,
        le_value(le_bytes(v, n)) == v,
    decreases n,
{
    lemma_le_bytes_len(v, n);
    if n > 0 {
        let q = v / 256;
        let p = pow256((n - 1) as nat);
        assert(q < p) by (nonlinear_arith)
            requires
                v < 256 * p,
                q == v / 256,
        ;
        lemma_le_value_of_bytes(q, (n - 1) as nat);
        let s = le_bytes(v, n);
        assert(s.drop_first() =~= le_bytes(q, (n - 1) as nat));
        assert(s[0] as nat == v % 256);
    }
}

/// Reading a byte string and writing the number back gives the same bytes.
pub proof fn lemma_le_bytes_of_value(s: Seq<u8>)
    ensures
        le_bytes(le_value(s), s.len()) =~= s,
    decreases s.len(),
{
    if s.len() > 0 {
        let r = le_value(s.drop_first());
        let v = le_value(s);
        lemma_le_bytes_of_value(s.drop_first());
        assert(v % 256 == s[0] as nat && v / 256 == r) by (nonlinear_arith)
            requires
                v == s[0] as nat + 256 * r,
                s[0] < 256,
        ;
        lemma_le_bytes_len(v / 256, (s.len() - 1) as nat);
        assert(le_bytes(v, s.len()) =~= seq![s[0]] + s.drop_first());
    }
}

/// The value of a byte string, peeled at its first byte.
pub proof fn lemma_le_value_subrange_step(b: Seq<u8>, lo: int, hi: int)
    requires
        0 <= lo < hi <= b.len(),
    ensures
        le_value(b.subrange(lo, hi)) == b[lo] as nat + 256 * le_value(b.subrange(lo + 1, hi)),
{
    assert(b.subrange(lo, hi).drop_first() =~= b.subrange(lo + 1, hi));
}

/// Reads the `n`-byte little-endian number at `pos`.
pub fn read_le(b: &[u8], pos: usize, n: usize) -> (r: u64)
    requires
        n <= 8,
        pos + n <= b@.len(),
    ensures
        r as nat == le_value(b@.subrange(pos as int, pos + n)),
{
    let len = b.len();
    let mut acc: u64 = 0;
    let mut k: usize = n;
    proof {
        lemma_pow256_values();
    }
    while k > 0
        invariant
            n <= 8,
            pos + n <= b@.len(),
            len == b@.len(),
            k <= n,
            acc as nat == le_value(b@.subrange(pos + k, pos + n)),
            acc < pow256((n - k) as nat),
        decreases k,
    {
        let byte = b[pos + k - 1];
        proof {
            lemma_le_value_subrange_step(b@, pos + k - 1, pos + n);
            lemma_pow256_monotonic((n - k) as nat, 7);
            lemma_pow256_values();
            assert(acc * 256 + byte < 256 * pow256((n - k) as nat)) by (nonlinear_arith)
                requires
                    acc < pow256((n - k) as nat),
                    byte < 256,
            ;
            assert(acc * 256 + byte <= u64::MAX) by (nonlinear_arith)
                requires
                    acc < pow256((n - k) as nat),
                    pow256((n - k) as nat) <= 0x100_0000_0000_0000,
                    byte < 256,
            ;
        }
        acc = acc * 256 + byte as u64;
        k = k - 1;
    }
    acc
}

} // verus!
