//! Big-endian byte strings as natural numbers.
use vstd::prelude::*;

verus! {

/// The value of a big-endian byte string.
pub open spec fn be_value(s: Seq<u8>) -> nat
    decreases s.len(),
{
    if s.len() == 0 {
        0
    } else {
        be_value(s.drop_last()) * 256 + s.last() as nat
    }
}

/// The `n` low-order bytes of `v`, most significant first.
pub open spec fn be_bytes(v: nat, n: nat) -> Seq<u8>
    decreases n,
{
    if n == 0 {
        Seq::empty()
    } else {
        be_bytes(v / 256, (n - 1) as nat).push((v % 256) as u8)
    }
}

/// `v` can be written in `n` bytes.
pub open spec fn fits(v: nat, n: nat) -> bool
    decreases n,
{
    if n == 0 {
        v == 0
    } else {
        fits(v / 256, (n - 1) as nat)
    }
}

/// The fewest bytes in which `v` can be written.
pub open spec fn byte_len(v: nat) -> nat
    decreases v,
{
    if v == 0 {
        0
    } else {
        1 + byte_len(v / 256)
    }
}

pub open spec fn pow256(n: nat) -> nat
    decreases n,
{
    if n == 0 {
        1
    } else {
        256 * pow256((n - 1) as nat)
    }
}

pub proof fn lemma_be_bytes_len(v: nat, n: nat)
    ensures
        be_bytes(v, n).len() == n,
    decreases n,
{
    if n > 0 {
        lemma_be_bytes_len(v / 256, (n - 1) as nat);
    }
}

pub proof fn lemma_be_round_trip(v: nat, n: nat)
    requires
        fits(v, n),
    ensures
        be_value(be_bytes(v, n)) == v,
        be_bytes(v, n).len() == n,
    decreases n,
{
    lemma_be_bytes_len(v, n);
    if n > 0 {
        lemma_be_round_trip(v / 256, (n - 1) as nat);
        let s = be_bytes(v, n);
        assert(s.drop_last() =~= be_bytes(v / 256, (n - 1) as nat));
        assert(v == (v / 256) * 256 + v % 256) by (nonlinear_arith);
    }
}

pub proof fn lemma_fits_iff(v: nat, n: nat)
    ensures
        fits(v, n) <==> byte_len(v) <= n,
    decreases n,
{
    if n > 0 {
        lemma_fits_iff(v / 256, (n - 1) as nat);
    } else if v != 0 {
        assert(byte_len(v) >= 1);
    }
}

pub proof fn lemma_pow256_pos(n: nat)
    ensures
        pow256(n) >= 1,
    decreases n,
{
    if n > 0 {
        lemma_pow256_pos((n - 1) as nat);
    }
}

pub proof fn lemma_fits_pow(v: nat, n: nat)
    ensures
        fits(v, n) <==> v < pow256(n),
    decreases n,
{
    if n > 0 {
        lemma_fits_pow(v / 256, (n - 1) as nat);
        let p = pow256((n - 1) as nat);
        lemma_pow256_pos((n - 1) as nat);
        assert(v / 256 < p <==> v < 256 * p) by (nonlinear_arith)
            requires p >= 1;
    }
}

pub proof fn lemma_be_value_bound(s: Seq<u8>)
    ensures
        be_value(s) < pow256(s.len()),
    decreases s.len(),
{
    if s.len() > 0 {
        lemma_be_value_bound(s.drop_last());
        let a = be_value(s.drop_last());
        let p = pow256((s.len() - 1) as nat);
        let b = s.last() as nat;
        assert(a * 256 + b < 256 * p) by (nonlinear_arith)
            requires a < p, b < 256;
    }
}

pub proof fn lemma_be_value_push(s: Seq<u8>, b: u8)
    ensures
        be_value(s.push(b)) == be_value(s) * 256 + b as nat,
{
    assert(s.push(b).drop_last() =~= s);
}

pub proof fn lemma_pow256_values()
    ensures
        pow256(1) == 256,
        pow256(2) == 0x1_0000,
        pow256(3) == 0x100_0000,
        pow256(4) == 0x1_0000_0000,
        pow256(8) == 0x1_0000_0000_0000_0000,
{
    reveal_with_fuel(pow256, 9);
}

/// Appends the `n` low-order bytes of `v`, most significant first.
pub fn push_be(out: &mut Vec<u8>, v: u64, n: usize)
    ensures
        final(out)@ == old(out)@ + be_bytes(v as nat, n as nat),
    decreases n,
{
    if n == 0 {
        assert(old(out)@ + be_bytes(v as nat, 0) =~= old(out)@);
    } else {
        push_be(out, v / 256, n - 1);
        out.push((v % 256) as u8);
        assert(final(out)@ =~= old(out)@ + be_bytes(v as nat, n as nat));
    }
}

/// Reads `n` bytes starting at `pos` as a big-endian number.
pub fn read_be(buf: &[u8], pos: usize, n: usize) -> (r: u64)
    requires
        n <= 8,
        pos + n <= buf@.len(),
    ensures
        r as nat == be_value(buf@.subrange(pos as int, pos + n)),
{
    let len = buf.len();
    let mut acc: u64 = 0;
    let mut i: usize = 0;
    while i < n
        invariant
            len == buf@.len(),
            i <= n <= 8,
            pos + n <= buf@.len(),
            acc as nat == be_value(buf@.subrange(pos as int, pos + i)),
        decreases n - i,
    {
        let ghost s = buf@.subrange(pos as int, pos + i);
        proof {
            lemma_be_value_bound(s.push(buf@[pos + i]));
            lemma_be_value_push(s, buf@[pos + i]);
            lemma_fits_pow(be_value(s.push(buf@[pos + i])), (i + 1) as nat);
            lemma_fits_pow(be_value(s.push(buf@[pos + i])), 8);
            lemma_fits_iff(be_value(s.push(buf@[pos + i])), (i + 1) as nat);
            lemma_fits_iff(be_value(s.push(buf@[pos + i])), 8);
            lemma_pow256_values();
            assert(buf@.subrange(pos as int, pos + i + 1) =~= s.push(buf@[pos + i]));
        }
        let b = buf[pos + i];
        acc = acc * 256 + b as u64;
        i = i + 1;
    }
    acc
}

/// The fewest bytes in which `v` can be written.
pub fn min_bytes(v: u64) -> (r: usize)
    ensures
        r as nat == byte_len(v as nat),
        r <= 8,
{
    let mut x: u64 = v;
    let mut n: usize = 0;
    proof {
        lemma_fits_pow(v as nat, 8);
        lemma_pow256_values();
        lemma_fits_iff(v as nat, 8);
    }
    while x > 0
        invariant
            byte_len(v as nat) == n + byte_len(x as nat),
            byte_len(v as nat) <= 8,
        decreases x,
    {
        x = x / 256;
        n = n + 1;
    }
    n
}

/// The largest number `n` bytes hold.
pub fn all_ones(n: usize) -> (r: u64)
    requires
        n <= 8,
    ensures
        r as nat + 1 == pow256(n as nat),
{
    let mut r: u64 = 0;
    let mut i: usize = 0;
    proof {
        lemma_pow256_values();
    }
    while i < n
        invariant
            i <= n <= 8,
            r as nat + 1 == pow256(i as nat),
        decreases n - i,
    {
        proof {
            lemma_pow256_mono(i as nat + 1, 8);
            lemma_pow256_values();
        }
        r = r * 256 + 255;
        i = i + 1;
    }
    r
}

pub proof fn lemma_pow256_mono(a: nat, b: nat)
    requires
        a <= b,
    ensures
        pow256(a) <= pow256(b),
    decreases b,
{
    if a < b {
        lemma_pow256_mono(a, (b - 1) as nat);
        lemma_pow256_pos((b - 1) as nat);
    }
}

/// Appends every byte of `b`.
pub fn push_slice(out: &mut Vec<u8>, b: &[u8])
    ensures
        final(out)@ == old(out)@ + b@,
{
    let mut i: usize = 0;
    while i < b.len()
        invariant
            i <= b@.len(),
            out@ == old(out)@ + b@.subrange(0, i as int),
        decreases b@.len() - i,
    {
        out.push(b[i]);
        i = i + 1;
        assert(out@ =~= old(out)@ + b@.subrange(0, i as int));
    }
    assert(b@.subrange(0, i as int) =~= b@);
}

} // verus!
