//! Big-endian integer encoding on byte sequences, the building block of
//! every field of the BGP wire format.
use vstd::prelude::*;
use vstd::arithmetic::div_mod::*;

verus! {

/// `256` raised to the power `n`.
pub open spec fn pow256(n: nat) -> nat
    decreases n,
{
    if n == 0 {
        1
    } else {
        256 * pow256((n - 1) as nat)
    }
}

/// The value of a big-endian byte sequence.
pub open spec fn be_value(s: Seq<u8>) -> nat
    decreases s.len(),
{
    if s.len() == 0 {
        0
    } else {
        be_value(s.drop_last()) * 256 + s.last() as nat
    }
}

/// The `n` lowest bytes of `v`, most significant first.
pub open spec fn be_bytes(v: nat, n: nat) -> Seq<u8>
    decreases n,
{
    if n == 0 {
        Seq::empty()
    } else {
        be_bytes(v / 256, (n - 1) as nat).push((v % 256) as u8)
    }
}

pub proof fn lemma_pow256_pos(n: nat)
    ensures
        pow256(n) >= 1,
    decreases n,
{
    if n > 0 {
        lemma_pow256_pos((n - 1) as nat);
    }
}

pub proof fn lemma_be_bytes_len(v: nat, n: nat)
    ensures
        be_bytes(v, n).len() == n,
    decreases n,
{
    if n > 0 {
        lemma_be_bytes_len(v / 256, (n - 1) as nat);
    }
}

pub proof fn lemma_be_value_bound(s: Seq<u8>)
    ensures
        be_value(s) < pow256(s.len()),
    decreases s.len(),
{
    if s.len() > 0 {
        lemma_be_value_bound(s.drop_last());
    }
}

/// Reading back the `n` bytes of `v` gives `v` modulo `256^n`.
pub proof fn lemma_be_value_of_bytes(v: nat, n: nat)
    ensures
        be_value(be_bytes(v, n)) == v % pow256(n),
    decreases n,
{
    if n == 0 {
        lemma_fundamental_div_mod_converse(v as int, 1, v as int, 0);
    } else {
        lemma_be_bytes_len(v / 256, (n - 1) as nat);
        lemma_be_value_of_bytes(v / 256, (n - 1) as nat);
        let s = be_bytes(v, n);
        assert(s.drop_last() =~= be_bytes(v / 256, (n - 1) as nat));
        lemma_pow256_pos((n - 1) as nat);
        lemma_mod_breakdown(v as int, 256, pow256((n - 1) as nat) as int);
    }
}

/// A value below `256^n` is its own residue.
pub proof fn lemma_be_roundtrip_small(v: nat, n: nat)
    requires
        v < pow256(n),
    ensures
        be_value(be_bytes(v, n)) == v,
{
    lemma_be_value_of_bytes(v, n);
    lemma_small_mod(v, pow256(n));
}

/// Appends the `n` lowest bytes of `v` to `buf`, most significant first.
pub fn push_be(buf: &mut Vec<u8>, v: u128, n: usize)
    requires
        n <= 16,
    ensures
        final(buf)@ == old(buf)@ + be_bytes(v as nat, n as nat),
    decreases n,
{
    if n > 0 {
        push_be(buf, v / 256, n - 1);
        let b = (v % 256) as u8;
        buf.push(b);
        proof {
            let bb = be_bytes((v / 256) as nat, (n - 1) as nat);
            assert(be_bytes(v as nat, n as nat) == bb.push(b));
            assert(buf@ =~= old(buf)@ + be_bytes(v as nat, n as nat));
        }
    }
}

pub fn push_u16(buf: &mut Vec<u8>, v: u16)
    ensures
        final(buf)@ == old(buf)@ + be_bytes(v as nat, 2),
{
    push_be(buf, v as u128, 2);
}

pub fn push_u32(buf: &mut Vec<u8>, v: u32)
    ensures
        final(buf)@ == old(buf)@ + be_bytes(v as nat, 4),
{
    push_be(buf, v as u128, 4);
}

/// Appends all of `src` to `buf`.
pub fn push_all(buf: &mut Vec<u8>, src: &[u8])
    ensures
        final(buf)@ == old(buf)@ + src@,
{
    let mut i: usize = 0;
    while i < src.len()
        invariant
            i <= src.len(),
            buf@ == old(buf)@ + src@.subrange(0, i as int),
        decreases src.len() - i,
    {
        buf.push(src[i]);
        i = i + 1;
        assert(buf@ =~= old(buf)@ + src@.subrange(0, i as int));
    }
    assert(src@.subrange(0, src.len() as int) =~= src@);
}

/// The bytes of `src` from `start` up to `end`, as a new vector.
pub fn copy_range(src: &[u8], start: usize, end: usize) -> (r: Vec<u8>)
    requires
        start <= end <= src.len(),
    ensures
        r@ == src@.subrange(start as int, end as int),
{
    let mut r: Vec<u8> = Vec::new();
    let mut i: usize = start;
    while i < end
        invariant
            start <= i <= end <= src.len(),
            r@ == src@.subrange(start as int, i as int),
        decreases end - i,
    {
        r.push(src[i]);
        i = i + 1;
        assert(r@ =~= src@.subrange(start as int, i as int));
    }
    r
}

/// Reads `n` bytes of `s` from `start` as a big-endian number.
pub fn read_be(s: &[u8], start: usize, n: usize) -> (v: u128)
    requires
        n <= 16,
        start + n <= s.len(),
    ensures
        v == be_value(s@.subrange(start as int, start + n)),
        v < pow256(n as nat),
{
    let mut v: u128 = 0;
    let mut i: usize = 0;
    proof {
        assert(s@.subrange(start as int, start as int) =~= Seq::<u8>::empty());
    }
    while i < n
        invariant
            i <= n <= 16,
            start + n <= s.len(),
            v == be_value(s@.subrange(start as int, start + i)),
            v < pow256(i as nat),
        decreases n - i,
    {
        let b = s[start + i];
        proof {
            let sub = s@.subrange(start as int, start + i + 1);
            assert(sub.drop_last() =~= s@.subrange(start as int, start + i));
            assert(pow256(i as nat) <= pow256(15)) by {
                lemma_pow256_mono(i as nat, 15);
            }
            assert(pow256(15) == 0x1000000000000000000000000000000) by {
                reveal_with_fuel(pow256, 16);
            }
        }
        v = v * 256 + b as u128;
        i = i + 1;
    }
    v
}

pub proof fn lemma_pow256_mono(a: nat, b: nat)
    requires
        a <= b,
    ensures
        pow256(a) <= pow256(b),
    decreases b,
{
    if a < b {
        lemma_pow256_mono(a, (b - 1) as nat);
        lemma_pow256_pos((b - 1) as nat);
    }
}

pub fn read_u16(s: &[u8], start: usize) -> (v: u16)
    requires
        start + 2 <= s.len(),
    ensures
        v == be_value(s@.subrange(start as int, start + 2)),
{
    let v = read_be(s, start, 2);
    proof {
        assert(pow256(2) == 65536) by {
            reveal_with_fuel(pow256, 3);
        }
    }
    v as u16
}

pub fn read_u32(s: &[u8], start: usize) -> (v: u32)
    requires
        start + 4 <= s.len(),
    ensures
        v == be_value(s@.subrange(start as int, start + 4)),
{
    let v = read_be(s, start, 4);
    proof {
        assert(pow256(4) == 0x1_0000_0000) by {
            reveal_with_fuel(pow256, 5);
        }
    }
    v as u32
}

/// The byte at position `i` of the `n` lowest bytes of `v`.
pub proof fn lemma_be_bytes_index(v: nat, n: nat, i: int)
    requires
        0 <= i < n,
    ensures
        be_bytes(v, n)[i] == ((v / pow256((n - 1 - i) as nat)) % 256) as u8,
    decreases n,
{
    lemma_be_bytes_len(v / 256, (n - 1) as nat);
    let b = be_bytes(v, n);
    assert(b == be_bytes(v / 256, (n - 1) as nat).push((v % 256) as u8));
    if i < n - 1 {
        lemma_be_bytes_index(v / 256, (n - 1) as nat, i);
        assert(b[i] == be_bytes(v / 256, (n - 1) as nat)[i]);
        let p = pow256((n - 2 - i) as nat);
        lemma_pow256_pos((n - 2 - i) as nat);
        lemma_div_denominator(v as int, 256, p as int);
        assert(pow256((n - 1 - i) as nat) == 256 * p);
        assert((v / 256) / p == v / (256 * p));
    } else {
        assert(pow256(0) == 1);
        assert(v / 1 == v);
        assert(b[i] == (v % 256) as u8);
    }
}

/// `256^j` is `2^(8j)`.
pub proof fn lemma_pow256_pow2(j: nat)
    ensures
        pow256(j) == vstd::arithmetic::power2::pow2(8 * j),
    decreases j,
{
    vstd::arithmetic::power2::lemma2_to64();
    if j > 0 {
        lemma_pow256_pow2((j - 1) as nat);
        vstd::arithmetic::power2::lemma_pow2_adds(8 * ((j - 1) as nat), 8);
        assert(8 * j == 8 * ((j - 1) as nat) + 8);
    }
}

} // verus!
