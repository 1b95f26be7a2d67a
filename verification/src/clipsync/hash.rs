//! A 64-bit FNV-1a hash, by which two contents are told apart.
use vstd::prelude::*;

verus! {

pub const FNV_OFFSET: u64 = 0xcbf29ce484222325;

pub const FNV_PRIME: u64 = 0x100000001b3;

/// The hash once one more byte has been taken in.
pub open spec fn fnv_step(h: u64, b: u8) -> u64 {
    ((h ^ (b as u64)) as int * FNV_PRIME as int % 0x1_0000_0000_0000_0000) as u64
}

/// The hash once some more bytes have been taken in.
pub open spec fn fnv_more(h: u64, s: Seq<u8>) -> u64
    decreases s.len(),
{
    if s.len() == 0 {
        h
    } else {
        fnv_step(fnv_more(h, s.drop_last()), s.last())
    }
}

/// The hash of some bytes.
pub open spec fn fnv1a(s: Seq<u8>) -> u64 {
    fnv_more(FNV_OFFSET, s)
}

/// Taking in two pieces one after the other is taking in the whole.
pub proof fn lemma_fnv_append(h: u64, a: Seq<u8>, b: Seq<u8>)
    ensures
        fnv_more(h, a + b) == fnv_more(fnv_more(h, a), b),
    decreases b.len(),
{
    if b.len() == 0 {
        assert(a + b =~= a);
    } else {
        assert((a + b).drop_last() =~= a + b.drop_last());
        lemma_fnv_append(h, a, b.drop_last());
    }
}

/// Takes in one byte.
pub fn fnv_byte(h: u64, b: u8) -> (r: u64)
    ensures
        r == fnv_step(h, b),
{
    let mixed: u64 = h ^ (b as u64);
    let wide: u128 = mixed as u128 * FNV_PRIME as u128;
    (wide % 0x1_0000_0000_0000_0000) as u64
}

/// Takes in some bytes.
pub fn fnv_bytes(h: u64, s: &[u8]) -> (r: u64)
    ensures
        r == fnv_more(h, s@),
{
    let n: usize = s.len();
    let mut r: u64 = h;
    let mut i: usize = 0;
    while i < n
        invariant
            i <= n,
            n == s@.len(),
            r == fnv_more(h, s@.take(i as int)),
        decreases n - i,
    {
        r = fnv_byte(r, s[i]);
        i = i + 1;
        assert(s@.take(i as int).drop_last() =~= s@.take(i - 1));
    }
    assert(s@.take(n as int) =~= s@);
    r
}

/// The hash starts at its offset; every byte is mixed in by its bits, and the result is multiplied
/// by the prime, modulo two to the sixty-fourth power.
pub proof fn law_every_byte_is_mixed_in(s: Seq<u8>, b: u8)
    ensures
        fnv1a(Seq::empty()) == 0xcbf2_9ce4_8422_2325,
        (fnv1a(s.push(b)) - (fnv1a(s) ^ (b as u64)) as int * 0x100_0000_01b3)
            % 0x1_0000_0000_0000_0000 == 0,
{
    assert(s.push(b).drop_last() =~= s);
    let x = (fnv1a(s) ^ (b as u64)) as int * 0x100_0000_01b3;
    let m = 0x1_0000_0000_0000_0000int;
    assert(x % m - x == -(x / m) * m) by (nonlinear_arith)
        requires
            m == 0x1_0000_0000_0000_0000int,
    ;
    vstd::arithmetic::div_mod::lemma_mod_multiples_basic(-(x / m), m);
}

/// Content can be taken in piece by piece, in its order.
pub proof fn law_pieces_follow_each_other(a: Seq<u8>, b: Seq<u8>)
    ensures
        fnv1a(a + b) == fnv_more(fnv1a(a), b),
{
    lemma_fnv_append(FNV_OFFSET, a, b);
}

} // verus!
