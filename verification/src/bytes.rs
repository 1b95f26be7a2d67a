//! Integers as byte strings: most significant byte first on the wire, and in the order of the
//! machine in structures that stay on it.
use vstd::prelude::*;

verus! {

/// The number that a byte string stands for when its first byte is the most significant one.
pub open spec fn be_value(s: Seq<u8>) -> nat
    decreases s.len(),
{
    if s.len() == 0 {
        0
    } else {
        be_value(s.drop_last()) * 256 + s.last() as nat
    }
}

/// The `width` low-order bytes of `n`, the most significant one first.
pub open spec fn be_bytes(n: nat, width: nat) -> Seq<u8>
    decreases width,
{
    if width == 0 {
        Seq::empty()
    } else {
        be_bytes(n / 256, (width - 1) as nat).push((n % 256) as u8)
    }
}

/// The `width` low-order bytes of `n`, the least significant one first.
pub open spec fn le_bytes(n: nat, width: nat) -> Seq<u8>
    decreases width,
{
    if width == 0 {
        Seq::empty()
    } else {
        seq![(n % 256) as u8] + le_bytes(n / 256, (width - 1) as nat)
    }
}

/// The order of the bytes of a number.
#[derive(Clone, Copy, Debug, PartialEq, Eq, Structural)]
pub enum ByteOrder {
    /// The least significant one first.
    Little,
    /// The most significant one first.
    Big,
}

impl ByteOrder {
    /// The `width` low-order bytes of `n` in this order.
    pub open spec fn bytes(self, n: nat, width: nat) -> Seq<u8> {
        match self {
            ByteOrder::Little => le_bytes(n, width),
            ByteOrder::Big => be_bytes(n, width),
        }
    }
}

/// 256 to the power `width`: how many values `width` bytes can hold.
pub open spec fn byte_range(width: nat) -> nat
    decreases width,
{
    if width == 0 {
        1
    } else {
        256 * byte_range((width - 1) as nat)
    }
}

pub proof fn lemma_be_bytes_len(n: nat, width: nat)
    ensures
        be_bytes(n, width).len() == width,
    decreases width,
{
    if width > 0 {
        lemma_be_bytes_len(n / 256, (width - 1) as nat);
    }
}

pub proof fn lemma_le_bytes_len(n: nat, width: nat)
    ensures
        le_bytes(n, width).len() == width,
    decreases width,
{
    if width > 0 {
        lemma_le_bytes_len(n / 256, (width - 1) as nat);
    }
}

/// Reading back what was written gives the number, provided it fits into the width.
pub proof fn lemma_be_value_of_bytes(n: nat, width: nat)
    requires
        n < byte_range(width),
    ensures
        be_value(be_bytes(n, width)) == n,
    decreases width,
{
    if width > 0 {
        let rest = (width - 1) as nat;
        assert(n / 256 < byte_range(rest)) by (nonlinear_arith)
            requires
                n < 256 * byte_range(rest),
        ;
        lemma_be_value_of_bytes(n / 256, rest);
        assert(be_bytes(n, width).drop_last() =~= be_bytes(n / 256, rest));
    }
}

/// Writing the number that was read gives the bytes back.
pub proof fn lemma_be_bytes_of_value(s: Seq<u8>)
    ensures
        be_bytes(be_value(s), s.len()) == s,
        be_value(s) < byte_range(s.len()),
    decreases s.len(),
{
    if s.len() > 0 {
        lemma_be_bytes_of_value(s.drop_last());
        let hi = be_value(s.drop_last());
        let lo = s.last() as nat;
        assert((hi * 256 + lo) / 256 == hi && (hi * 256 + lo) % 256 == lo) by (nonlinear_arith)
            requires
                lo < 256,
        ;
        assert(be_bytes(be_value(s), s.len()) =~= s);
    }
}

pub proof fn lemma_byte_ranges()
    ensures
        byte_range(1) == 0x100,
        byte_range(2) == 0x1_0000,
        byte_range(4) == 0x1_0000_0000,
        byte_range(8) == 0x1_0000_0000_0000_0000,
{
    reveal_with_fuel(byte_range, 9);
}

/// Appends the bytes of `more` to `out`.
pub fn append_bytes(out: &mut Vec<u8>, more: &[u8])
    ensures
        final(out)@ == old(out)@ + more@,
{
    let n: usize = more.len();
    let mut i: usize = 0;
    let ghost start = out@;
    while i < n
        invariant
            i <= n,
            n == more@.len(),
            out@ == start + more@.take(i as int),
        decreases n - i,
    {
        out.push(more[i]);
        i = i + 1;
        assert(more@.take(i as int) =~= more@.take(i - 1).push(more@[i - 1]));
    }
    assert(more@.take(n as int) =~= more@);
}

/// Appends `n` in two bytes, least significant first.
pub fn put_u16_le(out: &mut Vec<u8>, n: u16)
    ensures
        final(out)@ == old(out)@ + le_bytes(n as nat, 2),
{
    proof {
        reveal_with_fuel(le_bytes, 3);
    }
    out.push((n % 256) as u8);
    out.push((n / 256) as u8);
    assert(out@ =~= old(out)@ + le_bytes(n as nat, 2));
}

/// Appends `n` in two bytes, most significant first.
pub fn put_u16_be(out: &mut Vec<u8>, n: u16)
    ensures
        final(out)@ == old(out)@ + be_bytes(n as nat, 2),
{
    proof {
        reveal_with_fuel(be_bytes, 3);
    }
    out.push((n / 256) as u8);
    out.push((n % 256) as u8);
    assert(out@ =~= old(out)@ + be_bytes(n as nat, 2));
}

/// Appends `n` in four bytes, least significant first.
pub fn put_u32_le(out: &mut Vec<u8>, n: u32)
    ensures
        final(out)@ == old(out)@ + le_bytes(n as nat, 4),
{
    proof {
        reveal_with_fuel(le_bytes, 5);
    }
    out.push((n % 256) as u8);
    out.push((n / 256 % 256) as u8);
    out.push((n / 256 / 256 % 256) as u8);
    out.push((n / 256 / 256 / 256) as u8);
    assert(out@ =~= old(out)@ + le_bytes(n as nat, 4));
}

/// Appends `n` in four bytes, most significant first.
pub fn put_u32_be(out: &mut Vec<u8>, n: u32)
    ensures
        final(out)@ == old(out)@ + be_bytes(n as nat, 4),
{
    proof {
        reveal_with_fuel(be_bytes, 5);
    }
    out.push((n / 256 / 256 / 256) as u8);
    out.push((n / 256 / 256 % 256) as u8);
    out.push((n / 256 % 256) as u8);
    out.push((n % 256) as u8);
    assert(out@ =~= old(out)@ + be_bytes(n as nat, 4));
}

/// Appends `n` in two bytes of the given order.
pub fn put_u16(out: &mut Vec<u8>, n: u16, order: ByteOrder)
    ensures
        final(out)@ == old(out)@ + order.bytes(n as nat, 2),
{
    match order {
        ByteOrder::Little => put_u16_le(out, n),
        ByteOrder::Big => put_u16_be(out, n),
    }
}

/// Appends `n` in four bytes of the given order.
pub fn put_u32(out: &mut Vec<u8>, n: u32, order: ByteOrder)
    ensures
        final(out)@ == old(out)@ + order.bytes(n as nat, 4),
{
    match order {
        ByteOrder::Little => put_u32_le(out, n),
        ByteOrder::Big => put_u32_be(out, n),
    }
}

/// `u32::to_ne_bytes`, the bytes of a number in the order of the machine. Taken on trust: they are
/// its bytes in one of the two orders. Which of them it is rests on the machine, and is not said.
#[verifier::external_body]
pub(crate) fn u32_to_ne_bytes(n: u32) -> (b: [u8; 4])
    ensures
        b@ == le_bytes(n as nat, 4) || b@ == be_bytes(n as nat, 4),
{
    n.to_ne_bytes()
}

/// Tells the order of some bytes that hold the number one.
pub fn order_of_one(one: &[u8; 4]) -> (order: ByteOrder)
    ensures
        order == if one@[0] == 1 {
            ByteOrder::Little
        } else {
            ByteOrder::Big
        },
        one@ == le_bytes(1, 4) ==> order == ByteOrder::Little,
        one@ == be_bytes(1, 4) ==> order == ByteOrder::Big,
{
    proof {
        reveal_with_fuel(le_bytes, 5);
        reveal_with_fuel(be_bytes, 5);
        assert(le_bytes(1, 4)[0] == 1);
        assert(be_bytes(1, 4)[0] == 0);
    }
    if one[0] == 1 {
        ByteOrder::Little
    } else {
        ByteOrder::Big
    }
}

/// Appends `n` in eight bytes, most significant first.
pub fn put_u64_be(out: &mut Vec<u8>, n: u64)
    ensures
        final(out)@ == old(out)@ + be_bytes(n as nat, 8),
{
    let n1: u64 = n / 256;
    let n2: u64 = n1 / 256;
    let n3: u64 = n2 / 256;
    let n4: u64 = n3 / 256;
    let n5: u64 = n4 / 256;
    let n6: u64 = n5 / 256;
    let n7: u64 = n6 / 256;
    out.push(n7 as u8);
    out.push((n6 % 256) as u8);
    out.push((n5 % 256) as u8);
    out.push((n4 % 256) as u8);
    out.push((n3 % 256) as u8);
    out.push((n2 % 256) as u8);
    out.push((n1 % 256) as u8);
    out.push((n % 256) as u8);
    proof {
        reveal_with_fuel(be_bytes, 3);
        assert(n7 < 256);
        assert(be_bytes(n6 as nat, 2) =~= seq![n7 as u8, (n6 % 256) as u8]);
        assert(be_bytes(n4 as nat, 4) =~= seq![
            n7 as u8,
            (n6 % 256) as u8,
            (n5 % 256) as u8,
            (n4 % 256) as u8,
        ]);
        assert(be_bytes(n2 as nat, 6) =~= be_bytes(n4 as nat, 4) + seq![
            (n3 % 256) as u8,
            (n2 % 256) as u8,
        ]);
        assert(be_bytes(n as nat, 8) =~= be_bytes(n2 as nat, 6) + seq![
            (n1 % 256) as u8,
            (n % 256) as u8,
        ]);
        assert(out@ =~= old(out)@ + be_bytes(n as nat, 8));
    }
}

/// Reads four bytes at `at`, most significant first.
pub fn get_u32_be(buf: &[u8], at: usize) -> (n: u32)
    requires
        at + 4 <= buf@.len(),
    ensures
        n as nat == be_value(buf@.subrange(at as int, at + 4)),
{
    let n: u32 = ((buf[at] as u32 * 256 + buf[at + 1] as u32) * 256 + buf[at + 2] as u32) * 256
        + buf[at + 3] as u32;
    proof {
        reveal_with_fuel(be_value, 5);
        let s = buf@.subrange(at as int, at + 4);
        assert(s.drop_last().drop_last().drop_last().drop_last() =~= Seq::<u8>::empty());
    }
    n
}

/// Reads eight bytes at `at`, most significant first.
pub fn get_u64_be(buf: &[u8], at: usize) -> (n: u64)
    requires
        at + 8 <= buf@.len(),
    ensures
        n as nat == be_value(buf@.subrange(at as int, at + 8)),
{
    let hi: u32 = get_u32_be(buf, at);
    let len: usize = buf.len();
    assert(at + 8 <= len);
    let lo: u32 = get_u32_be(buf, at + 4);
    let n: u64 = hi as u64 * 0x1_0000_0000 + lo as u64;
    proof {
        reveal_with_fuel(be_value, 9);
        let s = buf@.subrange(at as int, at + 8);
        let h = buf@.subrange(at as int, at + 4);
        let l = buf@.subrange(at + 4, at + 8);
        assert(s.drop_last().drop_last().drop_last().drop_last() =~= h);
        assert(l.drop_last().drop_last().drop_last().drop_last() =~= Seq::<u8>::empty());
    }
    n
}

/// A 32-bit signed number as its two's complement bit pattern.
pub open spec fn i32_pattern(n: i32) -> nat {
    if n < 0 {
        (n + 0x1_0000_0000) as nat
    } else {
        n as nat
    }
}

/// The signed number with a given 32-bit two's complement pattern.
pub open spec fn i32_of_pattern(n: nat) -> i32 {
    if n < 0x8000_0000 {
        n as i32
    } else {
        (n - 0x1_0000_0000) as i32
    }
}

/// The two's complement bit pattern of a signed number.
pub fn i32_to_pattern(n: i32) -> (p: u32)
    ensures
        p as nat == i32_pattern(n),
{
    if n < 0 {
        (n as i64 + 0x1_0000_0000) as u32
    } else {
        n as u32
    }
}

/// The signed number with a given two's complement bit pattern.
pub fn i32_from_pattern(p: u32) -> (n: i32)
    ensures
        n == i32_of_pattern(p as nat),
{
    if p < 0x8000_0000 {
        p as i32
    } else {
        (p as i64 - 0x1_0000_0000) as i32
    }
}

/// On the wire a byte counts 256 times as much as the one behind it.
pub proof fn law_earlier_bytes_count_more(a: Seq<u8>, b: Seq<u8>)
    ensures
        be_value(Seq::empty()) == 0,
        forall|x: u8| #[trigger] be_value(seq![x]) == x,
        b.len() == 1 ==> be_value(a + b) == 256 * be_value(a) + b[0],
        be_value(a + b) == be_value(a) * byte_range(b.len()) + be_value(b),
    decreases b.len(),
{
    reveal_with_fuel(be_value, 2);
    assert forall|x: u8| #[trigger] be_value(seq![x]) == x by {
        assert(seq![x].drop_last() =~= Seq::<u8>::empty());
    }
    if b.len() == 0 {
        assert(a + b =~= a);
        assert(be_value(a) * 1 == be_value(a));
    } else {
        let init = b.drop_last();
        law_earlier_bytes_count_more(a, init);
        assert((a + b).drop_last() =~= a + init);
        if b.len() == 1 {
            assert(a + init =~= a);
        }
        let x = be_value(a);
        let r = byte_range(init.len());
        let y = be_value(init);
        let z = b.last() as nat;
        assert((x * r + y) * 256 + z == x * (256 * r) + (y * 256 + z)) by (nonlinear_arith);
    }
}

/// The bytes of a number, each at its place: from the most significant one down on the wire, and the
/// other way round where the least significant one comes first.
pub proof fn law_bytes_of_a_number(n: u32)
    ensures
        ({
            let b = be_bytes(n as nat, 4);
            &&& b.len() == 4
            &&& 0x100_0000 * b[0] + 0x1_0000 * b[1] + 0x100 * b[2] + b[3] == n
        }),
        ({
            let l = le_bytes(n as nat, 4);
            &&& l.len() == 4
            &&& 0x100_0000 * l[3] + 0x1_0000 * l[2] + 0x100 * l[1] + l[0] == n
        }),
{
    reveal_with_fuel(be_bytes, 5);
    reveal_with_fuel(le_bytes, 5);
    let m = n as nat;
    assert(m / 256 / 256 / 256 % 256 == m / 256 / 256 / 256);
}

/// One order of the bytes is the reverse of the other.
pub proof fn law_orders_are_reversed(n: nat, width: nat)
    ensures
        ByteOrder::Little.bytes(n, width) == ByteOrder::Big.bytes(n, width).reverse(),
        be_value(ByteOrder::Little.bytes(n, width).reverse()) == be_value(
            ByteOrder::Big.bytes(n, width),
        ),
        width > 0 ==> ByteOrder::Little.bytes(n, width)[0] == n % 256,
    decreases width,
{
    lemma_be_bytes_len(n, width);
    lemma_le_bytes_len(n, width);
    if width > 0 {
        let rest = (width - 1) as nat;
        law_orders_are_reversed(n / 256, rest);
        lemma_be_bytes_len(n / 256, rest);
        lemma_le_bytes_len(n / 256, rest);
        let l = le_bytes(n / 256, rest);
        let b = be_bytes(n / 256, rest);
        assert(le_bytes(n, width) =~= be_bytes(n, width).reverse()) by {
            assert forall|i: int| 0 <= i < width implies #[trigger] le_bytes(n, width)[i]
                == be_bytes(n, width).reverse()[i] by {
                if i > 0 {
                    assert(le_bytes(n, width)[i] == l[i - 1]);
                    assert(l[i - 1] == b.reverse()[i - 1]);
                }
            }
        }
    } else {
        assert(le_bytes(n, width) =~= be_bytes(n, width).reverse());
    }
    assert(le_bytes(n, width).reverse() =~= be_bytes(n, width));
}

/// A number of one byte, and one that is too large for its width, keep their low-order bytes.
pub proof fn law_last_byte_is_the_remainder(n: nat, width: nat)
    requires
        width > 0,
    ensures
        be_bytes(n, width).last() == n % 256,
        be_bytes(n, width).drop_last() == be_bytes(n / 256, (width - 1) as nat),
{
    assert(be_bytes(n, width).drop_last() =~= be_bytes(n / 256, (width - 1) as nat));
}

/// A signed number and its pattern are the same modulo two to the thirty-second power, and each
/// gives the other back.
pub proof fn law_patterns_are_the_same_number(n: i32, p: u32)
    ensures
        0 <= i32_pattern(n) < 0x1_0000_0000,
        (i32_pattern(n) - n) % 0x1_0000_0000 == 0,
        (p - i32_of_pattern(p as nat)) % 0x1_0000_0000 == 0,
        i32_of_pattern(i32_pattern(n)) == n,
        i32_pattern(i32_of_pattern(p as nat)) == p,
{
}

} // verus!
