//! The list of offered files as a Windows `FILEGROUPDESCRIPTORW`: a count, and a
//! `FILEDESCRIPTORW` of 592 bytes for each entry, with numbers in the order of the machine.
//!
//! ```text
//!   +0    flags
//!   +4    class, size and place, all zero
//!   +36   attributes
//!   +40   times, all zero
//!   +64   size, high half
//!   +68   size, low half
//!   +72   name, 260 UTF-16 units with a zero behind it
//! ```
use crate::bytes::{
    be_bytes, le_bytes, lemma_be_bytes_len, lemma_le_bytes_len, order_of_one, put_u16, put_u32,
    u32_to_ne_bytes, ByteOrder,
};
use crate::clipsync::manifest::{Entry, Manifest};
use crate::clipsync::relpath::backslashed;
use crate::text::chars_of;
use vstd::prelude::*;

verus! {

/// The size of a descriptor.
pub const FD_SIZE: usize = 592;

/// The attributes are given.
pub const FD_ATTRIBUTES: u32 = 0x04;

/// The size is given.
pub const FD_FILESIZE: u32 = 0x40;

/// Progress is to be shown.
pub const FD_PROGRESSUI: u32 = 0x4000;

/// The name is in UTF-16.
pub const FD_UNICODE: u32 = 0x8000_0000;

/// All four flags.
pub const FD_FLAGS: u32 = 0x8000_4044;

pub const FILE_ATTRIBUTE_DIRECTORY: u32 = 0x10;

pub const FILE_ATTRIBUTE_NORMAL: u32 = 0x80;

/// How many units of a name are kept, so that a zero fits behind them.
pub const MAX_NAME_UNITS: usize = 259;

/// The UTF-16 units of a character.
pub open spec fn utf16_units(c: char) -> Seq<u16> {
    let n = c as int;
    if n < 0x1_0000 {
        seq![n as u16]
    } else {
        seq![
            (0xd800 + (n - 0x1_0000) / 0x400) as u16,
            (0xdc00 + (n - 0x1_0000) % 0x400) as u16,
        ]
    }
}

/// A text in UTF-16.
pub open spec fn utf16(s: Seq<char>) -> Seq<u16>
    decreases s.len(),
{
    if s.len() == 0 {
        Seq::empty()
    } else {
        utf16(s.drop_last()) + utf16_units(s.last())
    }
}

/// The units of a name: a path with backslashes, cut to fit.
pub open spec fn name_units(relpath: Seq<char>) -> Seq<u16> {
    let all = utf16(backslashed(relpath));
    if all.len() > MAX_NAME_UNITS {
        all.take(MAX_NAME_UNITS as int)
    } else {
        all
    }
}

/// Units as bytes.
pub open spec fn units_bytes(units: Seq<u16>, order: ByteOrder) -> Seq<u8>
    decreases units.len(),
{
    if units.len() == 0 {
        Seq::empty()
    } else {
        units_bytes(units.drop_last(), order) + order.bytes(units.last() as nat, 2)
    }
}

/// Zero bytes.
pub open spec fn zeros(n: nat) -> Seq<u8> {
    Seq::new(n, |i: int| 0u8)
}

/// The attributes of an entry.
pub open spec fn attributes(e: Entry) -> u32 {
    if e.is_dir {
        FILE_ATTRIBUTE_DIRECTORY
    } else {
        FILE_ATTRIBUTE_NORMAL
    }
}

/// The size of an entry; that of a directory is zero.
pub open spec fn listed_size(e: Entry) -> nat {
    if e.is_dir {
        0
    } else {
        e.size as nat
    }
}

/// The descriptor of an entry.
pub open spec fn descriptor(e: Entry, order: ByteOrder) -> Seq<u8> {
    let name = units_bytes(name_units(e.relpath@), order);
    order.bytes(FD_FLAGS as nat, 4) + zeros(32) + order.bytes(attributes(e) as nat, 4) + zeros(24)
        + order.bytes(listed_size(e) / 0x1_0000_0000, 4) + order.bytes(
        listed_size(e) % 0x1_0000_0000,
        4,
    ) + name + zeros((520 - name.len()) as nat)
}

/// The descriptors of some entries, one after the other.
pub open spec fn descriptors(entries: Seq<Entry>, order: ByteOrder) -> Seq<u8>
    decreases entries.len(),
{
    if entries.len() == 0 {
        Seq::empty()
    } else {
        descriptors(entries.drop_last(), order) + descriptor(entries.last(), order)
    }
}

/// A list as a `FILEGROUPDESCRIPTORW`.
pub open spec fn group_descriptor(entries: Seq<Entry>, order: ByteOrder) -> Seq<u8> {
    order.bytes(entries.len(), 4) + descriptors(entries, order)
}

proof fn lemma_bytes_len(n: nat, width: nat, order: ByteOrder)
    ensures
        order.bytes(n, width).len() == width,
{
    lemma_le_bytes_len(n, width);
    lemma_be_bytes_len(n, width);
}

proof fn lemma_units_bytes_len(units: Seq<u16>, order: ByteOrder)
    ensures
        units_bytes(units, order).len() == 2 * units.len(),
    decreases units.len(),
{
    if units.len() > 0 {
        lemma_units_bytes_len(units.drop_last(), order);
        lemma_bytes_len(units.last() as nat, 2, order);
    }
}

/// A descriptor takes 592 bytes, and its name is followed by a zero.
pub proof fn law_descriptor_size(e: Entry, order: ByteOrder)
    ensures
        descriptor(e, order).len() == FD_SIZE,
        descriptor(e, order)[590] == 0,
        descriptor(e, order)[591] == 0,
{
    let name = units_bytes(name_units(e.relpath@), order);
    lemma_units_bytes_len(name_units(e.relpath@), order);
    assert(name.len() <= 518);
    lemma_bytes_len(FD_FLAGS as nat, 4, order);
    lemma_bytes_len(attributes(e) as nat, 4, order);
    lemma_bytes_len(listed_size(e) / 0x1_0000_0000, 4, order);
    lemma_bytes_len(listed_size(e) % 0x1_0000_0000, 4, order);
}

/// The descriptors of a list take 592 bytes each.
pub proof fn law_descriptors_size(entries: Seq<Entry>, order: ByteOrder)
    ensures
        descriptors(entries, order).len() == FD_SIZE * entries.len(),
    decreases entries.len(),
{
    if entries.len() > 0 {
        law_descriptors_size(entries.drop_last(), order);
        law_descriptor_size(entries.last(), order);
    }
}

fn put_zeros(out: &mut Vec<u8>, n: usize)
    ensures
        final(out)@ == old(out)@ + zeros(n as nat),
{
    let mut i: usize = 0;
    let ghost start = out@;
    while i < n
        invariant
            i <= n,
            out@ == start + zeros(i as nat),
        decreases n - i,
    {
        out.push(0);
        i = i + 1;
        assert(out@ =~= start + zeros(i as nat));
    }
}

fn put_units(units: &mut Vec<u16>, c: char)
    ensures
        final(units)@ == old(units)@ + utf16_units(c),
{
    let n: u32 = c as u32;
    if n < 0x1_0000 {
        units.push(n as u16);
    } else {
        let m: u32 = n - 0x1_0000;
        units.push((0xd800 + m / 0x400) as u16);
        units.push((0xdc00 + m % 0x400) as u16);
    }
    assert(units@ =~= old(units)@ + utf16_units(c));
}

/// The units of a name.
fn encode_name(relpath: &str) -> (units: Vec<u16>)
    ensures
        units@ == name_units(relpath@),
{
    let chars: Vec<char> = chars_of(relpath);
    let ghost turned = backslashed(relpath@);
    let n: usize = chars.len();
    let mut units: Vec<u16> = Vec::new();
    let mut i: usize = 0;
    while i < n
        invariant
            i <= n,
            n == chars@.len(),
            chars@ == relpath@,
            turned == backslashed(relpath@),
            units@ == utf16(turned.take(i as int)),
        decreases n - i,
    {
        assert(turned.take(i + 1).drop_last() =~= turned.take(i as int));
        if chars[i] == '/' {
            put_units(&mut units, '\\');
        } else {
            put_units(&mut units, chars[i]);
        }
        i = i + 1;
    }
    assert(turned.take(n as int) =~= turned);
    if units.len() > MAX_NAME_UNITS {
        units.truncate(MAX_NAME_UNITS);
        assert(units@ =~= name_units(relpath@));
    }
    units
}

fn put_descriptor(out: &mut Vec<u8>, e: &Entry, order: ByteOrder)
    ensures
        final(out)@ == old(out)@ + descriptor(*e, order),
{
    let ghost start = out@;
    let size: u64 = if e.is_dir {
        0
    } else {
        e.size
    };
    put_u32(out, FD_FLAGS, order);
    put_zeros(out, 32);
    put_u32(
        out,
        if e.is_dir {
            FILE_ATTRIBUTE_DIRECTORY
        } else {
            FILE_ATTRIBUTE_NORMAL
        },
        order,
    );
    put_zeros(out, 24);
    put_u32(out, (size / 0x1_0000_0000) as u32, order);
    put_u32(out, (size % 0x1_0000_0000) as u32, order);
    let units: Vec<u16> = encode_name(e.relpath.as_str());
    let n: usize = units.len();
    let ghost head = out@;
    let mut i: usize = 0;
    assert(units@.take(0) =~= Seq::<u16>::empty());
    assert(out@ =~= head + units_bytes(units@.take(0), order));
    while i < n
        invariant
            i <= n,
            n == units@.len(),
            out@ == head + units_bytes(units@.take(i as int), order),
        decreases n - i,
    {
        put_u16(out, units[i], order);
        i = i + 1;
        assert(units@.take(i as int).drop_last() =~= units@.take(i - 1));
        assert(out@ =~= head + units_bytes(units@.take(i as int), order));
    }
    assert(units@.take(n as int) =~= units@);
    proof {
        lemma_units_bytes_len(units@, order);
    }
    put_zeros(out, 520 - 2 * n);
    assert(out@ =~= start + descriptor(*e, order));
}

/// Packs a list into the bytes of a `FILEGROUPDESCRIPTORW`, in the order of the machine.
pub fn build_file_group_descriptor(m: &Manifest) -> (out: Vec<u8>)
    ensures
        out@ == group_descriptor(m.entries@, ByteOrder::Little) || out@ == group_descriptor(
            m.entries@,
            ByteOrder::Big,
        ),
{
    let one: [u8; 4] = u32_to_ne_bytes(1);
    pack_file_group(m, order_of_one(&one))
}

/// Packs a list into the bytes of a `FILEGROUPDESCRIPTORW`, in the given order.
pub fn pack_file_group(m: &Manifest, order: ByteOrder) -> (out: Vec<u8>)
    ensures
        out@ == group_descriptor(m.entries@, order),
{
    let mut out: Vec<u8> = Vec::new();
    let n: usize = m.entries.len();
    put_u32(&mut out, (n as u64 % 0x1_0000_0000) as u32, order);
    proof {
        lemma_bytes_wrap(n as nat, order);
    }
    let ghost head = out@;
    let mut i: usize = 0;
    assert(m.entries@.take(0) =~= Seq::<Entry>::empty());
    assert(out@ =~= head + descriptors(m.entries@.take(0), order));
    while i < n
        invariant
            i <= n,
            n == m.entries@.len(),
            out@ == head + descriptors(m.entries@.take(i as int), order),
        decreases n - i,
    {
        put_descriptor(&mut out, &m.entries[i], order);
        i = i + 1;
        assert(m.entries@.take(i as int).drop_last() =~= m.entries@.take(i - 1));
        assert(out@ =~= head + descriptors(m.entries@.take(i as int), order));
    }
    assert(m.entries@.take(n as int) =~= m.entries@);
    assert(out@ =~= group_descriptor(m.entries@, order));
    out
}

proof fn lemma_bytes_wrap(n: nat, order: ByteOrder)
    ensures
        order.bytes(n % 0x1_0000_0000, 4) == order.bytes(n, 4),
{
    reveal_with_fuel(le_bytes, 5);
    reveal_with_fuel(be_bytes, 5);
    let m = n % 0x1_0000_0000;
    assert(m % 256 == n % 256);
    assert(m / 256 % 256 == n / 256 % 256);
    assert(m / 256 / 256 % 256 == n / 256 / 256 % 256);
    assert(m / 256 / 256 / 256 % 256 == n / 256 / 256 / 256 % 256);
}

/// A character of the first plane is one unit with its own number; any other is two, an upper and a
/// lower surrogate, that hold what its number exceeds the plane by.
pub proof fn law_units_of_a_character(c: char)
    ensures
        (c as int) < 0x1_0000 ==> utf16_units(c).len() == 1 && utf16_units(c)[0] == c as int,
        (c as int) >= 0x1_0000 ==> {
            let u = utf16_units(c);
            &&& u.len() == 2
            &&& 0xd800 <= u[0] < 0xdc00
            &&& 0xdc00 <= u[1] < 0xe000
            &&& 0x1_0000 + 0x400 * (u[0] - 0xd800) + (u[1] - 0xdc00) == c as int
        },
{
}

/// The units of a text are those of its characters, in order.
pub proof fn law_text_is_encoded_in_order(a: Seq<char>, b: Seq<char>)
    ensures
        utf16(a + b) == utf16(a) + utf16(b),
        b.len() == 1 ==> utf16(b) == utf16_units(b[0]),
        b.len() == 0 ==> utf16(b).len() == 0,
    decreases b.len(),
{
    if b.len() == 0 {
        assert(a + b =~= a);
        assert(utf16(a) + utf16(b) =~= utf16(a));
    } else {
        assert((a + b).drop_last() =~= a + b.drop_last());
        law_text_is_encoded_in_order(a, b.drop_last());
        assert(utf16(a + b) =~= utf16(a) + utf16(b));
        if b.len() == 1 {
            assert(utf16(b) =~= utf16_units(b[0]));
        }
    }
}

/// A name is the path with backslashes, from its beginning on, as far as 259 units of it go.
pub proof fn law_name_is_the_path(relpath: Seq<char>, i: int)
    requires
        0 <= i < name_units(relpath).len(),
    ensures
        name_units(relpath)[i] == utf16(backslashed(relpath))[i],
        name_units(relpath).len() <= 259,
        utf16(backslashed(relpath)).len() <= 259 ==> name_units(relpath).len() == utf16(
            backslashed(relpath),
        ).len(),
        utf16(backslashed(relpath)).len() > 259 ==> name_units(relpath).len() == 259,
{
}

proof fn lemma_units_at(units: Seq<u16>, order: ByteOrder, i: int)
    requires
        0 <= i < units.len(),
    ensures
        units_bytes(units, order).subrange(2 * i, 2 * i + 2) == order.bytes(units[i] as nat, 2),
        units_bytes(units, order).len() == 2 * units.len(),
    decreases units.len(),
{
    let init = units.drop_last();
    lemma_units_bytes_len(units, order);
    lemma_units_bytes_len(init, order);
    lemma_bytes_len(units.last() as nat, 2, order);
    let all = units_bytes(units, order);
    if i < init.len() {
        lemma_units_at(init, order, i);
        assert(all.subrange(2 * i, 2 * i + 2) =~= units_bytes(init, order).subrange(
            2 * i,
            2 * i + 2,
        ));
    } else {
        assert(all.subrange(2 * i, 2 * i + 2) =~= order.bytes(units[i] as nat, 2));
    }
}

/// Where everything stands in a descriptor: the flags, the attributes, the size in two halves, and
/// the units of the name. All the rest is zero.
pub proof fn law_descriptor_layout(e: Entry, order: ByteOrder, i: int)
    ensures
        ({
            let d = descriptor(e, order);
            let name = name_units(e.relpath@);
            &&& d.len() == 592
            &&& d.subrange(0, 4) == order.bytes(0x8000_4044, 4)
            &&& d.subrange(36, 40) == order.bytes(
                if e.is_dir {
                    0x10
                } else {
                    0x80
                },
                4,
            )
            &&& e.is_dir ==> d.subrange(64, 68) == order.bytes(0, 4) && d.subrange(68, 72)
                == order.bytes(0, 4)
            &&& !e.is_dir ==> d.subrange(64, 68) == order.bytes(e.size as nat / 0x1_0000_0000, 4)
                && d.subrange(68, 72) == order.bytes(e.size as nat % 0x1_0000_0000, 4)
            &&& 0 <= i < name.len() ==> d.subrange(72 + 2 * i, 74 + 2 * i) == order.bytes(
                name[i] as nat,
                2,
            )
            &&& 4 <= i < 36 || 40 <= i < 64 || 72 + 2 * name.len() <= i < 592 ==> d[i] == 0
        }),
{
    let d = descriptor(e, order);
    let units = name_units(e.relpath@);
    let name = units_bytes(units, order);
    law_descriptor_size(e, order);
    lemma_units_bytes_len(units, order);
    lemma_bytes_len(FD_FLAGS as nat, 4, order);
    lemma_bytes_len(attributes(e) as nat, 4, order);
    lemma_bytes_len(listed_size(e) / 0x1_0000_0000, 4, order);
    lemma_bytes_len(listed_size(e) % 0x1_0000_0000, 4, order);
    assert(d.subrange(0, 4) =~= order.bytes(FD_FLAGS as nat, 4));
    assert(d.subrange(36, 40) =~= order.bytes(attributes(e) as nat, 4));
    assert(d.subrange(64, 68) =~= order.bytes(listed_size(e) / 0x1_0000_0000, 4));
    assert(d.subrange(68, 72) =~= order.bytes(listed_size(e) % 0x1_0000_0000, 4));
    if 0 <= i < units.len() {
        lemma_units_at(units, order, i);
        assert(d.subrange(72 + 2 * i, 74 + 2 * i) =~= name.subrange(2 * i, 2 * i + 2));
    }
}

proof fn lemma_descriptor_at(entries: Seq<Entry>, order: ByteOrder, i: int)
    requires
        0 <= i < entries.len(),
    ensures
        descriptors(entries, order).subrange(592 * i, 592 * i + 592) == descriptor(
            entries[i],
            order,
        ),
    decreases entries.len(),
{
    let init = entries.drop_last();
    law_descriptors_size(entries, order);
    law_descriptors_size(init, order);
    law_descriptor_size(entries.last(), order);
    let all = descriptors(entries, order);
    if i < init.len() {
        lemma_descriptor_at(init, order, i);
        assert(all.subrange(592 * i, 592 * i + 592) =~= descriptors(init, order).subrange(
            592 * i,
            592 * i + 592,
        ));
    } else {
        assert(all.subrange(592 * i, 592 * i + 592) =~= descriptor(entries[i], order));
    }
}

/// A list starts with the number of its entries, and the descriptor of each entry stands at its own
/// place behind it.
pub proof fn law_every_entry_has_its_descriptor(entries: Seq<Entry>, order: ByteOrder, i: int)
    requires
        0 <= i < entries.len(),
    ensures
        ({
            let g = group_descriptor(entries, order);
            &&& g.len() == 4 + 592 * entries.len()
            &&& g.subrange(0, 4) == order.bytes(entries.len(), 4)
            &&& g.subrange(4 + 592 * i, 596 + 592 * i) == descriptor(entries[i], order)
        }),
{
    let g = group_descriptor(entries, order);
    lemma_bytes_len(entries.len(), 4, order);
    law_descriptors_size(entries, order);
    lemma_descriptor_at(entries, order, i);
    assert(g.subrange(0, 4) =~= order.bytes(entries.len(), 4));
    assert(g.subrange(4 + 592 * i, 596 + 592 * i) =~= descriptors(entries, order).subrange(
        592 * i,
        592 * i + 592,
    ));
}

} // verus!
