//! What is on the clipboard.
use crate::clipsync::hash::{fnv1a, fnv_byte, fnv_bytes, fnv_more, lemma_fnv_append, FNV_OFFSET};
use crate::utf8::{lemma_bytes_roundtrip, lemma_text_roundtrip, string_from_utf8, utf8_error_text};
use vstd::prelude::*;
use vstd::string::StringExecFns;
use vstd::utf8::{decode_utf8, encode_utf8, valid_utf8};

verus! {

/// The type byte of text.
pub const TYPE_TEXT: u8 = 0x01;

/// Something on the clipboard.
#[derive(Clone, Debug, PartialEq, Eq)]
pub enum ClipboardItem {
    Text(String),
}

/// The hash of a text on the clipboard: over the type byte of text and the bytes that encode it.
pub open spec fn text_digest(text: Seq<char>) -> u64 {
    fnv1a(seq![TYPE_TEXT] + encode_utf8(text))
}

impl ClipboardItem {
    /// The text of the item.
    pub open spec fn text(self) -> Seq<char> {
        match self {
            ClipboardItem::Text(s) => s@,
        }
    }

    /// The content of the item as it goes over the wire.
    pub open spec fn content(self) -> Seq<u8> {
        encode_utf8(self.text())
    }

    /// The hash of the item: over its type byte and its content.
    pub open spec fn digest(self) -> u64 {
        text_digest(self.text())
    }

    /// The type byte of the frame that carries the item.
    pub fn type_byte(&self) -> (b: u8)
        ensures
            b == TYPE_TEXT,
    {
        match self {
            ClipboardItem::Text(_) => TYPE_TEXT,
        }
    }

    /// The payload of the frame that carries the item.
    pub fn payload(&self) -> (p: Vec<u8>)
        ensures
            p@ == self.content(),
    {
        match self {
            ClipboardItem::Text(s) => vstd::slice::slice_to_vec(s.as_str().as_bytes()),
        }
    }

    /// Reads the item that a frame carries. Only text is known, and it has to be valid UTF-8.
    pub fn from_frame(type_byte: u8, payload: Vec<u8>) -> (r: Result<ClipboardItem, String>)
        ensures
            match r {
                Ok(item) => type_byte == TYPE_TEXT && valid_utf8(payload@) && item.text()
                    == decode_utf8(payload@),
                Err(m) => if type_byte == TYPE_TEXT {
                    !valid_utf8(payload@) && m@ == "invalid utf-8 text: "@ + utf8_error_text(
                        payload@,
                    )
                } else {
                    m@ == "unknown frame type 0x"@ + two_hex_digits(type_byte)
                },
            },
    {
        if type_byte == TYPE_TEXT {
            match string_from_utf8(payload) {
                Ok(s) => Ok(ClipboardItem::Text(s)),
                Err(e) => Err(invalid_text(e.as_str())),
            }
        } else {
            let mut m: String = "unknown frame type 0x".to_owned();
            let hi: char = hex_char(type_byte / 16);
            let lo: char = hex_char(type_byte % 16);
            m.push(hi);
            m.push(lo);
            assert(m@ =~= "unknown frame type 0x"@ + two_hex_digits(type_byte));
            Err(m)
        }
    }

    /// The FNV-1a hash of the item, by which two contents are compared.
    pub fn hash(&self) -> (h: u64)
        ensures
            h == self.digest(),
    {
        let payload: Vec<u8> = self.payload();
        let first: u64 = fnv_byte(FNV_OFFSET, self.type_byte());
        proof {
            lemma_fnv_append(FNV_OFFSET, seq![TYPE_TEXT], self.content());
            assert(seq![TYPE_TEXT].drop_last() =~= Seq::<u8>::empty());
            assert(fnv_more(FNV_OFFSET, Seq::<u8>::empty()) == FNV_OFFSET);
        }
        fnv_bytes(first, payload.as_slice())
    }
}

/// The message about text that is not valid UTF-8, given what is wrong with it.
pub fn invalid_text(why: &str) -> (m: String)
    ensures
        m@ == "invalid utf-8 text: "@ + why@,
{
    let mut m: String = "invalid utf-8 text: ".to_owned();
    m.append(why);
    m
}

/// A hexadecimal digit, with small letters.
pub open spec fn hex_digit(n: int) -> char {
    if n < 10 {
        ('0' as int + n) as char
    } else {
        ('a' as int + n - 10) as char
    }
}

/// A byte as two hexadecimal digits.
pub open spec fn two_hex_digits(b: u8) -> Seq<char> {
    seq![hex_digit(b as int / 16), hex_digit(b as int % 16)]
}

fn hex_char(n: u8) -> (c: char)
    requires
        n < 16,
    ensures
        c == hex_digit(n as int),
{
    if n < 10 {
        (48 + n) as char
    } else {
        (87 + n) as char
    }
}

/// The item that a peer reads from a frame is the one that was put into it.
pub proof fn law_item_roundtrip(item: ClipboardItem)
    ensures
        valid_utf8(item.content()),
        decode_utf8(item.content()) == item.text(),
{
    lemma_text_roundtrip(item.text());
}

/// An item that was read from a frame is put into the same frame again.
pub proof fn law_frame_roundtrip(payload: Seq<u8>, item: ClipboardItem)
    requires
        valid_utf8(payload),
        item.text() == decode_utf8(payload),
    ensures
        item.content() == payload,
{
    lemma_bytes_roundtrip(payload);
}

/// Items with the same text have the same hash.
pub proof fn law_same_text_same_hash(a: ClipboardItem, b: ClipboardItem)
    requires
        a.text() == b.text(),
    ensures
        a.digest() == b.digest(),
{
}

/// The hash of an item is that of one byte that says it is text, followed by the encoded text.
pub proof fn law_hash_covers_type_and_text(item: ClipboardItem)
    ensures
        item.digest() == fnv1a(seq![1u8] + encode_utf8(item.text())),
        item.content() == encode_utf8(item.text()),
        item matches ClipboardItem::Text(s) && item.text() == s@,
{
}

/// A byte is shown with two digits, the upper half first.
pub proof fn law_bytes_are_shown_in_hexadecimal(b: u8)
    ensures
        two_hex_digits(b).len() == 2,
        forall|i: int|
            0 <= i < 2 ==> {
                let c = #[trigger] two_hex_digits(b)[i];
                let n = if i == 0 {
                    b as int / 16
                } else {
                    b as int % 16
                };
                &&& n < 10 ==> '0' as int <= c as int <= '9' as int && c as int - '0' as int == n
                &&& n >= 10 ==> 'a' as int <= c as int <= 'f' as int && c as int - 'a' as int + 10
                    == n
            },
{
}

} // verus!
