//! Reading and writing the clipboard through helper programs: what their results mean.
use crate::clipsync::item::ClipboardItem;
use crate::utf8::{debug_string, debug_text, string_from_utf8};
use vstd::prelude::*;
use vstd::string::StringExecFns;
use vstd::utf8::{decode_utf8, valid_utf8};

verus! {

/// The text that a program has printed, if it succeeded and printed valid text that is not empty.
pub fn unix_try_read(success: bool, stdout: Vec<u8>) -> (r: Option<String>)
    ensures
        r is Some == (success && valid_utf8(stdout@) && decode_utf8(stdout@).len() > 0),
        r matches Some(s) ==> s@ == decode_utf8(stdout@),
{
    if !success {
        return None;
    }
    match string_from_utf8(stdout) {
        Ok(text) => {
            if text.as_str().is_empty() {
                None
            } else {
                Some(text)
            }
        },
        Err(_) => None,
    }
}

/// The item of a text, if it is not empty.
pub fn item_of_text(text: String) -> (r: Option<ClipboardItem>)
    ensures
        r is Some == (text@.len() > 0),
        r matches Some(item) ==> item.text() == text@,
{
    if text.as_str().is_empty() {
        None
    } else {
        Some(ClipboardItem::Text(text))
    }
}

/// What is on the clipboard, by what the first program has read and, where it has read nothing,
/// the second.
pub fn read_local_clipboard(first: Option<String>, second: Option<String>) -> (r: Option<
    ClipboardItem,
>)
    ensures
        r is Some == (first is Some || second is Some),
        r matches Some(item) ==> item.text() == match first {
            Some(s) => s@,
            None => second->Some_0@,
        },
{
    match first {
        Some(s) => Some(ClipboardItem::Text(s)),
        None => match second {
            Some(s) => Some(ClipboardItem::Text(s)),
            None => None,
        },
    }
}

/// The message about two programs that have both failed, given how their messages are shown.
pub fn both_failed(first: &str, second: &str) -> (m: String)
    ensures
        m@ == "both xclip and wl-copy failed: Err("@ + first@ + ") / Err("@ + second@ + ")"@,
{
    let mut m: String = "both xclip and wl-copy failed: Err(".to_owned();
    m.append(first);
    m.append(") / Err(");
    m.append(second);
    m.append(")");
    m
}

/// Whether the clipboard has been written, by what became of the two programs that were to do it:
/// one that succeeds is enough.
pub fn write_local_clipboard(first: Result<(), String>, second: Result<(), String>) -> (r: Result<
    (),
    String,
>)
    ensures
        r is Ok == (first is Ok || second is Ok),
        r matches Err(m) ==> m@ == "both xclip and wl-copy failed: Err("@ + debug_text(
            first->Err_0@,
        ) + ") / Err("@ + debug_text(second->Err_0@) + ")"@,
{
    match first {
        Ok(_) => Ok(()),
        Err(a) => match second {
            Ok(_) => Ok(()),
            Err(b) => {
                let x: String = debug_string(a.as_str());
                let y: String = debug_string(b.as_str());
                Err(both_failed(x.as_str(), y.as_str()))
            },
        },
    }
}

} // verus!
