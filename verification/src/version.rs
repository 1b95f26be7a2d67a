//! The version that the program reports.
use crate::clipsync::split::{is_whitespace, law_only_white_space_is_trimmed, trim, trimmed};
use crate::text::{chars_of, string_of};
use crate::utf8::string_from_utf8;
use vstd::prelude::*;
use vstd::utf8::{decode_utf8, valid_utf8};

verus! {

/// The version that a version control tool has printed, without the white space around it. Where
/// the tool has failed, or has printed nothing or nothing readable, it is unknown.
pub open spec fn described(success: bool, stdout: Seq<u8>) -> Seq<char> {
    if success && valid_utf8(stdout) && trim(decode_utf8(stdout)).len() > 0 {
        trim(decode_utf8(stdout))
    } else {
        "unknown"@
    }
}

/// The version to report, from the result of a version control tool if it could be run.
pub fn git_describe(output: Option<(bool, Vec<u8>)>) -> (version: String)
    ensures
        version@ == match output {
            Some((success, stdout)) => described(success, stdout@),
            None => "unknown"@,
        },
{
    match output {
        Some((success, stdout)) => {
            if !success {
                return "unknown".to_owned();
            }
            match string_from_utf8(stdout) {
                Ok(text) => {
                    let chars: Vec<char> = chars_of(text.as_str());
                    let t: &[char] = trimmed(chars.as_slice());
                    if t.len() == 0 {
                        "unknown".to_owned()
                    } else {
                        string_of(t)
                    }
                },
                Err(_) => "unknown".to_owned(),
            }
        },
        None => "unknown".to_owned(),
    }
}

/// A version that was printed is reported without the white space around it, and any other outcome
/// as unknown.
pub proof fn law_printed_version_is_reported(
    stdout: Seq<u8>,
    pre: Seq<char>,
    version: Seq<char>,
    post: Seq<char>,
)
    requires
        valid_utf8(stdout),
        decode_utf8(stdout) == pre + version + post,
        forall|i: int| 0 <= i < pre.len() ==> is_whitespace(#[trigger] pre[i]),
        forall|i: int| 0 <= i < post.len() ==> is_whitespace(#[trigger] post[i]),
        version.len() > 0 ==> !is_whitespace(version[0]) && !is_whitespace(version.last()),
    ensures
        version.len() > 0 ==> described(true, stdout) == version,
        version.len() == 0 ==> described(true, stdout) == "unknown"@,
        described(false, stdout) == "unknown"@,
        forall|bad: Seq<u8>|
            !valid_utf8(bad) ==> #[trigger] described(true, bad) == "unknown"@,
{
    law_only_white_space_is_trimmed(pre, version, post);
}

} // verus!
