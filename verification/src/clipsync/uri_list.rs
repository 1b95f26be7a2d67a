//! The files on the clipboard, from a list of URIs.
use crate::clipsync::hash::{fnv1a, fnv_byte, fnv_bytes, fnv_more, lemma_fnv_append, FNV_OFFSET};
use crate::clipsync::split::{
    lemma_split_joined, lemma_split_whole, lines, split_lines, trim, trimmed,
};
use crate::text::{chars_of, eq_ignore_ascii_case, same_ignoring_ascii_case, string_of};
use crate::utf8::{string_from_utf8_lossy, text_of};
use vstd::prelude::*;
use vstd::utf8::encode_utf8;

verus! {

/// The value of a hexadecimal digit.
pub open spec fn hex_value(c: u8) -> Option<u8> {
    if 0x30 <= c <= 0x39 {
        Some((c - 0x30) as u8)
    } else if 0x61 <= c <= 0x66 {
        Some((c - 0x61 + 10) as u8)
    } else if 0x41 <= c <= 0x46 {
        Some((c - 0x41 + 10) as u8)
    } else {
        None
    }
}

/// The value of a hexadecimal digit.
pub fn hex(c: u8) -> (r: Option<u8>)
    ensures
        r == hex_value(c),
{
    if 0x30 <= c && c <= 0x39 {
        Some(c - 0x30)
    } else if 0x61 <= c && c <= 0x66 {
        Some(c - 0x61 + 10)
    } else if 0x41 <= c && c <= 0x46 {
        Some(c - 0x41 + 10)
    } else {
        None
    }
}

/// Bytes with each percent sign and the two hexadecimal digits behind it replaced by the byte that
/// they stand for. A percent sign without two digits behind it stands for itself.
pub open spec fn unescaped(b: Seq<u8>) -> Seq<u8>
    decreases b.len(),
{
    if b.len() == 0 {
        Seq::empty()
    } else if b[0] == 0x25 && b.len() > 2 && hex_value(b[1]) is Some && hex_value(b[2]) is Some {
        seq![(hex_value(b[1])->Some_0 * 16 + hex_value(b[2])->Some_0) as u8] + unescaped(b.skip(3))
    } else {
        seq![b[0]] + unescaped(b.skip(1))
    }
}

/// Replaces percent signs and the digits behind them.
pub fn percent_decode_bytes(b: &[u8]) -> (out: Vec<u8>)
    ensures
        out@ == unescaped(b@),
{
    let n: usize = b.len();
    let mut out: Vec<u8> = Vec::new();
    let mut i: usize = 0;
    assert(b@.skip(0) =~= b@);
    while i < n
        invariant
            i <= n,
            n == b@.len(),
            unescaped(b@) == out@ + unescaped(b@.skip(i as int)),
        decreases n - i,
    {
        let ghost rest = b@.skip(i as int);
        let ghost so_far = out@;
        let mut escape: Option<u8> = None;
        if b[i] == 0x25 && n - i > 2 {
            assert(rest[1] == b@[i + 1] && rest[2] == b@[i + 2]);
            if let Some(h) = hex(b[i + 1]) {
                if let Some(l) = hex(b[i + 2]) {
                    escape = Some(h * 16 + l);
                }
            }
        }
        match escape {
            Some(byte) => {
                out.push(byte);
                i = i + 3;
                proof {
                    assert(rest.skip(3) =~= b@.skip(i as int));
                    assert(so_far + (seq![byte] + unescaped(rest.skip(3))) =~= out@ + unescaped(
                        b@.skip(i as int),
                    ));
                }
            },
            None => {
                let byte: u8 = b[i];
                out.push(byte);
                i = i + 1;
                proof {
                    assert(rest.skip(1) =~= b@.skip(i as int));
                    assert(so_far + (seq![byte] + unescaped(rest.skip(1))) =~= out@ + unescaped(
                        b@.skip(i as int),
                    ));
                }
            },
        }
    }
    assert(b@.skip(n as int) =~= Seq::<u8>::empty());
    assert(out@ =~= unescaped(b@));
    out
}

/// What a URI of a local file starts with.
pub open spec fn file_scheme() -> Seq<char> {
    seq!['f', 'i', 'l', 'e', ':', '/', '/']
}

/// Where the first slash of a text is, from a place on.
pub open spec fn slash_from(s: Seq<char>, from: int) -> Option<int>
    decreases s.len() - from,
{
    if from < 0 || from >= s.len() {
        None
    } else if s[from] == '/' {
        Some(from)
    } else {
        slash_from(s, from + 1)
    }
}

/// The path in a line of a list, before it is read as text: nothing for empty lines, comments,
/// other kinds of URI, and files on other machines.
pub open spec fn path_bytes(line: Seq<char>) -> Option<Seq<u8>> {
    let t = trim(line);
    if t.len() == 0 || t[0] == '#' || t.len() < 7 || t.take(7) != file_scheme() {
        None
    } else {
        let rest = t.skip(7);
        match slash_from(rest, 0) {
            None => None,
            Some(at) => {
                let host = rest.take(at);
                if host.len() == 0 || same_ignoring_ascii_case(host, "localhost"@) {
                    Some(unescaped(encode_utf8(rest.skip(at))))
                } else {
                    None
                }
            },
        }
    }
}

/// The paths in some lines, before they are read as text, in order.
pub open spec fn paths_in(ls: Seq<Seq<char>>) -> Seq<Seq<u8>>
    decreases ls.len(),
{
    if ls.len() == 0 {
        Seq::empty()
    } else {
        match path_bytes(ls.last()) {
            Some(p) => paths_in(ls.drop_last()).push(p),
            None => paths_in(ls.drop_last()),
        }
    }
}

proof fn lemma_slash_from(s: Seq<char>, from: int)
    ensures
        slash_from(s, from) matches Some(at) ==> from <= at < s.len() && s[at] == '/',
    decreases s.len() - from,
{
    if 0 <= from < s.len() && s[from] != '/' {
        lemma_slash_from(s, from + 1);
    }
}

/// Does a path begin at the root?
pub open spec fn is_absolute(path: Seq<char>) -> bool {
    path.len() > 0 && path[0] == '/'
}

proof fn lemma_path_starts_with_slash(line: Seq<char>)
    ensures
        path_bytes(line) matches Some(p) ==> p.len() > 0 && p[0] == 0x2f,
{
    let t = trim(line);
    if let Some(p) = path_bytes(line) {
        let rest = t.skip(7);
        lemma_slash_from(rest, 0);
        let at = slash_from(rest, 0)->Some_0;
        let path = rest.skip(at);
        assert(path[0] == '/');
        assert(0x2fu32 & 0x7f == 0x2f) by (bit_vector);
        assert(encode_utf8(path)[0] == 0x2f);
        assert(p == unescaped(encode_utf8(path)));
    }
}

/// Every path in a list begins with a slash.
pub proof fn law_paths_are_absolute(ls: Seq<Seq<char>>, k: int)
    requires
        0 <= k < paths_in(ls).len(),
    ensures
        paths_in(ls)[k].len() > 0,
        paths_in(ls)[k][0] == 0x2f,
    decreases ls.len(),
{
    if ls.len() > 0 {
        lemma_path_starts_with_slash(ls.last());
        if k < paths_in(ls.drop_last()).len() {
            law_paths_are_absolute(ls.drop_last(), k);
        }
    }
}

proof fn lemma_paths_append(a: Seq<Seq<char>>, b: Seq<Seq<char>>)
    ensures
        paths_in(a + b) == paths_in(a) + paths_in(b),
    decreases b.len(),
{
    if b.len() == 0 {
        assert(a + b =~= a);
        assert(paths_in(a) + paths_in(b) =~= paths_in(a));
    } else {
        assert((a + b).drop_last() =~= a + b.drop_last());
        lemma_paths_append(a, b.drop_last());
        assert(paths_in(a + b) =~= paths_in(a) + paths_in(b));
    }
}

/// The paths in two lists, one below the other, are those of the one and then those of the other:
/// order and repetitions are kept.
pub proof fn law_lists_one_below_the_other(a: Seq<char>, b: Seq<char>)
    ensures
        paths_in(lines(a.push('\n') + b)) == paths_in(lines(a)) + paths_in(lines(b)),
{
    lemma_split_joined(a, '\n', b, |c: char| c == '\n');
    lemma_paths_append(lines(a), lines(b));
}

/// A single line gives one path or none. It gives one if and only if it is, without the white space
/// around it, a URI of a file with a path, on no host or on the local one in any case of letters.
pub proof fn law_line_gives_one_path_or_none(line: Seq<char>)
    requires
        forall|i: int| 0 <= i < line.len() ==> #[trigger] line[i] != '\n',
    ensures
        paths_in(lines(line)) == match path_bytes(line) {
            Some(p) => seq![p],
            None => Seq::empty(),
        },
        path_bytes(line) is Some <==> {
            let t = trim(line);
            &&& t.len() >= 7
            &&& t.take(7) == file_scheme()
            &&& slash_from(t.skip(7), 0) is Some
            &&& {
                let host = t.skip(7).take(slash_from(t.skip(7), 0)->Some_0);
                host.len() == 0 || same_ignoring_ascii_case(host, "localhost"@)
            }
        },
{
    lemma_split_whole(line, |c: char| c == '\n');
    assert(lines(line) =~= seq![line]);
    assert(lines(line).drop_last() =~= Seq::<Seq<char>>::empty());
    assert(paths_in(Seq::<Seq<char>>::empty()) =~= Seq::<Seq<u8>>::empty());
    assert(paths_in(lines(line)) =~= match path_bytes(line) {
        Some(p) => seq![p],
        None => Seq::empty(),
    });
    let t = trim(line);
    if t.len() >= 7 && t.take(7) == file_scheme() {
        assert(t[0] == t.take(7)[0]);
    }
}

/// Reads the path in a line.
pub fn line_path(line: &[char]) -> (r: Option<Vec<u8>>)
    ensures
        match r {
            Some(p) => path_bytes(line@) == Some(p@),
            None => path_bytes(line@) is None,
        },
{
    let t: &[char] = trimmed(line);
    let n: usize = t.len();
    if n < 7 || t[0] == '#' {
        return None;
    }
    let file: bool = t[0] == 'f' && t[1] == 'i' && t[2] == 'l' && t[3] == 'e' && t[4] == ':' && t[5]
        == '/' && t[6] == '/';
    proof {
        let head = t@.take(7);
        if file {
            assert(head =~= file_scheme());
        }
        if head == file_scheme() {
            assert(head[0] == t@[0] && file_scheme()[0] == 'f');
            assert(head[1] == t@[1] && file_scheme()[1] == 'i');
            assert(head[2] == t@[2] && file_scheme()[2] == 'l');
            assert(head[3] == t@[3] && file_scheme()[3] == 'e');
            assert(head[4] == t@[4] && file_scheme()[4] == ':');
            assert(head[5] == t@[5] && file_scheme()[5] == '/');
            assert(head[6] == t@[6] && file_scheme()[6] == '/');
        }
    }
    if !file {
        return None;
    }
    let rest: &[char] = vstd::slice::slice_subrange(t, 7, n);
    assert(rest@ =~= t@.skip(7));
    let m: usize = rest.len();
    let mut at: usize = 0;
    while at < m && rest[at] != '/'
        invariant
            at <= m,
            m == rest@.len(),
            slash_from(rest@, 0) == slash_from(rest@, at as int),
        decreases m - at,
    {
        at = at + 1;
    }
    if at == m {
        return None;
    }
    let host: &[char] = vstd::slice::slice_subrange(rest, 0, at);
    assert(host@ =~= rest@.take(at as int));
    let local: Vec<char> = chars_of("localhost");
    if host.len() != 0 && !eq_ignore_ascii_case(host, local.as_slice()) {
        return None;
    }
    let path: String = string_of(vstd::slice::slice_subrange(rest, at, m));
    assert(path@ =~= rest@.skip(at as int));
    Some(percent_decode_bytes(path.as_str().as_bytes()))
}

/// Reads the paths in a list of URIs, as bytes.
pub fn uri_list_paths(raw: &str) -> (paths: Vec<Vec<u8>>)
    ensures
        paths@.len() == paths_in(lines(raw@)).len(),
        forall|k: int|
            0 <= k < paths@.len() ==> (#[trigger] paths@[k])@ == paths_in(lines(raw@))[k],
{
    let chars: Vec<char> = chars_of(raw);
    let pieces: Vec<Vec<char>> = split_lines(chars.as_slice());
    let ghost ls = lines(raw@);
    let n: usize = pieces.len();
    let mut paths: Vec<Vec<u8>> = Vec::new();
    let mut i: usize = 0;
    while i < n
        invariant
            i <= n,
            n == pieces@.len(),
            n == ls.len(),
            forall|k: int| 0 <= k < n ==> (#[trigger] pieces@[k])@ == ls[k],
            paths@.len() == paths_in(ls.take(i as int)).len(),
            forall|k: int|
                0 <= k < paths@.len() ==> (#[trigger] paths@[k])@ == paths_in(
                    ls.take(i as int),
                )[k],
        decreases n - i,
    {
        let ghost before = paths@;
        assert(pieces@[i as int]@ == ls[i as int]);
        assert(ls.take(i + 1).drop_last() =~= ls.take(i as int));
        assert(ls.take(i + 1).last() == ls[i as int]);
        match line_path(pieces[i].as_slice()) {
            Some(p) => {
                paths.push(p);
                assert forall|k: int| 0 <= k < paths@.len() implies (#[trigger] paths@[k])@
                    == paths_in(ls.take(i + 1))[k] by {
                    if k < before.len() {
                        assert(paths@[k] == before[k]);
                    }
                }
            },
            None => {},
        }
        i = i + 1;
    }
    assert(ls.take(n as int) =~= ls);
    paths
}

/// Reads the local paths in a list of URIs. Lines that are empty, are comments, or name anything
/// but a file on this machine are left out.
pub fn parse_uri_list(raw: &str) -> (paths: Vec<String>)
    ensures
        paths@.len() == paths_in(lines(raw@)).len(),
        forall|k: int|
            0 <= k < paths@.len() ==> (#[trigger] paths@[k])@ == text_of(
                paths_in(lines(raw@))[k],
            ),
        forall|k: int| 0 <= k < paths@.len() ==> is_absolute((#[trigger] paths@[k])@),
{
    let found: Vec<Vec<u8>> = uri_list_paths(raw);
    let ghost all = paths_in(lines(raw@));
    let n: usize = found.len();
    let mut paths: Vec<String> = Vec::new();
    let mut i: usize = 0;
    while i < n
        invariant
            i <= n,
            n == found@.len(),
            n == all.len(),
            forall|k: int| 0 <= k < n ==> (#[trigger] found@[k])@ == all[k],
            paths@.len() == i,
            forall|k: int| 0 <= k < i ==> (#[trigger] paths@[k])@ == text_of(all[k]),
            forall|k: int| 0 <= k < i ==> is_absolute((#[trigger] paths@[k])@),
            all == paths_in(lines(raw@)),
        decreases n - i,
    {
        assert(found@[i as int]@ == all[i as int]);
        proof {
            law_paths_are_absolute(lines(raw@), i as int);
        }
        paths.push(string_from_utf8_lossy(found[i].as_slice()));
        i = i + 1;
    }
    paths
}

/// Does a list of clipboard targets, one on each line, offer a list of URIs?
pub open spec fn offers_uris(ls: Seq<Seq<char>>) -> bool {
    exists|k: int| 0 <= k < ls.len() && trim(#[trigger] ls[k]) == "text/uri-list"@
}

fn same_chars(a: &[char], b: &[char]) -> (r: bool)
    ensures
        r == (a@ == b@),
{
    let n: usize = a.len();
    if n != b.len() {
        return false;
    }
    let mut i: usize = 0;
    while i < n
        invariant
            i <= n,
            n == a@.len(),
            n == b@.len(),
            forall|k: int| 0 <= k < i ==> a@[k] == b@[k],
        decreases n - i,
    {
        if a[i] != b[i] {
            return false;
        }
        i = i + 1;
    }
    assert(a@ =~= b@);
    true
}

/// Does a list of clipboard targets offer a list of URIs?
pub fn offers_uri_list(targets: &str) -> (b: bool)
    ensures
        b == offers_uris(lines(targets@)),
{
    let chars: Vec<char> = chars_of(targets);
    let pieces: Vec<Vec<char>> = split_lines(chars.as_slice());
    let wanted: Vec<char> = chars_of("text/uri-list");
    let ghost ls = lines(targets@);
    let n: usize = pieces.len();
    let mut i: usize = 0;
    while i < n
        invariant
            i <= n,
            n == pieces@.len(),
            n == ls.len(),
            ls == lines(targets@),
            wanted@ == "text/uri-list"@,
            forall|k: int| 0 <= k < n ==> (#[trigger] pieces@[k])@ == ls[k],
            forall|k: int| 0 <= k < i ==> trim(#[trigger] ls[k]) != "text/uri-list"@,
        decreases n - i,
    {
        assert(pieces@[i as int]@ == ls[i as int]);
        if same_chars(trimmed(pieces[i].as_slice()), wanted.as_slice()) {
            assert(trim(ls[i as int]) == "text/uri-list"@);
            return true;
        }
        i = i + 1;
    }
    false
}

/// Does the output of a query for clipboard targets offer a list of URIs?
pub fn targets_offer_uri_list(targets: &[u8]) -> (b: bool)
    ensures
        b == offers_uris(lines(text_of(targets@))),
{
    let text: String = string_from_utf8_lossy(targets);
    offers_uri_list(text.as_str())
}

/// The files on the clipboard, from the output of two queries: for its targets and for its list of
/// URIs. Either query may have failed; there is nothing where no list is offered, and where it
/// names no local file.
pub fn read_clipboard_files(targets: Option<&[u8]>, uris: Option<&[u8]>) -> (r: Option<
    Vec<String>,
>)
    ensures
        r is Some == (targets matches Some(t) && offers_uris(lines(text_of(t@))) && (
        uris matches Some(u) && paths_in(lines(text_of(u@))).len() > 0)),
        r matches Some(paths) ==> {
            let found = paths_in(lines(text_of(uris->Some_0@)));
            paths@.len() == found.len() && forall|k: int|
                0 <= k < paths@.len() ==> (#[trigger] paths@[k])@ == text_of(found[k])
                    && is_absolute(paths@[k]@)
        },
{
    let t: &[u8] = match targets {
        Some(t) => t,
        None => {
            return None;
        },
    };
    if !targets_offer_uri_list(t) {
        return None;
    }
    let u: &[u8] = match uris {
        Some(u) => u,
        None => {
            return None;
        },
    };
    let text: String = string_from_utf8_lossy(u);
    let paths: Vec<String> = parse_uri_list(text.as_str());
    if paths.len() == 0 {
        None
    } else {
        Some(paths)
    }
}

/// What two queries of the clipboard show.
pub enum ClipboardFiles {
    /// Nothing: a query has failed.
    Unknown,
    /// Something other than local files.
    Other,
    /// Local files.
    Files(Vec<String>),
}

/// What the clipboard holds, from the output of the same two queries.
pub fn clipboard_files(targets: Option<&[u8]>, uris: Option<&[u8]>) -> (r: ClipboardFiles)
    ensures
        match targets {
            None => r is Unknown,
            Some(t) => if !offers_uris(lines(text_of(t@))) {
                r is Other
            } else {
                match uris {
                    None => r is Unknown,
                    Some(u) => {
                        let found = paths_in(lines(text_of(u@)));
                        if found.len() == 0 {
                            r is Other
                        } else {
                            r matches ClipboardFiles::Files(paths) && paths@.len() == found.len()
                                && forall|k: int|
                                0 <= k < paths@.len() ==> (#[trigger] paths@[k])@ == text_of(
                                    found[k],
                                ) && is_absolute(paths@[k]@)
                        }
                    },
                }
            },
        },
{
    match read_clipboard_files(targets, uris) {
        Some(paths) => ClipboardFiles::Files(paths),
        None => match targets {
            None => ClipboardFiles::Unknown,
            Some(t) => if targets_offer_uri_list(t) && uris.is_none() {
                ClipboardFiles::Unknown
            } else {
                ClipboardFiles::Other
            },
        },
    }
}

/// Paths one after the other, each with a byte behind it that occurs in no text.
pub open spec fn joined(paths: Seq<String>) -> Seq<u8>
    decreases paths.len(),
{
    if paths.len() == 0 {
        Seq::empty()
    } else {
        joined(paths.drop_last()) + encode_utf8(paths.last()@) + seq![0xffu8]
    }
}

/// The FNV-1a hash of a list of paths, by which a new selection of files is noticed.
pub fn files_hash(paths: &[String]) -> (h: u64)
    ensures
        h == fnv1a(joined(paths@)),
{
    let n: usize = paths.len();
    let mut h: u64 = FNV_OFFSET;
    let mut i: usize = 0;
    while i < n
        invariant
            i <= n,
            n == paths@.len(),
            h == fnv1a(joined(paths@.take(i as int))),
        decreases n - i,
    {
        let ghost before = joined(paths@.take(i as int));
        let ghost bytes = encode_utf8(paths@[i as int]@);
        let p: &str = paths[i].as_str();
        h = fnv_bytes(h, p.as_bytes());
        h = fnv_byte(h, 0xff);
        i = i + 1;
        proof {
            assert(paths@.take(i as int).drop_last() =~= paths@.take(i - 1));
            lemma_fnv_append(FNV_OFFSET, before, bytes);
            lemma_fnv_append(FNV_OFFSET, before + bytes, seq![0xffu8]);
            assert(seq![0xffu8].drop_last() =~= Seq::<u8>::empty());
            reveal_with_fuel(fnv_more, 2);
        }
    }
    assert(paths@.take(n as int) =~= paths@);
    h
}

/// A text without percent signs is not changed by decoding.
pub proof fn law_plain_bytes_stay(b: Seq<u8>)
    requires
        forall|i: int| 0 <= i < b.len() ==> #[trigger] b[i] != 0x25,
    ensures
        unescaped(b) == b,
    decreases b.len(),
{
    if b.len() > 0 {
        let rest = b.skip(1);
        assert forall|i: int| 0 <= i < rest.len() implies #[trigger] rest[i] != 0x25 by {
            assert(rest[i] == b[i + 1]);
        }
        law_plain_bytes_stay(rest);
        assert(seq![b[0]] + rest =~= b);
    }
}

/// A byte written as a percent sign and two hexadecimal digits.
pub open spec fn escaped(b: Seq<u8>) -> Seq<u8>
    decreases b.len(),
{
    if b.len() == 0 {
        Seq::empty()
    } else {
        seq![0x25u8, upper_hex(b[0] as int / 16), upper_hex(b[0] as int % 16)] + escaped(b.skip(1))
    }
}

/// A hexadecimal digit, with capital letters.
pub open spec fn upper_hex(n: int) -> u8 {
    if n < 10 {
        (0x30 + n) as u8
    } else {
        (0x41 + n - 10) as u8
    }
}

/// Decoding gives back bytes that were all written as escapes.
pub proof fn law_decode_of_escaped(b: Seq<u8>)
    ensures
        unescaped(escaped(b)) == b,
    decreases b.len(),
{
    if b.len() > 0 {
        law_decode_of_escaped(b.skip(1));
        let e = escaped(b);
        let head = seq![0x25u8, upper_hex(b[0] as int / 16), upper_hex(b[0] as int % 16)];
        assert(e[0] == 0x25);
        assert(e[1] == head[1]);
        assert(e[2] == head[2]);
        assert(e.skip(3) =~= escaped(b.skip(1)));
        assert(seq![b[0]] + b.skip(1) =~= b);
    }
}

/// Each hexadecimal digit has its value, in letters of either size, and no other character has one.
pub proof fn law_hexadecimal_digits(n: int, c: u8)
    requires
        0 <= n < 16,
    ensures
        n < 10 ==> hex_value(('0' as int + n) as u8) == Some(n as u8),
        n >= 10 ==> hex_value(('a' as int + n - 10) as u8) == Some(n as u8) && hex_value(
            ('A' as int + n - 10) as u8,
        ) == Some(n as u8),
        hex_value(c) is Some <==> '0' as int <= c <= '9' as int || 'a' as int <= c <= 'f' as int
            || 'A' as int <= c <= 'F' as int,
{
}

/// An escape stands for its byte wherever it stands, and a percent sign without two digits behind it
/// for itself; what follows is decoded on its own.
pub proof fn law_escapes_stand_for_their_bytes(hi: u8, lo: u8, rest: Seq<u8>)
    ensures
        hex_value(hi) is Some && hex_value(lo) is Some ==> unescaped(
            seq![0x25u8, hi, lo] + rest,
        ) == seq![(16 * hex_value(hi)->Some_0 + hex_value(lo)->Some_0) as u8] + unescaped(rest),
        hex_value(hi) is None || hex_value(lo) is None ==> unescaped(seq![0x25u8, hi, lo] + rest)
            == seq![0x25u8] + unescaped(seq![hi, lo] + rest),
        hi != 0x25 ==> unescaped(seq![hi] + rest) == seq![hi] + unescaped(rest),
        unescaped(seq![0x25u8]) == seq![0x25u8],
        unescaped(seq![0x25u8, hi]) == seq![0x25u8] + unescaped(seq![hi]),
        unescaped(Seq::empty()).len() == 0,
{
    let a = seq![0x25u8, hi, lo] + rest;
    assert(a[0] == 0x25 && a[1] == hi && a[2] == lo);
    assert(a.skip(3) =~= rest);
    assert(a.skip(1) =~= seq![hi, lo] + rest);
    let b = seq![hi] + rest;
    assert(b[0] == hi);
    assert(b.skip(1) =~= rest);
    let c = seq![0x25u8];
    assert(c.skip(1) =~= Seq::<u8>::empty());
    assert(unescaped(Seq::<u8>::empty()) =~= Seq::<u8>::empty());
    assert(unescaped(c) =~= c);
    assert(seq![0x25u8, hi].skip(1) =~= seq![hi]);
}

proof fn lemma_slash_behind(host: Seq<char>, path: Seq<char>, from: int)
    requires
        0 <= from <= host.len(),
        forall|i: int| 0 <= i < host.len() ==> #[trigger] host[i] != '/',
        path.len() > 0,
        path[0] == '/',
    ensures
        slash_from(host + path, from) == Some(host.len() as int),
    decreases host.len() - from,
{
    let s = host + path;
    if from < host.len() {
        assert(s[from] == host[from]);
        lemma_slash_behind(host, path, from + 1);
    } else {
        assert(s[from] == path[0]);
    }
}

/// A URI of a file on no host, or on the local one in letters of any size, gives its path, decoded;
/// one on any other host gives nothing. White space around it does not matter.
pub proof fn law_file_uri_gives_its_path(line: Seq<char>, host: Seq<char>, path: Seq<char>)
    requires
        trim(line) == "file://"@ + host + path,
        forall|i: int| 0 <= i < host.len() ==> #[trigger] host[i] != '/',
        path.len() > 0,
        path[0] == '/',
    ensures
        host.len() == 0 || same_ignoring_ascii_case(host, "localhost"@) ==> path_bytes(line)
            == Some(unescaped(encode_utf8(path))),
        host.len() > 0 && !same_ignoring_ascii_case(host, "localhost"@) ==> path_bytes(line) is None,
{
    reveal_strlit("file://");
    let t = trim(line);
    assert(t.take(7) =~= file_scheme());
    assert(t[0] == 'f');
    let rest = t.skip(7);
    assert(rest =~= host + path);
    lemma_slash_behind(host, path, 0);
    assert(rest.take(host.len() as int) =~= host);
    assert(rest.skip(host.len() as int) =~= path);
}

/// Anything that does not start as a URI of a file gives nothing: an empty line, a comment, another
/// kind of URI.
pub proof fn law_other_lines_give_nothing(line: Seq<char>)
    requires
        !("file://"@.is_prefix_of(trim(line))),
    ensures
        path_bytes(line) is None,
{
    reveal_strlit("file://");
    let t = trim(line);
    if t.len() >= 7 && t.take(7) == file_scheme() {
        assert("file://"@ =~= t.take(7));
    }
}

/// A list of targets offers URIs if and only if one of its lines, without the white space around it,
/// names them; the order of the lines does not matter.
pub proof fn law_any_line_may_offer_uris(a: Seq<char>, b: Seq<char>)
    ensures
        offers_uris(lines(a.push('\n') + b)) <==> offers_uris(lines(a)) || offers_uris(lines(b)),
        (forall|i: int| 0 <= i < a.len() ==> #[trigger] a[i] != '\n') ==> (offers_uris(lines(a))
            <==> trim(a) == "text/uri-list"@),
{
    let sep = |c: char| c == '\n';
    lemma_split_joined(a, '\n', b, sep);
    let la = lines(a);
    let lb = lines(b);
    let l = lines(a.push('\n') + b);
    assert(l == la + lb);
    if offers_uris(l) {
        let k = choose|k: int| 0 <= k < l.len() && trim(#[trigger] l[k]) == "text/uri-list"@;
        if k < la.len() {
            assert(trim(la[k]) == "text/uri-list"@);
        } else {
            assert(trim(lb[k - la.len()]) == "text/uri-list"@);
        }
    }
    if offers_uris(la) {
        let k = choose|k: int| 0 <= k < la.len() && trim(#[trigger] la[k]) == "text/uri-list"@;
        assert(l[k] == la[k]);
    }
    if offers_uris(lb) {
        let k = choose|k: int| 0 <= k < lb.len() && trim(#[trigger] lb[k]) == "text/uri-list"@;
        assert(l[k + la.len()] == lb[k]);
    }
    if forall|i: int| 0 <= i < a.len() ==> #[trigger] a[i] != '\n' {
        assert forall|i: int| 0 <= i < a.len() implies !sep(#[trigger] a[i]) by {}
        lemma_split_whole(a, sep);
        assert(la == seq![a]);
        assert(la[0] == a);
    }
}

/// Every path goes into the hash of a list, in order, with a byte behind it that no text has.
pub proof fn law_every_path_is_hashed(paths: Seq<String>, p: String)
    ensures
        joined(Seq::empty()).len() == 0,
        joined(paths.push(p)) == joined(paths) + encode_utf8(p@) + seq![0xffu8],
        joined(paths.push(p)).len() == joined(paths).len() + encode_utf8(p@).len() + 1,
{
    assert(paths.push(p).drop_last() =~= paths);
}

/// Only a path that begins with a slash is absolute.
pub proof fn law_absolute_paths(path: Seq<char>)
    ensures
        is_absolute(seq!['/'] + path),
        path.len() == 0 ==> !is_absolute(path),
        path.len() > 0 && path[0] != '/' ==> !is_absolute(path),
{
    assert((seq!['/'] + path)[0] == '/');
}

proof fn lemma_no_slash(s: Seq<char>, from: int)
    requires
        forall|i: int| 0 <= i < s.len() ==> #[trigger] s[i] != '/',
    ensures
        slash_from(s, from) is None,
    decreases s.len() - from,
{
    if 0 <= from < s.len() {
        assert(s[from] != '/');
        lemma_no_slash(s, from + 1);
    }
}

/// A URI of a file without a path gives nothing.
pub proof fn law_uri_without_a_path_gives_nothing(line: Seq<char>, host: Seq<char>)
    requires
        trim(line) == "file://"@ + host,
        forall|i: int| 0 <= i < host.len() ==> #[trigger] host[i] != '/',
    ensures
        path_bytes(line) is None,
{
    reveal_strlit("file://");
    let t = trim(line);
    assert(t.skip(7) =~= host);
    lemma_no_slash(host, 0);
}

} // verus!
