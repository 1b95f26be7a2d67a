//! Which relative paths are safe to write below a chosen directory.
use crate::clipsync::split::{
    lemma_split_joined, lemma_split_nonempty, lemma_split_whole, split,
};
use crate::text::chars_of;
use vstd::prelude::*;

verus! {

/// Is `c` a path separator on either system?
pub open spec fn is_separator(c: char) -> bool {
    c == '/' || c == '\\'
}

/// Is `c` a control character, that is one of the Unicode category `Cc`?
pub open spec fn is_control(c: char) -> bool {
    (c as int) < 0x20 || 0x7f <= (c as int) < 0xa0
}

/// The segments of a path between its separators.
pub open spec fn segments(rel: Seq<char>) -> Seq<Seq<char>> {
    split(rel, |c: char| is_separator(c))
}

/// Is a segment neither empty nor a step upwards?
pub open spec fn good_segment(seg: Seq<char>) -> bool {
    seg.len() > 0 && seg != seq!['.', '.']
}

/// Does a path start with a drive letter?
pub open spec fn has_drive(rel: Seq<char>) -> bool {
    rel.len() >= 2 && (rel[0] as int) < 0x80 && rel[1] == ':'
}

/// Does a path lead to a place below the directory that it is relative to, on either system?
pub open spec fn safe_relpath(rel: Seq<char>) -> bool {
    &&& !has_drive(rel)
    &&& forall|i: int| 0 <= i < rel.len() ==> !is_control(#[trigger] rel[i])
    &&& forall|k: int| 0 <= k < segments(rel).len() ==> good_segment(#[trigger] segments(rel)[k])
}

fn is_sep(c: char) -> (b: bool)
    ensures
        b == is_separator(c),
{
    c == '/' || c == '\\'
}

fn is_ctrl(c: char) -> (b: bool)
    ensures
        b == is_control(c),
{
    let n: u32 = c as u32;
    n < 0x20 || (0x7f <= n && n < 0xa0)
}

fn is_ascii_char(c: char) -> (b: bool)
    ensures
        b == ((c as int) < 0x80),
{
    let n: u32 = c as u32;
    n < 0x80
}

fn segment_is_good(chars: &[char], from: usize, to: usize) -> (b: bool)
    requires
        from <= to <= chars@.len(),
    ensures
        b == good_segment(chars@.subrange(from as int, to as int)),
{
    let ghost seg = chars@.subrange(from as int, to as int);
    if to == from {
        return false;
    }
    if to - from == 2 && chars[from] == '.' && chars[from + 1] == '.' {
        assert(seg =~= seq!['.', '.']);
        return false;
    }
    proof {
        if seg == seq!['.', '.'] {
            assert(seg.len() == 2);
            assert(seg[0] == '.' && seg[1] == '.');
        }
    }
    true
}

proof fn lemma_leading_separator_is_bad(rel: Seq<char>)
    requires
        rel.len() == 0 || is_separator(rel[0]),
    ensures
        segments(rel).len() > 0,
        segments(rel)[0].len() == 0,
    decreases rel.len(),
{
    let sep = |c: char| is_separator(c);
    if rel.len() == 1 {
        assert(rel.drop_last() =~= Seq::<char>::empty());
        assert(split(rel.drop_last(), sep) =~= seq![Seq::<char>::empty()]);
    } else if rel.len() > 1 {
        assert(rel.drop_last()[0] == rel[0]);
        lemma_leading_separator_is_bad(rel.drop_last());
        lemma_split_two(rel.drop_last());
    }
}

proof fn lemma_split_two(rel: Seq<char>)
    requires
        rel.len() > 0,
        is_separator(rel[0]),
    ensures
        segments(rel).len() >= 2,
    decreases rel.len(),
{
    let sep = |c: char| is_separator(c);
    if rel.len() == 1 {
        assert(rel.drop_last() =~= Seq::<char>::empty());
        assert(split(rel.drop_last(), sep) =~= seq![Seq::<char>::empty()]);
    } else {
        assert(rel.drop_last()[0] == rel[0]);
        lemma_split_two(rel.drop_last());
    }
}

/// Is a relative path safe to use? Refused are the empty path, absolute paths, paths with a drive
/// letter, empty segments, steps upwards, and control characters.
pub fn is_safe_relpath(rel: &str) -> (b: bool)
    ensures
        b == safe_relpath(rel@),
{
    let chars: Vec<char> = chars_of(rel);
    let n: usize = chars.len();
    let ghost sep = |c: char| is_separator(c);
    if n == 0 || is_sep(chars[0]) {
        proof {
            lemma_leading_separator_is_bad(rel@);
            assert(!good_segment(segments(rel@)[0]));
        }
        return false;
    }
    if n >= 2 && is_ascii_char(chars[0]) && chars[1] == ':' {
        return false;
    }
    let mut start: usize = 0;
    let mut i: usize = 0;
    let mut good: bool = true;
    assert(rel@.take(0) =~= Seq::<char>::empty());
    assert(rel@.subrange(0, 0) =~= Seq::<char>::empty());
    while i < n
        invariant
            start <= i <= n,
            n == chars@.len(),
            chars@ == rel@,
            sep == (|c: char| is_separator(c)),
            ({
                let segs = split(rel@.take(i as int), sep);
                &&& segs.len() >= 1
                &&& segs.last() == rel@.subrange(start as int, i as int)
                &&& good == ((forall|k: int| 0 <= k < i ==> !is_control(#[trigger] rel@[k]))
                    && forall|k: int|
                    0 <= k < segs.len() - 1 ==> good_segment(#[trigger] segs[k]))
            }),
        decreases n - i,
    {
        let c: char = chars[i];
        let ghost segs = split(rel@.take(i as int), sep);
        let ghost next = split(rel@.take(i + 1), sep);
        assert(rel@.take(i + 1).drop_last() =~= rel@.take(i as int));
        let ctrl: bool = is_ctrl(c);
        let ghost was = good;
        if ctrl {
            assert(is_control(rel@[i as int]));
            good = false;
        }
        if is_sep(c) {
            let fine: bool = segment_is_good(chars.as_slice(), start, i);
            proof {
                assert(next =~= segs.push(Seq::empty()));
                assert(next[segs.len() - 1] == segs.last());
                assert forall|k: int| 0 <= k < segs.len() implies next[k] == segs[k] by {}
            }
            if !fine {
                good = false;
            }
            start = i + 1;
            proof {
                assert(rel@.subrange(start as int, i + 1) =~= Seq::<char>::empty());
                if good {
                    assert forall|k: int| 0 <= k < next.len() - 1 implies good_segment(
                        #[trigger] next[k],
                    ) by {
                        assert(next[k] == segs[k]);
                    }
                } else if was && !ctrl {
                    assert(!good_segment(next[segs.len() - 1]));
                } else if !was {
                    if forall|k: int| 0 <= k < i ==> !is_control(#[trigger] rel@[k]) {
                        let k = choose|k: int|
                            0 <= k < segs.len() - 1 && !good_segment(#[trigger] segs[k]);
                        assert(!good_segment(next[k]));
                    }
                }
            }
        } else {
            proof {
                assert(next =~= segs.update(segs.len() - 1, segs.last().push(c)));
                assert(rel@.subrange(start as int, i + 1) =~= rel@.subrange(
                    start as int,
                    i as int,
                ).push(c));
                assert forall|k: int| 0 <= k < segs.len() - 1 implies next[k] == segs[k] by {}
                if good {
                    assert forall|k: int| 0 <= k < next.len() - 1 implies good_segment(
                        #[trigger] next[k],
                    ) by {
                        assert(next[k] == segs[k]);
                    }
                } else if !was {
                    if forall|k: int| 0 <= k < i ==> !is_control(#[trigger] rel@[k]) {
                        let k = choose|k: int|
                            0 <= k < segs.len() - 1 && !good_segment(#[trigger] segs[k]);
                        assert(!good_segment(next[k]));
                    }
                }
            }
        }
        i = i + 1;
    }
    assert(rel@.take(n as int) =~= rel@);
    let last: bool = segment_is_good(chars.as_slice(), start, n);
    proof {
        let segs = segments(rel@);
        assert(segs[segs.len() - 1] == segs.last());
        if good && last {
            assert forall|k: int| 0 <= k < segs.len() implies good_segment(#[trigger] segs[k]) by {
                if k < segs.len() - 1 {
                }
            }
        }
    }
    good && last
}

/// A path with every slash made a backslash, as Windows writes it.
pub open spec fn backslashed(rel: Seq<char>) -> Seq<char> {
    Seq::new(
        rel.len(),
        |i: int|
            if rel[i] == '/' {
                '\\'
            } else {
                rel[i]
            },
    )
}

proof fn lemma_backslashed_segments(rel: Seq<char>)
    ensures
        segments(backslashed(rel)) == segments(rel),
    decreases rel.len(),
{
    let sep = |c: char| is_separator(c);
    if rel.len() == 0 {
        assert(backslashed(rel) =~= rel);
    } else {
        lemma_backslashed_segments(rel.drop_last());
        lemma_split_nonempty(rel.drop_last(), sep);
        assert(backslashed(rel).drop_last() =~= backslashed(rel.drop_last()));
    }
}

/// A safe path stays safe when it is written with backslashes.
pub proof fn law_safe_in_either_notation(rel: Seq<char>)
    ensures
        safe_relpath(backslashed(rel)) == safe_relpath(rel),
{
    lemma_backslashed_segments(rel);
    let b = backslashed(rel);
    if safe_relpath(b) {
        assert forall|i: int| 0 <= i < rel.len() implies !is_control(#[trigger] rel[i]) by {
            assert(!is_control(b[i]));
        }
    }
    if safe_relpath(rel) {
        assert forall|i: int| 0 <= i < b.len() implies !is_control(#[trigger] b[i]) by {
            assert(!is_control(rel[i]));
        }
    }
}

/// How far below the starting directory a path has got after its first `k` segments.
pub open spec fn depth_after(segs: Seq<Seq<char>>, k: nat) -> int
    decreases k,
{
    if k == 0 {
        0
    } else {
        let seg = segs[k - 1];
        depth_after(segs, (k - 1) as nat) + if seg == seq!['.', '.'] {
            -1int
        } else if seg == seq!['.'] {
            0
        } else {
            1
        }
    }
}

/// A safe path never leaves the directory that it starts in: it is not absolute, and at no point
/// on the way does it go above the start.
pub proof fn law_safe_path_stays_inside(rel: Seq<char>, k: nat)
    requires
        safe_relpath(rel),
        k <= segments(rel).len(),
    ensures
        rel.len() > 0,
        !is_separator(rel[0]),
        !has_drive(rel),
        depth_after(segments(rel), k) >= 0,
    decreases k,
{
    if rel.len() == 0 || is_separator(rel[0]) {
        lemma_leading_separator_is_bad(rel);
        assert(good_segment(segments(rel)[0]));
    }
    if k > 0 {
        law_safe_path_stays_inside(rel, (k - 1) as nat);
        assert(good_segment(segments(rel)[k - 1]));
    }
}

/// A name on its own is safe unless it is empty, goes upwards, starts with a drive letter or holds a
/// control character.
pub proof fn law_safe_names(name: Seq<char>)
    requires
        forall|i: int| 0 <= i < name.len() ==> #[trigger] name[i] != '/' && name[i] != '\\',
    ensures
        safe_relpath(name) <==> {
            &&& name.len() > 0
            &&& !(name.len() == 2 && name[0] == '.' && name[1] == '.')
            &&& !(name.len() >= 2 && (name[0] as int) < 0x80 && name[1] == ':')
            &&& forall|i: int|
                0 <= i < name.len() ==> {
                    let n = #[trigger] name[i] as int;
                    0x20 <= n < 0x7f || 0xa0 <= n
                }
        },
{
    let sep = |c: char| is_separator(c);
    assert forall|i: int| 0 <= i < name.len() implies !sep(#[trigger] name[i]) by {}
    lemma_split_whole(name, sep);
    assert(segments(name) == seq![name]);
    assert(segments(name)[0] == name);
    let up = seq!['.', '.'];
    assert(name == up <==> name.len() == 2 && name[0] == '.' && name[1] == '.') by {
        if name.len() == 2 && name[0] == '.' && name[1] == '.' {
            assert(name =~= up);
        }
    }
    assert forall|i: int| 0 <= i < name.len() implies is_control(#[trigger] name[i]) == !(0x20
        <= name[i] as int && (name[i] as int) < 0x7f || 0xa0 <= name[i] as int) by {}
    if safe_relpath(name) {
        assert(good_segment(segments(name)[0]));
    }
}

/// A safe path below a safe path is safe, with either separator between them; and a path that starts
/// with an unsafe one, or has an unsafe step anywhere, is not.
pub proof fn law_paths_are_safe_step_by_step(a: Seq<char>, c: char, b: Seq<char>)
    requires
        c == '/' || c == '\\',
    ensures
        safe_relpath(a) && safe_relpath(b) ==> safe_relpath(a.push(c) + b),
        safe_relpath(a.push(c) + b) ==> safe_relpath(a),
        safe_relpath(a.push(c) + b) && !(b.len() >= 2 && b[1] == ':') ==> safe_relpath(b),
{
    let sep = |x: char| is_separator(x);
    let all = a.push(c) + b;
    lemma_split_joined(a, c, b, sep);
    lemma_split_nonempty(a, sep);
    lemma_split_nonempty(b, sep);
    let sa = segments(a);
    let sb = segments(b);
    let s = segments(all);
    assert(s == sa + sb);
    if safe_relpath(a) && safe_relpath(b) {
        law_safe_path_stays_inside(a, 0);
        assert forall|i: int| 0 <= i < all.len() implies !is_control(#[trigger] all[i]) by {
            if i < a.len() {
                assert(!is_control(a[i]));
            } else if i > a.len() {
                assert(!is_control(b[i - a.len() - 1]));
            }
        }
        assert forall|k: int| 0 <= k < s.len() implies good_segment(#[trigger] s[k]) by {
            if k < sa.len() {
                assert(good_segment(sa[k]));
            } else {
                assert(good_segment(sb[k - sa.len()]));
            }
        }
        assert(all[0] == a[0]);
        if a.len() >= 2 {
            assert(all[1] == a[1]);
        } else {
            assert(all[1] == c);
        }
    }
    if safe_relpath(all) {
        assert forall|i: int| 0 <= i < a.len() implies !is_control(#[trigger] a[i]) by {
            assert(!is_control(all[i]));
        }
        assert forall|i: int| 0 <= i < b.len() implies !is_control(#[trigger] b[i]) by {
            assert(!is_control(all[i + a.len() + 1]));
        }
        assert forall|k: int| 0 <= k < sa.len() implies good_segment(#[trigger] sa[k]) by {
            assert(good_segment(s[k]));
        }
        assert forall|k: int| 0 <= k < sb.len() implies good_segment(#[trigger] sb[k]) by {
            assert(good_segment(s[k + sa.len()]));
        }
        if a.len() >= 2 {
            assert(all[0] == a[0] && all[1] == a[1]);
        }
    }
}

/// Only slashes are changed in the other notation.
pub proof fn law_only_slashes_are_turned(rel: Seq<char>, i: int)
    requires
        0 <= i < rel.len(),
    ensures
        backslashed(rel).len() == rel.len(),
        rel[i] == '/' ==> backslashed(rel)[i] == '\\',
        rel[i] != '/' ==> backslashed(rel)[i] == rel[i],
{
}

} // verus!
