//! Splitting text at separators.
use vstd::prelude::*;

verus! {

/// The pieces of a text between the characters that are separators. There is always one piece more
/// than there are separators, and pieces may be empty.
pub open spec fn split(s: Seq<char>, sep: spec_fn(char) -> bool) -> Seq<Seq<char>>
    decreases s.len(),
{
    if s.len() == 0 {
        seq![Seq::empty()]
    } else {
        let init = split(s.drop_last(), sep);
        if sep(s.last()) {
            init.push(Seq::empty())
        } else {
            init.update(init.len() - 1, init.last().push(s.last()))
        }
    }
}

/// There is at least one piece.
pub proof fn lemma_split_nonempty(s: Seq<char>, sep: spec_fn(char) -> bool)
    ensures
        split(s, sep).len() >= 1,
    decreases s.len(),
{
    if s.len() > 0 {
        lemma_split_nonempty(s.drop_last(), sep);
    }
}

/// The pieces of two texts with a separator between them are those of the one and those of the other.
pub proof fn lemma_split_joined(a: Seq<char>, c: char, b: Seq<char>, sep: spec_fn(char) -> bool)
    requires
        sep(c),
    ensures
        split(a.push(c) + b, sep) == split(a, sep) + split(b, sep),
    decreases b.len(),
{
    let all = a.push(c) + b;
    if b.len() == 0 {
        assert(all.drop_last() =~= a);
        assert(split(all, sep) =~= split(a, sep) + split(b, sep));
    } else {
        assert(all.drop_last() =~= a.push(c) + b.drop_last());
        lemma_split_joined(a, c, b.drop_last(), sep);
        lemma_split_nonempty(b.drop_last(), sep);
        assert(split(all, sep) =~= split(a, sep) + split(b, sep));
    }
}

/// A text without separators is one piece.
pub proof fn lemma_split_whole(s: Seq<char>, sep: spec_fn(char) -> bool)
    requires
        forall|i: int| 0 <= i < s.len() ==> !sep(#[trigger] s[i]),
    ensures
        split(s, sep) == seq![s],
    decreases s.len(),
{
    if s.len() > 0 {
        let init = s.drop_last();
        assert forall|i: int| 0 <= i < init.len() implies !sep(#[trigger] init[i]) by {
            assert(init[i] == s[i]);
        }
        lemma_split_whole(init, sep);
        assert(!sep(s[s.len() - 1]));
        assert(init.push(s.last()) =~= s);
        assert(split(s, sep) =~= seq![s]);
    } else {
        assert(s =~= Seq::<char>::empty());
    }
}

/// Is `c` white space, that is a character with the Unicode property `White_Space`?
pub open spec fn is_whitespace(c: char) -> bool {
    let n = c as int;
    0x9 <= n <= 0xd || n == 0x20 || n == 0x85 || n == 0xa0 || n == 0x1680 || 0x2000 <= n <= 0x200a
        || n == 0x2028 || n == 0x2029 || n == 0x202f || n == 0x205f || n == 0x3000
}

/// A text without the white space at its beginning.
pub open spec fn trim_start(s: Seq<char>) -> Seq<char>
    decreases s.len(),
{
    if s.len() > 0 && is_whitespace(s[0]) {
        trim_start(s.skip(1))
    } else {
        s
    }
}

/// A text without the white space at its end.
pub open spec fn trim_end(s: Seq<char>) -> Seq<char>
    decreases s.len(),
{
    if s.len() > 0 && is_whitespace(s.last()) {
        trim_end(s.drop_last())
    } else {
        s
    }
}

/// A text without the white space at both ends.
pub open spec fn trim(s: Seq<char>) -> Seq<char> {
    trim_end(trim_start(s))
}

/// The lines of a text.
pub open spec fn lines(s: Seq<char>) -> Seq<Seq<char>> {
    split(s, |c: char| c == '\n')
}

fn is_ws(c: char) -> (b: bool)
    ensures
        b == is_whitespace(c),
{
    let n: u32 = c as u32;
    (0x9 <= n && n <= 0xd) || n == 0x20 || n == 0x85 || n == 0xa0 || n == 0x1680 || (0x2000 <= n
        && n <= 0x200a) || n == 0x2028 || n == 0x2029 || n == 0x202f || n == 0x205f || n == 0x3000
}

/// The text between the white space at both ends.
pub fn trimmed(s: &[char]) -> (t: &[char])
    ensures
        t@ == trim(s@),
{
    let n: usize = s.len();
    let mut from: usize = 0;
    assert(s@.skip(0) =~= s@);
    while from < n && is_ws(s[from])
        invariant
            from <= n,
            n == s@.len(),
            trim_start(s@) == trim_start(s@.skip(from as int)),
        decreases n - from,
    {
        assert(s@.skip(from as int).skip(1) =~= s@.skip(from + 1));
        from = from + 1;
    }
    assert(trim_start(s@) == s@.skip(from as int));
    let mut to: usize = n;
    assert(s@.subrange(from as int, n as int) =~= s@.skip(from as int));
    while to > from && is_ws(s[to - 1])
        invariant
            from <= to <= n,
            n == s@.len(),
            trim_end(s@.skip(from as int)) == trim_end(s@.subrange(from as int, to as int)),
        decreases to - from,
    {
        assert(s@.subrange(from as int, to as int).drop_last() =~= s@.subrange(
            from as int,
            to - 1,
        ));
        to = to - 1;
    }
    vstd::slice::slice_subrange(s, from, to)
}

/// Splits a text into its lines.
pub fn split_lines(s: &[char]) -> (pieces: Vec<Vec<char>>)
    ensures
        pieces@.len() == lines(s@).len(),
        forall|k: int| 0 <= k < pieces@.len() ==> (#[trigger] pieces@[k])@ == lines(s@)[k],
{
    let ghost sep = |c: char| c == '\n';
    let n: usize = s.len();
    let mut pieces: Vec<Vec<char>> = Vec::new();
    let mut piece: Vec<char> = Vec::new();
    let mut i: usize = 0;
    assert(s@.take(0) =~= Seq::<char>::empty());
    while i < n
        invariant
            i <= n,
            n == s@.len(),
            sep == (|c: char| c == '\n'),
            split(s@.take(i as int), sep).len() == pieces@.len() + 1,
            split(s@.take(i as int), sep).last() == piece@,
            forall|k: int|
                0 <= k < pieces@.len() ==> (#[trigger] pieces@[k])@ == split(
                    s@.take(i as int),
                    sep,
                )[k],
        decreases n - i,
    {
        let c: char = s[i];
        let ghost before = split(s@.take(i as int), sep);
        let ghost done = pieces@;
        assert(s@.take(i + 1).drop_last() =~= s@.take(i as int));
        if c == '\n' {
            let full: Vec<char> = piece;
            piece = Vec::new();
            pieces.push(full);
            proof {
                let after = split(s@.take(i + 1), sep);
                assert(after =~= before.push(Seq::empty()));
                assert forall|k: int| 0 <= k < pieces@.len() implies (#[trigger] pieces@[k])@
                    == after[k] by {
                    if k < done.len() {
                        assert(pieces@[k] == done[k]);
                    }
                }
            }
        } else {
            piece.push(c);
            proof {
                let after = split(s@.take(i + 1), sep);
                assert(after =~= before.update(before.len() - 1, before.last().push(c)));
            }
        }
        i = i + 1;
    }
    assert(s@.take(n as int) =~= s@);
    let ghost done = pieces@;
    pieces.push(piece);
    assert forall|k: int| 0 <= k < pieces@.len() implies (#[trigger] pieces@[k])@ == lines(s@)[k] by {
        if k < done.len() {
            assert(pieces@[k] == done[k]);
        }
    }
    pieces
}

proof fn lemma_trim_start(pre: Seq<char>, s: Seq<char>)
    requires
        forall|i: int| 0 <= i < pre.len() ==> is_whitespace(#[trigger] pre[i]),
    ensures
        trim_start(pre + s) == trim_start(s),
    decreases pre.len(),
{
    let all = pre + s;
    if pre.len() == 0 {
        assert(all =~= s);
    } else {
        assert(is_whitespace(pre[0]));
        assert(all[0] == pre[0]);
        assert(all.skip(1) =~= pre.skip(1) + s);
        assert forall|i: int| 0 <= i < pre.skip(1).len() implies is_whitespace(
            #[trigger] pre.skip(1)[i],
        ) by {
            assert(pre.skip(1)[i] == pre[i + 1]);
        }
        lemma_trim_start(pre.skip(1), s);
    }
}

proof fn lemma_trim_end(s: Seq<char>, post: Seq<char>)
    requires
        forall|i: int| 0 <= i < post.len() ==> is_whitespace(#[trigger] post[i]),
    ensures
        trim_end(s + post) == trim_end(s),
    decreases post.len(),
{
    let all = s + post;
    if post.len() == 0 {
        assert(all =~= s);
    } else {
        assert(is_whitespace(post[post.len() - 1]));
        assert(all.last() == post.last());
        assert(all.drop_last() =~= s + post.drop_last());
        assert forall|i: int| 0 <= i < post.drop_last().len() implies is_whitespace(
            #[trigger] post.drop_last()[i],
        ) by {
            assert(post.drop_last()[i] == post[i]);
        }
        lemma_trim_end(s, post.drop_last());
    }
}

/// White space around a text is taken away, all of it, and nothing else is.
pub proof fn law_only_white_space_is_trimmed(pre: Seq<char>, core: Seq<char>, post: Seq<char>)
    requires
        forall|i: int| 0 <= i < pre.len() ==> is_whitespace(#[trigger] pre[i]),
        forall|i: int| 0 <= i < post.len() ==> is_whitespace(#[trigger] post[i]),
        core.len() > 0 ==> !is_whitespace(core[0]) && !is_whitespace(core.last()),
    ensures
        trim(pre + core + post) == core,
{
    assert(pre + core + post =~= pre + (core + post));
    lemma_trim_start(pre, core + post);
    if core.len() > 0 {
        assert((core + post)[0] == core[0]);
        assert(trim_start(core + post) == core + post);
        lemma_trim_end(core, post);
    } else {
        let e = Seq::<char>::empty();
        assert(core =~= e);
        assert(core + post =~= post + e);
        lemma_trim_start(post, e);
        assert(trim_start(e) == e);
        assert(trim_end(e) == e);
    }
}

/// Of the ASCII characters, the tab, the line and page breaks, the carriage return and the space are
/// white space.
pub proof fn law_ascii_white_space(c: char)
    requires
        (c as int) < 0x80,
    ensures
        is_whitespace(c) <==> c == ' ' || c == '\t' || c == '\n' || c == '\r' || c as int == 0x0b
            || c as int == 0x0c,
{
}

/// The lines of two texts with a line break between them are those of the one and those of the
/// other; a text without a line break is one line.
pub proof fn law_lines_end_at_line_breaks(a: Seq<char>, b: Seq<char>)
    ensures
        lines(a.push('\n') + b) == lines(a) + lines(b),
        (forall|i: int| 0 <= i < a.len() ==> #[trigger] a[i] != '\n') ==> lines(a) == seq![a],
{
    let sep = |c: char| c == '\n';
    lemma_split_joined(a, '\n', b, sep);
    if forall|i: int| 0 <= i < a.len() ==> #[trigger] a[i] != '\n' {
        assert forall|i: int| 0 <= i < a.len() implies !sep(#[trigger] a[i]) by {}
        lemma_split_whole(a, sep);
    }
}

/// Beyond ASCII, white space is the next line and the no-break space, and the spaces and separators of
/// the other scripts.
pub proof fn law_other_white_space(c: char)
    requires
        (c as int) >= 0x80,
    ensures
        is_whitespace(c) <==> {
            let n = c as int;
            ||| n == 0x85 || n == 0xa0 || n == 0x1680
            ||| 0x2000 <= n < 0x200b
            ||| n == 0x2028 || n == 0x2029 || n == 0x202f || n == 0x205f || n == 0x3000
        },
{
}

} // verus!
