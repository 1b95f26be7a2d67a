//! Strings as sequences of characters, and numbers as text.
use vstd::prelude::*;

verus! {

/// `String::push` puts one character behind the string.
pub assume_specification[ String::push ](s: &mut String, c: char)
    ensures
        final(s)@ == old(s)@.push(c),
;

/// The characters of a string.
pub fn chars_of(s: &str) -> (v: Vec<char>)
    ensures
        v@ == s@,
{
    let mut v: Vec<char> = Vec::new();
    for c in it: s.chars()
        invariant
            it.seq() == s@,
            v@ == s@.take(it.index() as int),
    {
        v.push(c);
        assert(s@.take(it.index() + 1) =~= s@.take(it.index() as int).push(c));
    }
    assert(s@.take(s@.len() as int) =~= s@);
    v
}

/// The string of some characters.
pub fn string_of(chars: &[char]) -> (s: String)
    ensures
        s@ == chars@,
{
    let mut s: String = String::new();
    let n: usize = chars.len();
    let mut i: usize = 0;
    while i < n
        invariant
            i <= n,
            n == chars@.len(),
            s@ == chars@.take(i as int),
        decreases n - i,
    {
        s.push(chars[i]);
        i = i + 1;
        assert(chars@.take(i as int) =~= chars@.take(i - 1).push(chars@[i - 1]));
    }
    assert(chars@.take(n as int) =~= chars@);
    s
}

/// A character with the capital letters of ASCII made small.
pub open spec fn ascii_lower(c: char) -> char {
    if 'A' <= c && c <= 'Z' {
        (c as int + 32) as char
    } else {
        c
    }
}

/// Are two strings the same but for capital letters of ASCII?
pub open spec fn same_ignoring_ascii_case(a: Seq<char>, b: Seq<char>) -> bool {
    a.len() == b.len() && forall|i: int|
        0 <= i < a.len() ==> ascii_lower(#[trigger] a[i]) == ascii_lower(b[i])
}

fn to_ascii_lower(c: char) -> (r: char)
    ensures
        r == ascii_lower(c),
{
    if 'A' <= c && c <= 'Z' {
        ((c as u32 + 32) as u8) as char
    } else {
        c
    }
}

/// Compares two strings without regard to capital letters of ASCII.
pub fn eq_ignore_ascii_case(a: &[char], b: &[char]) -> (r: bool)
    ensures
        r == same_ignoring_ascii_case(a@, b@),
{
    let n: usize = a.len();
    if n != b.len() {
        return false;
    }
    let mut i: usize = 0;
    while i < n
        invariant
            i <= n,
            n == a@.len(),
            n == b@.len(),
            forall|k: int| 0 <= k < i ==> ascii_lower(#[trigger] a@[k]) == ascii_lower(b@[k]),
        decreases n - i,
    {
        if to_ascii_lower(a[i]) != to_ascii_lower(b[i]) {
            assert(ascii_lower(a@[i as int]) != ascii_lower(b@[i as int]));
            return false;
        }
        i = i + 1;
    }
    true
}

/// Is `c` one of the ten decimal digits?
pub open spec fn is_digit(c: char) -> bool {
    '0' <= c && c <= '9'
}

/// The digit with the value `d`.
pub open spec fn digit(d: int) -> char {
    ('0' as int + d) as char
}

/// A number in decimal notation.
pub open spec fn decimal(n: nat) -> Seq<char>
    decreases n,
{
    if n < 10 {
        seq![digit(n as int)]
    } else {
        decimal(n / 10).push(digit((n % 10) as int))
    }
}

/// The number that a string of digits stands for.
pub open spec fn digits_value(s: Seq<char>) -> nat
    decreases s.len(),
{
    if s.len() == 0 {
        0
    } else {
        digits_value(s.drop_last()) * 10 + (s.last() as nat - '0' as nat) as nat
    }
}

/// Is a string one digit or more, and nothing else?
pub open spec fn all_digits(s: Seq<char>) -> bool {
    s.len() > 0 && forall|i: int| 0 <= i < s.len() ==> is_digit(#[trigger] s[i])
}

fn digit_char(d: u8) -> (c: char)
    requires
        d < 10,
    ensures
        c == digit(d as int),
{
    (48 + d) as char
}

/// Writes a number in decimal notation.
pub fn decimal_string(n: u64) -> (s: String)
    ensures
        s@ == decimal(n as nat),
{
    let mut rest: u64 = n;
    let mut back: Vec<char> = Vec::new();
    back.push(digit_char((n % 10) as u8));
    rest = n / 10;
    assert(decimal(n as nat) =~= if rest == 0 {
        Seq::empty()
    } else {
        decimal(rest as nat)
    } + back@.reverse());
    while rest > 0
        invariant
            decimal(n as nat) == (if rest == 0 {
                Seq::empty()
            } else {
                decimal(rest as nat)
            }) + back@.reverse(),
        decreases rest,
    {
        let ghost before = back@;
        let d: char = digit_char((rest % 10) as u8);
        back.push(d);
        proof {
            assert(back@.reverse() =~= seq![d] + before.reverse());
            let head = if rest / 10 == 0 {
                Seq::empty()
            } else {
                decimal((rest / 10) as nat)
            };
            assert(decimal(rest as nat) =~= head.push(d));
            assert(head.push(d) + before.reverse() =~= head + back@.reverse());
        }
        rest = rest / 10;
    }
    let mut s: String = String::new();
    let mut i: usize = back.len();
    while i > 0
        invariant
            i <= back@.len(),
            s@ == back@.reverse().take(back@.len() - i),
        decreases i,
    {
        i = i - 1;
        s.push(back[i]);
        assert(back@.reverse().take(back@.len() - i) =~= back@.reverse().take(
            back@.len() - i - 1,
        ).push(back@[i as int]));
    }
    assert(s@ =~= decimal(n as nat));
    s
}

/// The unsigned number that a string stands for, if it is one that fits: digits, with a plus sign
/// in front or without.
pub open spec fn unsigned_value(s: Seq<char>, max: nat) -> Option<nat> {
    let digits = if s.len() > 0 && s[0] == '+' {
        s.skip(1)
    } else {
        s
    };
    if all_digits(digits) && digits_value(digits) <= max {
        Some(digits_value(digits))
    } else {
        None
    }
}

proof fn lemma_digits_value_grows(s: Seq<char>, k: int)
    requires
        0 <= k <= s.len(),
    ensures
        digits_value(s.take(k)) <= digits_value(s),
    decreases s.len(),
{
    if k < s.len() {
        assert(s.drop_last().take(k) =~= s.take(k));
        lemma_digits_value_grows(s.drop_last(), k);
    } else {
        assert(s.take(k) =~= s);
    }
}

/// Reads a string of digits as a number of at most `max`.
fn read_digits(s: &[char], max: u64) -> (r: Option<u64>)
    ensures
        match r {
            Some(n) => all_digits(s@) && n as nat == digits_value(s@) && n <= max,
            None => !all_digits(s@) || digits_value(s@) > max,
        },
{
    let n: usize = s.len();
    if n == 0 {
        return None;
    }
    let mut value: u64 = 0;
    let mut i: usize = 0;
    while i < n
        invariant
            i <= n,
            n == s@.len(),
            n > 0,
            value as nat == digits_value(s@.take(i as int)),
            value <= max,
            forall|k: int| 0 <= k < i ==> is_digit(#[trigger] s@[k]),
        decreases n - i,
    {
        let c: char = s[i];
        if !('0' <= c && c <= '9') {
            assert(!is_digit(s@[i as int]));
            return None;
        }
        assert(s@.take(i + 1).drop_last() =~= s@.take(i as int));
        let next: u128 = value as u128 * 10 + (c as u32 - '0' as u32) as u128;
        proof {
            lemma_digits_value_grows(s@, i + 1);
        }
        if next > max as u128 {
            return None;
        }
        value = next as u64;
        i = i + 1;
    }
    assert(s@.take(n as int) =~= s@);
    Some(value)
}

/// Reads an unsigned number, as `str::parse` does.
pub fn parse_u64(s: &str) -> (r: Option<u64>)
    ensures
        match r {
            Some(n) => unsigned_value(s@, u64::MAX as nat) == Some(n as nat),
            None => unsigned_value(s@, u64::MAX as nat) is None,
        },
{
    let chars: Vec<char> = chars_of(s);
    if chars.len() > 0 && chars[0] == '+' {
        let digits: &[char] = vstd::slice::slice_subrange(chars.as_slice(), 1, chars.len());
        assert(digits@ =~= s@.skip(1));
        read_digits(digits, u64::MAX)
    } else {
        read_digits(chars.as_slice(), u64::MAX)
    }
}

/// The signed 32-bit number that a string stands for, if it is one that fits: digits, with a sign
/// in front or without.
pub open spec fn i32_value(s: Seq<char>) -> Option<i32> {
    if s.len() > 0 && s[0] == '-' {
        if all_digits(s.skip(1)) && digits_value(s.skip(1)) <= 0x8000_0000 {
            Some((-(digits_value(s.skip(1)) as int)) as i32)
        } else {
            None
        }
    } else {
        match unsigned_value(s, i32::MAX as nat) {
            Some(n) => Some(n as i32),
            None => None,
        }
    }
}

/// Reads a signed number, as `str::parse` does.
pub fn parse_i32(s: &str) -> (r: Option<i32>)
    ensures
        r == i32_value(s@),
{
    let chars: Vec<char> = chars_of(s);
    if chars.len() > 0 && chars[0] == '-' {
        let digits: &[char] = vstd::slice::slice_subrange(chars.as_slice(), 1, chars.len());
        assert(digits@ =~= s@.skip(1));
        match read_digits(digits, 0x8000_0000) {
            Some(n) => Some((0 - n as i64) as i32),
            None => None,
        }
    } else if chars.len() > 0 && chars[0] == '+' {
        let digits: &[char] = vstd::slice::slice_subrange(chars.as_slice(), 1, chars.len());
        assert(digits@ =~= s@.skip(1));
        match read_digits(digits, i32::MAX as u64) {
            Some(n) => Some(n as i32),
            None => None,
        }
    } else {
        match read_digits(chars.as_slice(), i32::MAX as u64) {
            Some(n) => Some(n as i32),
            None => None,
        }
    }
}

/// A number written in decimal notation is read back as that number, and has no leading zero.
pub proof fn law_decimal_is_read_back(n: nat)
    ensures
        all_digits(decimal(n)),
        digits_value(decimal(n)) == n,
        decimal(n).last() as int == '0' as int + n % 10,
        n < 10 <==> decimal(n).len() == 1,
        n > 0 ==> decimal(n)[0] != '0',
    decreases n,
{
    let d = decimal(n);
    if n < 10 {
        assert(d.drop_last() =~= Seq::<char>::empty());
        assert(digits_value(d.drop_last()) == 0);
    } else {
        law_decimal_is_read_back(n / 10);
        let init = decimal(n / 10);
        assert(d.drop_last() =~= init);
        assert forall|i: int| 0 <= i < d.len() implies is_digit(#[trigger] d[i]) by {
            if i < init.len() {
                assert(d[i] == init[i]);
            }
        }
        assert(d[0] == init[0]);
    }
}

proof fn lemma_leading_zero(s: Seq<char>)
    ensures
        digits_value(seq!['0'] + s) == digits_value(s),
    decreases s.len(),
{
    let z = seq!['0'] + s;
    if s.len() == 0 {
        assert(z.drop_last() =~= Seq::<char>::empty());
        assert(digits_value(z.drop_last()) == 0);
    } else {
        assert(z.drop_last() =~= seq!['0'] + s.drop_last());
        lemma_leading_zero(s.drop_last());
    }
}

/// A leading zero does not change a number, and every digit that is put behind counts ten times less
/// than those before it.
pub proof fn law_digits_count_by_their_place(s: Seq<char>, c: char)
    requires
        is_digit(c),
    ensures
        digits_value(seq!['0'] + s) == digits_value(s),
        digits_value(s.push(c)) == 10 * digits_value(s) + (c as int - '0' as int),
{
    lemma_leading_zero(s);
    assert(s.push(c).drop_last() =~= s);
}

/// An unsigned number that fits is read, with a plus sign or without, and one that does not fit is
/// refused.
pub proof fn law_unsigned_numbers_are_read(n: nat, max: nat)
    ensures
        n <= max ==> unsigned_value(decimal(n), max) == Some(n) && unsigned_value(
            seq!['+'] + decimal(n),
            max,
        ) == Some(n),
        n > max ==> unsigned_value(decimal(n), max) is None && unsigned_value(
            seq!['+'] + decimal(n),
            max,
        ) is None,
        unsigned_value(Seq::empty(), max) is None,
        unsigned_value(seq!['+'], max) is None,
{
    law_decimal_is_read_back(n);
    let d = decimal(n);
    let p = seq!['+'] + d;
    assert(is_digit(d[0]));
    assert(p.skip(1) =~= d);
    assert(seq!['+'].skip(1) =~= Seq::<char>::empty());
}

/// Nothing but digits makes a number, but for one sign in front.
pub proof fn law_other_characters_make_no_number(s: Seq<char>, i: int, max: nat)
    requires
        0 <= i < s.len(),
        !('0' <= s[i] && s[i] <= '9'),
    ensures
        i > 0 || s[i] != '+' ==> unsigned_value(s, max) is None,
        i > 0 || (s[i] != '+' && s[i] != '-') ==> i32_value(s) is None,
{
    assert(!is_digit(s[i]));
    if i > 0 {
        assert(s.skip(1)[i - 1] == s[i]);
    }
}

/// A signed number that fits is read with its sign, and one that does not fit is refused.
pub proof fn law_signed_numbers_are_read(n: nat)
    ensures
        n <= 0x7fff_ffff ==> i32_value(decimal(n)) == Some(n as i32) && i32_value(
            seq!['+'] + decimal(n),
        ) == Some(n as i32),
        n > 0x7fff_ffff ==> i32_value(decimal(n)) is None,
        n <= 0x8000_0000 ==> i32_value(seq!['-'] + decimal(n)) == Some((-n) as i32),
        n > 0x8000_0000 ==> i32_value(seq!['-'] + decimal(n)) is None,
{
    law_decimal_is_read_back(n);
    law_unsigned_numbers_are_read(n, i32::MAX as nat);
    let d = decimal(n);
    assert(is_digit(d[0]));
    assert((seq!['-'] + d).skip(1) =~= d);
}

/// Letters of ASCII are the same in either size, and any other character is the same only as itself.
pub proof fn law_only_the_size_of_letters_is_ignored(a: char, b: char)
    ensures
        same_ignoring_ascii_case(seq![a], seq![b]) <==> {
            ||| a == b
            ||| 'a' as int <= a as int <= 'z' as int && b as int + 32 == a as int
            ||| 'a' as int <= b as int <= 'z' as int && a as int + 32 == b as int
        },
{
    let s = seq![a];
    let t = seq![b];
    assert(s[0] == a && t[0] == b);
    if same_ignoring_ascii_case(s, t) {
        assert(ascii_lower(s[0]) == ascii_lower(t[0]));
    }
}

/// Texts are compared character by character, and differ where their lengths do.
pub proof fn law_caseless_comparison_is_by_character(
    a: Seq<char>,
    b: Seq<char>,
    c: Seq<char>,
    d: Seq<char>,
)
    requires
        a.len() == b.len(),
    ensures
        same_ignoring_ascii_case(a + c, b + d) <==> same_ignoring_ascii_case(a, b)
            && same_ignoring_ascii_case(c, d),
        c.len() != d.len() ==> !same_ignoring_ascii_case(c, d),
        same_ignoring_ascii_case(Seq::empty(), Seq::empty()),
{
    let x = a + c;
    let y = b + d;
    if same_ignoring_ascii_case(x, y) {
        assert forall|i: int| 0 <= i < a.len() implies ascii_lower(#[trigger] a[i]) == ascii_lower(
            b[i],
        ) by {
            assert(ascii_lower(x[i]) == ascii_lower(y[i]));
        }
        assert forall|i: int| 0 <= i < c.len() implies ascii_lower(#[trigger] c[i]) == ascii_lower(
            d[i],
        ) by {
            assert(ascii_lower(x[i + a.len()]) == ascii_lower(y[i + a.len()]));
        }
    }
    if same_ignoring_ascii_case(a, b) && same_ignoring_ascii_case(c, d) {
        assert forall|i: int| 0 <= i < x.len() implies ascii_lower(#[trigger] x[i]) == ascii_lower(
            y[i],
        ) by {
            if i < a.len() {
                assert(ascii_lower(a[i]) == ascii_lower(b[i]));
            } else {
                assert(ascii_lower(c[i - a.len()]) == ascii_lower(d[i - a.len()]));
            }
        }
    }
}

} // verus!
