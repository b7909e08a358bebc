//! Character classes and small text helpers shared by the parsers.

use vstd::prelude::*;

verus! {

/// Identifier-token characters: ASCII letters, digits and underscore.
pub open spec fn is_word_char(c: char) -> bool {
    ('a' <= c && c <= 'z') || ('A' <= c && c <= 'Z') || ('0' <= c && c <= '9') || c == '_'
}

/// ASCII decimal digits.
pub open spec fn is_digit_char(c: char) -> bool {
    '0' <= c && c <= '9'
}

/// Horizontal blank characters accepted after the severity colon.
pub open spec fn is_blank_char(c: char) -> bool {
    c == ' ' || c == '\t'
}

/// Whitespace stripped by trimming: the ASCII whitespace characters.
pub open spec fn is_space_char(c: char) -> bool {
    c == ' ' || c == '\t' || c == '\n' || c == '\r' || c == '\x0b' || c == '\x0c'
}

pub fn word_char(c: char) -> (r: bool)
    ensures
        r == is_word_char(c),
{
    ('a' <= c && c <= 'z') || ('A' <= c && c <= 'Z') || ('0' <= c && c <= '9') || c == '_'
}

pub fn digit_char(c: char) -> (r: bool)
    ensures
        r == is_digit_char(c),
{
    '0' <= c && c <= '9'
}

pub fn blank_char(c: char) -> (r: bool)
    ensures
        r == is_blank_char(c),
{
    c == ' ' || c == '\t'
}

pub fn space_char(c: char) -> (r: bool)
    ensures
        r == is_space_char(c),
{
    c == ' ' || c == '\t' || c == '\n' || c == '\r' || c == '\x0b' || c == '\x0c'
}

/// String equality by contents.
pub fn str_eq(a: &str, b: &str) -> (r: bool)
    ensures
        r == (a@ == b@),
{
    let sa = a.to_owned();
    let sb = b.to_owned();
    sa == sb
}

/// The lines of a text, split on `'\n'`. Every text has at least one line;
/// a trailing newline yields a trailing empty line.
pub open spec fn spec_lines(s: Seq<char>) -> Seq<Seq<char>>
    decreases s.len(),
{
    if s.len() == 0 {
        seq![Seq::<char>::empty()]
    } else if s[0] == '\n' {
        seq![Seq::<char>::empty()] + spec_lines(s.skip(1))
    } else {
        let rest = spec_lines(s.skip(1));
        seq![seq![s[0]] + rest[0]] + rest.skip(1)
    }
}

pub proof fn lemma_spec_lines_len(s: Seq<char>)
    ensures
        spec_lines(s).len() >= 1,
    decreases s.len(),
{
    if s.len() == 0 {
    } else if s[0] == '\n' {
        lemma_spec_lines_len(s.skip(1));
    } else {
        lemma_spec_lines_len(s.skip(1));
    }
}

/// A text with no newline is a single line.
pub proof fn lemma_spec_lines_single(s: Seq<char>)
    requires
        forall|i: int| 0 <= i < s.len() ==> s[i] != '\n',
    ensures
        spec_lines(s) =~= seq![s],
    decreases s.len(),
{
    if s.len() == 0 {
        assert(spec_lines(s) == seq![Seq::<char>::empty()]);
        assert(Seq::<char>::empty() =~= s);
    } else {
        lemma_spec_lines_single(s.skip(1));
        assert(seq![s[0]] + s.skip(1) =~= s);
    }
}

/// Splitting at the first newline: the part before it is the first line.
pub proof fn lemma_spec_lines_split(a: Seq<char>, b: Seq<char>)
    requires
        forall|i: int| 0 <= i < a.len() ==> a[i] != '\n',
    ensures
        spec_lines(a + seq!['\n'] + b) =~= seq![a] + spec_lines(b),
    decreases a.len(),
{
    let s = a + seq!['\n'] + b;
    if a.len() == 0 {
        assert(s[0] == '\n');
        assert(s.skip(1) =~= b);
        assert(a =~= Seq::<char>::empty());
    } else {
        assert(s[0] == a[0]);
        assert(s[0] != '\n');
        assert(s.skip(1) =~= a.skip(1) + seq!['\n'] + b);
        lemma_spec_lines_split(a.skip(1), b);
        let rest = spec_lines(s.skip(1));
        assert(rest =~= seq![a.skip(1)] + spec_lines(b));
        lemma_spec_lines_len(b);
        assert(rest[0] == a.skip(1));
        assert(rest.skip(1) =~= spec_lines(b));
        assert(seq![s[0]] + rest[0] =~= a);
    }
}

/// The text, split into its lines on `'\n'`.
pub fn split_lines(s: &str) -> (r: Vec<String>)
    ensures
        r@.map_values(|l: String| l@) =~= spec_lines(s@),
        r@.len() >= 1,
{
    let n = s.unicode_len();
    let mut r: Vec<String> = Vec::new();
    let mut start: usize = 0;
    let mut i: usize = 0;
    proof {
        assert(s@.skip(0) =~= s@);
        assert(r@.map_values(|l: String| l@) =~= Seq::<Seq<char>>::empty());
    }
    while i < n
        invariant
            start <= i <= n,
            n == s@.len(),
            forall|k: int| start <= k < i ==> s@[k] != '\n',
            spec_lines(s@) =~= r@.map_values(|l: String| l@) + spec_lines(s@.skip(start as int)),
        decreases n - i,
    {
        let c = s.get_char(i);
        if c == '\n' {
            let line = s.substring_char(start, i).to_owned();
            proof {
                let a = s@.subrange(start as int, i as int);
                let b = s@.skip(i + 1);
                assert(s@.skip(start as int) =~= a + seq!['\n'] + b);
                lemma_spec_lines_split(a, b);
                assert((r@ + seq![line]).map_values(|l: String| l@) =~= r@.map_values(
                    |l: String| l@,
                ) + seq![a]);
            }
            r.push(line);
            start = i + 1;
        }
        i = i + 1;
    }
    let last = s.substring_char(start, n).to_owned();
    proof {
        let a = s@.subrange(start as int, n as int);
        assert(s@.skip(start as int) =~= a);
        lemma_spec_lines_single(a);
        assert((r@ + seq![last]).map_values(|l: String| l@) =~= r@.map_values(|l: String| l@)
            + seq![a]);
    }
    r.push(last);
    r
}

/// Length of the longest word-character prefix of a line.
pub open spec fn word_prefix_len(s: Seq<char>) -> nat
    decreases s.len(),
{
    if s.len() == 0 || !is_word_char(s[0]) {
        0
    } else {
        1 + word_prefix_len(s.skip(1))
    }
}

pub proof fn lemma_word_prefix_len_is(s: Seq<char>, i: int)
    requires
        0 <= i <= s.len(),
        forall|j: int| 0 <= j < i ==> is_word_char(s[j]),
        i < s.len() ==> !is_word_char(s[i]),
    ensures
        word_prefix_len(s) == i,
    decreases i,
{
    if i == 0 {
    } else {
        assert(is_word_char(s[0]));
        lemma_word_prefix_len_is(s.skip(1), i - 1);
    }
}

/// Length of the longest decimal-digit suffix of a line.
pub open spec fn digit_suffix_len(s: Seq<char>) -> nat
    decreases s.len(),
{
    if s.len() == 0 || !is_digit_char(s[s.len() - 1]) {
        0
    } else {
        1 + digit_suffix_len(s.drop_last())
    }
}

pub proof fn lemma_digit_suffix_len_is(s: Seq<char>, i: int)
    requires
        0 <= i <= s.len(),
        forall|j: int| s.len() - i <= j < s.len() ==> is_digit_char(s[j]),
        i < s.len() ==> !is_digit_char(s[s.len() - i - 1]),
    ensures
        digit_suffix_len(s) == i,
    decreases i,
{
    if i == 0 {
    } else {
        assert(is_digit_char(s[s.len() - 1]));
        lemma_digit_suffix_len_is(s.drop_last(), i - 1);
    }
}

/// Length of the longest whitespace prefix.
pub open spec fn space_prefix_len(s: Seq<char>) -> nat
    decreases s.len(),
{
    if s.len() == 0 || !is_space_char(s[0]) {
        0
    } else {
        1 + space_prefix_len(s.skip(1))
    }
}

pub proof fn lemma_space_prefix_len_is(s: Seq<char>, i: int)
    requires
        0 <= i <= s.len(),
        forall|j: int| 0 <= j < i ==> is_space_char(s[j]),
        i < s.len() ==> !is_space_char(s[i]),
    ensures
        space_prefix_len(s) == i,
    decreases i,
{
    if i == 0 {
    } else {
        assert(is_space_char(s[0]));
        lemma_space_prefix_len_is(s.skip(1), i - 1);
    }
}

/// Length of the longest whitespace suffix.
pub open spec fn space_suffix_len(s: Seq<char>) -> nat
    decreases s.len(),
{
    if s.len() == 0 || !is_space_char(s[s.len() - 1]) {
        0
    } else {
        1 + space_suffix_len(s.drop_last())
    }
}

pub proof fn lemma_space_suffix_len_is(s: Seq<char>, i: int)
    requires
        0 <= i <= s.len(),
        forall|j: int| s.len() - i <= j < s.len() ==> is_space_char(s[j]),
        i < s.len() ==> !is_space_char(s[s.len() - i - 1]),
    ensures
        space_suffix_len(s) == i,
    decreases i,
{
    if i == 0 {
    } else {
        assert(is_space_char(s[s.len() - 1]));
        lemma_space_suffix_len_is(s.drop_last(), i - 1);
    }
}

/// Index of the first occurrence of `ch`, or the length if there is none.
pub open spec fn until_char_len(s: Seq<char>, ch: char) -> nat
    decreases s.len(),
{
    if s.len() == 0 || s[0] == ch {
        0
    } else {
        1 + until_char_len(s.skip(1), ch)
    }
}

pub proof fn lemma_until_char_len_is(s: Seq<char>, ch: char, i: int)
    requires
        0 <= i <= s.len(),
        forall|j: int| 0 <= j < i ==> s[j] != ch,
        i < s.len() ==> s[i] == ch,
    ensures
        until_char_len(s, ch) == i,
    decreases i,
{
    if i == 0 {
    } else {
        assert(s[0] != ch);
        lemma_until_char_len_is(s.skip(1), ch, i - 1);
    }
}

/// The line with surrounding whitespace removed.
pub open spec fn spec_trim(s: Seq<char>) -> Seq<char> {
    let a = s.skip(space_prefix_len(s) as int);
    a.take(a.len() - space_suffix_len(a))
}

/// The line with surrounding whitespace removed.
pub fn trim_str<'a>(s: &'a str) -> (r: &'a str)
    ensures
        r@ == spec_trim(s@),
{
    let n = s.unicode_len();
    let mut a: usize = 0;
    while a < n && space_char(s.get_char(a))
        invariant
            n == s@.len(),
            0 <= a <= n,
            forall|j: int| 0 <= j < a ==> is_space_char(s@[j]),
        decreases n - a,
    {
        a = a + 1;
    }
    proof {
        lemma_space_prefix_len_is(s@, a as int);
    }
    let mut b: usize = n;
    while b > a && space_char(s.get_char(b - 1))
        invariant
            a <= b <= n,
            n == s@.len(),
            forall|j: int| b <= j < n ==> is_space_char(s@[j]),
        decreases b,
    {
        b = b - 1;
    }
    proof {
        let t = s@.skip(a as int);
        assert(forall|j: int| t.len() - (n - b) <= j < t.len() ==> is_space_char(t[j]));
        lemma_space_suffix_len_is(t, n - b);
        assert(t.take(t.len() - (n - b)) =~= s@.subrange(a as int, b as int));
    }
    s.substring_char(a, b)
}

/// Numeric value of a string of decimal digits, most significant first.
pub open spec fn digits_val(s: Seq<char>) -> nat
    decreases s.len(),
{
    if s.len() == 0 {
        0
    } else {
        digits_val(s.drop_last()) * 10 + digit_of(s.last())
    }
}

pub open spec fn digit_of(c: char) -> nat {
    if is_digit_char(c) {
        (c as u32 - '0' as u32) as nat
    } else {
        0
    }
}

/// A digit string read as a number, with zero standing in when the value
/// does not fit the line/column type.
pub open spec fn cap_u32(n: nat) -> nat {
    if n > u32::MAX {
        0
    } else {
        n
    }
}

pub proof fn lemma_digits_val_grows(s: Seq<char>, i: int)
    requires
        0 <= i < s.len(),
    ensures
        digits_val(s.take(i + 1)) == digits_val(s.take(i)) * 10 + digit_of(s[i]),
{
    assert(s.take(i + 1).drop_last() =~= s.take(i));
    assert(s.take(i + 1).last() == s[i]);
}

/// Reads a run of decimal digits as a number; a value over `u32::MAX`
/// reads as zero.
pub fn parse_u32_digits(s: &str) -> (r: u32)
    requires
        forall|j: int| 0 <= j < s@.len() ==> is_digit_char(s@[j]),
    ensures
        r == cap_u32(digits_val(s@)),
{
    let n = s.unicode_len();
    let mut acc: u32 = 0;
    let mut over: bool = false;
    let mut i: usize = 0;
    proof {
        assert(s@.take(0) =~= Seq::<char>::empty());
    }
    while i < n
        invariant
            0 <= i <= n,
            n == s@.len(),
            forall|j: int| 0 <= j < s@.len() ==> is_digit_char(s@[j]),
            !over ==> acc == digits_val(s@.take(i as int)),
            over ==> digits_val(s@.take(i as int)) > u32::MAX,
        decreases n - i,
    {
        let c = s.get_char(i);
        proof {
            lemma_digits_val_grows(s@, i as int);
        }
        let d: u32 = (c as u32) - ('0' as u32);
        if !over {
            if acc <= (u32::MAX - d) / 10 {
                proof {
                    let m = (u32::MAX - d) as int;
                    assert(10 * (m / 10) + m % 10 == m) by (nonlinear_arith);
                    assert(acc * 10 <= (m / 10) * 10) by (nonlinear_arith)
                        requires
                            0 <= acc <= m / 10,
                    ;
                }
                acc = acc * 10 + d;
            } else {
                proof {
                    let m = (u32::MAX - d) as int;
                    assert(10 * (m / 10) + m % 10 == m) by (nonlinear_arith);
                    assert(acc * 10 >= (m / 10 + 1) * 10) by (nonlinear_arith)
                        requires
                            acc >= m / 10 + 1,
                    ;
                }
                over = true;
            }
        } else {
            proof {
                let v = digits_val(s@.take(i as int));
                assert(v * 10 >= v) by (nonlinear_arith)
                    requires
                        v >= 0,
                ;
            }
        }
        i = i + 1;
    }
    proof {
        assert(s@.take(n as int) =~= s@);
    }
    if over {
        0
    } else {
        acc
    }
}

/// How many UTF-16 code units encode a scalar: one inside the basic
/// multilingual plane, two outside it.
pub open spec fn utf16_units(c: char) -> nat {
    if (c as u32) < 0x10000 {
        1
    } else {
        2
    }
}

pub fn utf16_units_of(c: char) -> (r: u32)
    ensures
        r == utf16_units(c),
{
    if (c as u32) < 0x10000 {
        1
    } else {
        2
    }
}

} // verus!
