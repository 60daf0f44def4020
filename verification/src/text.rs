//! Character classes and conversions between `String` and `Vec<char>`.

use vstd::prelude::*;

verus! {

/// The characters that carry the Unicode `White_Space` property.
pub open spec fn spec_is_whitespace(ch: char) -> bool {
    ||| '\u{9}' <= ch <= '\u{d}'
    ||| ch == ' '
    ||| ch == '\u{85}'
    ||| ch == '\u{a0}'
    ||| ch == '\u{1680}'
    ||| '\u{2000}' <= ch <= '\u{200a}'
    ||| ch == '\u{2028}'
    ||| ch == '\u{2029}'
    ||| ch == '\u{202f}'
    ||| ch == '\u{205f}'
    ||| ch == '\u{3000}'
}

/// An ASCII decimal digit.
pub open spec fn spec_is_digit(ch: char) -> bool {
    '0' <= ch <= '9'
}

/// The value of an ASCII decimal digit.
pub open spec fn spec_digit_value(ch: char) -> u8 {
    ((ch as u32) - ('0' as u32)) as u8
}

/// Whether `ch` is white space, as `char::is_whitespace` decides it.
#[verifier::when_used_as_spec(spec_is_whitespace)]
pub fn is_whitespace(ch: char) -> (res: bool)
    ensures
        res == spec_is_whitespace(ch),
{
    ('\u{9}' <= ch && ch <= '\u{d}') || ch == ' ' || ch == '\u{85}' || ch == '\u{a0}'
        || ch == '\u{1680}' || ('\u{2000}' <= ch && ch <= '\u{200a}') || ch == '\u{2028}'
        || ch == '\u{2029}' || ch == '\u{202f}' || ch == '\u{205f}' || ch == '\u{3000}'
}

/// The value of `ch` as a decimal digit, as `char::to_digit(10)` gives it.
pub fn to_digit(ch: char) -> (res: Option<u8>)
    ensures
        res is Some <==> spec_is_digit(ch),
        res matches Some(d) ==> d == spec_digit_value(ch) && d < 10,
{
    if '0' <= ch && ch <= '9' {
        let d: u32 = (ch as u32) - ('0' as u32);
        Some(d as u8)
    } else {
        None
    }
}

/// Builds a `String` holding the given characters in order.
#[verifier::external_body]
pub(crate) fn chars_to_string(chars: &[char]) -> (res: String)
    ensures
        res@ == chars@,
{
    chars.iter().collect()
}

/// Collects the characters of a string slice into a vector.
#[verifier::external_body]
pub(crate) fn str_to_chars(s: &str) -> (res: Vec<char>)
    ensures
        res@ == s@,
{
    s.chars().collect()
}

/// The text that `Display` gives an I/O error (`format!("{e}")`). Its wording
/// comes from the operating system's error description, so nothing is stated
/// of it.
#[verifier::external_body]
pub(crate) fn io_error_text(e: &std::io::Error) -> String {
    format!("{e}")
}

} // verus!

verus! {

/// `s` without its leading white space.
pub open spec fn skip_leading_ws(s: Seq<char>) -> Seq<char>
    decreases s.len(),
{
    if s.len() > 0 && spec_is_whitespace(s[0]) {
        skip_leading_ws(s.drop_first())
    } else {
        s
    }
}

/// `s` without its trailing white space.
pub open spec fn skip_trailing_ws(s: Seq<char>) -> Seq<char>
    decreases s.len(),
{
    if s.len() > 0 && spec_is_whitespace(s.last()) {
        skip_trailing_ws(s.drop_last())
    } else {
        s
    }
}

/// `s` without leading and trailing white space.
pub open spec fn trim_ws(s: Seq<char>) -> Seq<char> {
    skip_trailing_ws(skip_leading_ws(s))
}

/// Every character of `s` is an ASCII decimal digit.
pub open spec fn all_digit_chars(s: Seq<char>) -> bool {
    forall|i: int| 0 <= i < s.len() ==> spec_is_digit(#[trigger] s[i])
}

/// The values of the digit characters of `s`, in order.
pub open spec fn digit_values(s: Seq<char>) -> Seq<u8> {
    s.map_values(|c: char| spec_digit_value(c))
}

/// The digit values of `s` followed by `ch` are those of `s` followed by the
/// value of `ch`.
pub proof fn lemma_digit_values_push(s: Seq<char>, ch: char)
    ensures
        digit_values(s.push(ch)) == digit_values(s).push(spec_digit_value(ch)),
{
    assert(digit_values(s.push(ch)) =~= digit_values(s).push(spec_digit_value(ch)));
}

/// A text that starts and ends with a character other than white space is its
/// own trimmed form.
pub proof fn lemma_trim_ws_unpadded(s: Seq<char>)
    requires
        s.len() > 0,
        !spec_is_whitespace(s[0]),
        !spec_is_whitespace(s.last()),
    ensures
        trim_ws(s) == s,
{
}

/// Every character of `s` is white space.
pub open spec fn all_whitespace(s: Seq<char>) -> bool {
    forall|i: int| 0 <= i < s.len() ==> spec_is_whitespace(#[trigger] s[i])
}

proof fn lemma_skip_leading_prefix(a: Seq<char>, x: Seq<char>)
    requires
        all_whitespace(a),
    ensures
        skip_leading_ws(a + x) == skip_leading_ws(x),
    decreases a.len(),
{
    if a.len() == 0 {
        assert(a + x =~= x);
    } else {
        assert((a + x)[0] == a[0]);
        assert((a + x).drop_first() =~= a.drop_first() + x);
        lemma_skip_leading_prefix(a.drop_first(), x);
    }
}

proof fn lemma_skip_trailing_suffix(y: Seq<char>, b: Seq<char>)
    requires
        all_whitespace(b),
    ensures
        skip_trailing_ws(y + b) == skip_trailing_ws(y),
    decreases b.len(),
{
    if b.len() == 0 {
        assert(y + b =~= y);
    } else {
        assert((y + b).last() == b.last());
        assert((y + b).drop_last() =~= y + b.drop_last());
        lemma_skip_trailing_suffix(y, b.drop_last());
    }
}

proof fn lemma_skip_leading_all(b: Seq<char>)
    requires
        all_whitespace(b),
    ensures
        skip_leading_ws(b).len() == 0,
    decreases b.len(),
{
    if b.len() > 0 {
        lemma_skip_leading_all(b.drop_first());
    }
}

proof fn lemma_skip_leading_suffix(s: Seq<char>, b: Seq<char>)
    requires
        all_whitespace(b),
    ensures
        skip_leading_ws(s + b) == skip_leading_ws(s) + b || (skip_leading_ws(s).len() == 0
            && skip_leading_ws(s + b).len() == 0),
    decreases s.len(),
{
    if s.len() == 0 {
        assert(s + b =~= b);
        lemma_skip_leading_all(b);
    } else {
        assert((s + b)[0] == s[0]);
        if spec_is_whitespace(s[0]) {
            assert((s + b).drop_first() =~= s.drop_first() + b);
            lemma_skip_leading_suffix(s.drop_first(), b);
        }
    }
}

/// White space around a text does not change the text that trimming leaves.
pub proof fn lemma_trim_ws_padding(a: Seq<char>, s: Seq<char>, b: Seq<char>)
    requires
        all_whitespace(a),
        all_whitespace(b),
    ensures
        trim_ws(a + s + b) == trim_ws(s),
{
    assert(a + s + b =~= a + (s + b));
    lemma_skip_leading_prefix(a, s + b);
    lemma_skip_leading_suffix(s, b);
    if skip_leading_ws(s + b) == skip_leading_ws(s) + b {
        lemma_skip_trailing_suffix(skip_leading_ws(s), b);
    } else {
        assert(skip_leading_ws(s + b) =~= skip_leading_ws(s));
    }
}

/// The bounds of `s` once leading and trailing white space is cut off.
pub fn trim_bounds(s: &[char]) -> (res: (usize, usize))
    ensures
        res.0 <= res.1 <= s.len(),
        s@.subrange(res.0 as int, res.1 as int) == trim_ws(s@),
        res.0 < res.1 ==> !spec_is_whitespace(s@[res.0 as int]),
{
    let len = s.len();
    let mut i: usize = 0;
    assert(s@.subrange(0, len as int) =~= s@);
    while i < len && is_whitespace(s[i])
        invariant
            i <= len == s.len(),
            skip_leading_ws(s@) == skip_leading_ws(s@.subrange(i as int, len as int)),
        decreases len - i,
    {
        assert(s@.subrange(i as int, len as int).drop_first() =~= s@.subrange(
            i + 1,
            len as int,
        ));
        i = i + 1;
    }
    assert(skip_leading_ws(s@) == s@.subrange(i as int, len as int)) by {
        if i == len {
            assert(s@.subrange(i as int, len as int).len() == 0);
        } else {
            assert(s@.subrange(i as int, len as int)[0] == s@[i as int]);
        }
    }
    let mut j: usize = len;
    while j > i && is_whitespace(s[j - 1])
        invariant
            i <= j <= len == s.len(),
            skip_trailing_ws(s@.subrange(i as int, len as int)) == skip_trailing_ws(
                s@.subrange(i as int, j as int),
            ),
        decreases j,
    {
        assert(s@.subrange(i as int, j as int).drop_last() =~= s@.subrange(
            i as int,
            j - 1,
        ));
        j = j - 1;
    }
    assert(skip_trailing_ws(s@.subrange(i as int, j as int)) == s@.subrange(i as int, j as int))
        by {
        if j > i {
            assert(s@.subrange(i as int, j as int).last() == s@[j - 1]);
        }
    }
    (i, j)
}

/// The decimal digits of `n`, most significant first.
pub open spec fn decimal_text(n: nat) -> Seq<char>
    decreases n,
{
    if n < 10 {
        seq![digit_char(n)]
    } else {
        decimal_text(n / 10).push(digit_char(n % 10))
    }
}

/// The character of a decimal digit.
pub open spec fn digit_char(d: nat) -> char {
    (d + ('0' as nat)) as char
}

/// The decimal digits of `n`, most significant first, as `format!("{n}")` writes them.
pub fn usize_to_chars(n: usize) -> (res: Vec<char>)
    ensures
        res@ == decimal_text(n as nat),
    decreases n,
{
    if n < 10 {
        let c = (('0' as u8) + (n as u8)) as char;
        let mut v: Vec<char> = Vec::new();
        v.push(c);
        v
    } else {
        let mut v = usize_to_chars(n / 10);
        let c = (('0' as u8) + ((n % 10) as u8)) as char;
        v.push(c);
        v
    }
}

} // verus!

verus! {

/// Appends the characters of `s` to `v`.
pub fn push_str(v: &mut Vec<char>, s: &str)
    ensures
        final(v)@ == old(v)@ + s@,
{
    let mut w = str_to_chars(s);
    v.append(&mut w);
}

} // verus!

verus! {

/// A `String` holding the characters of `s`.
pub fn string_of(s: &str) -> (res: String)
    ensures
        res@ == s@,
{
    let v = str_to_chars(s);
    chars_to_string(v.as_slice())
}

/// The index of the first character of `s` that is not white space, or the
/// length of `s` if there is none.
pub fn leading_ws_end(s: &[char]) -> (res: usize)
    ensures
        res <= s.len(),
        s@.skip(res as int) == skip_leading_ws(s@),
{
    let len = s.len();
    let mut i: usize = 0;
    assert(s@.skip(0) =~= s@);
    while i < len && is_whitespace(s[i])
        invariant
            i <= len == s.len(),
            skip_leading_ws(s@) == skip_leading_ws(s@.skip(i as int)),
        decreases len - i,
    {
        assert(s@.skip(i as int).drop_first() =~= s@.skip(i + 1));
        i = i + 1;
    }
    assert(i < len ==> s@.skip(i as int)[0] == s@[i as int]);
    i
}

} // verus!
