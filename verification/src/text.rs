//! Character-level text operations with their meaning stated over `Seq<char>`.
use vstd::prelude::*;

verus! {

broadcast use vstd::string::group_string_axioms;

/// The characters of a string slice.
pub fn chars_of(s: &str) -> (chars: Vec<char>)
    ensures
        chars@ == s@,
{
    let mut out: Vec<char> = Vec::new();
    for c in it: s.chars()
        invariant
            out@ == it.seq().take(it.index()),
    {
        assert(it.seq().take(it.index() + 1) =~= out@.push(c));
        out.push(c);
    }
    assert(out@ =~= s@);
    out
}

/// Appends one character to a string: `String::push`.
#[verifier::external_body]
pub(crate) fn push_char(s: &mut String, c: char)
    ensures
        final(s)@ == old(s)@.push(c),
{
    s.push(c);
}

/// A string holding exactly the given characters.
pub fn string_from_chars(chars: &[char]) -> (s: String)
    ensures
        s@ == chars@,
{
    let mut s = String::new();
    let mut i: usize = 0;
    while i < chars.len()
        invariant
            0 <= i <= chars@.len(),
            s@ == chars@.take(i as int),
        decreases chars.len() - i,
    {
        assert(chars@.take(i + 1) =~= s@.push(chars@[i as int]));
        push_char(&mut s, chars[i]);
        i = i + 1;
    }
    assert(chars@.take(chars@.len() as int) =~= chars@);
    s
}

/// Appends the characters of `suffix` to `chars`.
pub fn extend_chars(chars: &mut Vec<char>, suffix: &[char])
    ensures
        final(chars)@ == old(chars)@ + suffix@,
{
    let ghost start = chars@;
    let mut i: usize = 0;
    while i < suffix.len()
        invariant
            0 <= i <= suffix@.len(),
            chars@ == start + suffix@.take(i as int),
        decreases suffix.len() - i,
    {
        assert(start + suffix@.take(i + 1) =~= chars@.push(suffix@[i as int]));
        chars.push(suffix[i]);
        i = i + 1;
    }
    assert(suffix@.take(suffix@.len() as int) =~= suffix@);
}

/// ASCII upper-case letters become lower case; every other character stays.
pub open spec fn ascii_lower_char(c: char) -> char {
    if 'A' <= c <= 'Z' {
        ((c as u32) + 32) as char
    } else {
        c
    }
}

/// `to_ascii_lowercase` of a character sequence.
pub open spec fn ascii_lower(s: Seq<char>) -> Seq<char> {
    Seq::new(s.len(), |i: int| ascii_lower_char(s[i]))
}

/// Lower-cases the ASCII letters of the characters.
pub fn to_ascii_lower(chars: &[char]) -> (lower: Vec<char>)
    ensures
        lower@ == ascii_lower(chars@),
{
    let mut out: Vec<char> = Vec::new();
    let mut i: usize = 0;
    while i < chars.len()
        invariant
            0 <= i <= chars@.len(),
            out@ == ascii_lower(chars@).take(i as int),
        decreases chars.len() - i,
    {
        let c = chars[i];
        let lowered = if 'A' <= c && c <= 'Z' {
            ((c as u8) + 32) as char
        } else {
            c
        };
        assert(lowered == ascii_lower_char(c));
        assert(ascii_lower(chars@).take(i + 1) =~= out@.push(lowered));
        out.push(lowered);
        i = i + 1;
    }
    assert(ascii_lower(chars@).take(chars@.len() as int) =~= ascii_lower(chars@));
    out
}

/// The Unicode `White_Space` characters, as `char::is_whitespace` reports them.
pub open spec fn is_whitespace(c: char) -> bool {
    ||| '\u{9}' <= c <= '\u{d}'
    ||| c == ' '
    ||| c == '\u{85}'
    ||| c == '\u{a0}'
    ||| c == '\u{1680}'
    ||| '\u{2000}' <= c <= '\u{200a}'
    ||| c == '\u{2028}'
    ||| c == '\u{2029}'
    ||| c == '\u{202f}'
    ||| c == '\u{205f}'
    ||| c == '\u{3000}'
}

fn whitespace(c: char) -> (b: bool)
    ensures
        b == is_whitespace(c),
{
    ('\u{9}' <= c && c <= '\u{d}') || c == ' ' || c == '\u{85}' || c == '\u{a0}' || c == '\u{1680}'
        || ('\u{2000}' <= c && c <= '\u{200a}') || c == '\u{2028}' || c == '\u{2029}' || c
        == '\u{202f}' || c == '\u{205f}' || c == '\u{3000}'
}

/// `a` and `b` delimit the text left once leading and trailing whitespace
/// is removed.
pub open spec fn is_trim_bounds(s: Seq<char>, a: int, b: int) -> bool {
    &&& 0 <= a <= b <= s.len()
    &&& forall|i: int| 0 <= i < a ==> is_whitespace(#[trigger] s[i])
    &&& forall|i: int| b <= i < s.len() ==> is_whitespace(#[trigger] s[i])
    &&& a < b ==> !is_whitespace(s[a]) && !is_whitespace(s[b - 1])
}

/// `str::trim`: the text without leading and trailing whitespace.
pub open spec fn trim(s: Seq<char>) -> Seq<char> {
    let bounds = choose|bounds: (int, int)| is_trim_bounds(s, bounds.0, bounds.1);
    s.subrange(bounds.0, bounds.1)
}

pub proof fn lemma_trim_bounds(s: Seq<char>, a: int, b: int)
    requires
        is_trim_bounds(s, a, b),
    ensures
        trim(s) == s.subrange(a, b),
{
    let witness = (a, b);
    assert(is_trim_bounds(s, witness.0, witness.1));
    let bounds = choose|bounds: (int, int)| is_trim_bounds(s, bounds.0, bounds.1);
    assert(is_trim_bounds(s, bounds.0, bounds.1));
    let (c, d) = bounds;
    if a < b {
        if c < a {
            assert(!is_whitespace(s[c]));
        }
        if a < c {
            assert(!is_whitespace(s[a]));
        }
        if d < b {
            assert(!is_whitespace(s[b - 1]));
        }
        if b < d {
            assert(!is_whitespace(s[d - 1]));
        }
    } else {
        if c < d {
            assert(!is_whitespace(s[c]));
            assert(c < a || c >= b);
        }
    }
    assert(s.subrange(a, b) =~= s.subrange(c, d));
}

/// Removes leading and trailing whitespace.
pub fn trim_chars(chars: &[char]) -> (trimmed: Vec<char>)
    ensures
        trimmed@ == trim(chars@),
{
    let n = chars.len();
    let mut a: usize = 0;
    while a < n && whitespace(chars[a])
        invariant
            0 <= a <= n == chars@.len(),
            forall|i: int| 0 <= i < a ==> is_whitespace(#[trigger] chars@[i]),
        decreases n - a,
    {
        a = a + 1;
    }
    let mut b: usize = n;
    while b > a && whitespace(chars[b - 1])
        invariant
            0 <= a <= b <= n == chars@.len(),
            forall|i: int| b <= i < n ==> is_whitespace(#[trigger] chars@[i]),
        decreases b,
    {
        b = b - 1;
    }
    proof {
        lemma_trim_bounds(chars@, a as int, b as int);
    }
    let mut out: Vec<char> = Vec::new();
    let mut i: usize = a;
    while i < b
        invariant
            a <= i <= b <= chars@.len(),
            out@ == chars@.subrange(a as int, i as int),
        decreases b - i,
    {
        assert(chars@.subrange(a as int, i + 1) =~= out@.push(chars@[i as int]));
        out.push(chars[i]);
        i = i + 1;
    }
    out
}

/// The text starts with `prefix`.
pub open spec fn starts_with(s: Seq<char>, prefix: Seq<char>) -> bool {
    prefix.len() <= s.len() && s.take(prefix.len() as int) == prefix
}

/// `pattern` occurs in the text at position `i`.
pub open spec fn occurs_at(s: Seq<char>, pattern: Seq<char>, i: int) -> bool {
    0 <= i && i + pattern.len() <= s.len() && s.subrange(i, i + pattern.len()) == pattern
}

/// `pattern` occurs somewhere in the text.
pub open spec fn contains_text(s: Seq<char>, pattern: Seq<char>) -> bool {
    exists|i: int| #[trigger] occurs_at(s, pattern, i)
}

/// Whether `chars` begins at position `at` with `pattern`.
fn matches_at(chars: &[char], pattern: &[char], at: usize) -> (b: bool)
    requires
        at <= chars@.len(),
    ensures
        b == occurs_at(chars@, pattern@, at as int),
{
    if pattern.len() > chars.len() - at {
        return false;
    }
    let mut k: usize = 0;
    while k < pattern.len()
        invariant
            at + pattern@.len() <= chars.len(),
            0 <= k <= pattern@.len(),
            forall|j: int| 0 <= j < k ==> chars@[at + j] == #[trigger] pattern@[j],
        decreases pattern.len() - k,
    {
        if chars[at + k] != pattern[k] {
            assert(chars@.subrange(at as int, at + pattern@.len())[k as int] != pattern@[k as int]);
            return false;
        }
        k = k + 1;
    }
    assert(chars@.subrange(at as int, at + pattern@.len()) =~= pattern@);
    true
}

/// `str::starts_with` on characters.
pub fn has_prefix(chars: &[char], prefix: &[char]) -> (b: bool)
    ensures
        b == starts_with(chars@, prefix@),
{
    let b = matches_at(chars, prefix, 0);
    proof {
        if prefix@.len() <= chars@.len() {
            assert(chars@.take(prefix@.len() as int) =~= chars@.subrange(0, prefix@.len() as int));
        }
    }
    b
}

/// `str::contains` on characters.
pub fn has_substring(chars: &[char], pattern: &[char]) -> (b: bool)
    ensures
        b == contains_text(chars@, pattern@),
{
    if pattern.len() > chars.len() {
        proof {
            assert forall|i: int| !occurs_at(chars@, pattern@, i) by {}
        }
        return false;
    }
    let last = chars.len() - pattern.len();
    let mut i: usize = 0;
    loop
        invariant
            last + pattern@.len() == chars@.len(),
            0 <= i <= last,
            forall|j: int| 0 <= j < i ==> !#[trigger] occurs_at(chars@, pattern@, j),
        decreases last - i,
    {
        if matches_at(chars, pattern, i) {
            return true;
        }
        if i == last {
            proof {
                assert forall|j: int| !#[trigger] occurs_at(chars@, pattern@, j) by {
                    if 0 <= j < i {
                    }
                }
            }
            return false;
        }
        i = i + 1;
    }
}

/// Character-wise equality.
pub fn same_chars(a: &[char], b: &[char]) -> (eq: bool)
    ensures
        eq == (a@ == b@),
{
    if a.len() != b.len() {
        return false;
    }
    let mut i: usize = 0;
    while i < a.len()
        invariant
            a@.len() == b@.len(),
            0 <= i <= a@.len(),
            forall|j: int| 0 <= j < i ==> a@[j] == b@[j],
        decreases a.len() - i,
    {
        if a[i] != b[i] {
            return false;
        }
        i = i + 1;
    }
    assert(a@ =~= b@);
    true
}

/// A line ending in `\r\n` loses the carriage return too.
pub open spec fn strip_carriage_return(line: Seq<char>) -> Seq<char> {
    if line.len() > 0 && line.last() == '\r' {
        line.drop_last()
    } else {
        line
    }
}

/// Lines of `rest`, the current unfinished line being `current`.
pub open spec fn split_lines(rest: Seq<char>, current: Seq<char>) -> Seq<Seq<char>>
    decreases rest.len(),
{
    if rest.len() == 0 {
        if current.len() == 0 {
            seq![]
        } else {
            seq![current]
        }
    } else if rest[0] == '\n' {
        seq![strip_carriage_return(current)] + split_lines(rest.drop_first(), seq![])
    } else {
        split_lines(rest.drop_first(), current.push(rest[0]))
    }
}

/// `str::lines`: the text split at `\n` and `\r\n`; a final line ending adds
/// no empty line.
pub open spec fn lines(s: Seq<char>) -> Seq<Seq<char>> {
    split_lines(s, seq![])
}

/// The character sequences held by a list of character vectors.
pub open spec fn char_lines_view(lines: Seq<Vec<char>>) -> Seq<Seq<char>> {
    lines.map_values(|line: Vec<char>| line@)
}

/// The lines of the text.
pub fn split_into_lines(chars: &[char]) -> (out: Vec<Vec<char>>)
    ensures
        char_lines_view(out@) == lines(chars@),
{
    let mut out: Vec<Vec<char>> = Vec::new();
    let mut current: Vec<char> = Vec::new();
    let mut i: usize = 0;
    assert(chars@.skip(0) =~= chars@);
    while i < chars.len()
        invariant
            0 <= i <= chars@.len(),
            lines(chars@) == char_lines_view(out@) + split_lines(chars@.skip(i as int), current@),
        decreases chars.len() - i,
    {
        let c = chars[i];
        let ghost rest = chars@.skip(i as int);
        assert(rest[0] == c);
        assert(rest.drop_first() =~= chars@.skip(i + 1));
        if c == '\n' {
            let mut line = current;
            if line.len() > 0 && line[line.len() - 1] == '\r' {
                line.pop();
            }
            assert(line@ == strip_carriage_return(current@));
            let ghost before = char_lines_view(out@);
            out.push(line);
            assert(char_lines_view(out@) =~= before.push(line@));
            assert(before + (seq![line@] + split_lines(chars@.skip(i + 1), seq![])) =~= char_lines_view(out@)
                + split_lines(chars@.skip(i + 1), seq![]));
            current = Vec::new();
            assert(current@ =~= seq![]);
        } else {
            current.push(c);
        }
        i = i + 1;
    }
    assert(chars@.skip(i as int).len() == 0);
    if current.len() > 0 {
        let ghost before = char_lines_view(out@);
        out.push(current);
        assert(char_lines_view(out@) =~= before + seq![current@]);
    } else {
        assert(char_lines_view(out@) + seq![] =~= char_lines_view(out@));
    }
    out
}

/// The pieces of `rest` between `separator` characters, empty pieces
/// included (`str::split`), the unfinished piece being `current`.
pub open spec fn split_text(rest: Seq<char>, separator: char, current: Seq<char>) -> Seq<Seq<char>>
    decreases rest.len(),
{
    if rest.len() == 0 {
        seq![current]
    } else if rest[0] == separator {
        seq![current] + split_text(rest.drop_first(), separator, seq![])
    } else {
        split_text(rest.drop_first(), separator, current.push(rest[0]))
    }
}

/// `str::split` at a character.
pub open spec fn split_at_char(s: Seq<char>, separator: char) -> Seq<Seq<char>> {
    split_text(s, separator, seq![])
}

/// The pieces of the text between separators.
pub fn split_chars(chars: &[char], separator: char) -> (pieces: Vec<Vec<char>>)
    ensures
        char_lines_view(pieces@) == split_at_char(chars@, separator),
        pieces@.len() >= 1,
{
    let mut out: Vec<Vec<char>> = Vec::new();
    let mut current: Vec<char> = Vec::new();
    let mut i: usize = 0;
    assert(chars@.skip(0) =~= chars@);
    while i < chars.len()
        invariant
            0 <= i <= chars@.len(),
            split_at_char(chars@, separator) == char_lines_view(out@) + split_text(
                chars@.skip(i as int),
                separator,
                current@,
            ),
        decreases chars.len() - i,
    {
        let c = chars[i];
        let ghost rest = chars@.skip(i as int);
        assert(rest[0] == c);
        assert(rest.drop_first() =~= chars@.skip(i + 1));
        if c == separator {
            let ghost before = char_lines_view(out@);
            let finished = current;
            let ghost finished_view = finished@;
            out.push(finished);
            assert(char_lines_view(out@) =~= before.push(finished_view));
            assert(before + (seq![finished_view] + split_text(chars@.skip(i + 1), separator, seq![]))
                =~= char_lines_view(out@) + split_text(chars@.skip(i + 1), separator, seq![]));
            current = Vec::new();
            assert(current@ =~= seq![]);
        } else {
            current.push(c);
        }
        i = i + 1;
    }
    assert(chars@.skip(i as int).len() == 0);
    let ghost before = char_lines_view(out@);
    let last = current;
    let ghost last_view = last@;
    out.push(last);
    assert(char_lines_view(out@) =~= before + seq![last_view]);
    out
}

/// The value of a string of decimal digits.
pub open spec fn decimal_value(digits: Seq<char>) -> nat
    decreases digits.len(),
{
    if digits.len() == 0 {
        0
    } else {
        decimal_value(digits.drop_last()) * 10 + ((digits.last() as nat) - ('0' as nat)) as nat
    }
}

/// A non-empty string of ASCII decimal digits.
pub open spec fn is_decimal(digits: Seq<char>) -> bool {
    digits.len() > 0 && forall|i: int| 0 <= i < digits.len() ==> '0' <= #[trigger] digits[i] <= '9'
}

/// `u64::from_str`: an optional `+` and decimal digits whose value fits.
pub open spec fn parse_u64(text: Seq<char>) -> Option<u64> {
    let digits = if text.len() > 0 && text[0] == '+' {
        text.drop_first()
    } else {
        text
    };
    if is_decimal(digits) && decimal_value(digits) <= u64::MAX {
        Some(decimal_value(digits) as u64)
    } else {
        None
    }
}

proof fn lemma_decimal_prefix_grows(digits: Seq<char>, i: int, j: int)
    requires
        0 <= i <= j <= digits.len(),
        forall|k: int| 0 <= k < digits.len() ==> '0' <= #[trigger] digits[k] <= '9',
    ensures
        decimal_value(digits.take(i)) <= decimal_value(digits.take(j)),
    decreases j - i,
{
    if i < j {
        lemma_decimal_prefix_grows(digits, i, j - 1);
        assert(digits.take(j).drop_last() =~= digits.take(j - 1));
    }
}

/// Parses a decimal `u64` the way `u64::from_str` does.
pub fn parse_decimal_u64(text: &[char]) -> (value: Option<u64>)
    ensures
        value == parse_u64(text@),
{
    let start: usize = if text.len() > 0 && text[0] == '+' {
        1
    } else {
        0
    };
    let ghost digits = if text@.len() > 0 && text@[0] == '+' {
        text@.drop_first()
    } else {
        text@
    };
    assert(digits =~= text@.skip(start as int));
    if start == text.len() {
        return None;
    }
    let mut value: u64 = 0;
    let mut i: usize = start;
    assert(digits.take(0) =~= seq![]);
    while i < text.len()
        invariant
            start <= i <= text@.len(),
            digits == text@.skip(start as int),
            digits == (if text@.len() > 0 && text@[0] == '+' {
                text@.drop_first()
            } else {
                text@
            }),
            forall|k: int| start <= k < i ==> '0' <= #[trigger] text@[k] <= '9',
            value == decimal_value(digits.take(i - start)),
        decreases text.len() - i,
    {
        let c = text[i];
        if !('0' <= c && c <= '9') {
            assert(digits[i - start] == c);
            return None;
        }
        let d: u64 = (c as u32 - '0' as u32) as u64;
        assert(digits.take(i - start + 1).drop_last() =~= digits.take(i - start));
        assert(digits.take(i - start + 1).last() == c);
        if value > (u64::MAX - d) / 10 {
            proof {
                assert(value * 10 + d > u64::MAX) by (nonlinear_arith)
                    requires
                        value > (u64::MAX - d) / 10,
                        d <= 9,
                ;
                if is_decimal(digits) {
                    lemma_decimal_prefix_grows(digits, i - start + 1, digits.len() as int);
                    assert(digits.take(digits.len() as int) =~= digits);
                }
            }
            return None;
        }
        value = value * 10 + d;
        i = i + 1;
    }
    assert(digits.take(i - start) =~= digits);
    Some(value)
}


/// Text of ASCII characters is encoded one byte per character, each byte
/// the character's code.
pub proof fn lemma_ascii_encoding(s: Seq<char>)
    requires
        forall|i: int| 0 <= i < s.len() ==> (#[trigger] s[i] as u32) < 128,
    ensures
        vstd::utf8::encode_utf8(s).len() == s.len(),
        forall|i: int|
            0 <= i < s.len() ==> (#[trigger] vstd::utf8::encode_utf8(s)[i]) as u32 == s[i] as u32,
    decreases s.len(),
{
    if s.len() > 0 {
        let rest = s.drop_first();
        assert forall|i: int| 0 <= i < rest.len() implies (#[trigger] rest[i] as u32) < 128 by {
            assert(rest[i] == s[i + 1]);
        }
        lemma_ascii_encoding(rest);
        let v = s[0] as u32;
        assert(v <= 0x7F ==> ((v & 0x7F) as u8) as u32 == v) by (bit_vector);
        let e = vstd::utf8::encode_utf8(s);
        assert(e == vstd::utf8::encode_scalar(v) + vstd::utf8::encode_utf8(rest));
        assert(vstd::utf8::encode_scalar(v) == seq![vstd::utf8::leading_byte_width_1(v)]);
        assert forall|i: int| 0 <= i < s.len() implies (#[trigger] vstd::utf8::encode_utf8(s)[i]) as u32
            == s[i] as u32 by {
            if i > 0 {
                assert(e[i] == vstd::utf8::encode_utf8(rest)[i - 1]);
                assert(rest[i - 1] == s[i]);
            }
        }
    }
}


/// Text without a line feed, and not empty, is one line.
pub proof fn lemma_lines_of_one_line(rest: Seq<char>, current: Seq<char>)
    requires
        forall|i: int| 0 <= i < rest.len() ==> #[trigger] rest[i] != '\n',
        current.len() + rest.len() > 0,
    ensures
        split_lines(rest, current) == seq![current + rest],
    decreases rest.len(),
{
    if rest.len() == 0 {
        assert(current + rest =~= current);
    } else {
        assert(rest[0] != '\n');
        assert forall|i: int| 0 <= i < rest.drop_first().len() implies #[trigger] rest.drop_first()[i] != '\n' by {
            assert(rest.drop_first()[i] == rest[i + 1]);
        }
        lemma_lines_of_one_line(rest.drop_first(), current.push(rest[0]));
        assert(current.push(rest[0]) + rest.drop_first() =~= current + rest);
    }
}

} // verus!
