//! Characters, whitespace and numbers as text.
use vstd::prelude::*;

verus! {

/// `String::push`: one more character at the end.
pub assume_specification[ std::string::String::push ](s: &mut std::string::String, c: char)
    ensures
        final(s)@ == old(s)@.push(c),
;

/// What a string says that may be missing.
pub open spec fn text_opt(s: Option<String>) -> Option<Seq<char>> {
    match s {
        Some(s) => Some(s@),
        None => None,
    }
}

/// What a list of strings says.
pub open spec fn texts(list: Seq<String>) -> Seq<Seq<char>> {
    list.map_values(|s: String| s@)
}

/// The characters of a string.
pub(crate) fn chars_of(s: &str) -> (r: Vec<char>)
    ensures
        r@ == s@,
{
    let mut out: Vec<char> = Vec::new();
    for c in it: s.chars()
        invariant
            out@ == it.seq().take(it.index()),
            it.seq() == s@,
    {
        out.push(c);
    }
    assert(out@ =~= s@);
    out
}

/// The string of the characters from `from` up to `to`.
pub(crate) fn string_of(chars: &Vec<char>, from: usize, to: usize) -> (r: String)
    requires
        from <= to <= chars@.len(),
    ensures
        r@ == chars@.subrange(from as int, to as int),
{
    let mut out = String::new();
    let mut i: usize = from;
    assert(out@ =~= chars@.subrange(from as int, from as int));
    while i < to
        invariant
            from <= i <= to <= chars@.len(),
            out@ == chars@.subrange(from as int, i as int),
        decreases to - i,
    {
        out.push(chars[i]);
        i += 1;
        assert(out@ =~= chars@.subrange(from as int, i as int));
    }
    out
}

/// Whether the characters of `s` from `from` on are those of `text`.
pub(crate) fn stands_at(s: &Vec<char>, from: usize, text: &Vec<char>) -> (r: bool)
    requires
        from + text@.len() <= s@.len(),
    ensures
        r == (s@.subrange(from as int, from + text@.len()) == text@),
{
    let ghost there = s@.subrange(from as int, from + text@.len());
    let mut i: usize = 0;
    while i < text.len()
        invariant
            i <= text@.len(),
            from + text@.len() <= s@.len(),
            there == s@.subrange(from as int, from + text@.len()),
            forall|j: int| 0 <= j < i ==> there[j] == text@[j],
        decreases text.len() - i,
    {
        assert(from + i < s.len());
        if s[from + i] != text[i] {
            assert(there[i as int] != text@[i as int]);
            return false;
        }
        i += 1;
    }
    assert(there =~= text@);
    true
}

/// Where the line that starts at `from` ends.
pub open spec fn line_end(s: Seq<char>, from: int) -> int
    decreases s.len() - from,
{
    if from < s.len() && s[from] != '\n' {
        line_end(s, from + 1)
    } else {
        from
    }
}

/// A line ends within the text, at a line break or at the end.
pub proof fn lemma_line_end(s: Seq<char>, from: int)
    ensures
        from <= line_end(s, from),
        from <= s.len() ==> line_end(s, from) <= s.len(),
    decreases s.len() - from,
{
    if from < s.len() && s[from] != '\n' {
        lemma_line_end(s, from + 1);
    }
}

/// Whether a line starts at `at`.
pub open spec fn starts_line(s: Seq<char>, at: int) -> bool {
    0 <= at <= s.len() && (at == 0 || s[at - 1] == '\n')
}

/// A line reaches as far as there is no line break, and the next one starts
/// behind its own.
pub proof fn lemma_line_reaches(s: Seq<char>, from: int)
    requires
        0 <= from <= s.len(),
    ensures
        ({
            let to = line_end(s, from);
            &&& from <= to <= s.len()
            &&& forall|i: int| from <= i < to ==> #[trigger] s[i] != '\n'
            &&& to < s.len() ==> s[to] == '\n'
            &&& forall|p: int| from < p && #[trigger] starts_line(s, p) ==> p > to
        }),
    decreases s.len() - from,
{
    if from < s.len() && s[from] != '\n' {
        lemma_line_reaches(s, from + 1);
        let to = line_end(s, from);
        assert forall|p: int| from < p && #[trigger] starts_line(s, p) implies p > to by {
            assert(s[p - 1] == '\n');
        }
    }
}

/// The characters that Unicode counts as white space.
pub open spec fn is_space(c: char) -> bool {
    ||| '\u{9}' <= c <= '\u{d}'
    ||| c == '\u{20}'
    ||| c == '\u{85}'
    ||| c == '\u{a0}'
    ||| c == '\u{1680}'
    ||| '\u{2000}' <= c <= '\u{200a}'
    ||| c == '\u{2028}'
    ||| c == '\u{2029}'
    ||| c == '\u{202f}'
    ||| c == '\u{205f}'
    ||| c == '\u{3000}'
}

/// Whether a character is white space.
pub fn is_whitespace(c: char) -> (r: bool)
    ensures
        r == is_space(c),
{
    ('\u{9}' <= c && c <= '\u{d}') || c == '\u{20}' || c == '\u{85}' || c == '\u{a0}' || c
        == '\u{1680}' || ('\u{2000}' <= c && c <= '\u{200a}') || c == '\u{2028}' || c == '\u{2029}'
        || c == '\u{202f}' || c == '\u{205f}' || c == '\u{3000}'
}

/// The first position from `from` on, before `to`, that is not white space;
/// `to` where all are.
pub open spec fn space_end(s: Seq<char>, from: int, to: int) -> int
    decreases to - from,
{
    if from < to && is_space(s[from]) {
        space_end(s, from + 1, to)
    } else {
        from
    }
}

/// The position behind the last one, from `from` up to `to`, that is not white
/// space; `from` where all are.
pub open spec fn trim_end(s: Seq<char>, from: int, to: int) -> int
    decreases to - from,
{
    if from < to && is_space(s[to - 1]) {
        trim_end(s, from, to - 1)
    } else {
        to
    }
}

/// A text without the white space around it.
pub open spec fn trimmed(s: Seq<char>) -> Seq<char> {
    let from = space_end(s, 0, s.len() as int);
    s.subrange(from, trim_end(s, from, s.len() as int))
}

/// Where the text between `from` and `to` starts and ends once the white space
/// around it is gone.
pub(crate) fn trim_range(s: &Vec<char>, from: usize, to: usize) -> (r: (usize, usize))
    requires
        from <= to <= s@.len(),
    ensures
        r.0 == space_end(s@, from as int, to as int),
        r.1 == trim_end(s@, r.0 as int, to as int),
        from <= r.0 <= r.1 <= to,
{
    let mut start: usize = from;
    while start < to && is_whitespace(s[start])
        invariant
            from <= start <= to <= s@.len(),
            space_end(s@, from as int, to as int) == space_end(s@, start as int, to as int),
        decreases to - start,
    {
        start += 1;
    }
    let mut end: usize = to;
    while start < end && is_whitespace(s[end - 1])
        invariant
            start <= end <= to <= s@.len(),
            trim_end(s@, start as int, to as int) == trim_end(s@, start as int, end as int),
        decreases end - start,
    {
        end -= 1;
    }
    (start, end)
}

/// A text without the white space around it.
pub fn trim(s: &str) -> (r: String)
    ensures
        r@ == trimmed(s@),
{
    let chars = chars_of(s);
    let (start, end) = trim_range(&chars, 0, chars.len());
    string_of(&chars, start, end)
}

/// What is left after trimming neither starts nor ends with white space.
pub proof fn lemma_trimmed_is_trim(s: Seq<char>)
    ensures
        trimmed(s).len() > 0 ==> !is_space(trimmed(s)[0]) && !is_space(trimmed(s).last()),
{
    let n = s.len() as int;
    lemma_space_end(s, 0, n);
    let from = space_end(s, 0, n);
    lemma_trim_end(s, from, n);
}

/// [`space_end`] stops within bounds, at something that is not white space.
pub proof fn lemma_space_end(s: Seq<char>, from: int, to: int)
    requires
        0 <= from <= to <= s.len(),
    ensures
        from <= space_end(s, from, to) <= to,
        space_end(s, from, to) < to ==> !is_space(s[space_end(s, from, to)]),
    decreases to - from,
{
    if from < to && is_space(s[from]) {
        lemma_space_end(s, from + 1, to);
    }
}

/// [`trim_end`] stops within bounds, behind something that is not white space.
pub proof fn lemma_trim_end(s: Seq<char>, from: int, to: int)
    requires
        0 <= from <= to <= s.len(),
    ensures
        from <= trim_end(s, from, to) <= to,
        from < trim_end(s, from, to) ==> !is_space(s[trim_end(s, from, to) - 1]),
    decreases to - from,
{
    if from < to && is_space(s[to - 1]) {
        lemma_trim_end(s, from, to - 1);
    }
}

/// The digit for a number below sixteen.
pub open spec fn digit(n: int) -> char {
    if n < 10 {
        (48 + n) as char
    } else {
        (87 + n) as char
    }
}

fn digit_char(n: u8) -> (r: char)
    requires
        n < 16,
    ensures
        r == digit(n as int),
{
    if n < 10 {
        (48 + n) as char
    } else {
        (87 + n) as char
    }
}

/// A number in decimal.
pub open spec fn decimal(n: nat) -> Seq<char>
    decreases n,
{
    if n < 10 {
        seq![digit(n as int)]
    } else {
        decimal(n / 10).push(digit((n % 10) as int))
    }
}

/// Zeros in front of a text, up to `width` characters in all.
pub open spec fn zero_padded(text: Seq<char>, width: nat) -> Seq<char>
    decreases width - text.len(),
{
    if text.len() < width {
        zero_padded(seq!['0'] + text, width)
    } else {
        text
    }
}

/// The text of characters in reverse order.
fn reversed(digits: &Vec<char>) -> (r: String)
    ensures
        r@ == digits@.reverse(),
{
    let mut out = String::new();
    let mut i: usize = digits.len();
    assert(out@ =~= digits@.reverse().take(0));
    while i > 0
        invariant
            i <= digits@.len(),
            out@ == digits@.reverse().take(digits@.len() - i),
        decreases i,
    {
        i -= 1;
        out.push(digits[i]);
        assert(out@ =~= digits@.reverse().take(digits@.len() - i));
    }
    assert(out@ =~= digits@.reverse());
    out
}

/// Puts a character in front of a reversed text.
proof fn lemma_reverse_push(digits: Seq<char>, c: char)
    ensures
        digits.push(c).reverse() == seq![c] + digits.reverse(),
{
    assert(digits.push(c).reverse() =~= seq![c] + digits.reverse());
}

/// A number in decimal, with zeros in front up to `width` characters.
pub fn decimal_text(n: u64, width: usize) -> (r: String)
    ensures
        r@ == zero_padded(decimal(n as nat), width as nat),
{
    let mut digits: Vec<char> = Vec::new();
    let mut rest: u64 = n;
    let ghost none = digits@.reverse();
    assert(none =~= Seq::empty());
    while rest >= 10
        invariant
            decimal(n as nat) == decimal(rest as nat) + digits@.reverse(),
        decreases rest,
    {
        let ghost before = digits@;
        let d = digit_char((rest % 10) as u8);
        digits.push(d);
        proof {
            lemma_reverse_push(before, d);
            assert(decimal(rest as nat) =~= decimal((rest / 10) as nat).push(d));
            assert(decimal((rest / 10) as nat).push(d) + before.reverse() =~= decimal(
                (rest / 10) as nat,
            ) + (seq![d] + before.reverse()));
        }
        rest = rest / 10;
    }
    let ghost before = digits@;
    let d = digit_char(rest as u8);
    digits.push(d);
    proof {
        lemma_reverse_push(before, d);
        assert(digits@.reverse() =~= decimal(n as nat));
    }
    while digits.len() < width
        invariant
            zero_padded(decimal(n as nat), width as nat) == zero_padded(
                digits@.reverse(),
                width as nat,
            ),
        decreases width - digits@.len(),
    {
        proof {
            lemma_reverse_push(digits@, '0');
        }
        digits.push('0');
    }
    reversed(&digits)
}

/// Bytes as pairs of hexadecimal digits.
pub open spec fn hex(bytes: Seq<u8>) -> Seq<char>
    decreases bytes.len(),
{
    if bytes.len() == 0 {
        Seq::empty()
    } else {
        hex(bytes.drop_last()).push(digit((bytes.last() / 16) as int)).push(digit((bytes.last() % 16) as int))
    }
}

/// Bytes as pairs of hexadecimal digits.
pub fn hex_encode(bytes: &[u8]) -> (r: String)
    ensures
        r@ == hex(bytes@),
{
    let mut out = String::new();
    let mut i: usize = 0;
    assert(out@ =~= hex(bytes@.take(0)));
    while i < bytes.len()
        invariant
            i <= bytes@.len(),
            out@ == hex(bytes@.take(i as int)),
        decreases bytes.len() - i,
    {
        assert(bytes@.take(i + 1).drop_last() =~= bytes@.take(i as int));
        let b: u8 = bytes[i];
        out.push(digit_char(b / 16));
        out.push(digit_char(b % 16));
        i += 1;
    }
    assert(bytes@.take(bytes@.len() as int) =~= bytes@);
    out
}

/// Different bytes have different texts, so what was written can be told from
/// its text.
pub proof fn lemma_hex_tells_bytes_apart(a: Seq<u8>, b: Seq<u8>)
    requires
        hex(a) == hex(b),
    ensures
        a == b,
    decreases a.len(),
{
    lemma_hex_len(a);
    lemma_hex_len(b);
    if a.len() == 0 {
        assert(a =~= b);
    } else {
        let (x, y) = (hex(a), hex(b));
        let n = x.len() as int;
        assert(x[n - 1] == digit((a.last() % 16) as int) && y[n - 1] == digit((b.last() % 16) as int));
        assert(x[n - 2] == digit((a.last() / 16) as int) && y[n - 2] == digit((b.last() / 16) as int));
        lemma_digits_differ((a.last() % 16) as int, (b.last() % 16) as int);
        lemma_digits_differ((a.last() / 16) as int, (b.last() / 16) as int);
        assert(a.last() == b.last());
        assert(x.take(n - 2) =~= hex(a.drop_last()));
        assert(y.take(n - 2) =~= hex(b.drop_last()));
        lemma_hex_tells_bytes_apart(a.drop_last(), b.drop_last());
        assert(a =~= a.drop_last().push(a.last()));
        assert(b =~= b.drop_last().push(b.last()));
    }
}

/// Two digits per byte.
pub proof fn lemma_hex_len(bytes: Seq<u8>)
    ensures
        hex(bytes).len() == 2 * bytes.len(),
    decreases bytes.len(),
{
    if bytes.len() > 0 {
        lemma_hex_len(bytes.drop_last());
    }
}

/// Different numbers have different digits.
proof fn lemma_digits_differ(a: int, b: int)
    requires
        0 <= a < 16,
        0 <= b < 16,
        digit(a) == digit(b),
    ensures
        a == b,
{
}

} // verus!
