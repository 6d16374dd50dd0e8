//! Characters and character sequences: white space, case folding, trimming,
//! splitting and decimal numerals.

use vstd::prelude::*;
use vstd::string::*;

verus! {

/// `String::push` appends the character to the end of the string.
pub assume_specification[ String::push ](s: &mut String, c: char)
    ensures
        final(s)@ == old(s)@.push(c),
;

/// The characters that separate tokens: those with the Unicode property
/// `White_Space`.
pub open spec fn whitespace(c: char) -> bool {
    ||| '\u{9}' <= c <= '\u{d}'
    ||| c == ' '
    ||| c == '\u{85}'
    ||| c == '\u{a0}'
    ||| c == '\u{1680}'
    ||| '\u{2000}' <= c <= '\u{200a}'
    ||| c == '\u{2028}'
    ||| c == '\u{2029}'
    ||| c == '\u{202f}'
    ||| c == '\u{205f}'
    ||| c == '\u{3000}'
}

/// Whether `c` is a white-space character.
pub fn is_whitespace(c: char) -> (b: bool)
    ensures
        b == whitespace(c),
{
    ('\u{9}' <= c && c <= '\u{d}') || c == ' ' || c == '\u{85}' || c == '\u{a0}' || c == '\u{1680}'
        || ('\u{2000}' <= c && c <= '\u{200a}') || c == '\u{2028}' || c == '\u{2029}' || c
        == '\u{202f}' || c == '\u{205f}' || c == '\u{3000}'
}

/// A letter `A`..`Z` becomes `a`..`z`; every other character is itself.
pub open spec fn folded(c: char) -> char {
    if 'A' <= c <= 'Z' {
        ((c as u8) + 32) as char
    } else {
        c
    }
}

/// The lower-case form of `c`.
pub fn fold_case(c: char) -> (r: char)
    ensures
        r == folded(c),
{
    if 'A' <= c && c <= 'Z' {
        ((c as u8) + 32) as char
    } else {
        c
    }
}

/// A sequence with each of its letters `A`..`Z` folded to lower case.
pub open spec fn ascii_lowered(s: Seq<char>) -> Seq<char> {
    Seq::new(s.len(), |i: int| folded(s[i]))
}

/// What `str::to_lowercase` makes of a text: its lower-case form by the
/// rules of Unicode.
pub uninterp spec fn unicode_lowered(s: Seq<char>) -> Seq<char>;

/// Whether every character of `s` is an ASCII character.
pub open spec fn all_ascii(s: Seq<char>) -> bool {
    forall|i: int| 0 <= i < s.len() ==> #[trigger] s[i] <= '\u{7f}'
}

/// The lower-case form of a text. In a text of ASCII characters the letters
/// `A`..`Z` are folded; any other text is lowered by the rules of Unicode.
pub open spec fn lowered(s: Seq<char>) -> Seq<char> {
    if all_ascii(s) {
        ascii_lowered(s)
    } else {
        unicode_lowered(s)
    }
}

/// Calls `str::to_lowercase`. Of its result this says only that it is
/// determined by the text.
#[verifier::external_body]
fn unicode_lower(s: &str) -> (r: String)
    ensures
        r@ == unicode_lowered(s@),
{
    s.to_lowercase()
}

/// Whether every character of `v` is an ASCII character.
pub fn is_ascii(v: &Vec<char>) -> (b: bool)
    ensures
        b == all_ascii(v@),
{
    let mut i: usize = 0;
    while i < v.len()
        invariant
            i <= v.len(),
            forall|k: int| 0 <= k < i ==> #[trigger] v@[k] <= '\u{7f}',
        decreases v.len() - i,
    {
        if !(v[i] <= '\u{7f}') {
            return false;
        }
        i += 1;
    }
    true
}

/// `v` with each of its letters `A`..`Z` folded to lower case.
pub fn fold_ascii(v: &Vec<char>) -> (r: Vec<char>)
    ensures
        r@ == ascii_lowered(v@),
{
    let mut r: Vec<char> = Vec::new();
    let mut i: usize = 0;
    while i < v.len()
        invariant
            i <= v.len(),
            r@ == ascii_lowered(v@).take(i as int),
        decreases v.len() - i,
    {
        r.push(fold_case(v[i]));
        i += 1;
    }
    r
}

/// A copy of the characters `from..to` of `v`.
pub fn slice(v: &Vec<char>, from: usize, to: usize) -> (r: Vec<char>)
    requires
        from <= to <= v.len(),
    ensures
        r@ == v@.subrange(from as int, to as int),
{
    let mut r: Vec<char> = Vec::new();
    let mut i: usize = from;
    while i < to
        invariant
            from <= i <= to <= v.len(),
            r@ == v@.subrange(from as int, i as int),
        decreases to - i,
    {
        r.push(v[i]);
        i += 1;
    }
    r
}

/// The characters of a string slice.
pub fn chars_of(s: &str) -> (v: Vec<char>)
    ensures
        v@ == s@,
{
    let mut v: Vec<char> = Vec::new();
    for c in it: s.chars()
        invariant
            v@ == it.seq().take(it.index() as int),
    {
        v.push(c);
    }
    v
}

/// A string made of the characters of `v`.
pub fn string_of(v: &Vec<char>) -> (s: String)
    ensures
        s@ == v@,
{
    let mut s = String::new();
    let mut i: usize = 0;
    while i < v.len()
        invariant
            i <= v.len(),
            s@ == v@.take(i as int),
        decreases v.len() - i,
    {
        s.push(v[i]);
        i += 1;
    }
    s
}

/// The lower-case form of `v`.
pub fn to_lower(v: &Vec<char>) -> (r: Vec<char>)
    ensures
        r@ == lowered(v@),
{
    if is_ascii(v) {
        fold_ascii(v)
    } else {
        chars_of(unicode_lower(string_of(v).as_str()).as_str())
    }
}

/// Whether `v` spells exactly `word`.
pub fn is_word(v: &Vec<char>, word: &str) -> (b: bool)
    ensures
        b == (v@ == word@),
{
    let n: usize = word.unicode_len();
    if v.len() != n {
        return false;
    }
    let mut i: usize = 0;
    while i < n
        invariant
            i <= n,
            n == v.len(),
            n == word@.len(),
            v@.take(i as int) == word@.take(i as int),
        decreases n - i,
    {
        if v[i] != word.get_char(i) {
            return false;
        }
        i += 1;
    }
    assert(v@.take(n as int) == v@);
    assert(word@.take(n as int) == word@);
    true
}

/// `s` without its leading white space.
pub open spec fn trimmed_start(s: Seq<char>) -> Seq<char>
    decreases s.len(),
{
    if s.len() > 0 && whitespace(s[0]) {
        trimmed_start(s.drop_first())
    } else {
        s
    }
}

/// `s` without its trailing white space.
pub open spec fn trimmed_end(s: Seq<char>) -> Seq<char>
    decreases s.len(),
{
    if s.len() > 0 && whitespace(s.last()) {
        trimmed_end(s.drop_last())
    } else {
        s
    }
}

/// `s` without its leading and trailing white space.
pub open spec fn trimmed(s: Seq<char>) -> Seq<char> {
    trimmed_end(trimmed_start(s))
}

/// `v` without its leading and trailing white space.
pub fn trim(v: &Vec<char>) -> (r: Vec<char>)
    ensures
        r@ == trimmed(v@),
{
    let mut start: usize = 0;
    assert(v@.skip(0) == v@);
    while start < v.len() && is_whitespace(v[start])
        invariant
            start <= v.len(),
            trimmed_start(v@) == trimmed_start(v@.skip(start as int)),
        decreases v.len() - start,
    {
        assert(v@.skip(start as int).drop_first() == v@.skip(start as int + 1));
        start += 1;
    }
    assert(trimmed_start(v@) == v@.skip(start as int));
    let mut end: usize = v.len();
    while end > start && is_whitespace(v[end - 1])
        invariant
            start <= end <= v.len(),
            trimmed(v@) == trimmed_end(v@.subrange(start as int, end as int)),
        decreases end,
    {
        assert(v@.subrange(start as int, end as int).drop_last() == v@.subrange(
            start as int,
            end as int - 1,
        ));
        end -= 1;
    }
    slice(v, start, end)
}

/// The index of the first `c` in `s`, or the length of `s` if it holds none.
pub open spec fn position(s: Seq<char>, c: char) -> int
    decreases s.len(),
{
    if s.len() == 0 || s[0] == c {
        0
    } else {
        1 + position(s.drop_first(), c)
    }
}

/// The index of the first white-space character in `s`, or the length of
/// `s` if it holds none.
pub open spec fn space_position(s: Seq<char>) -> int
    decreases s.len(),
{
    if s.len() == 0 || whitespace(s[0]) {
        0
    } else {
        1 + space_position(s.drop_first())
    }
}

/// `position(s, c)` is within `s`, nothing before it is `c`, and it is the
/// place of a `c` unless it is the end.
pub proof fn lemma_position(s: Seq<char>, c: char)
    ensures
        0 <= position(s, c) <= s.len(),
        forall|i: int| 0 <= i < position(s, c) ==> s[i] != c,
        position(s, c) < s.len() ==> s[position(s, c)] == c,
    decreases s.len(),
{
    if s.len() != 0 && s[0] != c {
        let rest = s.drop_first();
        lemma_position(rest, c);
        assert forall|i: int| 0 <= i < position(s, c) implies s[i] != c by {
            if i > 0 {
                assert(s[i] == rest[i - 1]);
            }
        }
    }
}

/// The index of the first `c` at or after `from`, or the length of `v`.
pub fn find_from(v: &Vec<char>, from: usize, c: char) -> (r: usize)
    requires
        from <= v.len(),
    ensures
        r == from + position(v@.skip(from as int), c),
        from <= r <= v.len(),
{
    let mut i: usize = from;
    while i < v.len() && v[i] != c
        invariant
            from <= i <= v.len(),
            from + position(v@.skip(from as int), c) == i + position(v@.skip(i as int), c),
        decreases v.len() - i,
    {
        assert(v@.skip(i as int).drop_first() == v@.skip(i as int + 1));
        i += 1;
    }
    i
}

/// The index of the first `c` in `v`, or the length of `v`.
pub fn find(v: &Vec<char>, c: char) -> (r: usize)
    ensures
        r == position(v@, c),
        r <= v.len(),
{
    assert(v@.skip(0) == v@);
    find_from(v, 0, c)
}

/// The index of the first white-space character in `v`, or the length of `v`.
pub fn find_space(v: &Vec<char>) -> (r: usize)
    ensures
        r == space_position(v@),
        r <= v.len(),
{
    let mut i: usize = 0;
    assert(v@.skip(0) == v@);
    while i < v.len() && !is_whitespace(v[i])
        invariant
            i <= v.len(),
            space_position(v@) == i + space_position(v@.skip(i as int)),
        decreases v.len() - i,
    {
        assert(v@.skip(i as int).drop_first() == v@.skip(i as int + 1));
        i += 1;
    }
    i
}

/// The pieces of `s` between the occurrences of `sep`; a sequence without
/// `sep` is one piece.
pub open spec fn pieces(s: Seq<char>, sep: char) -> Seq<Seq<char>>
    decreases s.len(),
{
    let cut = position(s, sep);
    if 0 <= cut < s.len() {
        seq![s.take(cut)] + pieces(s.skip(cut + 1), sep)
    } else {
        seq![s]
    }
}

/// The pieces put together again, with `sep` between each two.
pub open spec fn joined(parts: Seq<Seq<char>>, sep: char) -> Seq<char>
    decreases parts.len(),
{
    if parts.len() == 0 {
        Seq::empty()
    } else if parts.len() == 1 {
        parts[0]
    } else {
        parts[0] + seq![sep] + joined(parts.drop_first(), sep)
    }
}

/// Whether `c` does not occur in `s`.
pub open spec fn free_of(s: Seq<char>, c: char) -> bool {
    forall|i: int| 0 <= i < s.len() ==> s[i] != c
}

/// A text put together from two is free of `c` exactly when both are.
pub proof fn lemma_free_of_concat(a: Seq<char>, b: Seq<char>, c: char)
    ensures
        free_of(a + b, c) <==> free_of(a, c) && free_of(b, c),
{
    let s = a + b;
    if free_of(s, c) {
        assert forall|i: int| 0 <= i < a.len() implies a[i] != c by {
            assert(s[i] == a[i]);
        }
        assert forall|i: int| 0 <= i < b.len() implies b[i] != c by {
            assert(s[a.len() + i] == b[i]);
        }
    }
}

/// In a text that starts with `head`, which is free of `c`, and goes on with
/// `c`, the first `c` stands right after `head`.
proof fn lemma_position_after(head: Seq<char>, c: char, tail: Seq<char>)
    requires
        free_of(head, c),
    ensures
        position(head + seq![c] + tail, c) == head.len(),
    decreases head.len(),
{
    let s = head + seq![c] + tail;
    if head.len() == 0 {
        assert(s[0] == c);
    } else {
        assert(s[0] == head[0]);
        assert(s.drop_first() == head.drop_first() + seq![c] + tail);
        assert forall|i: int| 0 <= i < head.drop_first().len() implies head.drop_first()[i]
            != c by {
            assert(head.drop_first()[i] == head[i + 1]);
        }
        lemma_position_after(head.drop_first(), c, tail);
    }
}

/// Joining one more part adds the separator and the part at the end.
pub proof fn lemma_joined_push(parts: Seq<Seq<char>>, part: Seq<char>, sep: char)
    ensures
        joined(parts.push(part), sep) == if parts.len() == 0 {
            part
        } else {
            joined(parts, sep) + seq![sep] + part
        },
    decreases parts.len(),
{
    let all = parts.push(part);
    reveal_with_fuel(joined, 2);
    if parts.len() == 1 {
        assert(all.drop_first() == seq![part]);
    } else if parts.len() > 1 {
        assert(all.drop_first() == parts.drop_first().push(part));
        lemma_joined_push(parts.drop_first(), part, sep);
        let head = parts[0] + seq![sep];
        let rest = joined(parts.drop_first(), sep);
        assert(head + (rest + seq![sep] + part) == (head + rest) + seq![sep] + part);
    }
}

/// Parts that are free of the separator are what their joined text is
/// split into.
pub proof fn lemma_pieces_of_joined(parts: Seq<Seq<char>>, sep: char)
    requires
        parts.len() > 0,
        forall|i: int| 0 <= i < parts.len() ==> free_of(#[trigger] parts[i], sep),
    ensures
        pieces(joined(parts, sep), sep) == parts,
    decreases parts.len(),
{
    let text = joined(parts, sep);
    if parts.len() == 1 {
        lemma_position(text, sep);
        assert(free_of(parts[0], sep));
        assert(position(text, sep) == text.len());
    } else {
        let rest = parts.drop_first();
        assert(free_of(parts[0], sep));
        lemma_position_after(parts[0], sep, joined(rest, sep));
        assert(text.take(parts[0].len() as int) == parts[0]);
        assert(text.skip(parts[0].len() as int + 1) == joined(rest, sep));
        assert forall|i: int| 0 <= i < rest.len() implies free_of(#[trigger] rest[i], sep) by {
            assert(rest[i] == parts[i + 1]);
        }
        lemma_pieces_of_joined(rest, sep);
        assert(seq![parts[0]] + rest == parts);
    }
}

/// A text is what its pieces are joined to.
pub proof fn lemma_joined_pieces(s: Seq<char>, sep: char)
    ensures
        joined(pieces(s, sep), sep) == s,
        pieces(s, sep).len() > 0,
    decreases s.len(),
{
    let cut = position(s, sep);
    lemma_position(s, sep);
    if cut < s.len() {
        let rest = s.skip(cut + 1);
        lemma_joined_pieces(rest, sep);
        let parts = seq![s.take(cut)] + pieces(rest, sep);
        assert(parts.drop_first() == pieces(rest, sep));
        assert(s.take(cut) + seq![sep] + rest == s);
    }
}

/// The views of the elements of `v`.
pub open spec fn views(v: Seq<Vec<char>>) -> Seq<Seq<char>> {
    Seq::new(v.len(), |i: int| v[i]@)
}

/// The pieces of `v` between the occurrences of `sep`.
pub fn split(v: &Vec<char>, sep: char) -> (r: Vec<Vec<char>>)
    ensures
        views(r@) == pieces(v@, sep),
{
    let mut r: Vec<Vec<char>> = Vec::new();
    let mut start: usize = 0;
    assert(v@.skip(0) == v@);
    loop
        invariant_except_break
            start <= v.len(),
            pieces(v@, sep) == views(r@) + pieces(v@.skip(start as int), sep),
        ensures
            views(r@) == pieces(v@, sep),
        decreases v.len() - start,
    {
        let ghost rest = v@.skip(start as int);
        let ghost done = views(r@);
        proof {
            lemma_position(rest, sep);
        }
        let cut: usize = find_from(v, start, sep);
        let piece = slice(v, start, cut);
        assert(piece@ == rest.take(cut - start));
        r.push(piece);
        assert(views(r@) == done + seq![piece@]);
        if cut == v.len() {
            assert(rest.take(cut - start) == rest);
            break ;
        }
        assert(rest.skip(cut - start + 1) == v@.skip(cut as int + 1));
        start = cut + 1;
    }
    r
}

/// Whether `c` is one of the digits `0`..`9`.
pub open spec fn is_digit(c: char) -> bool {
    '0' <= c <= '9'
}

/// The number that the digit `c` stands for.
pub open spec fn digit_value(c: char) -> nat
    recommends
        is_digit(c),
{
    (c as int - '0' as int) as nat
}

/// The digit that stands for `d`.
pub open spec fn digit_char(d: nat) -> char
    recommends
        d < 10,
{
    (d + '0' as nat) as char
}

/// Whether every character of `s` is a digit.
pub open spec fn all_digits(s: Seq<char>) -> bool {
    forall|i: int| 0 <= i < s.len() ==> is_digit(#[trigger] s[i])
}

/// The number that a sequence of digits denotes in base ten.
pub open spec fn digits_value(s: Seq<char>) -> nat
    decreases s.len(),
{
    if s.len() == 0 {
        0
    } else {
        digits_value(s.drop_last()) * 10 + digit_value(s.last())
    }
}

/// The digits of a numeral: what follows its optional leading `+`.
pub open spec fn numeral_digits(s: Seq<char>) -> Seq<char> {
    if s.len() > 0 && s[0] == '+' {
        s.skip(1)
    } else {
        s
    }
}

/// The value of the decimal numeral `s`, if it is one and its value is at
/// most `max`. A numeral is an optional `+` followed by one or more digits.
pub open spec fn numeral(s: Seq<char>, max: nat) -> Option<nat> {
    let digits = numeral_digits(s);
    if digits.len() > 0 && all_digits(digits) && digits_value(digits) <= max {
        Some(digits_value(digits))
    } else {
        None
    }
}

/// A sequence of digits denotes at least what any of its prefixes denotes.
proof fn lemma_digits_value_grows(s: Seq<char>, n: int)
    requires
        0 <= n <= s.len(),
        all_digits(s),
    ensures
        digits_value(s.take(n)) <= digits_value(s),
    decreases s.len() - n,
{
    if n < s.len() {
        lemma_digits_value_grows(s, n + 1);
        assert(s.take(n + 1).drop_last() == s.take(n));
    } else {
        assert(s.take(n) == s);
    }
}

/// The value of the decimal numeral `v`, if it is one and at most `max`.
pub fn parse_number(v: &Vec<char>, max: u32) -> (r: Option<u32>)
    ensures
        match r {
            Some(n) => numeral(v@, max as nat) == Some(n as nat),
            None => numeral(v@, max as nat) is None,
        },
{
    let start: usize = if v.len() > 0 && v[0] == '+' {
        1
    } else {
        0
    };
    let ghost digits = numeral_digits(v@);
    assert(digits == v@.skip(start as int));
    if start == v.len() {
        return None;
    }
    let mut value: u32 = 0;
    let mut i: usize = start;
    while i < v.len()
        invariant
            start <= i <= v.len(),
            digits == v@.skip(start as int),
            digits == numeral_digits(v@),
            all_digits(digits.take(i - start)),
            value == digits_value(digits.take(i - start)),
            value <= max,
        decreases v.len() - i,
    {
        let c = v[i];
        let ghost before = digits.take(i - start);
        let ghost after = digits.take(i - start + 1);
        assert(after.drop_last() == before);
        assert(after.last() == c);
        if !('0' <= c && c <= '9') {
            assert(!is_digit(digits[i - start]));
            assert(!all_digits(digits));
            return None;
        }
        let d: u32 = (c as u32) - ('0' as u32);
        assert(d == digit_value(c));
        let next: u64 = (value as u64) * 10 + (d as u64);
        assert(next == digits_value(after));
        if next > max as u64 {
            proof {
                if all_digits(digits) {
                    lemma_digits_value_grows(digits, i - start + 1);
                }
            }
            return None;
        }
        value = next as u32;
        assert(all_digits(after)) by {
            assert forall|k: int| 0 <= k < after.len() implies is_digit(#[trigger] after[k]) by {
                if k < before.len() {
                    assert(after[k] == before[k]);
                }
            }
        }
        i += 1;
    }
    assert(digits.take(i - start) == digits);
    Some(value)
}

/// The decimal numeral of `n`, without leading zeros.
pub open spec fn decimal(n: nat) -> Seq<char>
    decreases n,
{
    if n < 10 {
        seq![digit_char(n)]
    } else {
        decimal(n / 10).push(digit_char(n % 10))
    }
}

/// Appends the decimal numeral of `n` to `out`.
pub fn push_decimal(out: &mut String, n: u64)
    ensures
        final(out)@ == old(out)@ + decimal(n as nat),
    decreases n,
{
    if n >= 10 {
        push_decimal(out, n / 10);
    }
    let d: u8 = (n % 10) as u8;
    out.push((d + 48) as char);
}

/// The decimal numeral of a number is made of digits, and denotes the
/// number.
pub proof fn lemma_decimal(n: nat)
    ensures
        decimal(n).len() > 0,
        all_digits(decimal(n)),
        digits_value(decimal(n)) == n,
    decreases n,
{
    let s = decimal(n);
    if n < 10 {
        assert(s.drop_last().len() == 0);
        assert(digits_value(s.drop_last()) == 0);
    } else {
        let head = decimal(n / 10);
        lemma_decimal(n / 10);
        assert(s.drop_last() == head);
        assert forall|i: int| 0 <= i < s.len() implies is_digit(#[trigger] s[i]) by {
            if i < head.len() {
                assert(s[i] == head[i]);
            }
        }
    }
}

/// A number is read back from its decimal numeral.
pub proof fn lemma_numeral_of_decimal(n: nat, max: nat)
    requires
        n <= max,
    ensures
        numeral(decimal(n), max) == Some(n),
{
    lemma_decimal(n);
    assert(is_digit(decimal(n)[0]));
}

/// The decimal numeral of a number holds no line feed.
pub proof fn lemma_decimal_one_line(n: nat)
    ensures
        free_of(decimal(n), '\n'),
{
    lemma_decimal(n);
    assert forall|i: int| 0 <= i < decimal(n).len() implies decimal(n)[i] != '\n' by {
        assert(is_digit(decimal(n)[i]));
    }
}

} // verus!
