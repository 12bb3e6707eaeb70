//! Text primitives over sequences of characters: lines, whitespace-separated
//! words, trimming, searching, joining and decimal numbers.
//!
//! Each executable function works on a `Vec<char>` and is specified by a
//! function on `Seq<char>` that says which text it returns.

use vstd::prelude::*;

verus! {

/// `String::push` appends one character.
pub assume_specification[ String::push ](s: &mut String, ch: char)
    ensures
        final(s)@ == old(s)@.push(ch),
;

/// The views of a sequence of character vectors.
pub open spec fn rows(v: Seq<Vec<char>>) -> Seq<Seq<char>> {
    Seq::new(v.len(), |i: int| v[i]@)
}

/// The views of a sequence of strings.
pub open spec fn texts(v: Seq<String>) -> Seq<Seq<char>> {
    Seq::new(v.len(), |i: int| v[i]@)
}

/// The text of an optional string.
pub open spec fn text_of(s: Option<String>) -> Option<Seq<char>> {
    match s {
        Some(text) => Some(text@),
        None => None,
    }
}

/// The characters of a string, in order.
pub fn to_chars(s: &str) -> (v: Vec<char>)
    ensures
        v@ == s@,
{
    let mut v: Vec<char> = Vec::new();
    for c in it: s.chars()
        invariant
            v@ == it.seq().take(it.index() as int),
            it.seq() == s@,
    {
        v.push(c);
    }
    v
}

/// The string made of the given characters.
pub fn from_chars(v: &Vec<char>) -> (s: String)
    ensures
        s@ == v@,
{
    let mut s = String::new();
    let mut i: usize = 0;
    while i < v.len()
        invariant
            i <= v.len(),
            s@ == v@.take(i as int),
        decreases v.len() - i,
    {
        s.push(v[i]);
        i += 1;
    }
    s
}

/// Each vector of characters as a string.
pub fn to_strings(v: &Vec<Vec<char>>) -> (out: Vec<String>)
    ensures
        texts(out@) == rows(v@),
{
    let mut out: Vec<String> = Vec::new();
    let mut i: usize = 0;
    while i < v.len()
        invariant
            i <= v.len(),
            out.len() == i,
            forall|k: int| 0 <= k < i ==> (#[trigger] out@[k])@ == v@[k]@,
        decreases v.len() - i,
    {
        let s = from_chars(&v[i]);
        out.push(s);
        i += 1;
    }
    out
}

/// A copy of the characters of `v` from `from` up to `to`.
pub(crate) fn slice(v: &Vec<char>, from: usize, to: usize) -> (out: Vec<char>)
    requires
        from <= to <= v.len(),
    ensures
        out@ == v@.subrange(from as int, to as int),
{
    let mut out: Vec<char> = Vec::new();
    let mut i: usize = from;
    while i < to
        invariant
            from <= i <= to <= v.len(),
            out@ == v@.subrange(from as int, i as int),
        decreases to - i,
    {
        out.push(v[i]);
        i += 1;
    }
    out
}

/// The characters with the Unicode property `White_Space`.
pub open spec fn is_space(c: char) -> bool {
    ||| '\u{9}' <= c <= '\u{d}'
    ||| c == ' '
    ||| c == '\u{85}'
    ||| c == '\u{a0}'
    ||| c == '\u{1680}'
    ||| '\u{2000}' <= c <= '\u{200a}'
    ||| c == '\u{2028}'
    ||| c == '\u{2029}'
    ||| c == '\u{202f}'
    ||| c == '\u{205f}'
    ||| c == '\u{3000}'
}

/// Whether `c` is white space.
pub fn is_whitespace(c: char) -> (b: bool)
    ensures
        b == is_space(c),
{
    ('\u{9}' <= c && c <= '\u{d}') || c == ' ' || c == '\u{85}' || c == '\u{a0}' || c == '\u{1680}'
        || ('\u{2000}' <= c && c <= '\u{200a}') || c == '\u{2028}' || c == '\u{2029}' || c
        == '\u{202f}' || c == '\u{205f}' || c == '\u{3000}'
}

/// `s` without its leading white space.
pub open spec fn trim_start(s: Seq<char>) -> Seq<char>
    decreases s.len(),
{
    if s.len() > 0 && is_space(s[0]) {
        trim_start(s.skip(1))
    } else {
        s
    }
}

/// `s` without its trailing white space.
pub open spec fn trim_end(s: Seq<char>) -> Seq<char>
    decreases s.len(),
{
    if s.len() > 0 && is_space(s.last()) {
        trim_end(s.drop_last())
    } else {
        s
    }
}

/// `s` without its leading and trailing white space.
pub open spec fn trimmed(s: Seq<char>) -> Seq<char> {
    trim_end(trim_start(s))
}

/// If the first `a` characters are white space and the next one is not, `trim_start` drops
/// exactly those `a`.
pub proof fn lemma_trim_start(s: Seq<char>, a: int)
    requires
        0 <= a <= s.len(),
        forall|i: int| 0 <= i < a ==> is_space(#[trigger] s[i]),
        a == s.len() || !is_space(s[a]),
    ensures
        trim_start(s) == s.skip(a),
    decreases a,
{
    if a > 0 {
        let t = s.skip(1);
        lemma_trim_start(t, a - 1);
    }
}

/// If the characters from `b` on are white space and the one before is not, `trim_end` keeps
/// exactly the first `b`.
pub proof fn lemma_trim_end(s: Seq<char>, b: int)
    requires
        0 <= b <= s.len(),
        forall|i: int| b <= i < s.len() ==> is_space(#[trigger] s[i]),
        b == 0 || !is_space(s[b - 1]),
    ensures
        trim_end(s) == s.take(b),
    decreases s.len() - b,
{
    if b < s.len() {
        let t = s.drop_last();
        lemma_trim_end(t, b);
    }
}

/// `text` without its leading and trailing white space.
pub fn trim(text: &Vec<char>) -> (out: Vec<char>)
    ensures
        out@ == trimmed(text@),
{
    let n = text.len();
    let mut a: usize = 0;
    while a < n && is_whitespace(text[a])
        invariant
            a <= n == text.len(),
            forall|i: int| 0 <= i < a ==> is_space(#[trigger] text@[i]),
        decreases n - a,
    {
        a += 1;
    }
    let mut b: usize = n;
    while b > a && is_whitespace(text[b - 1])
        invariant
            a <= b <= n == text.len(),
            forall|i: int| b <= i < n ==> is_space(#[trigger] text@[i]),
        decreases b,
    {
        b -= 1;
    }
    proof {
        lemma_trim_start(text@, a as int);
        let t = text@.skip(a as int);
        lemma_trim_end(t, b - a);
    }
    slice(text, a, b)
}

/// The number of items of `s` before the first `x`; the length of `s` if it holds none.
pub open spec fn position_of<T>(s: Seq<T>, x: T) -> nat
    decreases s.len(),
{
    if s.len() == 0 || s[0] == x {
        0
    } else {
        1 + position_of(s.skip(1), x)
    }
}

/// If no item before `i` is `x`, and `i` is the end of `s` or holds `x`, then `i` is
/// `position_of(s, x)`.
pub proof fn lemma_position_of<T>(s: Seq<T>, x: T, i: int)
    requires
        0 <= i <= s.len(),
        forall|k: int| 0 <= k < i ==> #[trigger] s[k] != x,
        i == s.len() || s[i] == x,
    ensures
        position_of(s, x) == i,
    decreases i,
{
    if i > 0 {
        let t = s.skip(1);
        lemma_position_of(t, x, i - 1);
    }
}

/// `position_of` is an index of `s` or its length, nothing before it is `x`, and it holds `x`
/// unless it is the length.
pub proof fn lemma_position_of_bounds<T>(s: Seq<T>, x: T)
    ensures
        position_of(s, x) <= s.len(),
        forall|k: int| 0 <= k < position_of(s, x) ==> #[trigger] s[k] != x,
        position_of(s, x) < s.len() ==> s[position_of(s, x) as int] == x,
    decreases s.len(),
{
    if s.len() > 0 && s[0] != x {
        let t = s.skip(1);
        lemma_position_of_bounds(t, x);
        assert forall|k: int| 0 <= k < position_of(s, x) implies #[trigger] s[k] != x by {
            if k > 0 {
                assert(s[k] == t[k - 1]);
            }
        }
    }
}

/// The index in `text` of the first `c` at or after `from`; the length if there is none.
pub(crate) fn find_char(text: &Vec<char>, from: usize, c: char) -> (at: usize)
    requires
        from <= text.len(),
    ensures
        from <= at <= text.len(),
        at == from + position_of(text@.skip(from as int), c),
{
    let n = text.len();
    let mut at: usize = from;
    while at < n && text[at] != c
        invariant
            from <= at <= n == text.len(),
            forall|k: int| from <= k < at ==> #[trigger] text@[k] != c,
        decreases n - at,
    {
        at += 1;
    }
    proof {
        let t = text@.skip(from as int);
        lemma_position_of(t, c, at - from);
    }
    at
}

/// `s` without one trailing carriage return, if it ends in one.
pub open spec fn strip_cr(s: Seq<char>) -> Seq<char> {
    if s.len() > 0 && s.last() == '\r' {
        s.drop_last()
    } else {
        s
    }
}

/// The lines of `s`. A line ends at a line feed; the line feed, and a carriage return just
/// before it, are not part of the line. Text after the last line feed is a line of its own,
/// kept as it is; where nothing follows the last line feed there is no further line.
pub open spec fn lines_of(s: Seq<char>) -> Seq<Seq<char>>
    decreases s.len(),
{
    if s.len() == 0 {
        Seq::empty()
    } else {
        let i = position_of(s, '\n');
        if i < s.len() {
            seq![strip_cr(s.take(i as int))] + lines_of(s.skip(i as int + 1))
        } else {
            seq![s]
        }
    }
}

/// The lines of `text`.
pub fn lines(text: &Vec<char>) -> (out: Vec<Vec<char>>)
    ensures
        rows(out@) == lines_of(text@),
{
    let n = text.len();
    let mut out: Vec<Vec<char>> = Vec::new();
    let mut start: usize = 0;
    proof {
        assert(text@.skip(0) =~= text@);
    }
    while start < n
        invariant
            start <= n == text.len(),
            lines_of(text@) == rows(out@) + lines_of(text@.skip(start as int)),
        decreases n - start,
    {
        let end = find_char(text, start, '\n');
        let ghost rest = text@.skip(start as int);
        if end == n {
            let line = slice(text, start, n);
            out.push(line);
            start = n;
        } else {
            let stop = if end > start && text[end - 1] == '\r' {
                end - 1
            } else {
                end
            };
            let line = slice(text, start, stop);
            proof {
                let whole = rest.take(end - start);
                assert(line@ =~= strip_cr(whole));
                assert(rest.skip(end - start + 1) =~= text@.skip(end + 1));
            }
            out.push(line);
            start = end + 1;
        }
    }
    out
}

/// The number of characters at the start of `s` that are not white space.
pub open spec fn word_len(s: Seq<char>) -> nat
    decreases s.len(),
{
    if s.len() > 0 && !is_space(s[0]) {
        1 + word_len(s.skip(1))
    } else {
        0
    }
}

/// `word_len` stays within `s`; the characters it counts are not white space and the next
/// one, if any, is.
pub proof fn lemma_word_len_bounds(s: Seq<char>)
    ensures
        word_len(s) <= s.len(),
        forall|k: int| 0 <= k < word_len(s) ==> !is_space(#[trigger] s[k]),
        word_len(s) < s.len() ==> is_space(s[word_len(s) as int]),
    decreases s.len(),
{
    if s.len() > 0 && !is_space(s[0]) {
        let t = s.skip(1);
        lemma_word_len_bounds(t);
        assert forall|k: int| 0 <= k < word_len(s) implies !is_space(#[trigger] s[k]) by {
            if k > 0 {
                assert(s[k] == t[k - 1]);
            }
        }
    }
}

/// If the first `n` characters are not white space and the next one is, `n` is `word_len`.
pub proof fn lemma_word_len(s: Seq<char>, n: int)
    requires
        0 <= n <= s.len(),
        forall|k: int| 0 <= k < n ==> !is_space(#[trigger] s[k]),
        n == s.len() || is_space(s[n]),
    ensures
        word_len(s) == n,
    decreases n,
{
    if n > 0 {
        let t = s.skip(1);
        lemma_word_len(t, n - 1);
    }
}

/// The words of `s`: its maximal runs of characters that are not white space, in order.
pub open spec fn words_of(s: Seq<char>) -> Seq<Seq<char>>
    decreases s.len(),
    via words_of_decreases
{
    if s.len() == 0 {
        Seq::empty()
    } else if is_space(s[0]) {
        words_of(s.skip(1))
    } else {
        seq![s.take(word_len(s) as int)] + words_of(s.skip(word_len(s) as int))
    }
}

#[via_fn]
proof fn words_of_decreases(s: Seq<char>) {
    if s.len() > 0 && !is_space(s[0]) {
        lemma_word_len_bounds(s);
    }
}

/// The words of `text`.
pub fn split_whitespace(text: &Vec<char>) -> (out: Vec<Vec<char>>)
    ensures
        rows(out@) == words_of(text@),
{
    let n = text.len();
    let mut out: Vec<Vec<char>> = Vec::new();
    let mut at: usize = 0;
    proof {
        assert(text@.skip(0) =~= text@);
    }
    while at < n
        invariant
            at <= n == text.len(),
            words_of(text@) == rows(out@) + words_of(text@.skip(at as int)),
        decreases n - at,
    {
        let ghost rest = text@.skip(at as int);
        if is_whitespace(text[at]) {
            proof {
                assert(rest.skip(1) =~= text@.skip(at + 1));
            }
            at += 1;
        } else {
            let mut end: usize = at + 1;
            while end < n && !is_whitespace(text[end])
                invariant
                    at < end <= n == text.len(),
                    forall|k: int| at <= k < end ==> !is_space(#[trigger] text@[k]),
                decreases n - end,
            {
                end += 1;
            }
            let word = slice(text, at, end);
            proof {
                lemma_word_len(rest, end - at);
                assert(word@ =~= rest.take(end - at));
                assert(rest.skip(end - at) =~= text@.skip(end as int));
            }
            out.push(word);
            at = end;
        }
    }
    out
}

/// Whether `a` and `b` hold the same characters.
pub fn same(a: &Vec<char>, b: &Vec<char>) -> (r: bool)
    ensures
        r == (a@ == b@),
{
    if a.len() != b.len() {
        return false;
    }
    let mut i: usize = 0;
    while i < a.len()
        invariant
            i <= a.len() == b.len(),
            forall|k: int| 0 <= k < i ==> a@[k] == b@[k],
        decreases a.len() - i,
    {
        if a[i] != b[i] {
            return false;
        }
        i += 1;
    }
    assert(a@ =~= b@);
    true
}

/// Whether `s` begins with `prefix`.
pub open spec fn begins_with(s: Seq<char>, prefix: Seq<char>) -> bool {
    prefix.len() <= s.len() && s.take(prefix.len() as int) == prefix
}

/// Whether `needle` stands in `s` at index `at`.
pub open spec fn occurs_at(s: Seq<char>, needle: Seq<char>, at: int) -> bool {
    0 <= at && at + needle.len() <= s.len() && s.subrange(at, at + needle.len()) == needle
}

/// Whether `needle` stands somewhere in `s`.
pub open spec fn occurs_in(s: Seq<char>, needle: Seq<char>) -> bool {
    exists|at: int| occurs_at(s, needle, at)
}

/// Whether `needle` stands in `text` at index `at`.
pub fn matches_at(text: &Vec<char>, needle: &Vec<char>, at: usize) -> (r: bool)
    ensures
        r == occurs_at(text@, needle@, at as int),
{
    let n = needle.len();
    if at > text.len() || n > text.len() - at {
        return false;
    }
    let mut i: usize = 0;
    while i < n
        invariant
            i <= n == needle.len(),
            at + n <= text.len(),
            forall|k: int| 0 <= k < i ==> text@[at + k] == needle@[k],
        decreases n - i,
    {
        if text[at + i] != needle[i] {
            return false;
        }
        i += 1;
    }
    assert(text@.subrange(at as int, at + n) =~= needle@);
    true
}

/// Whether `text` begins with `prefix`.
pub fn starts_with(text: &Vec<char>, prefix: &Vec<char>) -> (r: bool)
    ensures
        r == begins_with(text@, prefix@),
{
    let r = matches_at(text, prefix, 0);
    r
}

/// Whether `needle` stands somewhere in `text`.
pub fn contains(text: &Vec<char>, needle: &Vec<char>) -> (r: bool)
    ensures
        r == occurs_in(text@, needle@),
{
    let mut at: usize = 0;
    while at < text.len()
        invariant
            at <= text.len(),
            forall|k: int| 0 <= k < at ==> !occurs_at(text@, needle@, k),
        decreases text.len() - at,
    {
        if matches_at(text, needle, at) {
            return true;
        }
        at += 1;
    }
    matches_at(text, needle, at)
}

/// Whether `c` is one of the characters of `text`.
pub fn contains_char(text: &Vec<char>, c: char) -> (r: bool)
    ensures
        r == text@.contains(c),
{
    let at = find_char(text, 0, c);
    proof {
        assert(text@.skip(0) =~= text@);
        lemma_position_of_bounds(text@, c);
    }
    at < text.len()
}

/// The part of `s` before its first `c`; all of `s` if it holds none.
pub open spec fn before(s: Seq<char>, c: char) -> Seq<char> {
    s.take(position_of(s, c) as int)
}

/// The part of `text` before its first `c`.
pub fn take_before(text: &Vec<char>, c: char) -> (out: Vec<char>)
    ensures
        out@ == before(text@, c),
{
    let at = find_char(text, 0, c);
    proof {
        assert(text@.skip(0) =~= text@);
    }
    slice(text, 0, at)
}

/// The second of the pieces into which the `c`s cut `s`: what stands between the first `c`
/// and the next one, or the end. `None` if `s` holds no `c`.
pub open spec fn second_piece(s: Seq<char>, c: char) -> Option<Seq<char>> {
    if position_of(s, c) < s.len() {
        Some(before(s.skip(position_of(s, c) as int + 1), c))
    } else {
        None
    }
}

/// What stands in `text` between the first `c` and the next one, or the end.
pub fn between(text: &Vec<char>, c: char) -> (out: Option<Vec<char>>)
    ensures
        out is Some == second_piece(text@, c) is Some,
        out is Some ==> out->0@ == second_piece(text@, c)->0,
{
    let first = find_char(text, 0, c);
    proof {
        assert(text@.skip(0) =~= text@);
    }
    if first == text.len() {
        return None;
    }
    let next = find_char(text, first + 1, c);
    proof {
        let rest = text@.skip(first + 1);
        assert(rest.take(next - first - 1) =~= text@.subrange(first + 1, next as int));
    }
    Some(slice(text, first + 1, next))
}

/// The parts with `sep` between each two neighbors.
pub open spec fn joined(parts: Seq<Seq<char>>, sep: Seq<char>) -> Seq<char>
    decreases parts.len(),
{
    if parts.len() == 0 {
        Seq::empty()
    } else if parts.len() == 1 {
        parts[0]
    } else {
        joined(parts.drop_last(), sep) + sep + parts.last()
    }
}

/// The strings of `parts` with `sep` between each two neighbors.
pub fn join(parts: &Vec<String>, sep: &str) -> (out: String)
    ensures
        out@ == joined(texts(parts@), sep@),
{
    let mut out = String::new();
    let mut i: usize = 0;
    while i < parts.len()
        invariant
            i <= parts.len(),
            out@ == joined(texts(parts@).take(i as int), sep@),
        decreases parts.len() - i,
    {
        if i > 0 {
            out.append(sep);
        }
        out.append(parts[i].as_str());
        proof {
            let all = texts(parts@);
            assert(all.take(i + 1).drop_last() =~= all.take(i as int));
        }
        i += 1;
    }
    proof {
        assert(texts(parts@).take(parts.len() as int) =~= texts(parts@));
    }
    out
}

/// Whether `c` is one of the ten decimal digits.
pub open spec fn is_digit(c: char) -> bool {
    '0' <= c <= '9'
}

/// The number that the digit `c` stands for.
pub open spec fn digit_value(c: char) -> nat {
    (c as int - '0' as int) as nat
}

/// Whether `s` holds decimal digits only.
pub open spec fn all_digits(s: Seq<char>) -> bool {
    forall|i: int| 0 <= i < s.len() ==> is_digit(#[trigger] s[i])
}

/// The number that the digits of `s` write in base ten; 0 for no digits.
pub open spec fn decimal_value(s: Seq<char>) -> nat
    decreases s.len(),
{
    if s.len() == 0 {
        0
    } else {
        10 * decimal_value(s.drop_last()) + digit_value(s.last())
    }
}

/// `s` without a leading `+`.
pub open spec fn unsigned_part(s: Seq<char>) -> Seq<char> {
    if s.len() > 0 && s[0] == '+' {
        s.skip(1)
    } else {
        s
    }
}

/// The number that `s` writes as a `u32`: an optional `+`, then one or more decimal digits
/// whose value fits the type. No sign but `+`, no white space and no other character is
/// accepted.
pub open spec fn parsed_u32(s: Seq<char>) -> Option<u32> {
    let d = unsigned_part(s);
    if d.len() > 0 && all_digits(d) && decimal_value(d) <= u32::MAX {
        Some(decimal_value(d) as u32)
    } else {
        None
    }
}

/// A run of digits is worth at least as much as each of its prefixes.
pub proof fn lemma_decimal_value_grows(s: Seq<char>, k: int)
    requires
        0 <= k <= s.len(),
        all_digits(s),
    ensures
        decimal_value(s.take(k)) <= decimal_value(s),
    decreases s.len() - k,
{
    if k == s.len() {
        assert(s.take(k) =~= s);
    } else {
        let t = s.drop_last();
        lemma_decimal_value_grows(t, k);
        assert(t.take(k) =~= s.take(k));
    }
}

/// The number that `text` writes as a `u32`, if it writes one.
pub fn parse_u32(text: &Vec<char>) -> (r: Option<u32>)
    ensures
        r == parsed_u32(text@),
{
    let n = text.len();
    let start: usize = if n > 0 && text[0] == '+' {
        1
    } else {
        0
    };
    let ghost d = text@.skip(start as int);
    if start == n {
        return None;
    }
    let mut value: u64 = 0;
    let mut i: usize = start;
    while i < n
        invariant
            start <= i <= n == text.len(),
            d == text@.skip(start as int),
            d == unsigned_part(text@),
            all_digits(d.take(i - start)),
            value == decimal_value(d.take(i - start)),
            value <= u32::MAX,
        decreases n - i,
    {
        let c = text[i];
        assert(d[i - start] == c);
        if !('0' <= c && c <= '9') {
            return None;
        }
        let digit: u64 = (c as u32 - '0' as u32) as u64;
        value = value * 10 + digit;
        proof {
            let next = d.take(i - start + 1);
            assert(next.drop_last() =~= d.take(i - start));
        }
        if value > u32::MAX as u64 {
            proof {
                if all_digits(d) {
                    lemma_decimal_value_grows(d, i - start + 1);
                }
            }
            return None;
        }
        i += 1;
    }
    proof {
        assert(d.take(n - start) =~= d);
    }
    Some(value as u32)
}

/// The character that writes the digit `d`.
pub open spec fn digit_char(d: nat) -> char {
    ('0' as nat + d) as char
}

/// `n` in base ten, without leading zeros.
pub open spec fn decimal(n: nat) -> Seq<char>
    decreases n,
{
    if n < 10 {
        seq![digit_char(n)]
    } else {
        decimal(n / 10).push(digit_char(n % 10))
    }
}

/// `i` in base ten, with a leading `-` if it is negative.
pub open spec fn signed_decimal(i: int) -> Seq<char> {
    if i < 0 {
        seq!['-'] + decimal((-i) as nat)
    } else {
        decimal(i as nat)
    }
}

/// Appends `n` in base ten to `out`.
pub fn push_decimal(out: &mut String, n: u32)
    ensures
        final(out)@ == old(out)@ + decimal(n as nat),
    decreases n,
{
    if n >= 10 {
        push_decimal(out, n / 10);
    }
    let d: u8 = (n % 10) as u8;
    let c: char = (48u8 + d) as char;
    out.push(c);
}

/// `i` in base ten.
pub fn format_i32(i: i32) -> (out: String)
    ensures
        out@ == signed_decimal(i as int),
{
    let mut out = String::new();
    if i < 0 {
        out.push('-');
        let magnitude: u32 = (-(i as i64)) as u32;
        push_decimal(&mut out, magnitude);
    } else {
        push_decimal(&mut out, i as u32);
    }
    out
}

} // verus!
