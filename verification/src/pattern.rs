//! The patterns by which machines are looked up by name: extended regular expressions.
//!
//! A pattern is one or more branches separated by `|`; a name matches if some stretch of
//! it matches one of them. A branch is a row of items, each followed by any number of
//! counts. An item is
//!
//! - `( .. )`, a pattern of its own;
//! - `[ .. ]`, one character out of a set: single characters, ranges `a-z` and classes
//!   `[:alpha:]`, all but these after a leading `^`; a `]` that comes first stands for
//!   itself;
//! - `.`, any one character;
//! - `^`, the start of the name, and `$`, its end;
//! - `\w`, `\W`, `\s`, `\S`: a letter, digit or `_`, any other character, white space,
//!   any other character; `\b`, `\B`, `\<`, `\>`: the edge of a word, a place that is
//!   none, the start and the end of a word;
//! - a backslash and any other character, which it takes as itself;
//! - any other character, which stands for itself.
//!
//! A count is `*` (any number of times), `+` (at least once), `?` (at most once), or
//! `{m}`, `{m,}`, `{,n}`, `{m,n}` with `m <= n` and no number above 32767. A count with no
//! item before it, and a `{` that begins no such count, stand for themselves.
//!
//! No pattern at all is a text with a `(` or a `)` that has no partner, with a `[` that is
//! not closed, with a class of an unknown name, or with a backslash before a digit from 1
//! to 9. Classes hold characters of ASCII only, and a range goes by the characters'
//! numbers.

use crate::text::{
    find_char, occurs_at, occurs_in, parse_u32, parsed_u32, position_of, same, slice, to_chars,
};
use vstd::prelude::*;

verus! {

/// A class of characters that has a name. Each holds characters of ASCII only.
#[derive(Clone, Copy, Debug, PartialEq, Eq, Structural)]
pub enum Class {
    /// `alpha`: the letters.
    Alpha,
    /// `digit`: the ten digits.
    Digit,
    /// `alnum`: letters and digits.
    Alnum,
    /// `upper`: the capital letters.
    Upper,
    /// `lower`: the small letters.
    Lower,
    /// `space`: the space, and the characters from the tab to the carriage return.
    Space,
    /// `blank`: the space and the tab.
    Blank,
    /// `punct`: what is printed and is no letter, digit or space.
    Punct,
    /// `print`: what is printed, the space too.
    Print,
    /// `graph`: what is printed, but for the space.
    Graph,
    /// `cntrl`: the control characters.
    Cntrl,
    /// `xdigit`: the digits of base sixteen.
    Xdigit,
    /// Letters, digits and `_`: what `\w` stands for.
    Word,
}

/// A place between two characters, told by whether letters, digits or `_` stand on its
/// two sides.
#[derive(Clone, Copy, Debug, PartialEq, Eq, Structural)]
pub enum Edge {
    /// `\b`: such a character on exactly one side.
    Word,
    /// `\B`: on both sides or on neither.
    Inner,
    /// `\<`: none before and one behind.
    WordStart,
    /// `\>`: one before and none behind.
    WordEnd,
}

/// The characters of a set: a chain of ranges and classes.
#[derive(Debug, PartialEq, Eq)]
pub enum Items {
    /// No character.
    Nil,
    /// The characters from the first to the second, and those of the rest.
    More(char, char, Box<Items>),
    /// The characters of the class, and those of the rest.
    Named(Class, Box<Items>),
}

/// A pattern as a tree.
#[derive(Debug, PartialEq, Eq)]
pub enum Regex {
    /// The empty text.
    Empty,
    /// Any one character.
    Any,
    /// This character.
    Char(char),
    /// One character of the set, or, if the flag is set, one that is not of it.
    OneOf(bool, Items),
    /// The start of the name.
    Start,
    /// The end of the name.
    End,
    /// A place of this kind, and no character.
    Between(Edge),
    /// The first, then the second.
    Concat(Box<Regex>, Box<Regex>),
    /// The first or the second.
    Alt(Box<Regex>, Box<Regex>),
    /// The pattern a number of times in a row: at least the first number, and at most the
    /// second if there is one.
    Repeat(Box<Regex>, u32, Option<u32>),
}

/// Whether `c` is a letter of ASCII.
pub open spec fn is_letter(c: char) -> bool {
    'A' <= c <= 'Z' || 'a' <= c <= 'z'
}

/// Whether `c` is one of the ten digits.
pub open spec fn is_figure(c: char) -> bool {
    '0' <= c <= '9'
}

/// Whether `c` belongs to the class.
pub open spec fn in_class(class: Class, c: char) -> bool {
    match class {
        Class::Alpha => is_letter(c),
        Class::Digit => is_figure(c),
        Class::Alnum => is_letter(c) || is_figure(c),
        Class::Upper => 'A' <= c <= 'Z',
        Class::Lower => 'a' <= c <= 'z',
        Class::Space => c == ' ' || '\u{9}' <= c <= '\u{d}',
        Class::Blank => c == ' ' || c == '\u{9}',
        Class::Punct => '!' <= c <= '~' && !is_letter(c) && !is_figure(c),
        Class::Print => ' ' <= c <= '~',
        Class::Graph => '!' <= c <= '~',
        Class::Cntrl => c <= '\u{1f}' || c == '\u{7f}',
        Class::Xdigit => is_figure(c) || 'A' <= c <= 'F' || 'a' <= c <= 'f',
        Class::Word => is_letter(c) || is_figure(c) || c == '_',
    }
}

/// Whether `c` is one of the characters of the set.
pub open spec fn in_items(items: Items, c: char) -> bool
    decreases items,
{
    match items {
        Items::Nil => false,
        Items::More(lo, hi, rest) => lo <= c <= hi || in_items(*rest, c),
        Items::Named(class, rest) => in_class(class, c) || in_items(*rest, c),
    }
}

/// Whether the place `i` of `t` is of the kind `edge`.
pub open spec fn is_edge(edge: Edge, t: Seq<char>, i: int) -> bool {
    let before = 0 < i <= t.len() && in_class(Class::Word, t[i - 1]);
    let behind = 0 <= i < t.len() && in_class(Class::Word, t[i]);
    match edge {
        Edge::Word => before != behind,
        Edge::Inner => before == behind,
        Edge::WordStart => !before && behind,
        Edge::WordEnd => before && !behind,
    }
}

/// Always true. It names a place in a text, or a count, so that a proof can point at it.
pub open spec fn at(n: int) -> bool {
    true
}

/// Whether the pattern matches the stretch of `t` from `i` up to `j`.
pub open spec fn matches(re: Regex, t: Seq<char>, i: int, j: int) -> bool
    decreases re, 0nat,
{
    0 <= i <= j <= t.len() && match re {
        Regex::Empty => i == j,
        Regex::Any => j == i + 1,
        Regex::Char(c) => j == i + 1 && t[i] == c,
        Regex::OneOf(negated, items) => j == i + 1 && in_items(items, t[i]) != negated,
        Regex::Start => i == j && i == 0,
        Regex::End => i == j && j == t.len(),
        Regex::Between(edge) => i == j && is_edge(edge, t, i),
        Regex::Concat(a, b) => exists|m: int| #[trigger]
            at(m) && matches(*a, t, i, m) && matches(*b, t, m, j),
        Regex::Alt(a, b) => matches(*a, t, i, j) || matches(*b, t, i, j),
        Regex::Repeat(a, min, max) => exists|k: int| #[trigger]
            at(k) && min <= k && (max is Some ==> k <= max->0) && repeats(
                *a,
                k as nat,
                t,
                i,
                j,
            ),
    }
}

/// Whether the stretch of `t` from `i` up to `j` can be cut into `k` stretches in a row that
/// the pattern matches.
pub open spec fn repeats(a: Regex, k: nat, t: Seq<char>, i: int, j: int) -> bool
    decreases a, k + 1,
{
    if k == 0 {
        0 <= i <= t.len() && i == j
    } else {
        exists|m: int| #[trigger] at(m) && repeats(a, (k - 1) as nat, t, i, m) && matches(a, t, m, j)
    }
}

/// Whether the pattern matches some stretch of the name `t`.
pub open spec fn found_in(re: Regex, t: Seq<char>) -> bool {
    exists|i: int, j: int| #[trigger] matches(re, t, i, j)
}

/// A matched stretch lies within the text.
pub proof fn lemma_repeats_within(a: Regex, k: nat, t: Seq<char>, i: int, j: int)
    requires
        repeats(a, k, t, i, j),
    ensures
        0 <= i <= j <= t.len(),
    decreases k,
{
    if k > 0 {
        let m = choose|m: int| #[trigger]
            at(m) && repeats(a, (k - 1) as nat, t, i, m) && matches(a, t, m, j);
        lemma_repeats_within(a, (k - 1) as nat, t, i, m);
    }
}

/// Whether `c` belongs to the class.
pub fn class_holds(class: Class, c: char) -> (r: bool)
    ensures
        r == in_class(class, c),
{
    let letter = ('A' <= c && c <= 'Z') || ('a' <= c && c <= 'z');
    let figure = '0' <= c && c <= '9';
    match class {
        Class::Alpha => letter,
        Class::Digit => figure,
        Class::Alnum => letter || figure,
        Class::Upper => 'A' <= c && c <= 'Z',
        Class::Lower => 'a' <= c && c <= 'z',
        Class::Space => c == ' ' || ('\u{9}' <= c && c <= '\u{d}'),
        Class::Blank => c == ' ' || c == '\u{9}',
        Class::Punct => '!' <= c && c <= '~' && !letter && !figure,
        Class::Print => ' ' <= c && c <= '~',
        Class::Graph => '!' <= c && c <= '~',
        Class::Cntrl => c <= '\u{1f}' || c == '\u{7f}',
        Class::Xdigit => figure || ('A' <= c && c <= 'F') || ('a' <= c && c <= 'f'),
        Class::Word => letter || figure || c == '_',
    }
}

/// Whether `c` is one of the characters of the set.
pub fn set_holds(items: &Items, c: char) -> (r: bool)
    ensures
        r == in_items(*items, c),
    decreases items,
{
    match items {
        Items::Nil => false,
        Items::More(lo, hi, rest) => (*lo <= c && c <= *hi) || set_holds(rest, c),
        Items::Named(class, rest) => class_holds(*class, c) || set_holds(rest, c),
    }
}

/// Whether the place `i` of `text` is of the kind `edge`.
fn edge_holds(edge: Edge, text: &Vec<char>, i: usize) -> (r: bool)
    requires
        i <= text.len(),
    ensures
        r == is_edge(edge, text@, i as int),
{
    let before = i > 0 && class_holds(Class::Word, text[i - 1]);
    let behind = i < text.len() && class_holds(Class::Word, text[i]);
    match edge {
        Edge::Word => before != behind,
        Edge::Inner => before == behind,
        Edge::WordStart => !before && behind,
        Edge::WordEnd => before && !behind,
    }
}

/// As many `false` as `text` has places between and around its characters.
fn blank(text: &Vec<char>) -> (r: Vec<bool>)
    ensures
        r.len() == text.len() + 1,
        forall|j: int| 0 <= j < r.len() ==> !r[j],
{
    let mut r: Vec<bool> = Vec::new();
    let mut j: usize = 0;
    while j < text.len()
        invariant
            j <= text.len(),
            r.len() == j,
            forall|k: int| 0 <= k < r.len() ==> !r[k],
        decreases text.len() - j,
    {
        r.push(false);
        j += 1;
    }
    r.push(false);
    r
}

/// What is set in `a` or in `b`.
fn union(a: &Vec<bool>, b: &Vec<bool>) -> (r: Vec<bool>)
    requires
        a.len() == b.len(),
    ensures
        r.len() == a.len(),
        forall|j: int| 0 <= j < r.len() ==> r[j] == (a[j] || b[j]),
{
    let mut r: Vec<bool> = Vec::new();
    let mut j: usize = 0;
    while j < a.len()
        invariant
            j <= a.len() == b.len(),
            r.len() == j,
            forall|k: int| 0 <= k < j ==> r[k] == (a[k] || b[k]),
        decreases a.len() - j,
    {
        r.push(a[j] || b[j]);
        j += 1;
    }
    r
}

/// The places that one match of the pattern leads to from a place that is set in `from`.
fn step(a: &Regex, text: &Vec<char>, from: &Vec<bool>) -> (r: Vec<bool>)
    requires
        from.len() == text.len() + 1,
    ensures
        r.len() == text.len() + 1,
        forall|j: int|
            0 <= j <= text.len() ==> r[j] == exists|m: int|
                0 <= m <= text.len() && from[m] && #[trigger] matches(*a, text@, m, j),
    decreases a, 1nat,
{
    let mut r = blank(text);
    let mut m: usize = 0;
    while m < from.len()
        invariant
            m <= from.len() == text.len() + 1 == r.len(),
            forall|j: int|
                0 <= j <= text.len() ==> r[j] == exists|p: int|
                    0 <= p < m && from[p] && #[trigger] matches(*a, text@, p, j),
        decreases from.len() - m,
    {
        if from[m] {
            let reached = ends(a, text, m);
            let ghost before = r@;
            r = union(&r, &reached);
            assert forall|j: int| 0 <= j <= text.len() implies r[j] == exists|p: int|
                0 <= p < m + 1 && from[p] && #[trigger] matches(*a, text@, p, j) by {
                if before[j] {
                    let p = choose|p: int|
                        0 <= p < m && from[p] && #[trigger] matches(*a, text@, p, j);
                    assert(0 <= p < m + 1 && from[p] && matches(*a, text@, p, j));
                }
                if reached[j] {
                    assert(0 <= m < m + 1 && from[m as int] && matches(*a, text@, m as int, j));
                }
                if exists|p: int| 0 <= p < m + 1 && from[p] && #[trigger] matches(*a, text@, p, j) {
                    let p = choose|p: int|
                        0 <= p < m + 1 && from[p] && #[trigger] matches(*a, text@, p, j);
                    if p < m {
                        assert(before[j]);
                    } else {
                        assert(reached[j]);
                    }
                }
            }
        } else {
            assert forall|j: int| 0 <= j <= text.len() implies r[j] == exists|p: int|
                0 <= p < m + 1 && from[p] && #[trigger] matches(*a, text@, p, j) by {
                if r[j] {
                    let p = choose|p: int|
                        0 <= p < m && from[p] && #[trigger] matches(*a, text@, p, j);
                    assert(0 <= p < m + 1 && from[p] && matches(*a, text@, p, j));
                }
            }
        }
        m += 1;
    }
    r
}

/// The places where a match of the pattern that begins at `i` can end.
fn ends(re: &Regex, text: &Vec<char>, i: usize) -> (r: Vec<bool>)
    requires
        i <= text.len(),
    ensures
        r.len() == text.len() + 1,
        forall|j: int| 0 <= j <= text.len() ==> r[j] == matches(*re, text@, i as int, j),
    decreases re, 0nat,
{
    let n = text.len();
    let mut r = blank(text);
    match re {
        Regex::Empty => {
            r.set(i, true);
        },
        Regex::Any => {
            if i < n {
                r.set(i + 1, true);
            }
        },
        Regex::Char(c) => {
            if i < n && text[i] == *c {
                r.set(i + 1, true);
            }
        },
        Regex::OneOf(negated, items) => {
            if i < n && set_holds(items, text[i]) != *negated {
                r.set(i + 1, true);
            }
        },
        Regex::Start => {
            if i == 0 {
                r.set(i, true);
            }
        },
        Regex::End => {
            if i == n {
                r.set(i, true);
            }
        },
        Regex::Between(edge) => {
            if edge_holds(*edge, text, i) {
                r.set(i, true);
            }
        },
        Regex::Concat(a, b) => {
            let first = ends(a, text, i);
            r = step(b, text, &first);
            assert forall|j: int| 0 <= j <= text.len() implies r[j] == matches(
                *re,
                text@,
                i as int,
                j,
            ) by {
                if r[j] {
                    let m = choose|m: int|
                        0 <= m <= text.len() && first[m] && #[trigger] matches(**b, text@, m, j);
                    assert(at(m) && matches(**a, text@, i as int, m) && matches(**b, text@, m, j));
                }
                if matches(*re, text@, i as int, j) {
                    let m = choose|m: int| #[trigger]
                        at(m) && matches(**a, text@, i as int, m) && matches(**b, text@, m, j);
                    assert(0 <= m <= text.len() && first[m] && matches(**b, text@, m, j));
                }
            }
        },
        Regex::Alt(a, b) => {
            let one = ends(a, text, i);
            let other = ends(b, text, i);
            r = union(&one, &other);
        },
        Regex::Repeat(a, min, max) => {
            r = ends_repeat(a, *min, *max, text, i);
            assert(*re == Regex::Repeat(Box::new(**a), *min, *max));
        },
    }
    r
}

/// The places where `count` matches in a row that begin at `i` can end, for the counts
/// from `min` up to `max`, or without an upper limit.
fn ends_repeat(a: &Regex, min: u32, max: Option<u32>, text: &Vec<char>, i: usize) -> (r: Vec<
    bool,
>)
    requires
        i <= text.len(),
    ensures
        r.len() == text.len() + 1,
        forall|j: int|
            0 <= j <= text.len() ==> r[j] == matches(
                Regex::Repeat(Box::new(*a), min, max),
                text@,
                i as int,
                j,
            ),
    decreases a, 2nat,
{
    let ghost t = text@;
    let mut cur = blank(text);
    cur.set(i, true);
    let mut k: u32 = 0;
    while k < min
        invariant
            k <= min,
            i <= text.len(),
            t == text@,
            cur.len() == text.len() + 1,
            forall|j: int| 0 <= j <= text.len() ==> cur[j] == repeats(*a, k as nat, t, i as int, j),
        decreases min - k,
    {
        let next = step(a, text, &cur);
        proof {
            assert forall|j: int| 0 <= j <= text.len() implies next[j] == repeats(
                *a,
                (k + 1) as nat,
                t,
                i as int,
                j,
            ) by {
                lemma_repeats_step(*a, k as nat, t, i as int, j, cur@);
            }
        }
        cur = next;
        k += 1;
    }
    match max {
        Some(most) => {
            let mut acc = blank(text);
            if most < min {
                proof {
                    assert forall|j: int| 0 <= j <= text.len() implies !matches(
                        Regex::Repeat(Box::new(*a), min, max),
                        t,
                        i as int,
                        j,
                    ) by {}
                }
                return acc;
            }
            acc = union(&acc, &cur);
            proof {
                assert forall|j: int| 0 <= j <= text.len() implies acc[j] == exists|c: nat|
                    min <= c <= k && #[trigger] repeats(*a, c, t, i as int, j) by {}
            }
            while k < most
                invariant
                    min <= k <= most,
                    i <= text.len(),
                    t == text@,
                    cur.len() == text.len() + 1,
                    acc.len() == text.len() + 1,
                    forall|j: int|
                        0 <= j <= text.len() ==> cur[j] == repeats(*a, k as nat, t, i as int, j),
                    forall|j: int|
                        0 <= j <= text.len() ==> acc[j] == exists|c: nat|
                            min <= c <= k && #[trigger] repeats(*a, c, t, i as int, j),
                decreases most - k,
            {
                let next = step(a, text, &cur);
                let ghost before = acc@;
                proof {
                    assert forall|j: int| 0 <= j <= text.len() implies next[j] == repeats(
                        *a,
                        (k + 1) as nat,
                        t,
                        i as int,
                        j,
                    ) by {
                        lemma_repeats_step(*a, k as nat, t, i as int, j, cur@);
                    }
                }
                acc = union(&acc, &next);
                proof {
                    assert forall|j: int| 0 <= j <= text.len() implies acc[j] == exists|c: nat|
                        min <= c <= k + 1 && #[trigger] repeats(*a, c, t, i as int, j) by {
                        if before[j] {
                            let c = choose|c: nat|
                                min <= c <= k && #[trigger] repeats(*a, c, t, i as int, j);
                            assert(min <= c <= k + 1 && repeats(*a, c, t, i as int, j));
                        }
                        if next[j] {
                            assert(repeats(*a, (k + 1) as nat, t, i as int, j));
                        }
                        if exists|c: nat|
                            min <= c <= k + 1 && #[trigger] repeats(*a, c, t, i as int, j) {
                            let c = choose|c: nat|
                                min <= c <= k + 1 && #[trigger] repeats(*a, c, t, i as int, j);
                            if c <= k {
                                assert(before[j]);
                            } else {
                                assert(next[j]);
                            }
                        }
                    }
                }
                cur = next;
                k += 1;
            }
            proof {
                assert forall|j: int| 0 <= j <= text.len() implies acc[j] == matches(
                    Regex::Repeat(Box::new(*a), min, max),
                    t,
                    i as int,
                    j,
                ) by {
                    if acc[j] {
                        let c = choose|c: nat|
                            min <= c <= k && #[trigger] repeats(*a, c, t, i as int, j);
                        lemma_repeats_within(*a, c, t, i as int, j);
                        assert(at(c as int));
                    }
                    if matches(Regex::Repeat(Box::new(*a), min, max), t, i as int, j) {
                        let c = choose|c: int| #[trigger]
                            at(c) && min <= c && (max is Some ==> c <= max->0) && repeats(
                                *a,
                                c as nat,
                                t,
                                i as int,
                                j,
                            );
                        assert(min <= c as nat <= k && repeats(*a, c as nat, t, i as int, j));
                    }
                }
            }
            acc
        },
        None => {
            let mut acc = cur;
            let mut p: usize = 0;
            while p <= text.len()
                invariant
                    p <= text.len() + 1,
                    i <= text.len(),
                    t == text@,
                    acc.len() == text.len() + 1,
                    forall|j: int|
                        0 <= j <= text.len() && acc[j] ==> exists|c: nat|
                            min <= c && #[trigger] repeats(*a, c, t, i as int, j),
                    forall|j: int|
                        0 <= j <= text.len() && repeats(*a, min as nat, t, i as int, j) ==> acc[j],
                    forall|m: int, j: int|
                        0 <= m < p && acc[m] && #[trigger] matches(*a, t, m, j) ==> acc[j],
                decreases text.len() + 1 - p,
            {
                if acc[p] {
                    let reached = ends(a, text, p);
                    let ghost before = acc@;
                    acc = union(&acc, &reached);
                    proof {
                        let c = choose|c: nat|
                            min <= c && #[trigger] repeats(*a, c, t, i as int, p as int);
                        assert forall|j: int| 0 <= j <= text.len() && acc[j] implies exists|
                            c2: nat,
                        |
                            min <= c2 && #[trigger] repeats(*a, c2, t, i as int, j) by {
                            if !before[j] {
                                assert(at(p as int) && repeats(*a, c, t, i as int, p as int)
                                    && matches(*a, t, p as int, j));
                                assert(repeats(*a, c + 1, t, i as int, j));
                            }
                        }
                        assert forall|m: int, j: int|
                            0 <= m < p + 1 && acc[m] && #[trigger] matches(
                                *a,
                                t,
                                m,
                                j,
                            ) implies acc[j] by {
                            if m < p {
                                assert(before[m]);
                            }
                        }
                    }
                }
                p += 1;
            }
            proof {
                assert forall|j: int| 0 <= j <= text.len() implies acc[j] == matches(
                    Regex::Repeat(Box::new(*a), min, max),
                    t,
                    i as int,
                    j,
                ) by {
                    if acc[j] {
                        let c = choose|c: nat|
                            min <= c && #[trigger] repeats(*a, c, t, i as int, j);
                        lemma_repeats_within(*a, c, t, i as int, j);
                        assert(at(c as int));
                    }
                    if matches(Regex::Repeat(Box::new(*a), min, max), t, i as int, j) {
                        let c = choose|c: int| #[trigger]
                            at(c) && min <= c && (max is Some ==> c <= max->0) && repeats(
                                *a,
                                c as nat,
                                t,
                                i as int,
                                j,
                            );
                        lemma_closed(*a, t, i as int, min as nat, acc@, c as nat, j);
                    }
                }
            }
            acc
        },
    }
}

/// One more match after `k` in a row makes `k + 1` in a row.
proof fn lemma_repeats_step(a: Regex, k: nat, t: Seq<char>, i: int, j: int, cur: Seq<bool>)
    requires
        cur.len() == t.len() + 1,
        0 <= j <= t.len(),
        forall|m: int| 0 <= m <= t.len() ==> cur[m] == repeats(a, k, t, i, m),
    ensures
        repeats(a, k + 1, t, i, j) == exists|m: int|
            0 <= m <= t.len() && cur[m] && #[trigger] matches(a, t, m, j),
{
    if repeats(a, k + 1, t, i, j) {
        let m = choose|m: int| #[trigger]
            at(m) && repeats(a, ((k + 1) - 1) as nat, t, i, m) && matches(a, t, m, j);
        lemma_repeats_within(a, k, t, i, m);
        assert(0 <= m <= t.len() && cur[m] && matches(a, t, m, j));
    }
    if exists|m: int| 0 <= m <= t.len() && cur[m] && #[trigger] matches(a, t, m, j) {
        let m = choose|m: int| 0 <= m <= t.len() && cur[m] && #[trigger] matches(a, t, m, j);
        assert(at(m) && repeats(a, ((k + 1) - 1) as nat, t, i, m) && matches(a, t, m, j));
    }
}

/// A set of places that holds what `min` matches in a row reach, and with each place what
/// one more match reaches from it, holds what any greater number of matches reaches.
proof fn lemma_closed(a: Regex, t: Seq<char>, i: int, min: nat, acc: Seq<bool>, c: nat, j: int)
    requires
        acc.len() == t.len() + 1,
        min <= c,
        repeats(a, c, t, i, j),
        forall|j: int| 0 <= j <= t.len() && repeats(a, min, t, i, j) ==> acc[j],
        forall|m: int, j: int| 0 <= m <= t.len() && acc[m] && #[trigger] matches(a, t, m, j) ==> acc[j],
    ensures
        0 <= j <= t.len() && acc[j],
    decreases c,
{
    lemma_repeats_within(a, c, t, i, j);
    if c > min {
        let m = choose|m: int| #[trigger]
            at(m) && repeats(a, (c - 1) as nat, t, i, m) && matches(a, t, m, j);
        lemma_closed(a, t, i, min, acc, (c - 1) as nat, m);
    }
}

impl Regex {
    /// Whether the pattern matches some stretch of `name`.
    pub fn matches(&self, name: &str) -> (r: bool)
        ensures
            r == found_in(*self, name@),
    {
        let text = to_chars(name);
        let mut i: usize = 0;
        while i <= text.len()
            invariant
                i <= text.len() + 1,
                text@ == name@,
                forall|p: int, j: int| 0 <= p < i ==> !#[trigger] matches(*self, text@, p, j),
            decreases text.len() + 1 - i,
        {
            let reached = ends(self, &text, i);
            let mut j: usize = 0;
            while j <= text.len()
                invariant
                    j <= text.len() + 1,
                    i <= text.len(),
                    text@ == name@,
                    reached.len() == text.len() + 1,
                    forall|q: int|
                        0 <= q <= text.len() ==> reached[q] == matches(
                            *self,
                            text@,
                            i as int,
                            q,
                        ),
                    forall|q: int| 0 <= q < j ==> !reached[q],
                decreases text.len() + 1 - j,
            {
                if reached[j] {
                    assert(matches(*self, text@, i as int, j as int));
                    return true;
                }
                j += 1;
            }
            assert forall|q: int| !matches(*self, text@, i as int, q) by {
                if 0 <= q <= text.len() {
                    assert(!reached[q]);
                }
            }
            i += 1;
        }
        assert forall|p: int, j: int| !#[trigger] matches(*self, text@, p, j) by {
            if 0 <= p <= text.len() {
            }
        }
        false
    }
}

/// The greatest number that a count may name.
pub const COUNT_MAX: u32 = 32767;

/// The number that `x` writes in a count: one or more digits whose value is at most
/// `COUNT_MAX`.
pub open spec fn number(x: Seq<char>) -> Option<u32> {
    if x.len() > 0 && x[0] != '+' && parsed_u32(x) is Some && parsed_u32(x)->0 <= COUNT_MAX {
        parsed_u32(x)
    } else {
        None
    }
}

/// The lower limit that `x` writes: its number, or 0 if it is empty.
pub open spec fn lower_limit(x: Seq<char>) -> Option<u32> {
    if x.len() == 0 {
        Some(0u32)
    } else {
        number(x)
    }
}

/// What a count in braces says: `{m}` exactly `m` times, `{m,}` at least `m` times,
/// `{m,n}` from `m` to `n` times, where `m <= n`; a missing `m` before the comma is 0.
pub open spec fn limits(inner: Seq<char>) -> Option<(u32, Option<u32>)> {
    let comma = position_of(inner, ',') as int;
    if comma == inner.len() {
        match number(inner) {
            Some(m) => Some((m, Some(m))),
            None => None,
        }
    } else {
        match lower_limit(inner.take(comma)) {
            None => None,
            Some(m) => if comma + 1 == inner.len() {
                Some((m, None))
            } else {
                match number(inner.skip(comma + 1)) {
                    Some(n) => if m <= n {
                        Some((m, Some(n)))
                    } else {
                        None
                    },
                    None => None,
                }
            },
        }
    }
}

/// The count in braces that begins at `p`, where `s` holds a `{`, and the place after it; or
/// nothing, if what follows up to the next `}` writes no count.
pub open spec fn interval(s: Seq<char>, p: int) -> Option<(u32, Option<u32>, int)> {
    let rest = s.skip(p + 1);
    let close = position_of(rest, '}') as int;
    if close < rest.len() {
        match limits(rest.take(close)) {
            Some((min, max)) => Some((min, max, p + close + 2)),
            None => None,
        }
    } else {
        None
    }
}

/// `a` with the counts that stand in `s` at `p`, and the place after them.
pub open spec fn counted(s: Seq<char>, a: Regex, p: int) -> (Regex, int)
    decreases s.len() - p,
{
    if 0 <= p < s.len() {
        if s[p] == '*' {
            counted(s, Regex::Repeat(Box::new(a), 0, None), p + 1)
        } else if s[p] == '+' {
            counted(s, Regex::Repeat(Box::new(a), 1, None), p + 1)
        } else if s[p] == '?' {
            counted(s, Regex::Repeat(Box::new(a), 0, Some(1u32)), p + 1)
        } else if s[p] == '{' {
            match interval(s, p) {
                Some((min, max, q)) => if p < q <= s.len() {
                    counted(s, Regex::Repeat(Box::new(a), min, max), q)
                } else {
                    (a, p)
                },
                None => (a, p),
            }
        } else {
            (a, p)
        }
    } else {
        (a, p)
    }
}

/// The class that has this name.
pub open spec fn class_named(name: Seq<char>) -> Option<Class> {
    if name == "alpha"@ {
        Some(Class::Alpha)
    } else if name == "digit"@ {
        Some(Class::Digit)
    } else if name == "alnum"@ {
        Some(Class::Alnum)
    } else if name == "upper"@ {
        Some(Class::Upper)
    } else if name == "lower"@ {
        Some(Class::Lower)
    } else if name == "space"@ {
        Some(Class::Space)
    } else if name == "blank"@ {
        Some(Class::Blank)
    } else if name == "punct"@ {
        Some(Class::Punct)
    } else if name == "print"@ {
        Some(Class::Print)
    } else if name == "graph"@ {
        Some(Class::Graph)
    } else if name == "cntrl"@ {
        Some(Class::Cntrl)
    } else if name == "xdigit"@ {
        Some(Class::Xdigit)
    } else {
        None
    }
}

/// The characters of the set whose text goes on at `p`, and the place after its `]`. A
/// `]` that is the set's first character stands for itself; `[:name:]` is the class of
/// that name; `a-z` is a range unless the `-` is the last character before the `]`.
/// Nothing, if no `]` closes the set, or a `[:` is not followed by a known name and `:]`.
pub open spec fn set_items(s: Seq<char>, p: int, first: bool) -> Option<(Items, int)>
    decreases s.len() - p,
{
    if p < 0 || p >= s.len() {
        None
    } else if s[p] == ']' && !first {
        Some((Items::Nil, p + 1))
    } else if s[p] == '[' && p + 1 < s.len() && s[p + 1] == ':' {
        let q = p + 2 + position_of(s.skip(p + 2), ':');
        if q + 1 < s.len() && s[q + 1] == ']' {
            match class_named(s.subrange(p + 2, q)) {
                Some(class) => match set_items(s, q + 2, false) {
                    Some((rest, end)) => Some((Items::Named(class, Box::new(rest)), end)),
                    None => None,
                },
                None => None,
            }
        } else {
            None
        }
    } else if p + 2 < s.len() && s[p + 1] == '-' && s[p + 2] != ']' {
        match set_items(s, p + 3, false) {
            Some((rest, q)) => Some((Items::More(s[p], s[p + 2], Box::new(rest)), q)),
            None => None,
        }
    } else {
        match set_items(s, p + 1, false) {
            Some((rest, q)) => Some((Items::More(s[p], s[p], Box::new(rest)), q)),
            None => None,
        }
    }
}

/// The pattern that begins at `pos` and goes up to a `)` or the end: branches separated by
/// `|`. With it, the place where it ends.
pub open spec fn parse_alt(s: Seq<char>, pos: int) -> Option<(Regex, int)>
    decreases s.len() - pos, 3nat,
{
    if pos < 0 || pos > s.len() {
        None
    } else {
        match parse_concat(s, pos) {
            None => None,
            Some((left, p)) => if pos <= p < s.len() && s[p] == '|' {
                match parse_alt(s, p + 1) {
                    None => None,
                    Some((right, q)) => Some((Regex::Alt(Box::new(left), Box::new(right)), q)),
                }
            } else {
                Some((left, p))
            },
        }
    }
}

/// The branch that begins at `pos` and goes up to a `|`, a `)` or the end: items with
/// their counts, in a row.
pub open spec fn parse_concat(s: Seq<char>, pos: int) -> Option<(Regex, int)>
    decreases s.len() - pos, 2nat,
{
    if pos < 0 || pos > s.len() {
        None
    } else if pos == s.len() || s[pos] == '|' || s[pos] == ')' {
        Some((Regex::Empty, pos))
    } else {
        match parse_piece(s, pos) {
            None => None,
            Some((first, p)) => if pos < p <= s.len() {
                match parse_concat(s, p) {
                    None => None,
                    Some((rest, q)) => Some((Regex::Concat(Box::new(first), Box::new(rest)), q)),
                }
            } else {
                None
            },
        }
    }
}

/// The item at `pos` with the counts behind it.
pub open spec fn parse_piece(s: Seq<char>, pos: int) -> Option<(Regex, int)>
    decreases s.len() - pos, 1nat,
{
    if pos < 0 || pos >= s.len() {
        None
    } else {
        match parse_atom(s, pos) {
            None => None,
            Some((a, p)) => Some(counted(s, a, p)),
        }
    }
}

/// The set that holds the class alone, or all but the class.
pub open spec fn class_alone(class: Class, negated: bool) -> Regex {
    Regex::OneOf(negated, Items::Named(class, Box::new(Items::Nil)))
}

/// What a backslash and `c` stand for: `\w` and `\s` for a letter, digit or `_` and for
/// white space, `\W` and `\S` for any other character, `\b`, `\B`, `\<` and `\>` for a
/// place, any other character but a digit from 1 to 9 for itself. A backslash and such a
/// digit, which would refer back to a group, is no pattern.
pub open spec fn escaped(c: char) -> Option<Regex> {
    if '1' <= c <= '9' {
        None
    } else if c == 'w' {
        Some(class_alone(Class::Word, false))
    } else if c == 'W' {
        Some(class_alone(Class::Word, true))
    } else if c == 's' {
        Some(class_alone(Class::Space, false))
    } else if c == 'S' {
        Some(class_alone(Class::Space, true))
    } else if c == 'b' {
        Some(Regex::Between(Edge::Word))
    } else if c == 'B' {
        Some(Regex::Between(Edge::Inner))
    } else if c == '<' {
        Some(Regex::Between(Edge::WordStart))
    } else if c == '>' {
        Some(Regex::Between(Edge::WordEnd))
    } else {
        Some(Regex::Char(c))
    }
}

/// The item at `pos`.
pub open spec fn parse_atom(s: Seq<char>, pos: int) -> Option<(Regex, int)>
    decreases s.len() - pos, 0nat,
{
    if pos < 0 || pos >= s.len() {
        None
    } else if s[pos] == '(' {
        match parse_alt(s, pos + 1) {
            Some((inner, p)) => if 0 <= p < s.len() && s[p] == ')' {
                Some((inner, p + 1))
            } else {
                None
            },
            None => None,
        }
    } else if s[pos] == '[' {
        let negated = pos + 1 < s.len() && s[pos + 1] == '^';
        let from = if negated {
            pos + 2
        } else {
            pos + 1
        };
        match set_items(s, from, true) {
            Some((items, p)) => Some((Regex::OneOf(negated, items), p)),
            None => None,
        }
    } else if s[pos] == '.' {
        Some((Regex::Any, pos + 1))
    } else if s[pos] == '^' {
        Some((Regex::Start, pos + 1))
    } else if s[pos] == '$' {
        Some((Regex::End, pos + 1))
    } else if s[pos] == '\\' && pos + 1 < s.len() {
        match escaped(s[pos + 1]) {
            Some(re) => Some((re, pos + 2)),
            None => None,
        }
    } else {
        Some((Regex::Char(s[pos]), pos + 1))
    }
}

/// The pattern that `s` writes, if it writes one.
pub open spec fn parsed(s: Seq<char>) -> Option<Regex> {
    match parse_alt(s, 0) {
        Some((re, p)) => if p == s.len() {
            Some(re)
        } else {
            None
        },
        None => None,
    }
}

/// The number that `x` writes in a count.
fn read_number(x: &Vec<char>) -> (r: Option<u32>)
    ensures
        r == number(x@),
{
    if x.len() > 0 && x[0] != '+' {
        match parse_u32(x) {
            Some(n) => if n <= COUNT_MAX {
                Some(n)
            } else {
                None
            },
            None => None,
        }
    } else {
        None
    }
}

/// The lower limit that `x` writes.
fn read_lower_limit(x: &Vec<char>) -> (r: Option<u32>)
    ensures
        r == lower_limit(x@),
{
    if x.len() == 0 {
        Some(0)
    } else {
        read_number(x)
    }
}

/// What the text between the braces of a count says.
fn read_limits(inner: &Vec<char>) -> (r: Option<(u32, Option<u32>)>)
    ensures
        r == limits(inner@),
{
    let comma = find_char(inner, 0, ',');
    proof {
        assert(inner@.skip(0) =~= inner@);
    }
    if comma == inner.len() {
        match read_number(inner) {
            Some(m) => Some((m, Some(m))),
            None => None,
        }
    } else {
        let left = slice(inner, 0, comma);
        assert(left@ =~= inner@.take(comma as int));
        match read_lower_limit(&left) {
            None => None,
            Some(m) => {
                if comma + 1 == inner.len() {
                    Some((m, None))
                } else {
                    let right = slice(inner, comma + 1, inner.len());
                    assert(right@ =~= inner@.skip(comma + 1));
                    match read_number(&right) {
                        Some(n) => if m <= n {
                            Some((m, Some(n)))
                        } else {
                            None
                        },
                        None => None,
                    }
                }
            },
        }
    }
}

/// The count in braces that begins at `p`.
fn read_interval(chars: &Vec<char>, p: usize) -> (r: Option<(u32, Option<u32>, usize)>)
    requires
        p < chars.len(),
    ensures
        match r {
            Some((min, max, q)) => interval(chars@, p as int) == Some((min, max, q as int)) && p
                < q <= chars.len(),
            None => interval(chars@, p as int) is None,
        },
{
    let close = find_char(chars, p + 1, '}');
    if close == chars.len() {
        return None;
    }
    let inner = slice(chars, p + 1, close);
    proof {
        let rest = chars@.skip(p + 1);
        assert(inner@ =~= rest.take(close - p - 1));
    }
    match read_limits(&inner) {
        Some((min, max)) => Some((min, max, close + 1)),
        None => None,
    }
}

/// `a` with the counts that stand at `p`.
fn read_counts(chars: &Vec<char>, a: Regex, p: usize) -> (r: (Regex, usize))
    ensures
        (r.0, r.1 as int) == counted(chars@, a, p as int),
        p <= chars.len() ==> p <= r.1 <= chars.len(),
    decreases chars.len() - p,
{
    if p < chars.len() {
        let c = chars[p];
        if c == '*' {
            read_counts(chars, Regex::Repeat(Box::new(a), 0, None), p + 1)
        } else if c == '+' {
            read_counts(chars, Regex::Repeat(Box::new(a), 1, None), p + 1)
        } else if c == '?' {
            read_counts(chars, Regex::Repeat(Box::new(a), 0, Some(1u32)), p + 1)
        } else if c == '{' {
            match read_interval(chars, p) {
                Some((min, max, q)) => read_counts(chars, Regex::Repeat(Box::new(a), min, max), q),
                None => (a, p),
            }
        } else {
            (a, p)
        }
    } else {
        (a, p)
    }
}

/// The class that has this name.
fn read_class(name: &Vec<char>) -> (r: Option<Class>)
    ensures
        r == class_named(name@),
{
    if same(name, &to_chars("alpha")) {
        Some(Class::Alpha)
    } else if same(name, &to_chars("digit")) {
        Some(Class::Digit)
    } else if same(name, &to_chars("alnum")) {
        Some(Class::Alnum)
    } else if same(name, &to_chars("upper")) {
        Some(Class::Upper)
    } else if same(name, &to_chars("lower")) {
        Some(Class::Lower)
    } else if same(name, &to_chars("space")) {
        Some(Class::Space)
    } else if same(name, &to_chars("blank")) {
        Some(Class::Blank)
    } else if same(name, &to_chars("punct")) {
        Some(Class::Punct)
    } else if same(name, &to_chars("print")) {
        Some(Class::Print)
    } else if same(name, &to_chars("graph")) {
        Some(Class::Graph)
    } else if same(name, &to_chars("cntrl")) {
        Some(Class::Cntrl)
    } else if same(name, &to_chars("xdigit")) {
        Some(Class::Xdigit)
    } else {
        None
    }
}

/// The characters of the set whose text goes on at `p`.
fn read_items(chars: &Vec<char>, p: usize, first: bool) -> (r: Option<(Items, usize)>)
    ensures
        match r {
            Some((items, q)) => set_items(chars@, p as int, first) == Some((items, q as int)) && p
                < q <= chars.len(),
            None => set_items(chars@, p as int, first) is None,
        },
    decreases chars.len() - p,
{
    let n = chars.len();
    if p >= n {
        None
    } else if chars[p] == ']' && !first {
        Some((Items::Nil, p + 1))
    } else if chars[p] == '[' && n - p > 1 && chars[p + 1] == ':' {
        let q = find_char(chars, p + 2, ':');
        if n - q > 1 && chars[q + 1] == ']' {
            let name = slice(chars, p + 2, q);
            match read_class(&name) {
                Some(class) => match read_items(chars, q + 2, false) {
                    Some((rest, end)) => Some((Items::Named(class, Box::new(rest)), end)),
                    None => None,
                },
                None => None,
            }
        } else {
            None
        }
    } else if n - p > 2 && chars[p + 1] == '-' && chars[p + 2] != ']' {
        match read_items(chars, p + 3, false) {
            Some((rest, q)) => Some((Items::More(chars[p], chars[p + 2], Box::new(rest)), q)),
            None => None,
        }
    } else {
        match read_items(chars, p + 1, false) {
            Some((rest, q)) => Some((Items::More(chars[p], chars[p], Box::new(rest)), q)),
            None => None,
        }
    }
}

/// The pattern that begins at `pos`.
fn read_alt(chars: &Vec<char>, pos: usize) -> (r: Option<(Regex, usize)>)
    requires
        pos <= chars.len(),
    ensures
        match r {
            Some((re, q)) => parse_alt(chars@, pos as int) == Some((re, q as int)) && pos <= q
                <= chars.len(),
            None => parse_alt(chars@, pos as int) is None,
        },
    decreases chars.len() - pos, 3nat,
{
    match read_concat(chars, pos) {
        None => None,
        Some((left, p)) => {
            if p < chars.len() && chars[p] == '|' {
                match read_alt(chars, p + 1) {
                    None => None,
                    Some((right, q)) => Some((Regex::Alt(Box::new(left), Box::new(right)), q)),
                }
            } else {
                Some((left, p))
            }
        },
    }
}

/// The branch that begins at `pos`.
fn read_concat(chars: &Vec<char>, pos: usize) -> (r: Option<(Regex, usize)>)
    requires
        pos <= chars.len(),
    ensures
        match r {
            Some((re, q)) => parse_concat(chars@, pos as int) == Some((re, q as int)) && pos <= q
                <= chars.len(),
            None => parse_concat(chars@, pos as int) is None,
        },
    decreases chars.len() - pos, 2nat,
{
    if pos == chars.len() || chars[pos] == '|' || chars[pos] == ')' {
        Some((Regex::Empty, pos))
    } else {
        match read_piece(chars, pos) {
            None => None,
            Some((first, p)) => {
                match read_concat(chars, p) {
                    None => None,
                    Some((rest, q)) => Some(
                        (Regex::Concat(Box::new(first), Box::new(rest)), q),
                    ),
                }
            },
        }
    }
}

/// The item at `pos` with the counts behind it.
fn read_piece(chars: &Vec<char>, pos: usize) -> (r: Option<(Regex, usize)>)
    requires
        pos < chars.len(),
    ensures
        match r {
            Some((re, q)) => parse_piece(chars@, pos as int) == Some((re, q as int)) && pos < q
                <= chars.len(),
            None => parse_piece(chars@, pos as int) is None,
        },
    decreases chars.len() - pos, 1nat,
{
    match read_atom(chars, pos) {
        None => None,
        Some((a, p)) => Some(read_counts(chars, a, p)),
    }
}

/// What a backslash and `c` stand for.
fn read_escaped(c: char) -> (r: Option<Regex>)
    ensures
        r == escaped(c),
{
    if '1' <= c && c <= '9' {
        None
    } else if c == 'w' {
        Some(Regex::OneOf(false, Items::Named(Class::Word, Box::new(Items::Nil))))
    } else if c == 'W' {
        Some(Regex::OneOf(true, Items::Named(Class::Word, Box::new(Items::Nil))))
    } else if c == 's' {
        Some(Regex::OneOf(false, Items::Named(Class::Space, Box::new(Items::Nil))))
    } else if c == 'S' {
        Some(Regex::OneOf(true, Items::Named(Class::Space, Box::new(Items::Nil))))
    } else if c == 'b' {
        Some(Regex::Between(Edge::Word))
    } else if c == 'B' {
        Some(Regex::Between(Edge::Inner))
    } else if c == '<' {
        Some(Regex::Between(Edge::WordStart))
    } else if c == '>' {
        Some(Regex::Between(Edge::WordEnd))
    } else {
        Some(Regex::Char(c))
    }
}

/// The item at `pos`.
fn read_atom(chars: &Vec<char>, pos: usize) -> (r: Option<(Regex, usize)>)
    requires
        pos < chars.len(),
    ensures
        match r {
            Some((re, q)) => parse_atom(chars@, pos as int) == Some((re, q as int)) && pos < q
                <= chars.len(),
            None => parse_atom(chars@, pos as int) is None,
        },
    decreases chars.len() - pos, 0nat,
{
    let n = chars.len();
    let c = chars[pos];
    if c == '(' {
        match read_alt(chars, pos + 1) {
            Some((inner, p)) => {
                if p < n && chars[p] == ')' {
                    Some((inner, p + 1))
                } else {
                    None
                }
            },
            None => None,
        }
    } else if c == '[' {
        let negated = n - pos > 1 && chars[pos + 1] == '^';
        let from = if negated {
            pos + 2
        } else {
            pos + 1
        };
        match read_items(chars, from, true) {
            Some((items, p)) => Some((Regex::OneOf(negated, items), p)),
            None => None,
        }
    } else if c == '.' {
        Some((Regex::Any, pos + 1))
    } else if c == '^' {
        Some((Regex::Start, pos + 1))
    } else if c == '$' {
        Some((Regex::End, pos + 1))
    } else if c == '\\' && n - pos > 1 {
        match read_escaped(chars[pos + 1]) {
            Some(re) => Some((re, pos + 2)),
            None => None,
        }
    } else {
        Some((Regex::Char(c), pos + 1))
    }
}

impl Regex {
    /// The pattern that `text` writes, if it writes one.
    pub fn parse(text: &str) -> (r: Option<Regex>)
        ensures
            r == parsed(text@),
    {
        let chars = to_chars(text);
        match read_alt(&chars, 0) {
            Some((re, p)) => {
                if p == chars.len() {
                    Some(re)
                } else {
                    None
                }
            },
            None => None,
        }
    }
}

/// Whether `c` has no meaning of its own in a pattern, so that it stands for itself
/// wherever it is written: any character but `( ) [ . ^ $ \ | * + ? {`.
pub open spec fn is_plain(c: char) -> bool {
    c != '(' && c != ')' && c != '[' && c != '.' && c != '^' && c != '$' && c != '\\' && c != '|'
        && c != '*' && c != '+' && c != '?' && c != '{'
}

/// Whether every character of `f` is plain.
pub open spec fn all_plain(f: Seq<char>) -> bool {
    forall|k: int| 0 <= k < f.len() ==> is_plain(#[trigger] f[k])
}

/// Any number of characters, whatever they are: what `.*` writes.
pub open spec fn anything() -> Regex {
    Regex::Repeat(Box::new(Regex::Any), 0, None)
}

/// The characters of `f` in a row, each for itself, and `then` behind them.
pub open spec fn literal(f: Seq<char>, then: Regex) -> Regex
    decreases f.len(),
{
    if f.len() == 0 {
        then
    } else {
        Regex::Concat(Box::new(Regex::Char(f[0])), Box::new(literal(f.skip(1), then)))
    }
}

/// The tree of `.*`, the characters of `f`, and `.*` again.
pub open spec fn wrapped(f: Seq<char>) -> Regex {
    Regex::Concat(
        Box::new(anything()),
        Box::new(literal(f, Regex::Concat(Box::new(anything()), Box::new(Regex::Empty)))),
    )
}

/// `k` characters in a row are `k` matches of "any character".
proof fn lemma_any_run(t: Seq<char>, i: int, k: nat)
    requires
        0 <= i,
        i + k <= t.len(),
    ensures
        repeats(Regex::Any, k, t, i, i + k),
    decreases k,
{
    if k > 0 {
        lemma_any_run(t, i, (k - 1) as nat);
        assert(at(i + k - 1) && repeats(Regex::Any, (k - 1) as nat, t, i, i + k - 1) && matches(
            Regex::Any,
            t,
            i + k - 1,
            i + k,
        ));
    }
}

/// `.*` matches every stretch.
proof fn lemma_anything(t: Seq<char>, i: int, j: int)
    ensures
        matches(anything(), t, i, j) == (0 <= i <= j <= t.len()),
{
    if 0 <= i <= j <= t.len() {
        lemma_any_run(t, i, (j - i) as nat);
        assert(at(j - i));
    }
}

/// `.*` at the end of a pattern matches every stretch.
proof fn lemma_anything_at_end(t: Seq<char>, i: int, j: int)
    ensures
        matches(Regex::Concat(Box::new(anything()), Box::new(Regex::Empty)), t, i, j) == (0 <= i
            <= j <= t.len()),
{
    if 0 <= i <= j <= t.len() {
        lemma_anything(t, i, j);
        assert(at(j) && matches(anything(), t, i, j) && matches(Regex::Empty, t, j, j));
    }
}

/// Plain characters and `.*` behind them match a stretch just where the stretch begins with
/// these characters.
proof fn lemma_literal(f: Seq<char>, t: Seq<char>, i: int, j: int)
    ensures
        matches(
            literal(f, Regex::Concat(Box::new(anything()), Box::new(Regex::Empty))),
            t,
            i,
            j,
        ) == (occurs_at(t, f, i) && i + f.len() <= j <= t.len()),
    decreases f.len(),
{
    let then = Regex::Concat(Box::new(anything()), Box::new(Regex::Empty));
    if f.len() == 0 {
        lemma_anything_at_end(t, i, j);
        if 0 <= i <= t.len() {
            assert(t.subrange(i, i + 0) =~= f);
        }
    } else {
        let rest = f.skip(1);
        lemma_literal(rest, t, i + 1, j);
        let first = Regex::Char(f[0]);
        let more = literal(rest, then);
        assert(literal(f, then) == Regex::Concat(Box::new(first), Box::new(more)));
        if occurs_at(t, f, i) && i + f.len() <= j <= t.len() {
            assert(t.subrange(i, i + f.len())[0] == f[0]);
            assert(t.subrange(i + 1, i + 1 + rest.len()) =~= t.subrange(i, i + f.len()).skip(1));
            assert(occurs_at(t, rest, i + 1));
            assert(matches(first, t, i, i + 1));
            assert(at(i + 1) && matches(first, t, i, i + 1) && matches(more, t, i + 1, j));
        }
        if matches(literal(f, then), t, i, j) {
            let m = choose|m: int| #[trigger] at(m) && matches(first, t, i, m) && matches(more, t, m, j);
            assert(m == i + 1 && t[i] == f[0]);
            assert(occurs_at(t, rest, i + 1));
            assert(t.subrange(i, i + f.len()) =~= seq![f[0]] + t.subrange(i + 1, i + 1 + rest.len()));
            assert(f =~= seq![f[0]] + rest);
        }
    }
}

/// `.*`, plain characters and `.*` match a name just where the characters stand in it.
pub proof fn lemma_wrapped(f: Seq<char>, t: Seq<char>)
    ensures
        found_in(wrapped(f), t) == occurs_in(t, f),
{
    let then = Regex::Concat(Box::new(anything()), Box::new(Regex::Empty));
    let body = literal(f, then);
    if found_in(wrapped(f), t) {
        let (i, j) = choose|i: int, j: int| #[trigger] matches(wrapped(f), t, i, j);
        let m = choose|m: int| #[trigger] at(m) && matches(anything(), t, i, m) && matches(body, t, m, j);
        lemma_literal(f, t, m, j);
        assert(occurs_at(t, f, m));
    }
    if occurs_in(t, f) {
        let m = choose|m: int| occurs_at(t, f, m);
        lemma_literal(f, t, m, t.len() as int);
        lemma_anything(t, m, m);
        assert(at(m) && matches(anything(), t, m, m) && matches(body, t, m, t.len() as int));
        assert(matches(wrapped(f), t, m, t.len() as int));
    }
}

/// The text that wraps `f`: `.*`, then `f`, then `.*`.
pub open spec fn wrapping(f: Seq<char>) -> Seq<char> {
    ".*"@ + f + ".*"@
}

/// What the wrapping text holds at each place.
proof fn lemma_wrapping(f: Seq<char>)
    ensures
        wrapping(f).len() == f.len() + 4,
        wrapping(f)[0] == '.',
        wrapping(f)[1] == '*',
        forall|k: int| 0 <= k < f.len() ==> #[trigger] wrapping(f)[k + 2] == f[k],
        wrapping(f)[f.len() as int + 2] == '.',
        wrapping(f)[f.len() as int + 3] == '*',
{
    reveal_strlit(".*");
    let dots = ".*"@;
    assert(dots.len() == 2 && dots[0] == '.' && dots[1] == '*');
    let s = wrapping(f);
    assert(s.len() == f.len() + 4);
    assert forall|k: int| 0 <= k < f.len() implies #[trigger] s[k + 2] == f[k] by {}
}

/// A plain character that no count follows is read as itself.
proof fn lemma_piece_of_plain(s: Seq<char>, pos: int)
    requires
        0 <= pos < s.len(),
        is_plain(s[pos]),
        pos + 1 == s.len() || is_plain(s[pos + 1]) || s[pos + 1] == '.',
    ensures
        parse_piece(s, pos) == Some((Regex::Char(s[pos]), pos + 1)),
{
    reveal_with_fuel(parse_piece, 2);
    reveal_with_fuel(parse_atom, 2);
    reveal_with_fuel(counted, 2);
}

/// `.*` that no count follows is read as "any number of characters".
proof fn lemma_piece_of_anything(s: Seq<char>, pos: int)
    requires
        0 <= pos,
        pos + 1 < s.len(),
        s[pos] == '.',
        s[pos + 1] == '*',
        pos + 2 == s.len() || is_plain(s[pos + 2]) || s[pos + 2] == '.',
    ensures
        parse_piece(s, pos) == Some((anything(), pos + 2)),
{
    reveal_with_fuel(parse_piece, 2);
    reveal_with_fuel(parse_atom, 2);
    reveal_with_fuel(counted, 3);
}

/// From the place of its `k`th character on, the wrapped text of plain characters is read
/// as these characters and `.*`.
proof fn lemma_branch_of_plain(f: Seq<char>, k: int)
    requires
        all_plain(f),
        0 <= k <= f.len(),
    ensures
        parse_concat(wrapping(f), k + 2) == Some(
            (
                literal(f.skip(k), Regex::Concat(Box::new(anything()), Box::new(Regex::Empty))),
                f.len() as int + 4,
            ),
        ),
    decreases f.len() - k,
{
    let s = wrapping(f);
    let then = Regex::Concat(Box::new(anything()), Box::new(Regex::Empty));
    lemma_wrapping(f);
    reveal_with_fuel(parse_concat, 2);
    if k == f.len() {
        lemma_piece_of_anything(s, k + 2);
        assert(parse_concat(s, k + 4) == Some((Regex::Empty, k + 4)));
        assert(f.skip(k).len() == 0);
    } else {
        lemma_branch_of_plain(f, k + 1);
        assert(s[k + 2] == f[k]);
        if k + 1 < f.len() {
            assert(s[(k + 1) + 2] == f[k + 1]);
        }
        lemma_piece_of_plain(s, k + 2);
        assert(f.skip(k)[0] == f[k]);
        assert(f.skip(k).skip(1) =~= f.skip(k + 1));
    }
}

/// The wrapped text of plain characters writes the pattern `wrapped(f)`.
pub proof fn lemma_parsed_wrapping(f: Seq<char>)
    requires
        all_plain(f),
    ensures
        parsed(wrapping(f)) == Some(wrapped(f)),
{
    let s = wrapping(f);
    lemma_wrapping(f);
    lemma_branch_of_plain(f, 0);
    assert(f.skip(0) =~= f);
    if f.len() > 0 {
        assert(s[0int + 2] == f[0]);
    }
    lemma_piece_of_anything(s, 0);
    reveal_with_fuel(parse_concat, 2);
    reveal_with_fuel(parse_alt, 2);
}

} // verus!
