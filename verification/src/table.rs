//! The tables that the hypervisor's tool prints: a header line that names the columns, a
//! separator line, then one line per row. Columns are separated by white space.

use crate::text::{
    contains_char, from_chars, lemma_position_of, lines, lines_of, position_of, rows, same, slice,
    split_whitespace, texts, to_chars, words_of,
};
use vstd::prelude::*;

verus! {

/// The value that stands for a column that could not be read.
pub open spec fn unknown() -> Seq<char> {
    "unknown"@
}

/// The word of `line` at `index`, counted from 0, if the line has that many words.
pub open spec fn column(line: Seq<char>, index: int) -> Option<Seq<char>> {
    if 0 <= index < words_of(line).len() {
        Some(words_of(line)[index])
    } else {
        None
    }
}

/// The words at `index`, one for each of `lines` that has that many words, in the order
/// of the lines. A line with fewer words gives none.
pub open spec fn column_words(lines: Seq<Seq<char>>, index: int) -> Seq<Seq<char>>
    decreases lines.len(),
{
    if lines.len() == 0 {
        Seq::empty()
    } else {
        match column(lines.last(), index) {
            Some(word) => column_words(lines.drop_last(), index).push(word),
            None => column_words(lines.drop_last(), index),
        }
    }
}

/// The lines that hold a table's rows: all but the header and the separator.
pub open spec fn data_rows(lines: Seq<Seq<char>>) -> Seq<Seq<char>> {
    if lines.len() >= 2 {
        lines.skip(2)
    } else {
        Seq::empty()
    }
}

/// The names of a table's columns: the words of its first line.
pub open spec fn headers(lines: Seq<Seq<char>>) -> Seq<Seq<char>> {
    if lines.len() > 0 {
        words_of(lines[0])
    } else {
        Seq::empty()
    }
}

/// The word at `index` of the first of `lines` that has one.
pub open spec fn first_value(lines: Seq<Seq<char>>, index: int) -> Option<Seq<char>>
    decreases lines.len(),
{
    if lines.len() == 0 {
        None
    } else if column(lines[0], index) is Some {
        column(lines[0], index)
    } else {
        first_value(lines.skip(1), index)
    }
}

/// The value of the column named `header` in the first row that reaches that far. The name
/// must equal a word of the header line, letter for letter; where the same name heads
/// several columns the first one counts. `unknown()` where no column has that name or no row
/// reaches it.
pub open spec fn column_value(table: Seq<char>, header: Seq<char>) -> Seq<char> {
    let names = headers(lines_of(table));
    let index = position_of(names, header);
    if index < names.len() {
        match first_value(data_rows(lines_of(table)), index as int) {
            Some(value) => value,
            None => unknown(),
        }
    } else {
        unknown()
    }
}

/// The word of `line` at `index`, if the line has that many words.
pub fn word_at(line: &Vec<char>, index: usize) -> (r: Option<Vec<char>>)
    ensures
        r is Some == column(line@, index as int) is Some,
        r is Some ==> r->0@ == column(line@, index as int)->0,
{
    let words = split_whitespace(line);
    if index < words.len() {
        Some(slice(&words[index], 0, words[index].len()))
    } else {
        None
    }
}

/// Where the rows of a table of `len` lines begin: behind the header and the separator.
pub fn rows_start(len: usize) -> (r: usize)
    ensures
        r == if len >= 2 {
            2
        } else {
            len as int
        },
{
    if len >= 2 {
        2
    } else {
        len
    }
}

/// The words at `index` of the lines from `start` on that have that many words.
pub(crate) fn column_of(all: &Vec<Vec<char>>, start: usize, index: usize) -> (out: Vec<Vec<char>>)
    requires
        start <= all.len(),
    ensures
        rows(out@) == column_words(rows(all@).skip(start as int), index as int),
{
    let mut out: Vec<Vec<char>> = Vec::new();
    let ghost tail = rows(all@).skip(start as int);
    let mut at: usize = start;
    assert(tail.take(0) =~= Seq::<Seq<char>>::empty());
    while at < all.len()
        invariant
            start <= at <= all.len(),
            tail == rows(all@).skip(start as int),
            rows(out@) == column_words(tail.take(at - start), index as int),
        decreases all.len() - at,
    {
        let ghost before = rows(out@);
        proof {
            let next = tail.take(at - start + 1);
            assert(next.drop_last() =~= tail.take(at - start));
            assert(next.last() == all@[at as int]@);
        }
        match word_at(&all[at], index) {
            Some(word) => {
                out.push(word);
                assert(rows(out@) =~= before.push(word@));
            },
            None => {},
        }
        at += 1;
    }
    assert(tail.take(all.len() - start) =~= tail);
    out
}

/// The value of the column named `header` in the first row of `table` that reaches that
/// far, or `"unknown"`.
pub fn extract_column(table: &str, header: &str) -> (r: String)
    ensures
        r@ == column_value(table@, header@),
{
    let text = to_chars(table);
    let wanted = to_chars(header);
    let all = lines(&text);
    let names = if all.len() > 0 {
        split_whitespace(&all[0])
    } else {
        Vec::new()
    };
    let mut index: usize = 0;
    while index < names.len() && !same(&names[index], &wanted)
        invariant
            index <= names.len(),
            forall|k: int| 0 <= k < index ==> #[trigger] rows(names@)[k] != wanted@,
        decreases names.len() - index,
    {
        index += 1;
    }
    proof {
        lemma_position_of(rows(names@), wanted@, index as int);
    }
    if index == names.len() || all.len() <= 2 {
        return String::from_str("unknown");
    }
    let ghost data = data_rows(rows(all@));
    let mut at: usize = 2;
    assert(data.skip(0) =~= data);
    while at < all.len()
        invariant
            2 <= at <= all.len(),
            rows(all@) == lines_of(table@),
            data == data_rows(rows(all@)),
            index as nat == position_of(headers(lines_of(table@)), header@),
            index < headers(lines_of(table@)).len(),
            first_value(data, index as int) == first_value(data.skip(at - 2), index as int),
        decreases all.len() - at,
    {
        match word_at(&all[at], index) {
            Some(value) => {
                return from_chars(&value);
            },
            None => {
                assert(data.skip(at - 2).skip(1) =~= data.skip(at - 1));
            },
        }
        at += 1;
    }
    String::from_str("unknown")
}

/// The words at `index` that hold `marker`, one for each of `lines` that has such a word,
/// in the order of the lines.
pub open spec fn marked_values(lines: Seq<Seq<char>>, index: int, marker: char) -> Seq<
    Seq<char>,
>
    decreases lines.len(),
{
    if lines.len() == 0 {
        Seq::empty()
    } else {
        let before = marked_values(lines.drop_last(), index, marker);
        match column(lines.last(), index) {
            Some(word) => if word.contains(marker) {
                before.push(word)
            } else {
                before
            },
            None => before,
        }
    }
}

/// From every line of `table`, the header and the separator too, the word at `index` if the
/// line has one and it holds `marker`.
pub fn extract_rows(table: &str, index: usize, marker: char) -> (r: Vec<String>)
    ensures
        texts(r@) == marked_values(lines_of(table@), index as int, marker),
{
    let text = to_chars(table);
    let all = lines(&text);
    let mut out: Vec<String> = Vec::new();
    let mut at: usize = 0;
    while at < all.len()
        invariant
            at <= all.len(),
            texts(out@) == marked_values(rows(all@).take(at as int), index as int, marker),
        decreases all.len() - at,
    {
        proof {
            let next = rows(all@).take(at + 1);
            assert(next.drop_last() =~= rows(all@).take(at as int));
        }
        match word_at(&all[at], index) {
            Some(word) => {
                if contains_char(&word, marker) {
                    let value = from_chars(&word);
                    out.push(value);
                }
            },
            None => {},
        }
        at += 1;
    }
    assert(rows(all@).take(all.len() as int) =~= rows(all@));
    out
}

/// Where the header line names the column and the first row reaches it, the value is that
/// row's word under the header; where the header line does not name the column, it is
/// `unknown()`.
pub proof fn lemma_column_value(table: Seq<char>, header: Seq<char>)
    ensures
        ({
            let all = lines_of(table);
            let index = position_of(headers(all), header) as int;
            &&& index < headers(all).len() && all.len() > 2 && column(all[2], index) is Some
                ==> column_value(table, header) == words_of(all[2])[index]
            &&& index >= headers(all).len() ==> column_value(table, header) == unknown()
        }),
{
    let all = lines_of(table);
    if all.len() > 2 {
        assert(data_rows(all)[0] == all[2]);
    }
}

} // verus!
