//! Where a machine's addresses are read from, in the order in which the sources are tried:
//! the kernel's neighbor table, the hypervisor's table of interface addresses, and the
//! machine's configuration document.

use crate::execute::{outputs, CommandResult, Output};
use crate::table::{column, column_of, column_words, data_rows, rows_start, word_at};
use crate::text::{
    before, begins_with, between, contains, lines, lines_of, occurs_in, rows, second_piece, slice,
    starts_with, take_before, to_chars,
};
use vstd::prelude::*;

verus! {

/// The prefix that marks an address as link-local.
pub open spec fn link_local_prefix() -> Seq<char> {
    "fe80::"@
}

/// Whether `ip` is a link-local address: whether it begins with `fe80::`.
pub open spec fn is_link_local(ip: Seq<char>) -> bool {
    begins_with(ip, link_local_prefix())
}

/// Whether `ip` is an address that ends the search: a text that is not empty and is not
/// link-local.
pub open spec fn is_usable(ip: Seq<char>) -> bool {
    ip.len() > 0 && !is_link_local(ip)
}

/// The usable addresses of `ips`, in order.
pub open spec fn routable(ips: Seq<Seq<char>>) -> Seq<Seq<char>>
    decreases ips.len(),
{
    if ips.len() == 0 {
        Seq::empty()
    } else if is_usable(ips.last()) {
        routable(ips.drop_last()).push(ips.last())
    } else {
        routable(ips.drop_last())
    }
}

/// Whether `ips` holds at least one usable address. Only such a list ends the search.
pub open spec fn usable(ips: Seq<Seq<char>>) -> bool {
    exists|i: int| 0 <= i < ips.len() && is_usable(#[trigger] ips[i])
}

/// Every address of `routable(ips)` is usable.
pub proof fn lemma_routable(ips: Seq<Seq<char>>)
    ensures
        forall|i: int| 0 <= i < routable(ips).len() ==> is_usable(#[trigger] routable(ips)[i]),
        routable(ips).len() > 0 ==> usable(routable(ips)),
    decreases ips.len(),
{
    if ips.len() > 0 {
        lemma_routable(ips.drop_last());
    }
    if routable(ips).len() > 0 {
        assert(is_usable(routable(ips)[0]));
    }
}

/// Two lists together hold a usable address just where one of them does.
pub proof fn lemma_usable_concat(a: Seq<Seq<char>>, b: Seq<Seq<char>>)
    ensures
        usable(a + b) == (usable(a) || usable(b)),
{
    let both = a + b;
    if usable(a) {
        let i = choose|i: int| 0 <= i < a.len() && is_usable(#[trigger] a[i]);
        assert(both[i] == a[i]);
    }
    if usable(b) {
        let i = choose|i: int| 0 <= i < b.len() && is_usable(#[trigger] b[i]);
        assert(both[a.len() + i] == b[i]);
    }
    if usable(both) {
        let i = choose|i: int| 0 <= i < both.len() && is_usable(#[trigger] both[i]);
        if i < a.len() {
            assert(both[i] == a[i]);
        } else {
            assert(both[i] == b[i - a.len()]);
        }
    }
}

/// Whether `ip` is a link-local address.
pub fn link_local(ip: &Vec<char>) -> (r: bool)
    ensures
        r == is_link_local(ip@),
{
    let prefix = to_chars("fe80::");
    starts_with(ip, &prefix)
}

/// Whether `ip` is a usable address.
pub fn usable_address(ip: &Vec<char>) -> (r: bool)
    ensures
        r == is_usable(ip@),
{
    ip.len() > 0 && !link_local(ip)
}

/// Whether `ips` holds a usable address.
pub fn any_usable(ips: &Vec<Vec<char>>) -> (r: bool)
    ensures
        r == usable(rows(ips@)),
{
    let mut i: usize = 0;
    while i < ips.len()
        invariant
            i <= ips.len(),
            forall|k: int| 0 <= k < i ==> !is_usable(#[trigger] rows(ips@)[k]),
        decreases ips.len() - i,
    {
        assert(rows(ips@)[i as int] == ips@[i as int]@);
        if usable_address(&ips[i]) {
            return true;
        }
        i += 1;
    }
    false
}

/// The usable addresses of `ips`, in order.
pub fn keep_routable(ips: &Vec<Vec<char>>) -> (out: Vec<Vec<char>>)
    ensures
        rows(out@) == routable(rows(ips@)),
{
    let mut out: Vec<Vec<char>> = Vec::new();
    let mut i: usize = 0;
    assert(rows(ips@).take(0) =~= Seq::<Seq<char>>::empty());
    while i < ips.len()
        invariant
            i <= ips.len(),
            rows(out@) == routable(rows(ips@).take(i as int)),
        decreases ips.len() - i,
    {
        let ghost kept = rows(out@);
        proof {
            let next = rows(ips@).take(i + 1);
            assert(next.drop_last() =~= rows(ips@).take(i as int));
            assert(next.last() == ips@[i as int]@);
        }
        if usable_address(&ips[i]) {
            let ip = slice(&ips[i], 0, ips[i].len());
            assert(ip@ =~= ips@[i as int]@);
            out.push(ip);
            assert(rows(out@) =~= kept.push(ip@));
        }
        i += 1;
    }
    assert(rows(ips@).take(ips.len() as int) =~= rows(ips@));
    out
}

/// What one look into the neighbor table gives: the first word of each of its lines that
/// holds a word, if the command ended with status 0; else nothing.
pub open spec fn neighbor_addresses(reply: Output) -> Seq<Seq<char>> {
    if reply.status == 0 {
        column_words(lines_of(reply.stdout), 0)
    } else {
        Seq::empty()
    }
}

/// What the neighbor table gives for all the hardware addresses asked for: the addresses
/// of each reply, in the order of the replies.
pub open spec fn neighbor_stage(replies: Seq<Output>) -> Seq<Seq<char>>
    decreases replies.len(),
{
    if replies.len() == 0 {
        Seq::empty()
    } else {
        neighbor_stage(replies.drop_last()) + neighbor_addresses(replies.last())
    }
}

/// The addresses that one reply of the neighbor table holds.
pub fn neighbor_ips(reply: &CommandResult) -> (out: Vec<Vec<char>>)
    ensures
        rows(out@) == neighbor_addresses(reply@),
{
    if reply.status != 0 {
        return Vec::new();
    }
    let text = to_chars(reply.stdout.as_str());
    let all = lines(&text);
    assert(rows(all@).skip(0) =~= rows(all@));
    column_of(&all, 0, 0)
}

/// The addresses that the neighbor table gives for all the hardware addresses asked for.
pub fn neighbor_source(replies: &Vec<CommandResult>) -> (out: Vec<Vec<char>>)
    ensures
        rows(out@) == neighbor_stage(outputs(replies@)),
{
    let mut out: Vec<Vec<char>> = Vec::new();
    let mut i: usize = 0;
    while i < replies.len()
        invariant
            i <= replies.len(),
            rows(out@) == neighbor_stage(outputs(replies@).take(i as int)),
        decreases replies.len() - i,
    {
        let mut found = neighbor_ips(&replies[i]);
        proof {
            let next = outputs(replies@).take(i + 1);
            assert(next.drop_last() =~= outputs(replies@).take(i as int));
        }
        out.append(&mut found);
        i += 1;
    }
    assert(outputs(replies@).take(replies.len() as int) =~= outputs(replies@));
    out
}

/// The addresses in the fourth column: of each line that has a fourth word, that word up
/// to its first `/`, if that is not empty. A line with fewer words gives none.
pub open spec fn address_column(lines: Seq<Seq<char>>) -> Seq<Seq<char>>
    decreases lines.len(),
{
    if lines.len() == 0 {
        Seq::empty()
    } else {
        match column(lines.last(), 3) {
            Some(word) => if before(word, '/').len() > 0 {
                address_column(lines.drop_last()).push(before(word, '/'))
            } else {
                address_column(lines.drop_last())
            },
            None => address_column(lines.drop_last()),
        }
    }
}

/// What the table of interface addresses gives: the addresses in the fourth column of its
/// rows, without the prefix length that follows a `/`, link-local addresses left out, if
/// the command ended with status 0; else nothing.
pub open spec fn address_stage(reply: Output) -> Seq<Seq<char>> {
    if reply.status == 0 {
        routable(address_column(data_rows(lines_of(reply.stdout))))
    } else {
        Seq::empty()
    }
}

/// The addresses that the table of interface addresses gives.
pub fn address_ips(reply: &CommandResult) -> (out: Vec<Vec<char>>)
    ensures
        rows(out@) == address_stage(reply@),
{
    if reply.status != 0 {
        return Vec::new();
    }
    let text = to_chars(reply.stdout.as_str());
    let all = lines(&text);
    let start = rows_start(all.len());
    let ghost data = rows(all@).skip(start as int);
    assert(data =~= data_rows(rows(all@)));
    let mut values: Vec<Vec<char>> = Vec::new();
    let mut i: usize = start;
    assert(data.take(0) =~= Seq::<Seq<char>>::empty());
    while i < all.len()
        invariant
            start <= i <= all.len(),
            data == rows(all@).skip(start as int),
            rows(values@) == address_column(data.take(i - start)),
        decreases all.len() - i,
    {
        let ghost so_far = rows(values@);
        proof {
            let next = data.take(i - start + 1);
            assert(next.drop_last() =~= data.take(i - start));
            assert(next.last() == all@[i as int]@);
        }
        match word_at(&all[i], 3) {
            Some(word) => {
                let value = take_before(&word, '/');
                if value.len() > 0 {
                    values.push(value);
                    assert(rows(values@) =~= so_far.push(value@));
                }
            },
            None => {},
        }
        i += 1;
    }
    assert(data.take(all.len() - start) =~= data);
    keep_routable(&values)
}

/// The text that opens an interface block of the configuration document.
pub open spec fn block_start() -> Seq<char> {
    "<interface"@
}

/// The text that closes an interface block.
pub open spec fn block_end() -> Seq<char> {
    "</interface>"@
}

/// The text that marks a line as one that gives an address.
pub open spec fn address_mark() -> Seq<char> {
    "<ip address="@
}

/// Whether an interface block is open after `lines`. A line that holds `<interface` opens a
/// block where none is open; a later line that holds `</interface>` closes it.
pub open spec fn block_open(lines: Seq<Seq<char>>) -> bool
    decreases lines.len(),
{
    if lines.len() == 0 {
        false
    } else if block_open(lines.drop_last()) {
        !occurs_in(lines.last(), block_end())
    } else {
        occurs_in(lines.last(), block_start())
    }
}

/// The addresses that the lines of a configuration document give: from each line of an
/// interface block, the opening and the closing line included, that holds `<ip address=`
/// and a single quote, what stands between the first single quote and the next, or the
/// line's end, if that is not empty.
pub open spec fn config_addresses(lines: Seq<Seq<char>>) -> Seq<Seq<char>>
    decreases lines.len(),
{
    if lines.len() == 0 {
        Seq::empty()
    } else {
        let found = config_addresses(lines.drop_last());
        let line = lines.last();
        let within = block_open(lines.drop_last()) || occurs_in(line, block_start());
        if within && occurs_in(line, address_mark()) && second_piece(line, '\'') is Some
            && second_piece(line, '\'')->0.len() > 0 {
            found.push(second_piece(line, '\'')->0)
        } else {
            found
        }
    }
}

/// What the configuration document gives: the addresses of its interface blocks,
/// link-local ones left out, if the command ended with status 0; else nothing.
pub open spec fn config_stage(reply: Output) -> Seq<Seq<char>> {
    if reply.status == 0 {
        routable(config_addresses(lines_of(reply.stdout)))
    } else {
        Seq::empty()
    }
}

/// The addresses that the configuration document gives.
pub fn config_ips(reply: &CommandResult) -> (out: Vec<Vec<char>>)
    ensures
        rows(out@) == config_stage(reply@),
{
    let mut found: Vec<Vec<char>> = Vec::new();
    if reply.status != 0 {
        return found;
    }
    let text = to_chars(reply.stdout.as_str());
    let all = lines(&text);
    let start = to_chars("<interface");
    let end = to_chars("</interface>");
    let mark = to_chars("<ip address=");
    let mut open = false;
    let mut i: usize = 0;
    while i < all.len()
        invariant
            i <= all.len(),
            start@ == block_start(),
            end@ == block_end(),
            mark@ == address_mark(),
            open == block_open(rows(all@).take(i as int)),
            rows(found@) == config_addresses(rows(all@).take(i as int)),
        decreases all.len() - i,
    {
        proof {
            let next = rows(all@).take(i + 1);
            assert(next.drop_last() =~= rows(all@).take(i as int));
        }
        let line = &all[i];
        let starts = contains(line, &start);
        if (open || starts) && contains(line, &mark) {
            match between(line, '\'') {
                Some(value) => if value.len() > 0 {
                    found.push(value);
                },
                None => {},
            }
        }
        open = if open {
            !contains(line, &end)
        } else {
            starts
        };
        i += 1;
    }
    assert(rows(all@).take(all.len() as int) =~= rows(all@));
    keep_routable(&found)
}

} // verus!
