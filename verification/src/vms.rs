//! The inventory: the machines that a listing names, each with its record.

use crate::execute::CommandResult;
use crate::pattern::{
    all_plain, found_in, is_plain, lemma_parsed_wrapping, lemma_wrapped, parsed, wrapped,
    wrapping, Regex,
};
use crate::text::{
    contains_char, format_i32, from_chars, lines, lines_of, occurs_in, rows, signed_decimal, texts,
    to_chars, trim, trimmed,
};
use crate::vm::{outcome, Observation, Observed, Record, Vm, VmError};
use vstd::prelude::*;

verus! {

/// The records of the machines that the last listing named, and their number.
#[derive(Debug)]
pub struct Vms {
    /// One record for each machine, in the order of the listing.
    pub vm: Vec<Vm>,
    /// How many records there are.
    pub number: i32,
}

/// The views of a sequence of records.
pub open spec fn records(v: Seq<Vm>) -> Seq<Record> {
    Seq::new(v.len(), |i: int| v[i]@)
}

/// The views of a sequence of observations.
pub open spec fn observations(v: Seq<Observation>) -> Seq<Observed> {
    Seq::new(v.len(), |i: int| v[i]@)
}

/// Each of `lines` without the white space around it, those left out that hold nothing
/// else.
pub open spec fn trimmed_lines(lines: Seq<Seq<char>>) -> Seq<Seq<char>>
    decreases lines.len(),
{
    if lines.len() == 0 {
        Seq::empty()
    } else if trimmed(lines.last()).len() > 0 {
        trimmed_lines(lines.drop_last()).push(trimmed(lines.last()))
    } else {
        trimmed_lines(lines.drop_last())
    }
}

/// The names that a listing holds: one per line, blank lines ignored.
pub open spec fn names_of(listing: Seq<char>) -> Seq<Seq<char>> {
    trimmed_lines(lines_of(listing))
}

/// The records of the machines `names`, each made from the observation at the same place
/// in `seen`; where one cannot be made, the reason for the first such.
pub open spec fn all_records(names: Seq<Seq<char>>, seen: Seq<Observed>) -> Result<
    Seq<Record>,
    VmError,
>
    decreases names.len(),
{
    if names.len() == 0 || seen.len() == 0 {
        Ok(Seq::empty())
    } else {
        match all_records(names.drop_last(), seen.drop_last()) {
            Err(e) => Err(e),
            Ok(made) => match outcome(names.last(), seen.last()) {
                Err(e) => Err(e),
                Ok(record) => Ok(made.push(record)),
            },
        }
    }
}

/// What an enumeration comes to: the records of the machines that `listing` names, in its
/// order, each made from the observation at the same place in `seen`. It fails where `seen`
/// does not hold exactly one observation for each machine, and where a record cannot be
/// made: then with the reason for the first such record.
pub open spec fn enumerated(listing: Seq<char>, seen: Seq<Observed>) -> Result<
    Seq<Record>,
    VmError,
> {
    let names = names_of(listing);
    if seen.len() != names.len() {
        Err(VmError::MissingObservation)
    } else {
        all_records(names, seen)
    }
}

/// The text that describes an inventory of `number` machines.
pub open spec fn description(number: int) -> Seq<char> {
    "number of vms: "@ + signed_decimal(number)
}

impl Vms {
    /// Whether the count is the number of records.
    pub open spec fn wf(&self) -> bool {
        self.number == self.vm@.len()
    }

    /// An inventory without machines.
    pub fn new() -> (r: Vms)
        ensures
            r.vm@.len() == 0,
            r.number == 0,
            r.wf(),
    {
        Self { vm: Vec::new(), number: 0 }
    }

    /// The count as a sentence.
    pub fn describe(&self) -> (r: String)
        ensures
            r@ == description(self.number as int),
    {
        let mut r = String::from_str("number of vms: ");
        r.append(format_i32(self.number).as_str());
        r
    }

    /// The names that a listing holds, in its order.
    pub fn names(listing: &CommandResult) -> (r: Vec<String>)
        ensures
            texts(r@) == names_of(listing@.stdout),
    {
        let text = to_chars(listing.stdout.as_str());
        let all = lines(&text);
        let mut out: Vec<String> = Vec::new();
        let mut i: usize = 0;
        while i < all.len()
            invariant
                i <= all.len(),
                texts(out@) == trimmed_lines(rows(all@).take(i as int)),
            decreases all.len() - i,
        {
            proof {
                let next = rows(all@).take(i + 1);
                assert(next.drop_last() =~= rows(all@).take(i as int));
            }
            let name = trim(&all[i]);
            if name.len() > 0 {
                out.push(from_chars(&name));
            }
            i += 1;
        }
        assert(rows(all@).take(all.len() as int) =~= rows(all@));
        out
    }

    /// Makes the inventory anew from the listing of all machines and from what was seen of
    /// each, and returns their names. An enumeration that fails leaves the inventory
    /// empty. The count is an `i32`: `seen` may hold no more observations than that
    /// counts.
    pub fn get_vm(&mut self, listing: &CommandResult, seen: &Vec<Observation>) -> (r: Result<
        Vec<String>,
        VmError,
    >)
        requires
            seen.len() <= i32::MAX,
        ensures
            final(self).wf(),
            match r {
                Ok(names) => texts(names@) == names_of(listing@.stdout) && enumerated(
                    listing@.stdout,
                    observations(seen@),
                ) == Ok::<Seq<Record>, VmError>(records(final(self).vm@)),
                Err(e) => enumerated(listing@.stdout, observations(seen@)) == Err::<
                    Seq<Record>,
                    VmError,
                >(e) && final(self).vm@.len() == 0,
            },
    {
        self.rebuild(listing, seen)
    }

    /// Makes the inventory anew from the listing of the running machines and from what
    /// was seen of each, and returns their names. An enumeration that fails leaves the
    /// inventory empty. The count is an `i32`: `seen` may hold no more observations than
    /// that counts.
    pub fn get_running_vm(&mut self, listing: &CommandResult, seen: &Vec<Observation>) -> (r:
        Result<Vec<String>, VmError>)
        requires
            seen.len() <= i32::MAX,
        ensures
            final(self).wf(),
            match r {
                Ok(names) => texts(names@) == names_of(listing@.stdout) && enumerated(
                    listing@.stdout,
                    observations(seen@),
                ) == Ok::<Seq<Record>, VmError>(records(final(self).vm@)),
                Err(e) => enumerated(listing@.stdout, observations(seen@)) == Err::<
                    Seq<Record>,
                    VmError,
                >(e) && final(self).vm@.len() == 0,
            },
    {
        self.rebuild(listing, seen)
    }

    /// Empties the inventory, then fills it with one record for each name of `listing`.
    fn rebuild(&mut self, listing: &CommandResult, seen: &Vec<Observation>) -> (r: Result<
        Vec<String>,
        VmError,
    >)
        requires
            seen.len() <= i32::MAX,
        ensures
            final(self).wf(),
            match r {
                Ok(names) => texts(names@) == names_of(listing@.stdout) && enumerated(
                    listing@.stdout,
                    observations(seen@),
                ) == Ok::<Seq<Record>, VmError>(records(final(self).vm@)),
                Err(e) => enumerated(listing@.stdout, observations(seen@)) == Err::<
                    Seq<Record>,
                    VmError,
                >(e) && final(self).vm@.len() == 0,
            },
    {
        self.clear();
        let all_vm = Self::names(listing);
        if seen.len() != all_vm.len() {
            return Err(VmError::MissingObservation);
        }
        let ghost names = texts(all_vm@);
        let ghost views = observations(seen@);
        let mut i: usize = 0;
        proof {
            assert(records(self.vm@) =~= Seq::<Record>::empty());
        }
        while i < all_vm.len()
            invariant
                i <= all_vm.len() == seen.len(),
                all_vm.len() <= i32::MAX,
                names == texts(all_vm@),
                names == names_of(listing@.stdout),
                views == observations(seen@),
                self.number == i,
                self.vm@.len() == i,
                all_records(names.take(i as int), views.take(i as int)) == Ok::<
                    Seq<Record>,
                    VmError,
                >(records(self.vm@)),
            decreases all_vm.len() - i,
        {
            let ghost made = records(self.vm@);
            proof {
                assert(names.take(i + 1).drop_last() =~= names.take(i as int));
                assert(views.take(i + 1).drop_last() =~= views.take(i as int));
            }
            match Vm::new(all_vm[i].clone(), &seen[i]) {
                Ok(vm) => {
                    self.vm.push(vm);
                    self.number += 1;
                    assert(records(self.vm@) =~= made.push(vm@));
                },
                Err(e) => {
                    proof {
                        lemma_failure_stays(names, views, i + 1, e);
                    }
                    self.clear();
                    return Err(e);
                },
            }
            i += 1;
        }
        proof {
            assert(names.take(all_vm.len() as int) =~= names);
            assert(views.take(all_vm.len() as int) =~= views);
        }
        Ok(all_vm)
    }

    /// Removes every record.
    fn clear(&mut self)
        ensures
            final(self).vm@.len() == 0,
            final(self).number == 0,
    {
        self.vm.clear();
        self.number = 0;
    }
}

/// A record that cannot be made among the first `k` machines makes the whole enumeration
/// fail for the same reason.
pub proof fn lemma_failure_stays(names: Seq<Seq<char>>, seen: Seq<Observed>, k: int, e: VmError)
    requires
        0 <= k <= names.len() == seen.len(),
        all_records(names.take(k), seen.take(k)) == Err::<Seq<Record>, VmError>(e),
    ensures
        all_records(names, seen) == Err::<Seq<Record>, VmError>(e),
    decreases names.len() - k,
{
    if k == names.len() {
        assert(names.take(k) =~= names);
        assert(seen.take(k) =~= seen);
    } else {
        assert(names.drop_last().take(k) =~= names.take(k));
        assert(seen.drop_last().take(k) =~= seen.take(k));
        lemma_failure_stays(names.drop_last(), seen.drop_last(), k, e);
    }
}

/// The pattern that a filter stands for: the filter itself where it begins with `^` or
/// holds a `*`, else the filter with `.*` before and behind it, which matches every name
/// that the filter alone matches somewhere.
pub open spec fn pattern_for(filter: Seq<char>) -> Seq<char> {
    if (filter.len() > 0 && filter[0] == '^') || filter.contains('*') {
        filter
    } else {
        ".*"@ + filter + ".*"@
    }
}

/// The names that the pattern matches, in order.
pub open spec fn matching(names: Seq<Seq<char>>, re: Regex) -> Seq<Seq<char>>
    decreases names.len(),
{
    if names.len() == 0 {
        Seq::empty()
    } else if found_in(re, names.last()) {
        matching(names.drop_last(), re).push(names.last())
    } else {
        matching(names.drop_last(), re)
    }
}

/// The names that match what `pattern` writes, in order; none where it writes no pattern.
pub open spec fn selected(names: Seq<Seq<char>>, pattern: Seq<char>) -> Seq<Seq<char>> {
    match parsed(pattern) {
        Some(re) => matching(names, re),
        None => Seq::empty(),
    }
}

/// The pattern that `filter` stands for.
pub fn find_pattern(filter: &str) -> (r: String)
    ensures
        r@ == pattern_for(filter@),
{
    let chars = to_chars(filter);
    if (chars.len() > 0 && chars[0] == '^') || contains_char(&chars, '*') {
        String::from_str(filter)
    } else {
        let mut r = String::from_str(".*");
        r.append(filter);
        r.append(".*");
        r
    }
}

impl Vms {
    /// The names of `listing` that match `filter`, in the order of the listing; none where
    /// the filter stands for no pattern. No record is made and the inventory stays as it
    /// is.
    pub fn find_vms(&self, filter: &str, listing: &CommandResult) -> (r: Vec<String>)
        ensures
            texts(r@) == selected(names_of(listing@.stdout), pattern_for(filter@)),
    {
        let mut out: Vec<String> = Vec::new();
        let pattern = match Regex::parse(find_pattern(filter).as_str()) {
            Some(re) => re,
            None => {
                assert(texts(out@) =~= Seq::<Seq<char>>::empty());
                return out;
            },
        };
        let all_vm = Self::names(listing);
        let mut i: usize = 0;
        let ghost names = texts(all_vm@);
        assert(names.take(0) =~= Seq::<Seq<char>>::empty());
        while i < all_vm.len()
            invariant
                i <= all_vm.len(),
                names == texts(all_vm@),
                texts(out@) == matching(names.take(i as int), pattern),
            decreases all_vm.len() - i,
        {
            let ghost so_far = texts(out@);
            proof {
                assert(names.take(i + 1).drop_last() =~= names.take(i as int));
            }
            if pattern.matches(all_vm[i].as_str()) {
                out.push(all_vm[i].clone());
                assert(texts(out@) =~= so_far.push(all_vm@[i as int]@));
            }
            i += 1;
        }
        assert(names.take(all_vm.len() as int) =~= names);
        out
    }
}

/// Substring by default: a filter of plain characters, those with no meaning of their own
/// in a pattern, stands for a pattern, and that pattern matches exactly the names in which
/// the filter stands somewhere.
pub proof fn lemma_substring_by_default(filter: Seq<char>, name: Seq<char>)
    requires
        all_plain(filter),
    ensures
        parsed(pattern_for(filter)) == Some(wrapped(filter)),
        found_in(wrapped(filter), name) == occurs_in(name, filter),
{
    if filter.len() > 0 {
        assert(is_plain(filter[0]));
    }
    if filter.contains('*') {
        let k = choose|k: int| 0 <= k < filter.len() && filter[k] == '*';
        assert(is_plain(filter[k]));
    }
    assert(pattern_for(filter) == wrapping(filter));
    lemma_parsed_wrapping(filter);
    lemma_wrapped(filter, name);
}

/// A filter of plain characters selects exactly the names in which it stands somewhere.
pub proof fn lemma_plain_filter_selects(names: Seq<Seq<char>>, filter: Seq<char>)
    requires
        all_plain(filter),
    ensures
        selected(names, pattern_for(filter)) == holding(names, filter),
{
    lemma_substring_by_default(filter, Seq::empty());
    lemma_holding(names, filter);
}

/// The names in which `part` stands somewhere, in order.
pub open spec fn holding(names: Seq<Seq<char>>, part: Seq<char>) -> Seq<Seq<char>>
    decreases names.len(),
{
    if names.len() == 0 {
        Seq::empty()
    } else if occurs_in(names.last(), part) {
        holding(names.drop_last(), part).push(names.last())
    } else {
        holding(names.drop_last(), part)
    }
}

/// The pattern of a plain filter matches the names that hold the filter.
proof fn lemma_holding(names: Seq<Seq<char>>, filter: Seq<char>)
    requires
        all_plain(filter),
    ensures
        matching(names, wrapped(filter)) == holding(names, filter),
    decreases names.len(),
{
    if names.len() > 0 {
        lemma_holding(names.drop_last(), filter);
        lemma_wrapped(filter, names.last());
    }
}

} // verus!
