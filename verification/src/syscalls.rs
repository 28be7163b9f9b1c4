//! The set of system calls seen in a trace session. It keeps every name once,
//! in the order in which the names first appeared.

use vstd::prelude::*;
use crate::parse::{parse_syscall, syscall_name};
use crate::text::texts;

verus! {

/// `log` after `name` was offered to it: a name that it already holds changes
/// nothing, a new name goes to the end.
pub open spec fn inserted(log: Seq<Seq<char>>, name: Seq<char>) -> Seq<Seq<char>> {
    if log.contains(name) {
        log
    } else {
        log.push(name)
    }
}

/// `log` after every name of `names` was offered to it in turn.
pub open spec fn inserted_all(log: Seq<Seq<char>>, names: Seq<Seq<char>>) -> Seq<Seq<char>>
    decreases names.len(),
{
    if names.len() == 0 {
        log
    } else {
        inserted(inserted_all(log, names.drop_last()), names.last())
    }
}

/// `log` after one raw line was ingested: the line's name is offered to the
/// log; a line without a name is dropped.
pub open spec fn ingested_line(log: Seq<Seq<char>>, line: Seq<char>) -> Seq<Seq<char>> {
    match syscall_name(line) {
        Some(name) => inserted(log, name),
        None => log,
    }
}

/// `log` after the raw lines `lines` were ingested in turn.
pub open spec fn ingested(log: Seq<Seq<char>>, lines: Seq<Seq<char>>) -> Seq<Seq<char>>
    decreases lines.len(),
{
    if lines.len() == 0 {
        log
    } else {
        ingested_line(ingested(log, lines.drop_last()), lines.last())
    }
}

/// The names that the lines `lines` carry, in order, repeats included.
pub open spec fn parsed_names(lines: Seq<Seq<char>>) -> Seq<Seq<char>>
    decreases lines.len(),
{
    if lines.len() == 0 {
        Seq::empty()
    } else {
        match syscall_name(lines.last()) {
            Some(name) => parsed_names(lines.drop_last()).push(name),
            None => parsed_names(lines.drop_last()),
        }
    }
}

/// The first occurrence of each name of `names`, in order.
pub open spec fn first_occurrences(names: Seq<Seq<char>>) -> Seq<Seq<char>>
    decreases names.len(),
{
    if names.len() == 0 {
        Seq::empty()
    } else if names.drop_last().contains(names.last()) {
        first_occurrences(names.drop_last())
    } else {
        first_occurrences(names.drop_last()).push(names.last())
    }
}

/// Offering a name a second time changes nothing: neither the log nor its length.
pub proof fn lemma_insert_idempotent(log: Seq<Seq<char>>, name: Seq<char>)
    ensures
        inserted(inserted(log, name), name) == inserted(log, name),
        inserted(inserted(log, name), name).len() == inserted(log, name).len(),
        inserted(log, name).contains(name),
{
    if !log.contains(name) {
        assert(log.push(name)[log.len() as int] == name);
    }
}

/// Ingesting the same line a second time changes nothing.
pub proof fn lemma_ingest_line_idempotent(log: Seq<Seq<char>>, line: Seq<char>)
    ensures
        ingested_line(ingested_line(log, line), line) == ingested_line(log, line),
{
    match syscall_name(line) {
        Some(name) => lemma_insert_idempotent(log, name),
        None => {},
    }
}

/// Offering names keeps what the log held, in place, adds exactly the names
/// offered, and adds no name twice.
pub proof fn lemma_inserted_all(log: Seq<Seq<char>>, names: Seq<Seq<char>>)
    ensures
        log.is_prefix_of(inserted_all(log, names)),
        forall|n: Seq<char>|
            inserted_all(log, names).contains(n) <==> log.contains(n) || names.contains(n),
        log.no_duplicates() ==> inserted_all(log, names).no_duplicates(),
    decreases names.len(),
{
    if names.len() > 0 {
        let front = names.drop_last();
        let last = names.last();
        let mid = inserted_all(log, front);
        let out = inserted_all(log, names);
        lemma_inserted_all(log, front);
        assert forall|n: Seq<char>| out.contains(n) <==> log.contains(n) || names.contains(n) by {
            if out.contains(n) {
                let i = choose|i: int| 0 <= i < out.len() && out[i] == n;
                if i < mid.len() {
                    assert(mid[i] == n);
                    assert(mid.contains(n));
                    if front.contains(n) {
                        let j = choose|j: int| 0 <= j < front.len() && front[j] == n;
                        assert(names[j] == n);
                    }
                } else {
                    assert(n == last);
                    assert(names[names.len() - 1] == n);
                }
            }
            if log.contains(n) {
                assert(mid.contains(n));
                let i = choose|i: int| 0 <= i < mid.len() && mid[i] == n;
                assert(out[i] == n);
            }
            if names.contains(n) {
                let j = choose|j: int| 0 <= j < names.len() && names[j] == n;
                if j < front.len() {
                    assert(front[j] == n);
                    assert(front.contains(n));
                    let i = choose|i: int| 0 <= i < mid.len() && mid[i] == n;
                    assert(out[i] == n);
                } else {
                    lemma_insert_idempotent(mid, last);
                }
            }
        }
    }
}

/// Names that the log already holds leave it unchanged, however many follow.
pub proof fn lemma_repeats_change_nothing(log: Seq<Seq<char>>, names: Seq<Seq<char>>)
    requires
        forall|i: int| 0 <= i < names.len() ==> log.contains(names[i]),
    ensures
        inserted_all(log, names) == log,
    decreases names.len(),
{
    if names.len() > 0 {
        lemma_repeats_change_nothing(log, names.drop_last());
    }
}

/// A sequence without repeats is its own sequence of first occurrences.
pub proof fn lemma_first_occurrences_of_distinct(names: Seq<Seq<char>>)
    requires
        names.no_duplicates(),
    ensures
        first_occurrences(names) == names,
    decreases names.len(),
{
    if names.len() > 0 {
        let front = names.drop_last();
        lemma_first_occurrences_of_distinct(front);
        if front.contains(names.last()) {
            let j = choose|j: int| 0 <= j < front.len() && front[j] == names.last();
            assert(names[j] == names[names.len() - 1]);
        }
        assert(front.push(names.last()) =~= names);
    }
}

/// The log is the sequence of first occurrences: after names were offered to
/// a log, it holds the first occurrence of each name among what it held and
/// what was offered, in order, whatever repeats there were.
pub proof fn lemma_log_is_first_occurrences(log: Seq<Seq<char>>, names: Seq<Seq<char>>)
    requires
        log.no_duplicates(),
    ensures
        inserted_all(log, names) == first_occurrences(log + names),
        inserted_all(Seq::empty(), names) == first_occurrences(names),
    decreases names.len(),
{
    let none = Seq::<Seq<char>>::empty();
    if names.len() == 0 {
        lemma_first_occurrences_of_distinct(log);
        assert(log + names =~= log);
    } else {
        let front = names.drop_last();
        let last = names.last();
        lemma_log_is_first_occurrences(log, front);
        lemma_inserted_all(log, front);
        lemma_inserted_all(none, front);
        assert((log + names).drop_last() =~= log + front);
        assert((log + names).last() == last);
        let mid = inserted_all(log, front);
        let whole = log + names;
        vstd::seq_lib::lemma_seq_concat_contains_all_elements(log, front, last);
        assert(mid.contains(last) <==> log.contains(last) || front.contains(last));
        assert(whole.drop_last().contains(last) <==> mid.contains(last));
        assert(first_occurrences(whole) == if whole.drop_last().contains(last) {
            first_occurrences(whole.drop_last())
        } else {
            first_occurrences(whole.drop_last()).push(last)
        });
        let bare = inserted_all(none, front);
        assert(bare.contains(last) <==> none.contains(last) || front.contains(last));
        assert(!none.contains(last));
    }
    assert(none + names =~= names);
}

/// Ingesting lines offers the names that the lines carry, in order.
pub proof fn lemma_ingested_is_parsed(log: Seq<Seq<char>>, lines: Seq<Seq<char>>)
    ensures
        ingested(log, lines) == inserted_all(log, parsed_names(lines)),
    decreases lines.len(),
{
    if lines.len() > 0 {
        lemma_ingested_is_parsed(log, lines.drop_last());
        match syscall_name(lines.last()) {
            Some(name) => {
                let names = parsed_names(lines.drop_last());
                assert(names.push(name).drop_last() =~= names);
            },
            None => {},
        }
    }
}

/// What ingestion does to the set: it keeps what was there, in place; every
/// name in it afterwards was there before or was parsed from one of the
/// lines; and no name occurs twice.
pub proof fn lemma_ingested(log: Seq<Seq<char>>, lines: Seq<Seq<char>>)
    ensures
        log.is_prefix_of(ingested(log, lines)),
        forall|n: Seq<char>|
            ingested(log, lines).contains(n) <==> log.contains(n) || parsed_names(lines).contains(
                n,
            ),
        log.no_duplicates() ==> ingested(log, lines).no_duplicates(),
        log.no_duplicates() ==> ingested(log, lines) == first_occurrences(
            log + parsed_names(lines),
        ),
{
    lemma_ingested_is_parsed(log, lines);
    lemma_inserted_all(log, parsed_names(lines));
    if log.no_duplicates() {
        lemma_log_is_first_occurrences(log, parsed_names(lines));
    }
}

/// The system calls seen so far, each once, in the order of first appearance.
pub struct SyscallSet {
    names: Vec<String>,
}

impl View for SyscallSet {
    type V = Seq<Seq<char>>;

    /// The names in the order in which they were first seen.
    closed spec fn view(&self) -> Seq<Seq<char>> {
        texts(self.names@)
    }
}

impl SyscallSet {
    /// No name occurs twice.
    pub open spec fn wf(&self) -> bool {
        self@.no_duplicates()
    }

    /// An empty set.
    pub fn new() -> (set: SyscallSet)
        ensures
            set@ == Seq::<Seq<char>>::empty(),
            set.wf(),
    {
        let set = SyscallSet { names: Vec::new() };
        assert(set@ =~= Seq::<Seq<char>>::empty());
        set
    }

    /// The number of names.
    pub fn len(&self) -> (n: usize)
        ensures
            n == self@.len(),
    {
        self.names.len()
    }

    /// Whether the set holds no name.
    pub fn is_empty(&self) -> (b: bool)
        ensures
            b == (self@.len() == 0),
    {
        self.names.len() == 0
    }

    /// The names, in the order in which they were first seen.
    pub fn names(&self) -> (names: &Vec<String>)
        ensures
            texts(names@) == self@,
    {
        &self.names
    }

    /// Whether `name` is in the set.
    pub fn contains(&self, name: &String) -> (b: bool)
        ensures
            b == self@.contains(name@),
    {
        let mut i: usize = 0;
        while i < self.names.len()
            invariant
                i <= self.names.len(),
                forall|j: int| 0 <= j < i ==> self@[j] != name@,
            decreases self.names.len() - i,
        {
            if self.names[i] == *name {
                assert(self@[i as int] == name@);
                return true;
            }
            i += 1;
        }
        false
    }

    /// Offers `name` to the set. A new name is appended and `true` is
    /// returned; a name that the set already holds leaves it unchanged.
    pub fn insert(&mut self, name: String) -> (added: bool)
        requires
            old(self).wf(),
        ensures
            final(self).wf(),
            added == !old(self)@.contains(name@),
            final(self)@ == inserted(old(self)@, name@),
    {
        if self.contains(&name) {
            false
        } else {
            let ghost before = self@;
            self.names.push(name);
            assert(self@ =~= before.push(name@));
            true
        }
    }

    /// Ingests raw trace lines in order: each line's name, where it carries
    /// one, is offered to the set.
    pub fn ingest(&mut self, lines: &Vec<String>)
        requires
            old(self).wf(),
        ensures
            final(self).wf(),
            final(self)@ == ingested(old(self)@, texts(lines@)),
    {
        let ghost all = texts(lines@);
        let mut i: usize = 0;
        while i < lines.len()
            invariant
                i <= lines.len(),
                all == texts(lines@),
                self.wf(),
                self@ == ingested(old(self)@, all.take(i as int)),
            decreases lines.len() - i,
        {
            proof {
                assert(all.take(i + 1).drop_last() =~= all.take(i as int));
                assert(all.take(i + 1).last() == lines@[i as int]@);
            }
            match parse_syscall(lines[i].as_str()) {
                Some(name) => {
                    self.insert(name);
                },
                None => {},
            }
            i += 1;
        }
        assert(all.take(lines.len() as int) =~= all);
    }

    /// Forgets every name.
    pub fn clear(&mut self)
        ensures
            final(self)@ == Seq::<Seq<char>>::empty(),
            final(self).wf(),
    {
        self.names.clear();
        assert(self@ =~= Seq::<Seq<char>>::empty());
    }
}

} // verus!
