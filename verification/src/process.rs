//! Running processes as the monitor lists them: a snapshot sorted by process
//! id, narrowed by a filter on names and command lines.

use vstd::prelude::*;
use crate::order::{
    lemma_sorted_is_ordered, lemma_sorted_is_permutation, lemma_sorted_payloads, payloads,
    sort_by_key, sorted_by_key,
};
use vstd::string::StringExecFns;
use crate::text::{chars_of, has_infix, is_infix, lowercase, texts, to_lowercase};

verus! {

/// A running process.
#[derive(Debug, PartialEq, Eq)]
pub struct ProcessInfo {
    pub pid: i32,
    pub name: String,
    pub cmd: String,
}

/// A running process as specifications see it.
pub struct ProcessRecord {
    pub pid: i32,
    pub name: Seq<char>,
    pub cmd: Seq<char>,
}

impl View for ProcessInfo {
    type V = ProcessRecord;

    open spec fn view(&self) -> ProcessRecord {
        ProcessRecord { pid: self.pid, name: self.name@, cmd: self.cmd@ }
    }
}

impl Clone for ProcessInfo {
    fn clone(&self) -> (copy: Self)
        ensures
            copy == *self,
    {
        ProcessInfo { pid: self.pid, name: self.name.clone(), cmd: self.cmd.clone() }
    }
}

/// The records of a sequence of processes.
pub open spec fn records(v: Seq<ProcessInfo>) -> Seq<ProcessRecord> {
    Seq::new(v.len(), |i: int| v[i]@)
}

/// Whether `pid` can be the id of a process: process ids begin at 1.
pub open spec fn is_process_id(pid: i32) -> bool {
    pid >= 1
}

/// The test for a record carrying a process id.
pub open spec fn identified() -> spec_fn(ProcessRecord) -> bool {
    |p: ProcessRecord| is_process_id(p.pid)
}

/// Whether every record of `all` carries a process id.
pub open spec fn all_identified(all: Seq<ProcessRecord>) -> bool {
    forall|i: int| 0 <= i < all.len() ==> is_process_id(#[trigger] all[i].pid)
}

/// The records of `all` that carry a process id, in the order of `all`.
pub open spec fn with_process_ids(all: Seq<ProcessRecord>) -> Seq<ProcessRecord> {
    all.filter(identified())
}

/// The arguments `args` as one command line: joined, with one space between
/// each two.
pub open spec fn joined(args: Seq<Seq<char>>) -> Seq<char>
    decreases args.len(),
{
    if args.len() == 0 {
        Seq::empty()
    } else if args.len() == 1 {
        args[0]
    } else {
        joined(args.drop_last()) + seq![' '] + args.last()
    }
}

/// Whether the filter text `filter` lets the process `p` through: an empty
/// filter lets every process through; any other must occur, without regard to
/// case, in the name or in the command line.
pub open spec fn passes(p: ProcessRecord, filter: Seq<char>) -> bool {
    filter.len() == 0 || is_infix(lowercase(filter), lowercase(p.name)) || is_infix(
        lowercase(filter),
        lowercase(p.cmd),
    )
}

/// The test for a process passing `filter`.
pub open spec fn passing(filter: Seq<char>) -> spec_fn(ProcessRecord) -> bool {
    |p: ProcessRecord| passes(p, filter)
}

/// The processes of `all` that pass `filter`, in the order of `all`.
pub open spec fn filtered(all: Seq<ProcessRecord>, filter: Seq<char>) -> Seq<ProcessRecord> {
    all.filter(passing(filter))
}

/// Each process paired with its id as the key to sort by.
pub open spec fn keyed_by_pid(all: Seq<ProcessRecord>) -> Seq<(i64, ProcessRecord)> {
    Seq::new(all.len(), |i: int| (all[i].pid as i64, all[i]))
}

/// The processes of `all` by ascending process id, processes with the same
/// id in the order of `all`.
pub open spec fn by_pid(all: Seq<ProcessRecord>) -> Seq<ProcessRecord> {
    payloads(sorted_by_key(keyed_by_pid(all), false))
}

/// Whether the process ids of `all` never descend.
pub open spec fn is_sorted_by_pid(all: Seq<ProcessRecord>) -> bool {
    forall|i: int, j: int| 0 <= i < j < all.len() ==> all[i].pid <= all[j].pid
}

/// A snapshot as the monitor takes it in: the records that carry a process
/// id, by ascending id.
pub open spec fn snapshot_of(all: Seq<ProcessRecord>) -> Seq<ProcessRecord> {
    by_pid(with_process_ids(all))
}

/// What is taken in of a snapshot: exactly its records with a process id,
/// each as often as it came, in ascending order of ids.
pub proof fn lemma_snapshot_of(all: Seq<ProcessRecord>)
    ensures
        all_identified(snapshot_of(all)),
        is_sorted_by_pid(snapshot_of(all)),
        snapshot_of(all).to_multiset() == with_process_ids(all).to_multiset(),
        forall|p: ProcessRecord|
            snapshot_of(all).contains(p) <==> all.contains(p) && is_process_id(p.pid),
        all_identified(all) ==> snapshot_of(all) == by_pid(all),
{
    let valid = with_process_ids(all);
    let taken = snapshot_of(all);
    lemma_by_pid(valid);
    assert forall|p: ProcessRecord| taken.contains(p) <==> valid.contains(p) by {
        vstd::seq_lib::to_multiset_contains(taken, p);
        vstd::seq_lib::to_multiset_contains(valid, p);
    }
    assert forall|p: ProcessRecord| valid.contains(p) <==> all.contains(p) && is_process_id(
        p.pid,
    ) by {
        if valid.contains(p) {
            all.lemma_filter_contains_rev(identified(), p);
            let i = choose|i: int| 0 <= i < valid.len() && valid[i] == p;
            all.lemma_filter_pred(identified(), i);
        }
        if all.contains(p) && is_process_id(p.pid) {
            let i = choose|i: int| 0 <= i < all.len() && all[i] == p;
            all.lemma_filter_contains(identified(), i);
        }
    }
    assert forall|i: int| 0 <= i < taken.len() implies is_process_id(
        (#[trigger] taken[i]).pid,
    ) by {
        assert(taken.contains(taken[i]));
    }
    if all_identified(all) {
        lemma_filter_keeps_all(all);
    }
}

/// Where every record carries a process id, none is dropped.
pub proof fn lemma_filter_keeps_all(all: Seq<ProcessRecord>)
    requires
        all_identified(all),
    ensures
        with_process_ids(all) == all,
    decreases all.len(),
{
    reveal(Seq::filter);
    if all.len() > 0 {
        let front = all.drop_last();
        assert forall|i: int| 0 <= i < front.len() implies is_process_id(
            (#[trigger] front[i]).pid,
        ) by {
            assert(front[i] == all[i]);
        }
        lemma_filter_keeps_all(front);
        assert(is_process_id(all[all.len() - 1].pid));
        assert(front.push(all.last()) =~= all);
    }
}

/// The processes that pass a filter are among those that it was applied to.
pub proof fn lemma_filtered(all: Seq<ProcessRecord>, filter: Seq<char>)
    ensures
        forall|p: ProcessRecord|
            filtered(all, filter).contains(p) <==> all.contains(p) && passes(p, filter),
        all_identified(all) ==> all_identified(filtered(all, filter)),
        filtered(all, filter).len() <= all.len(),
{
    let kept = filtered(all, filter);
    all.lemma_filter_len(passing(filter));
    assert forall|p: ProcessRecord| kept.contains(p) <==> all.contains(p) && passes(
        p,
        filter,
    ) by {
        if kept.contains(p) {
            all.lemma_filter_contains_rev(passing(filter), p);
            let i = choose|i: int| 0 <= i < kept.len() && kept[i] == p;
            all.lemma_filter_pred(passing(filter), i);
        }
        if all.contains(p) && passes(p, filter) {
            let i = choose|i: int| 0 <= i < all.len() && all[i] == p;
            all.lemma_filter_contains(passing(filter), i);
        }
    }
    if all_identified(all) {
        assert forall|i: int| 0 <= i < kept.len() implies is_process_id(
            (#[trigger] kept[i]).pid,
        ) by {
            assert(kept.contains(kept[i]));
            let k = choose|k: int| 0 <= k < all.len() && all[k] == kept[i];
            assert(is_process_id(all[k].pid));
        }
    }
}

/// Sorting by process id rearranges a snapshot into ascending order of ids.
pub proof fn lemma_by_pid(all: Seq<ProcessRecord>)
    ensures
        by_pid(all).len() == all.len(),
        by_pid(all).to_multiset() == all.to_multiset(),
        is_sorted_by_pid(by_pid(all)),
{
    let keyed = keyed_by_pid(all);
    let sorted = sorted_by_key(keyed, false);
    lemma_sorted_is_ordered(keyed, false);
    lemma_sorted_is_permutation(keyed, false);
    lemma_sorted_payloads(keyed, false);
    assert(payloads(keyed) =~= all);
    assert forall|i: int| 0 <= i < sorted.len() implies (#[trigger] sorted[i]).0
        == sorted[i].1.pid as i64 by {
        // Every sorted entry is one of the keyed entries, whose key is its process id.
        vstd::seq_lib::to_multiset_contains(sorted, sorted[i]);
        vstd::seq_lib::to_multiset_contains(keyed, sorted[i]);
        assert(sorted.contains(sorted[i]));
        let k = choose|k: int| 0 <= k < keyed.len() && keyed[k] == sorted[i];
        assert(keyed[k].0 == keyed[k].1.pid as i64);
    }
    assert forall|i: int, j: int| 0 <= i < j < by_pid(all).len() implies by_pid(all)[i].pid
        <= by_pid(all)[j].pid by {
        assert(crate::order::in_order(sorted[i].0, sorted[j].0, false));
    }
}

/// Makes the record of a process from what the process table holds of it.
/// An id that is no process id (0, or one that does not fit) gives no record.
pub fn process_info(pid: u32, name: String, cmd: String) -> (info: Option<ProcessInfo>)
    ensures
        info is Some <==> 1 <= pid <= i32::MAX,
        info matches Some(p) ==> p@ == (ProcessRecord {
            pid: pid as i32,
            name: name@,
            cmd: cmd@,
        }),
{
    if 1 <= pid && pid <= 0x7fff_ffff {
        Some(ProcessInfo { pid: pid as i32, name, cmd })
    } else {
        None
    }
}

/// Joins the arguments of a process into its command line, with one space
/// between each two.
pub fn command_line(args: &Vec<String>) -> (line: String)
    ensures
        line@ == joined(texts(args@)),
{
    let mut line = String::new();
    let ghost all = texts(args@);
    let mut i: usize = 0;
    while i < args.len()
        invariant
            i <= args.len(),
            all == texts(args@),
            line@ == joined(all.take(i as int)),
        decreases args.len() - i,
    {
        proof {
            assert(all.take(i + 1).drop_last() =~= all.take(i as int));
            assert(all.take(i + 1).last() == args@[i as int]@);
        }
        if i > 0 {
            line.push(' ');
            assert(line@ =~= joined(all.take(i as int)) + seq![' ']);
        } else {
            assert(Seq::<char>::empty() + args@[i as int]@ =~= args@[i as int]@);
        }
        line.append(args[i].as_str());
        i += 1;
    }
    assert(all.take(args.len() as int) =~= all);
    line
}

/// Takes in a snapshot of the process table: drops the records without a
/// process id and sorts the rest by ascending id.
pub fn snapshot(all: Vec<ProcessInfo>) -> (taken: Vec<ProcessInfo>)
    ensures
        records(taken@) == snapshot_of(records(all@)),
{
    let mut valid: Vec<ProcessInfo> = Vec::new();
    let ghost test = identified();
    let ghost recs = records(all@);
    let mut i: usize = 0;
    assert(recs.take(0).filter(test) =~= Seq::empty()) by {
        reveal(Seq::filter);
    }
    while i < all.len()
        invariant
            i <= all.len(),
            recs == records(all@),
            test == identified(),
            records(valid@) =~= recs.take(i as int).filter(test),
        decreases all.len() - i,
    {
        let ghost before = valid@;
        proof {
            assert(recs.take(i + 1) =~= recs.take(i as int).push(all@[i as int]@));
            recs.take(i as int).lemma_filter_push(all@[i as int]@, test);
        }
        if all[i].pid >= 1 {
            valid.push(all[i].clone());
            assert(records(valid@) =~= records(before).push(all@[i as int]@));
        }
        i += 1;
    }
    assert(recs.take(all.len() as int) =~= recs);
    sort_by_pid(valid)
}

/// Tells whether the process `p` passes the filter text `filter`.
pub fn passes_filter(p: &ProcessInfo, filter: &str) -> (b: bool)
    ensures
        b == passes(p@, filter@),
{
    let needle = chars_of(to_lowercase(filter).as_str());
    let wanted = chars_of(filter);
    wanted.len() == 0 || contains_needle(p, &needle)
}

/// Tells whether the lowercase needle occurs in the lowercase name or command line of `p`.
fn contains_needle(p: &ProcessInfo, needle: &Vec<char>) -> (b: bool)
    ensures
        b == (is_infix(needle@, lowercase(p@.name)) || is_infix(needle@, lowercase(p@.cmd))),
{
    let name = chars_of(to_lowercase(p.name.as_str()).as_str());
    if has_infix(&name, needle) {
        return true;
    }
    let cmd = chars_of(to_lowercase(p.cmd.as_str()).as_str());
    has_infix(&cmd, needle)
}

/// The processes of `all` that pass `filter`, in order.
pub fn filter_processes(all: &Vec<ProcessInfo>, filter: &str) -> (kept: Vec<ProcessInfo>)
    ensures
        records(kept@) == filtered(records(all@), filter@),
{
    let needle = chars_of(to_lowercase(filter).as_str());
    let every = chars_of(filter).len() == 0;
    let mut kept: Vec<ProcessInfo> = Vec::new();
    let ghost test = passing(filter@);
    let ghost recs = records(all@);
    let mut i: usize = 0;
    assert(recs.take(0).filter(test) =~= Seq::empty()) by {
        reveal(Seq::filter);
    }
    while i < all.len()
        invariant
            i <= all.len(),
            recs == records(all@),
            test == passing(filter@),
            needle@ == lowercase(filter@),
            every == (filter@.len() == 0),
            records(kept@) =~= recs.take(i as int).filter(test),
        decreases all.len() - i,
    {
        let ghost before = kept@;
        proof {
            assert(recs.take(i + 1) =~= recs.take(i as int).push(all@[i as int]@));
            recs.take(i as int).lemma_filter_push(all@[i as int]@, test);
        }
        if every || contains_needle(&all[i], &needle) {
            kept.push(all[i].clone());
            assert(records(kept@) =~= records(before).push(all@[i as int]@));
        }
        i += 1;
    }
    assert(recs.take(all.len() as int) =~= recs);
    kept
}

/// Sorts a snapshot by ascending process id, keeping processes with the same
/// id in the order in which they came.
pub fn sort_by_pid(all: Vec<ProcessInfo>) -> (sorted: Vec<ProcessInfo>)
    ensures
        records(sorted@) == by_pid(records(all@)),
{
    let mut keyed: Vec<(i64, ProcessInfo)> = Vec::new();
    let mut i: usize = 0;
    while i < all.len()
        invariant
            i <= all.len(),
            keyed@.len() == i,
            forall|j: int| 0 <= j < i ==> keyed@[j] == (all@[j].pid as i64, all@[j]),
        decreases all.len() - i,
    {
        keyed.push((all[i].pid as i64, all[i].clone()));
        i += 1;
    }
    let ordered = sort_by_key(keyed, false);
    proof {
        crate::order::lemma_sorted_map_payload(keyed@, |p: ProcessInfo| p@, false);
        assert(crate::order::map_payload(keyed@, |p: ProcessInfo| p@) =~= keyed_by_pid(
            records(all@),
        ));
    }
    let mut sorted: Vec<ProcessInfo> = Vec::new();
    let mut k: usize = 0;
    while k < ordered.len()
        invariant
            k <= ordered.len(),
            sorted@.len() == k,
            forall|j: int| 0 <= j < k ==> sorted@[j]@ == ordered@[j].1@,
        decreases ordered.len() - k,
    {
        sorted.push(ordered[k].1.clone());
        k += 1;
    }
    assert(records(sorted@) =~= by_pid(records(all@)));
    sorted
}

} // verus!
