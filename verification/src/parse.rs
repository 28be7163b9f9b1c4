//! Extraction of the system-call name from one line of tracer output.

use vstd::prelude::*;
use crate::text::{
    chars_of, char_is_alphabetic, is_alphabetic, lemma_position, lemma_position_is, position,
    string_of, trim_bounds, trimmed,
};

verus! {

/// The system-call name that a raw line carries, if it carries one.
///
/// A line carries a name when, with the whitespace at both ends removed, it is
/// not empty, begins with an alphabetic character and holds a `(`. The name is
/// everything before the first `(`. Other lines (signal and exit notices,
/// partial output) carry none.
pub open spec fn syscall_name(line: Seq<char>) -> Option<Seq<char>> {
    let t = trimmed(line);
    if t.len() == 0 || !is_alphabetic(t[0]) || !t.contains('(') {
        None
    } else {
        Some(t.take(position(t, '(')))
    }
}

/// The characters of `v[from..to]` that stand before the first `mark`, or
/// `None` where that stretch holds no `mark`.
pub fn text_before(v: &Vec<char>, from: usize, to: usize, mark: char) -> (text: Option<String>)
    requires
        from <= to <= v.len(),
    ensures
        match text {
            Some(t) => v@.subrange(from as int, to as int).contains(mark) && t@ == v@.subrange(
                from as int,
                to as int,
            ).take(position(v@.subrange(from as int, to as int), mark)),
            None => !v@.subrange(from as int, to as int).contains(mark),
        },
{
    let ghost stretch = v@.subrange(from as int, to as int);
    let mut k: usize = from;
    while k < to && v[k] != mark
        invariant
            from <= k <= to <= v.len(),
            forall|j: int| from <= j < k ==> v@[j] != mark,
        decreases to - k,
    {
        k += 1;
    }
    proof {
        assert forall|j: int| 0 <= j < k - from implies stretch[j] != mark by {
            assert(stretch[j] == v@[from + j]);
        }
        if k < to {
            assert(stretch[k - from] == v@[k as int]);
        }
        lemma_position_is(stretch, mark, k - from);
        lemma_position(stretch, mark);
    }
    if k == to {
        return None;
    }
    let text = string_of(v, from, k);
    proof {
        assert(stretch.take(k - from) =~= v@.subrange(from as int, k as int));
    }
    Some(text)
}

/// Extracts the system-call name from a line of tracer output.
pub fn parse_syscall(line: &str) -> (name: Option<String>)
    ensures
        match name {
            Some(n) => syscall_name(line@) == Some(n@),
            None => syscall_name(line@).is_none(),
        },
{
    let v = chars_of(line);
    let (start, end) = trim_bounds(&v);
    if start == end {
        return None;
    }
    assert(trimmed(line@)[0] == v@[start as int]);
    if !char_is_alphabetic(v[start]) {
        return None;
    }
    text_before(&v, start, end, '(')
}

} // verus!
