//! Reduces a snapshot to the one process that carries a given name.
use vstd::prelude::*;

use crate::process::Process;
use crate::text::{basename, basename_of};

verus! {

/// Why a name did not resolve to exactly one process.
#[derive(Debug, PartialEq, Eq)]
pub enum MatchError {
    /// No process carries the name.
    NotFound(String),
    /// Several processes carry the name; the count is how many.
    Ambiguous(String, usize),
}

/// A record carries the name `n` when the last path segment of its command equals `n`.
/// Only the record's side is reduced to its last segment.
pub open spec fn name_matches(p: Process, n: Seq<char>) -> bool {
    basename_of(p.cmd@) == n
}

/// The records of `s` that carry the name `n`, in snapshot order.
pub open spec fn matches_in(s: Seq<Process>, n: Seq<char>) -> Seq<Process>
    decreases s.len(),
{
    if s.len() == 0 {
        Seq::empty()
    } else if name_matches(s.last(), n) {
        matches_in(s.drop_last(), n).push(s.last())
    } else {
        matches_in(s.drop_last(), n)
    }
}

proof fn lemma_matches_in_bounded(s: Seq<Process>, n: Seq<char>)
    ensures
        matches_in(s, n).len() <= s.len(),
        forall|k: int| 0 <= k < matches_in(s, n).len() ==> name_matches(#[trigger] matches_in(s, n)[k], n),
    decreases s.len(),
{
    if s.len() > 0 {
        lemma_matches_in_bounded(s.drop_last(), n);
    }
}

proof fn lemma_basename_has_no_slash(s: Seq<char>)
    ensures
        forall|k: int| 0 <= k < basename_of(s).len() ==> #[trigger] basename_of(s)[k] != '/',
    decreases s.len(),
{
    if s.len() > 0 {
        lemma_basename_has_no_slash(s.drop_last());
        if s.last() != '/' {
            let b = basename_of(s.drop_last());
            assert forall|k: int| 0 <= k < b.push(s.last()).len() implies #[trigger] b.push(
                s.last(),
            )[k] != '/' by {
                if k < b.len() {
                    assert(b.push(s.last())[k] == b[k]);
                }
            }
        }
    }
}

/// When no record carries the name, nothing matches.
pub proof fn lemma_absent_name_matches_nothing(s: Seq<Process>, n: Seq<char>)
    requires
        forall|j: int| 0 <= j < s.len() ==> !name_matches(#[trigger] s[j], n),
    ensures
        matches_in(s, n).len() == 0,
    decreases s.len(),
{
    if s.len() > 0 {
        lemma_absent_name_matches_nothing(s.drop_last(), n);
    }
}

/// When exactly the record at `i` carries the name, the matches are that record alone.
pub proof fn lemma_unique_name_matches_its_record(s: Seq<Process>, n: Seq<char>, i: int)
    requires
        0 <= i < s.len(),
        name_matches(s[i], n),
        forall|j: int| 0 <= j < s.len() && j != i ==> !name_matches(#[trigger] s[j], n),
    ensures
        matches_in(s, n) == seq![s[i]],
    decreases s.len(),
{
    if i == s.len() - 1 {
        lemma_absent_name_matches_nothing(s.drop_last(), n);
        assert(matches_in(s, n) =~= seq![s[i]]);
    } else {
        lemma_unique_name_matches_its_record(s.drop_last(), n, i);
    }
}

proof fn lemma_carried_name_matches(s: Seq<Process>, n: Seq<char>, i: int)
    requires
        0 <= i < s.len(),
        name_matches(s[i], n),
    ensures
        matches_in(s, n).len() >= 1,
    decreases s.len(),
{
    if i < s.len() - 1 {
        lemma_carried_name_matches(s.drop_last(), n, i);
    }
}

/// When two distinct records carry the name, there are at least two matches.
pub proof fn lemma_shared_name_matches_several(s: Seq<Process>, n: Seq<char>, i: int, j: int)
    requires
        0 <= i < s.len(),
        0 <= j < s.len(),
        i != j,
        name_matches(s[i], n),
        name_matches(s[j], n),
    ensures
        matches_in(s, n).len() >= 2,
    decreases s.len(),
{
    if j == s.len() - 1 {
        lemma_carried_name_matches(s.drop_last(), n, i);
    } else if i == s.len() - 1 {
        lemma_carried_name_matches(s.drop_last(), n, j);
    } else {
        lemma_shared_name_matches_several(s.drop_last(), n, i, j);
    }
}

/// A target that holds a `/` never matches: the record side is reduced to its last
/// segment, the target is not.
pub proof fn lemma_target_with_slash_never_matches(p: Process, n: Seq<char>, k: int)
    requires
        0 <= k < n.len(),
        n[k] == '/',
    ensures
        !name_matches(p, n),
{
    lemma_basename_has_no_slash(p.cmd@);
}

/// Picks the one process of the snapshot whose command's last path segment is `name`.
pub fn find_process(mut processes: Vec<Process>, name: &str) -> (r: Result<Process, MatchError>)
    ensures
        ({
            let m = matches_in(processes@, name@);
            &&& m.len() == 0 ==> (r matches Err(MatchError::NotFound(t)) && t@ == name@)
            &&& m.len() == 1 ==> r == Ok::<Process, MatchError>(m[0])
            &&& m.len() >= 2 ==> (r matches Err(MatchError::Ambiguous(t, c)) && t@ == name@
                && c == m.len())
        }),
        r matches Ok(p) ==> name_matches(p, name@),
{
    let target = name.to_owned();
    let mut count: usize = 0;
    let mut first: usize = 0;
    let mut i: usize = 0;
    while i < processes.len()
        invariant
            target@ == name@,
            i <= processes@.len(),
            count == matches_in(processes@.subrange(0, i as int), name@).len(),
            count > 0 ==> first < i && matches_in(processes@.subrange(0, i as int), name@)[0]
                == processes@[first as int],
        decreases processes@.len() - i,
    {
        let ghost prev = processes@.subrange(0, i as int);
        proof {
            assert(processes@.subrange(0, i + 1).drop_last() =~= prev);
            lemma_matches_in_bounded(prev, name@);
        }
        let b = basename(&processes[i].cmd);
        if b == target {
            if count == 0 {
                first = i;
            }
            count = count + 1;
        }
        i = i + 1;
    }
    proof {
        assert(processes@.subrange(0, i as int) =~= processes@);
        lemma_matches_in_bounded(processes@, name@);
    }
    if count == 0 {
        Err(MatchError::NotFound(target))
    } else if count == 1 {
        Ok(processes.remove(first))
    } else {
        Err(MatchError::Ambiguous(target, count))
    }
}

} // verus!
