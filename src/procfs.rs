//! Snapshot logic for systems that expose a process pseudo-filesystem: one directory per
//! process, named by its pid, holding the command name, the argument vector and a link to
//! the executable image.
use vstd::prelude::*;

use crate::process::Process;
use crate::text::{
    digits_value, is_pid_text, parse_pid, split_tail, strip_trailing, tail_fields, views_of,
    without_trailing,
};

verus! {

/// An entry found directly under the process root.
#[derive(Debug, PartialEq, Eq)]
pub struct ProcEntry {
    pub name: String,
    pub is_dir: bool,
}

/// What could be read for one candidate pid; `None` where the file was gone or unreadable.
#[derive(Debug, PartialEq, Eq)]
pub struct ProcFiles {
    pub pid: usize,
    /// Contents of the short command name file.
    pub comm: Option<String>,
    /// Contents of the null-separated argument vector file.
    pub cmdline: Option<String>,
    /// Target of the link to the executable image.
    pub exe: Option<String>,
}

/// The pids named by the directory entries, in order; other entries are left out.
pub open spec fn pids_of(entries: Seq<ProcEntry>) -> Seq<usize>
    decreases entries.len(),
{
    if entries.len() == 0 {
        Seq::empty()
    } else {
        let e = entries.last();
        let rest = pids_of(entries.drop_last());
        if e.is_dir && is_pid_text(e.name@) {
            rest.push(digits_value(e.name@) as usize)
        } else {
            rest
        }
    }
}

/// The arguments held by a null-separated argument vector, the command itself left out.
/// A final terminator ends the last argument and starts no new one.
pub open spec fn cmd_line_args(s: Seq<char>) -> Seq<Seq<char>> {
    tail_fields(without_trailing(s, '\0'), '\0')
}

/// `p` is the record that the files read for `pid` give.
pub open spec fn describes(
    p: Process,
    pid: usize,
    comm: Option<String>,
    cmdline: Option<String>,
    exe: Option<String>,
) -> bool {
    &&& p.pid == pid
    &&& comm matches Some(c) && p.cmd@ == without_trailing(c@, '\n')
    &&& exe matches Some(e) && p.full_cmd_path matches Some(x) && x@ == e@
    &&& cmdline matches Some(l) && p.args matches Some(a) && views_of(a@) == cmd_line_args(l@)
}

/// All three files of a candidate could be read.
pub open spec fn all_read(f: ProcFiles) -> bool {
    f.comm is Some && f.cmdline is Some && f.exe is Some
}

/// The candidates for which a record is made: those listed under the process root, all of
/// whose files could be read.
pub open spec fn readable(c: Seq<ProcFiles>, pids: Seq<usize>) -> Seq<ProcFiles>
    decreases c.len(),
{
    if c.len() == 0 {
        Seq::empty()
    } else if all_read(c.last()) && pids.contains(c.last().pid) {
        readable(c.drop_last(), pids).push(c.last())
    } else {
        readable(c.drop_last(), pids)
    }
}

/// Every pid taken from the directory entries is named by a directory whose name is the
/// decimal notation of that pid; entries such as `self` or `42x` give none.
pub proof fn lemma_pids_come_from_numeric_dirs(entries: Seq<ProcEntry>, pid: usize)
    requires
        pids_of(entries).contains(pid),
    ensures
        exists|j: int|
            0 <= j < entries.len() && (#[trigger] entries[j]).is_dir && is_pid_text(
                entries[j].name@,
            ) && digits_value(entries[j].name@) == pid,
    decreases entries.len(),
{
    let e = entries.last();
    let rest = pids_of(entries.drop_last());
    if e.is_dir && is_pid_text(e.name@) && pid == digits_value(e.name@) as usize {
        assert(entries[entries.len() - 1] == e);
    } else {
        if e.is_dir && is_pid_text(e.name@) {
            let full = rest.push(digits_value(e.name@) as usize);
            let k = choose|k: int| 0 <= k < full.len() && #[trigger] full[k] == pid;
            assert(k < rest.len());
            assert(rest[k] == pid);
        }
        assert(rest.contains(pid));
        lemma_pids_come_from_numeric_dirs(entries.drop_last(), pid);
        let j = choose|j: int|
            0 <= j < entries.drop_last().len() && (#[trigger] entries.drop_last()[j]).is_dir
                && is_pid_text(entries.drop_last()[j].name@) && digits_value(
                entries.drop_last()[j].name@,
            ) == pid;
        assert(entries[j] == entries.drop_last()[j]);
    }
}

/// The pids of the directories under the process root whose names are positive integers.
pub fn candidate_pids(entries: &Vec<ProcEntry>) -> (r: Vec<usize>)
    ensures
        r@ == pids_of(entries@),
{
    let mut pids: Vec<usize> = Vec::new();
    let mut i: usize = 0;
    while i < entries.len()
        invariant
            i <= entries@.len(),
            pids@ == pids_of(entries@.subrange(0, i as int)),
        decreases entries@.len() - i,
    {
        proof {
            assert(entries@.subrange(0, i + 1).drop_last() =~= entries@.subrange(0, i as int));
        }
        let e = &entries[i];
        if e.is_dir {
            match parse_pid(e.name.as_str()) {
                Some(pid) => pids.push(pid),
                None => {},
            }
        }
        i = i + 1;
    }
    proof {
        assert(entries@.subrange(0, i as int) =~= entries@);
    }
    pids
}

/// The arguments held by the contents of an argument vector file.
pub fn get_cmd_line(contents: &str) -> (r: Vec<String>)
    ensures
        views_of(r@) == cmd_line_args(contents@),
{
    split_tail(strip_trailing(contents, '\0'), '\0')
}

/// The record for `pid`, from what could be read of its files. Where any of them could not
/// be read (the process exited, or it is not ours to read) there is no record.
pub fn get_info_for(
    pid: usize,
    comm: Option<String>,
    cmdline: Option<String>,
    exe: Option<String>,
) -> (r: Option<Process>)
    ensures
        r is Some <==> (comm is Some && cmdline is Some && exe is Some),
        r matches Some(p) ==> describes(p, pid, comm, cmdline, exe),
{
    let name = match &comm {
        Some(c) => strip_trailing(c.as_str(), '\n').to_owned(),
        None => return None,
    };
    let args = match &cmdline {
        Some(l) => get_cmd_line(l.as_str()),
        None => return None,
    };
    let path = match &exe {
        Some(e) => e.as_str().to_owned(),
        None => return None,
    };
    Some(Process { pid, cmd: name, full_cmd_path: Some(path), args: Some(args) })
}

/// The snapshot made of what was read for each candidate, in order. A candidate is kept
/// when its pid is named by a directory entry under the process root whose name is a
/// positive integer, and all of its files could be read; any other is left out, and no
/// error comes of it.
pub fn get_processes(entries: &Vec<ProcEntry>, candidates: Vec<ProcFiles>) -> (r: Vec<Process>)
    ensures
        r@.len() == readable(candidates@, pids_of(entries@)).len(),
        forall|k: int|
            0 <= k < r@.len() ==> {
                let f = #[trigger] readable(candidates@, pids_of(entries@))[k];
                describes(r@[k], f.pid, f.comm, f.cmdline, f.exe)
            },
        forall|k: int| 0 <= k < r@.len() ==> pids_of(entries@).contains(#[trigger] r@[k].pid),
{
    let pids = candidate_pids(entries);
    let ghost listed = pids_of(entries@);
    let mut out: Vec<Process> = Vec::new();
    let mut i: usize = 0;
    while i < candidates.len()
        invariant
            pids@ == listed,
            listed == pids_of(entries@),
            i <= candidates@.len(),
            out@.len() == readable(candidates@.subrange(0, i as int), listed).len(),
            forall|k: int|
                0 <= k < out@.len() ==> {
                    let f = #[trigger] readable(candidates@.subrange(0, i as int), listed)[k];
                    describes(out@[k], f.pid, f.comm, f.cmdline, f.exe) && listed.contains(f.pid)
                },
        decreases candidates@.len() - i,
    {
        proof {
            assert(candidates@.subrange(0, i + 1).drop_last() =~= candidates@.subrange(
                0,
                i as int,
            ));
        }
        let c = &candidates[i];
        if contains_pid(&pids, c.pid) {
            let rec = get_info_for(c.pid, c.comm.clone(), c.cmdline.clone(), c.exe.clone());
            match rec {
                Some(p) => out.push(p),
                None => {},
            }
        }
        i = i + 1;
    }
    proof {
        assert(candidates@.subrange(0, i as int) =~= candidates@);
        assert forall|k: int| 0 <= k < out@.len() implies listed.contains(#[trigger] out@[k].pid) by {
            let f = readable(candidates@, listed)[k];
            assert(describes(out@[k], f.pid, f.comm, f.cmdline, f.exe));
        }
    }
    out
}

/// Whether `pid` is among `pids`.
fn contains_pid(pids: &Vec<usize>, pid: usize) -> (r: bool)
    ensures
        r == pids@.contains(pid),
{
    let mut i: usize = 0;
    while i < pids.len()
        invariant
            i <= pids@.len(),
            forall|k: int| 0 <= k < i ==> pids@[k] != pid,
        decreases pids@.len() - i,
    {
        if pids[i] == pid {
            return true;
        }
        i = i + 1;
    }
    false
}

} // verus!
