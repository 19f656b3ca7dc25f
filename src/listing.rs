//! Snapshot logic for the output of a process-listing tool asked for three columns: the
//! pid, the full command line and the short command name. The header line gives the
//! character offset where each column starts; each data line is cut at those offsets.
use vstd::prelude::*;

use crate::error::EnumerationError;
use crate::process::Process;
use crate::text::{
    digits_value, find, find_from, is_pid_text, lemma_split_on_nonempty, parse_pid, split_fields,
    split_on, split_tail, strip_trailing, tail_fields, trim, trim_spaces, views_of,
    without_trailing,
};

verus! {

/// Where the command line and the short name columns start, in characters.
#[derive(Debug, Clone, Copy, PartialEq, Eq)]
pub struct Columns {
    pub args: usize,
    pub comm: usize,
}

/// The offsets of the `ARGS` and `COMM` columns that a header gives, when it names `PID`,
/// `ARGS` and `COMM` in that order.
pub open spec fn header_columns(h: Seq<char>) -> Option<(int, int)> {
    match (find_from(h, "PID"@, 0), find_from(h, "ARGS"@, 0), find_from(h, "COMM"@, 0)) {
        (Some(p), Some(a), Some(c)) => if p < a && a < c {
            Some((a, c))
        } else {
            None
        },
        _ => None,
    }
}

/// `e` is the error that a header without a usable layout gives: the first of `PID`,
/// `ARGS`, `COMM` that it lacks, or, when it has all three out of order, the header itself.
pub open spec fn header_error(h: Seq<char>, e: EnumerationError) -> bool {
    if find_from(h, "PID"@, 0) is None {
        e matches EnumerationError::MissingColumn(t) && t@ == "PID"@
    } else if find_from(h, "ARGS"@, 0) is None {
        e matches EnumerationError::MissingColumn(t) && t@ == "ARGS"@
    } else if find_from(h, "COMM"@, 0) is None {
        e matches EnumerationError::MissingColumn(t) && t@ == "COMM"@
    } else {
        e matches EnumerationError::MalformedLine(t) && t@ == h
    }
}

/// A data line fits the layout when it reaches the name column and its pid column holds
/// a pid.
pub open spec fn line_fits(l: Seq<char>, a: int, c: int) -> bool {
    &&& 0 <= a <= c <= l.len()
    &&& is_pid_text(trim_spaces(l.subrange(0, a)))
}

/// `p` is the record that the data line `l` gives under the layout `(a, c)`.
pub open spec fn from_line(p: Process, l: Seq<char>, a: int, c: int) -> bool {
    &&& p.pid == digits_value(trim_spaces(l.subrange(0, a)))
    &&& p.cmd@ == trim_spaces(l.subrange(c, l.len() as int))
    &&& p.full_cmd_path is None
    &&& p.args matches Some(v) && views_of(v@) == tail_fields(
        trim_spaces(l.subrange(a, c)),
        ' ',
    )
}

/// The lines of the tool's output; a final newline ends the last line.
pub open spec fn lines_of(text: Seq<char>) -> Seq<Seq<char>> {
    split_on(without_trailing(text, '\n'), '\n')
}

/// Locates the columns in the header line.
pub fn parse_header(header: &str) -> (r: Result<Columns, EnumerationError>)
    ensures
        header_columns(header@) is None ==> (r matches Err(e) && header_error(header@, e)),
        header_columns(header@) matches Some((a, c)) ==> (r matches Ok(cols) && cols.args == a
            && cols.comm == c),
{
    let p = match find(header, "PID") {
        Some(p) => p,
        None => return Err(EnumerationError::MissingColumn("PID".to_owned())),
    };
    let a = match find(header, "ARGS") {
        Some(a) => a,
        None => return Err(EnumerationError::MissingColumn("ARGS".to_owned())),
    };
    let c = match find(header, "COMM") {
        Some(c) => c,
        None => return Err(EnumerationError::MissingColumn("COMM".to_owned())),
    };
    if p < a && a < c {
        Ok(Columns { args: a, comm: c })
    } else {
        Err(EnumerationError::MalformedLine(header.to_owned()))
    }
}

/// Cuts one data line at the columns' offsets.
pub fn parse_line(line: &str, cols: Columns) -> (r: Result<Process, EnumerationError>)
    ensures
        line_fits(line@, cols.args as int, cols.comm as int) ==> (r matches Ok(p) && from_line(
            p,
            line@,
            cols.args as int,
            cols.comm as int,
        )),
        !line_fits(line@, cols.args as int, cols.comm as int) ==> (r matches Err(
            EnumerationError::MalformedLine(t),
        ) && t@ == line@),
{
    let n = line.unicode_len();
    if cols.args > cols.comm || cols.comm > n {
        return Err(EnumerationError::MalformedLine(line.to_owned()));
    }
    let pid = match parse_pid(trim(line.substring_char(0, cols.args))) {
        Some(v) => v,
        None => return Err(EnumerationError::MalformedLine(line.to_owned())),
    };
    let args = split_tail(trim(line.substring_char(cols.args, cols.comm)), ' ');
    let cmd = trim(line.substring_char(cols.comm, n)).to_owned();
    Ok(Process { pid, cmd, full_cmd_path: None, args: Some(args) })
}

/// The snapshot that the tool's whole output gives: a header line, then one process per
/// line. A header without the three columns, or a line that does not fit the header's
/// layout, fails the whole listing: no line is skipped.
pub fn get_processes(text: &str) -> (r: Result<Vec<Process>, EnumerationError>)
    ensures
        header_columns(lines_of(text@)[0]) is None ==> (r matches Err(e) && header_error(
            lines_of(text@)[0],
            e,
        )),
        header_columns(lines_of(text@)[0]) matches Some((a, c)) ==> (r is Ok <==> forall|k: int|
            1 <= k < lines_of(text@).len() ==> line_fits(#[trigger] lines_of(text@)[k], a, c)),
        header_columns(lines_of(text@)[0]) matches Some((a, c)) ==> (r matches Ok(v) ==> v@.len()
            == lines_of(text@).len() - 1 && forall|k: int|
            0 <= k < v@.len() ==> from_line(#[trigger] v@[k], lines_of(text@)[k + 1], a, c)),
        header_columns(lines_of(text@)[0]) matches Some((a, c)) ==> (r matches Err(e) ==> exists|
            k: int,
        |
            1 <= k < lines_of(text@).len() && !line_fits(#[trigger] lines_of(text@)[k], a, c)
                && (forall|j: int| 1 <= j < k ==> line_fits(lines_of(text@)[j], a, c)) && (e matches EnumerationError::MalformedLine(t) && t@ == lines_of(text@)[k])),
{
    let lines = split_fields(strip_trailing(text, '\n'), '\n');
    proof {
        lemma_split_on_nonempty(without_trailing(text@, '\n'), '\n');
    }
    let ghost ls = lines_of(text@);
    let cols = match parse_header(lines[0].as_str()) {
        Ok(c) => c,
        Err(e) => return Err(e),
    };
    let ghost a = cols.args as int;
    let ghost c = cols.comm as int;
    let mut out: Vec<Process> = Vec::new();
    let mut i: usize = 1;
    while i < lines.len()
        invariant
            ls == lines_of(text@),
            views_of(lines@) == ls,
            header_columns(ls[0]) == Some((a, c)),
            a == cols.args,
            c == cols.comm,
            1 <= i <= lines@.len(),
            out@.len() == i - 1,
            forall|k: int| 1 <= k < i ==> line_fits(#[trigger] ls[k], a, c),
            forall|k: int| 0 <= k < out@.len() ==> from_line(#[trigger] out@[k], ls[k + 1], a, c),
        decreases lines@.len() - i,
    {
        proof {
            assert(ls[i as int] == lines@[i as int]@);
        }
        match parse_line(lines[i].as_str(), cols) {
            Ok(p) => out.push(p),
            Err(e) => {
                proof {
                    assert(!line_fits(ls[i as int], a, c));
                }
                return Err(e);
            },
        }
        i = i + 1;
    }
    Ok(out)
}

} // verus!
