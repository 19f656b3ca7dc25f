//! Snapshot logic for systems that answer a two-phase kernel table query: a first call
//! gives the table's size in bytes, a second fills a buffer of fixed-size records, each
//! with a fixed-length, null-terminated command name.
use vstd::prelude::*;

use crate::error::EnumerationError;
use crate::process::Process;
use vstd::utf8::{decode_utf8, valid_utf8};

verus! {

/// One record of the kernel's process table: the pid and the raw command name field.
#[derive(Debug, PartialEq, Eq)]
pub struct KinfoEntry {
    pub pid: i32,
    pub comm: Vec<i8>,
}

/// The text that lossy UTF-8 decoding gives for `b`.
pub uninterp spec fn lossy_text(b: Seq<u8>) -> Seq<char>;

/// Bytes below 128 read as the characters of the same code.
pub open spec fn ascii_text(b: Seq<u8>) -> Seq<char> {
    b.map_values(|x: u8| x as char)
}

pub open spec fn all_ascii(b: Seq<u8>) -> bool {
    forall|k: int| 0 <= k < b.len() ==> #[trigger] b[k] < 128
}

/// Relies on `String::from_utf8_lossy`: the text depends on the bytes alone, and bytes
/// that are valid UTF-8 (all ASCII among them) are decoded as they are.
#[verifier::external_body]
fn decode_lossy(b: &[u8]) -> (r: String)
    ensures
        r@ == lossy_text(b@),
        valid_utf8(b@) ==> r@ == decode_utf8(b@),
        all_ascii(b@) ==> r@ == ascii_text(b@),
{
    String::from_utf8_lossy(b).into_owned()
}

/// The bytes of a name field before its first zero byte.
pub open spec fn until_nul(b: Seq<i8>) -> Seq<u8>
    decreases b.len(),
{
    if b.len() == 0 || b[0] == 0 {
        Seq::empty()
    } else {
        seq![#[verifier::truncate] (b[0] as u8)] + until_nul(b.drop_first())
    }
}

/// The command name held by a fixed-length, null-terminated name field.
pub fn format_name(buf: &[i8]) -> (r: String)
    ensures
        r@ == lossy_text(until_nul(buf@)),
        valid_utf8(until_nul(buf@)) ==> r@ == decode_utf8(until_nul(buf@)),
        all_ascii(until_nul(buf@)) ==> r@ == ascii_text(until_nul(buf@)),
{
    let mut bytes: Vec<u8> = Vec::new();
    let mut i: usize = 0;
    proof {
        assert(buf@.subrange(0, buf@.len() as int) =~= buf@);
        assert(bytes@ + until_nul(buf@) =~= until_nul(buf@));
    }
    while i < buf.len() && buf[i] != 0
        invariant
            i <= buf@.len(),
            until_nul(buf@) == bytes@ + until_nul(buf@.subrange(i as int, buf@.len() as int)),
        decreases buf@.len() - i,
    {
        let ghost rest = buf@.subrange(i as int, buf@.len() as int);
        let n = buf[i];
        let b = #[verifier::truncate] (n as u8);
        proof {
            assert(rest.drop_first() =~= buf@.subrange(i + 1, buf@.len() as int));
            assert(bytes@ + until_nul(rest) =~= bytes@.push(b) + until_nul(
                buf@.subrange(i + 1, buf@.len() as int),
            ));
        }
        bytes.push(b);
        i = i + 1;
    }
    proof {
        assert(bytes@ + until_nul(buf@.subrange(i as int, buf@.len() as int)) =~= bytes@);
    }
    decode_lossy(bytes.as_slice())
}

/// How many records to allocate after the size query, or the error that its status gives.
pub fn table_capacity(status: i32, byte_len: usize, record_size: usize) -> (r: Result<
    usize,
    EnumerationError,
>)
    requires
        record_size > 0,
    ensures
        status != 0 ==> r == Err::<usize, EnumerationError>(EnumerationError::SizeQuery(status)),
        status == 0 ==> r == Ok::<usize, EnumerationError>(byte_len / record_size),
{
    if status != 0 {
        Err(EnumerationError::SizeQuery(status))
    } else {
        Ok(byte_len / record_size)
    }
}

/// What a kernel query answered.
#[derive(Debug, PartialEq, Eq)]
pub enum QueryReply {
    /// The size query: its status and the table's size in bytes.
    Size { status: i32, byte_len: usize },
    /// The fill query: its status and the records it wrote.
    Table { status: i32, entries: Vec<KinfoEntry> },
}

/// What to do next in the enumeration.
#[derive(Debug, PartialEq, Eq)]
pub enum QueryNext {
    /// Issue the fill query into a zeroed buffer of this many records.
    FillTable { capacity: usize },
    /// The enumeration is over, with this outcome; no further query is made.
    Finish(Result<Vec<Process>, EnumerationError>),
}

/// The entries that make records: those with a non-negative pid.
pub open spec fn listed(s: Seq<KinfoEntry>) -> Seq<KinfoEntry>
    decreases s.len(),
{
    if s.len() == 0 {
        Seq::empty()
    } else if s.last().pid >= 0 {
        listed(s.drop_last()).push(s.last())
    } else {
        listed(s.drop_last())
    }
}

/// `p` is the record that the table entry `e` gives: no path and no arguments are known.
pub open spec fn from_entry(p: Process, e: KinfoEntry) -> bool {
    &&& p.pid == e.pid as usize
    &&& p.cmd@ == lossy_text(until_nul(e.comm@))
    &&& p.full_cmd_path is None
    &&& p.args is None
}

/// One step of the two-phase query: given the reply to the last query, says whether to
/// fill the table or what the enumeration ends with. A failed size query ends it at once,
/// so the fill query is never issued after one.
pub fn get_processes(reply: QueryReply, record_size: usize) -> (r: QueryNext)
    requires
        record_size > 0,
    ensures
        reply matches QueryReply::Size { status, byte_len } ==> (status != 0 ==> r == QueryNext::Finish(
            Err(EnumerationError::SizeQuery(status)),
        )) && (status == 0 ==> r == QueryNext::FillTable { capacity: byte_len / record_size }),
        reply matches QueryReply::Table { status, entries } ==> (status != 0 ==> r
            == QueryNext::Finish(Err(EnumerationError::TableQuery(status)))) && (status == 0 ==> (
        r matches QueryNext::Finish(Ok(v)) && v@.len() == listed(entries@).len() && forall|k: int|
            0 <= k < v@.len() ==> from_entry(v@[k], #[trigger] listed(entries@)[k]))),
{
    match reply {
        QueryReply::Size { status, byte_len } => match table_capacity(status, byte_len, record_size) {
            Ok(capacity) => QueryNext::FillTable { capacity },
            Err(e) => QueryNext::Finish(Err(e)),
        },
        QueryReply::Table { status, entries } => {
            if status != 0 {
                QueryNext::Finish(Err(EnumerationError::TableQuery(status)))
            } else {
                QueryNext::Finish(Ok(records_from(&entries)))
            }
        },
    }
}

/// The records that a filled process table gives, in order.
pub fn records_from(entries: &Vec<KinfoEntry>) -> (r: Vec<Process>)
    ensures
        r@.len() == listed(entries@).len(),
        forall|k: int| 0 <= k < r@.len() ==> from_entry(r@[k], #[trigger] listed(entries@)[k]),
{
    let mut out: Vec<Process> = Vec::new();
    let mut i: usize = 0;
    while i < entries.len()
        invariant
            i <= entries@.len(),
            out@.len() == listed(entries@.subrange(0, i as int)).len(),
            forall|k: int|
                0 <= k < out@.len() ==> from_entry(
                    out@[k],
                    #[trigger] listed(entries@.subrange(0, i as int))[k],
                ),
        decreases entries@.len() - i,
    {
        proof {
            assert(entries@.subrange(0, i + 1).drop_last() =~= entries@.subrange(0, i as int));
        }
        let e = &entries[i];
        if e.pid >= 0 {
            let name = format_name(e.comm.as_slice());
            out.push(Process { pid: e.pid as usize, cmd: name, full_cmd_path: None, args: None });
        }
        i = i + 1;
    }
    proof {
        assert(entries@.subrange(0, i as int) =~= entries@);
    }
    out
}

} // verus!
