//! The log grammar: one line per removed file, `alias|path|timestamp`, and
//! blocks of lines (one per removal batch) separated by blank lines.
use vstd::prelude::*;
use crate::codec::{
    decimal, parse_u64, parse_u64_spec, push_char, push_decimal, push_str, split_on, split_spans,
    string_of,
};
use crate::command::Error;
use crate::select::Entry;

verus! {

/// What one log line records.
pub struct Record {
    pub name: Seq<char>,
    pub alias: Seq<char>,
    pub timestamp: u64,
}

/// The fields of a log line, in the order they are read.
pub enum LogField {
    Alias,
    Name,
    Timestamp,
}

/// How a log line can fail to decode.
pub enum Fault {
    /// The line has too few `|`-separated fields; the first absent one.
    Missing(LogField),
    /// The third field is not a `u64`; its text.
    Corrupted(Seq<char>),
}

pub open spec fn field_label(f: LogField) -> &'static str {
    match f {
        LogField::Alias => "alias",
        LogField::Name => "name",
        LogField::Timestamp => "timestamp",
    }
}

/// A line read as `alias|path|timestamp`; fields after the third are ignored.
pub open spec fn decode_line(line: Seq<char>) -> Result<Record, Fault> {
    let f = split_on(line, '|');
    if f.len() < 1 {
        Err(Fault::Missing(LogField::Alias))
    } else if f.len() < 2 {
        Err(Fault::Missing(LogField::Name))
    } else if f.len() < 3 {
        Err(Fault::Missing(LogField::Timestamp))
    } else {
        match parse_u64_spec(f[2]) {
            Some(t) => Ok(Record { name: f[1], alias: f[0], timestamp: t }),
            None => Err(Fault::Corrupted(f[2])),
        }
    }
}

/// `err` reports that `line`, at position `pos`, failed with `f`.
pub open spec fn reports(err: Error, line: Seq<char>, pos: nat, f: Fault) -> bool {
    match f {
        Fault::Missing(field) => match err {
            Error::MissingData(l, p, name) => l@ == line && p == pos && name == field_label(field),
            _ => false,
        },
        Fault::Corrupted(ts) => match err {
            Error::CorruptedTimestamp(t) => t@ == ts,
            _ => false,
        },
    }
}

/// Decodes `text[lo..hi]`, the line at position `pos`.
pub fn decode(text: &Vec<char>, lo: usize, hi: usize, pos: usize) -> (r: Result<Entry, Error>)
    requires
        lo <= hi <= text.len(),
    ensures
        match (r, decode_line(text@.subrange(lo as int, hi as int))) {
            (Ok(e), Ok(rec)) => e@ == rec,
            (Err(err), Err(f)) => reports(err, text@.subrange(lo as int, hi as int), pos as nat, f),
            _ => false,
        },
{
    let fields = split_spans(text, lo, hi, '|');
    let ghost f = split_on(text@.subrange(lo as int, hi as int), '|');
    assert(f[0] == text@.subrange(fields[0].0 as int, fields[0].1 as int));
    if fields.len() < 2 {
        return Err(Error::MissingData(string_of(text, lo, hi), pos, "name"));
    }
    assert(f[1] == text@.subrange(fields[1].0 as int, fields[1].1 as int));
    if fields.len() < 3 {
        return Err(Error::MissingData(string_of(text, lo, hi), pos, "timestamp"));
    }
    assert(f[2] == text@.subrange(fields[2].0 as int, fields[2].1 as int));
    let alias = string_of(text, fields[0].0, fields[0].1);
    let name = string_of(text, fields[1].0, fields[1].1);
    match parse_u64(text, fields[2].0, fields[2].1) {
        Some(timestamp) => Ok(Entry { name, alias, timestamp }),
        None => Err(Error::CorruptedTimestamp(string_of(text, fields[2].0, fields[2].1))),
    }
}

/// The lines of a log text.
pub open spec fn log_lines(text: Seq<char>) -> Seq<Seq<char>> {
    split_on(text, '\n')
}

/// The entries that the lines `ls` (oldest first) hold, newest first, or the
/// first line in that order that does not decode, with its position.
pub open spec fn read_lines(ls: Seq<Seq<char>>) -> Result<Seq<Record>, (Seq<char>, nat, Fault)>
    decreases ls.len(),
{
    if ls.len() == 0 {
        Ok(Seq::<Record>::empty())
    } else {
        match read_lines(ls.drop_first()) {
            Err(e) => Err(e),
            Ok(recs) => if ls[0].len() == 0 {
                Ok(recs)
            } else {
                match decode_line(ls[0]) {
                    Ok(r) => Ok(recs.push(r)),
                    Err(f) => Err((ls[0], recs.len() + 1, f)),
                }
            },
        }
    }
}

/// The number of non-blank lines in `ls`.
pub open spec fn entry_count(ls: Seq<Seq<char>>) -> nat
    decreases ls.len(),
{
    if ls.len() == 0 {
        0
    } else {
        entry_count(ls.drop_first()) + if ls[0].len() == 0 {
            0nat
        } else {
            1nat
        }
    }
}

/// The line `ls[0]` is the last one of its block: nothing but blank lines
/// follows it, or a blank line does.
pub open spec fn ends_block(ls: Seq<Seq<char>>) -> bool {
    ls[0].len() != 0 && (entry_count(ls.drop_first()) == 0 || ls[1].len() == 0)
}

/// The position (newest first, from 1) at which each block of `ls` starts,
/// ascending.
pub open spec fn block_starts(ls: Seq<Seq<char>>) -> Seq<usize>
    decreases ls.len(),
{
    if ls.len() == 0 {
        Seq::<usize>::empty()
    } else if ends_block(ls) {
        block_starts(ls.drop_first()).push((entry_count(ls.drop_first()) + 1) as usize)
    } else {
        block_starts(ls.drop_first())
    }
}

pub proof fn lemma_read_lines_err(ls: Seq<Seq<char>>, j: int, k: int)
    requires
        0 <= j <= k <= ls.len(),
        read_lines(ls.subrange(k, ls.len() as int)) is Err,
    ensures
        read_lines(ls.subrange(j, ls.len() as int)) == read_lines(ls.subrange(k, ls.len() as int)),
    decreases k - j,
{
    if j < k {
        lemma_read_lines_err(ls, j + 1, k);
        assert(ls.subrange(j, ls.len() as int).drop_first() =~= ls.subrange(j + 1, ls.len() as int));
    }
}

pub proof fn lemma_read_lines_count(ls: Seq<Seq<char>>)
    requires
        read_lines(ls) is Ok,
    ensures
        read_lines(ls)->Ok_0.len() == entry_count(ls),
    decreases ls.len(),
{
    if ls.len() > 0 {
        lemma_read_lines_count(ls.drop_first());
    }
}

/// The log line of a record: `alias|path|timestamp`.
pub open spec fn encode_spec(r: Record) -> Seq<char> {
    r.alias + seq!['|'] + r.name + seq!['|'] + decimal(r.timestamp as nat)
}

/// The log line of an entry.
pub fn encode(e: &Entry) -> (r: String)
    ensures
        r@ == encode_spec(e@),
{
    let mut out = String::new();
    push_str(&mut out, e.alias.as_str());
    push_char(&mut out, '|');
    push_str(&mut out, e.name.as_str());
    push_char(&mut out, '|');
    push_decimal(&mut out, e.timestamp);
    assert(out@ =~= encode_spec(e@));
    out
}

/// The text one removal batch appends to the log: a blank-line separator,
/// then one line per record, oldest first.
pub open spec fn batch_spec(rs: Seq<Record>) -> Seq<char>
    decreases rs.len(),
{
    if rs.len() == 0 {
        seq!['\n']
    } else {
        batch_spec(rs.drop_last()) + encode_spec(rs.last()) + seq!['\n']
    }
}

/// The text that appends `entries`, oldest first, to the log as one batch.
pub fn batch_text(entries: &Vec<Entry>) -> (r: String)
    ensures
        r@ == batch_spec(entries@.map_values(|e: Entry| e@)),
{
    let ghost rs = entries@.map_values(|e: Entry| e@);
    let mut out = String::new();
    push_char(&mut out, '\n');
    let mut i: usize = 0;
    assert(rs.subrange(0, 0) =~= seq![]);
    assert(out@ =~= seq!['\n']);
    while i < entries.len()
        invariant
            i <= entries.len(),
            rs == entries@.map_values(|e: Entry| e@),
            out@ == batch_spec(rs.subrange(0, i as int)),
        decreases entries.len() - i,
    {
        let line = encode(&entries[i]);
        push_str(&mut out, line.as_str());
        push_char(&mut out, '\n');
        i = i + 1;
        assert(rs.subrange(0, i as int).drop_last() =~= rs.subrange(0, i - 1));
        assert(out@ =~= batch_spec(rs.subrange(0, i as int)));
    }
    assert(rs.subrange(0, i as int) =~= rs);
    out
}

} // verus!
