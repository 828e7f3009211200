//! What the log keeps across writing and reading: a batch appended to a log
//! reads back as the newest block, and a log of batches reads back into a
//! history that writes the same text again.
use vstd::prelude::*;
use crate::codec::{
    all_digits, decimal, is_digit, lemma_decimal_parses, lemma_split_on_nonempty, split_on,
};
use crate::select::{Block, Context, Entries, Select, block_text, in_block, log_text};
use crate::log::{
    Fault, LogField, Record, lemma_read_lines_err, batch_spec, block_starts, decode_line, encode_spec, ends_block, entry_count, log_lines,
    read_lines,
};

verus! {

/// Splitting around one separator splits each side.
pub proof fn lemma_split_join(x: Seq<char>, y: Seq<char>, sep: char)
    ensures
        split_on(x + seq![sep] + y, sep) == split_on(x, sep) + split_on(y, sep),
    decreases y.len(),
{
    if y.len() == 0 {
        assert(x + seq![sep] + y =~= x.push(sep));
        assert((x + seq![sep] + y).drop_last() =~= x);
        assert(split_on(y, sep) =~= seq![Seq::<char>::empty()]);
        assert(split_on(x, sep).push(Seq::<char>::empty()) =~= split_on(x, sep) + split_on(y, sep));
    } else {
        let z = x + seq![sep] + y;
        assert(z.drop_last() =~= x + seq![sep] + y.drop_last());
        assert(z.last() == y.last());
        lemma_split_join(x, y.drop_last(), sep);
        lemma_split_on_nonempty(y.drop_last(), sep);
        let a = split_on(x, sep);
        let b = split_on(y.drop_last(), sep);
        if y.last() == sep {
            assert((a + b).push(Seq::<char>::empty()) =~= a + b.push(Seq::<char>::empty()));
        } else {
            assert((a + b).update((a + b).len() - 1, (a + b).last().push(y.last())) =~= a + b.update(
                b.len() - 1,
                b.last().push(y.last()),
            ));
        }
    }
}

/// A text without the separator is one field.
pub proof fn lemma_split_single(s: Seq<char>, sep: char)
    requires
        !s.contains(sep),
    ensures
        split_on(s, sep) == seq![s],
    decreases s.len(),
{
    if s.len() == 0 {
        assert(s =~= Seq::<char>::empty());
        assert(split_on(s, sep) =~= seq![s]);
    } else {
        assert(!s.drop_last().contains(sep)) by {
            if s.drop_last().contains(sep) {
                let i = choose|i: int| 0 <= i < s.drop_last().len() && s.drop_last()[i] == sep;
                assert(s[i] == sep);
            }
        }
        lemma_split_single(s.drop_last(), sep);
        assert(s.last() != sep) by {
            assert(s[s.len() - 1] == s.last());
        }
        assert(s.drop_last().push(s.last()) =~= s);
        assert(seq![s.drop_last()].update(0, s.drop_last().push(s.last())) =~= seq![s]);
    }
}

/// A record that its log line can carry: neither path nor alias holds a
/// field or line separator.
pub open spec fn clean(r: Record) -> bool {
    !r.alias.contains('|') && !r.alias.contains('\n') && !r.name.contains('|') && !r.name.contains(
        '\n',
    )
}

proof fn lemma_decimal_plain(n: nat)
    ensures
        !decimal(n).contains('|'),
        !decimal(n).contains('\n'),
{
    assert(all_digits(decimal(n))) by {
        lemma_digits(n);
    }
    if decimal(n).contains('|') {
        let i = choose|i: int| 0 <= i < decimal(n).len() && decimal(n)[i] == '|';
        assert(is_digit(decimal(n)[i]));
    }
    if decimal(n).contains('\n') {
        let i = choose|i: int| 0 <= i < decimal(n).len() && decimal(n)[i] == '\n';
        assert(is_digit(decimal(n)[i]));
    }
}

proof fn lemma_digits(n: nat)
    ensures
        all_digits(decimal(n)),
    decreases n,
{
    if n >= 10 {
        lemma_digits(n / 10);
    }
}

/// A clean record's line reads back as the record.
pub proof fn lemma_line_round_trip(r: Record)
    requires
        clean(r),
    ensures
        decode_line(encode_spec(r)) == Ok::<Record, crate::log::Fault>(r),
        !encode_spec(r).contains('\n'),
        encode_spec(r).len() > 0,
{
    let d = decimal(r.timestamp as nat);
    lemma_decimal_plain(r.timestamp as nat);
    lemma_split_single(r.alias, '|');
    lemma_split_single(r.name, '|');
    lemma_split_single(d, '|');
    lemma_split_join(r.name, d, '|');
    lemma_split_join(r.alias, r.name + seq!['|'] + d, '|');
    assert(encode_spec(r) =~= r.alias + seq!['|'] + (r.name + seq!['|'] + d));
    let f = split_on(encode_spec(r), '|');
    assert(f =~= seq![r.alias, r.name, d]);
    lemma_decimal_parses(r.timestamp);
    assert(decode_line(encode_spec(r)) == Ok::<Record, crate::log::Fault>(Record { name: r.name, alias: r.alias, timestamp: r.timestamp }));
    assert(encode_spec(r)[r.alias.len() as int] == '|');
    if encode_spec(r).contains('\n') {
        let i = choose|i: int| 0 <= i < encode_spec(r).len() && encode_spec(r)[i] == '\n';
        if i < r.alias.len() {
            assert(r.alias[i] == '\n');
        } else if i == r.alias.len() {
        } else if i < r.alias.len() + 1 + r.name.len() {
            assert(r.name[i - r.alias.len() - 1] == '\n');
        } else if i == r.alias.len() + 1 + r.name.len() {
        } else {
            assert(d[i - r.alias.len() - 2 - r.name.len()] == '\n');
        }
    }
}

/// Splitting right after a separator.
pub proof fn lemma_split_after(a: Seq<char>, b: Seq<char>, sep: char)
    requires
        a.len() > 0,
        a.last() == sep,
    ensures
        split_on(a + b, sep) == split_on(a, sep).drop_last() + split_on(b, sep),
{
    assert(a =~= a.drop_last() + seq![sep]);
    lemma_split_join(a.drop_last(), b, sep);
    assert(a.drop_last() + seq![sep] + b =~= a + b);
    assert(split_on(a, sep) == split_on(a.drop_last(), sep).push(Seq::<char>::empty()));
    assert(split_on(a, sep).drop_last() =~= split_on(a.drop_last(), sep));
}

/// The lines of a batch after its leading separator, each ended by a
/// newline.
pub open spec fn batch_body(rs: Seq<Record>) -> Seq<char>
    decreases rs.len(),
{
    if rs.len() == 0 {
        Seq::<char>::empty()
    } else {
        batch_body(rs.drop_last()) + encode_spec(rs.last()) + seq!['\n']
    }
}

pub open spec fn batch_lines(rs: Seq<Record>) -> Seq<Seq<char>> {
    rs.map_values(|r: Record| encode_spec(r))
}

pub open spec fn all_clean(rs: Seq<Record>) -> bool {
    forall|i: int| 0 <= i < rs.len() ==> clean(#[trigger] rs[i])
}

/// The records newest first: the last one first.
pub open spec fn newest_first(rs: Seq<Record>) -> Seq<Record>
    decreases rs.len(),
{
    if rs.len() == 0 {
        seq![]
    } else {
        newest_first(rs.drop_first()).push(rs[0])
    }
}

proof fn lemma_batch_body(rs: Seq<Record>)
    ensures
        batch_spec(rs) == seq!['\n'] + batch_body(rs),
    decreases rs.len(),
{
    if rs.len() == 0 {
        assert(seq!['\n'] + batch_body(rs) =~= seq!['\n']);
    } else {
        lemma_batch_body(rs.drop_last());
        assert(seq!['\n'] + batch_body(rs) =~= seq!['\n'] + batch_body(rs.drop_last()) + encode_spec(
            rs.last(),
        ) + seq!['\n']);
    }
}

proof fn lemma_body_lines(rs: Seq<Record>)
    requires
        all_clean(rs),
    ensures
        split_on(batch_body(rs), '\n') == batch_lines(rs).push(Seq::<char>::empty()),
        rs.len() > 0 ==> batch_body(rs).len() > 0 && batch_body(rs).last() == '\n',
    decreases rs.len(),
{
    if rs.len() == 0 {
        assert(batch_lines(rs).push(Seq::<char>::empty()) =~= seq![Seq::<char>::empty()]);
    } else {
        let rest = rs.drop_last();
        assert(all_clean(rest)) by {
            assert forall|i: int| 0 <= i < rest.len() implies clean(#[trigger] rest[i]) by {
                assert(rest[i] == rs[i]);
            }
        }
        lemma_body_lines(rest);
        assert(clean(rs[rs.len() - 1]));
        lemma_line_round_trip(rs.last());
        let line = encode_spec(rs.last());
        lemma_split_single(line, '\n');
        lemma_split_join(batch_body(rest) + line, Seq::<char>::empty(), '\n');
        assert(batch_body(rs) =~= batch_body(rest) + line + seq!['\n'] + Seq::<char>::empty());
        if rest.len() == 0 {
            assert(batch_body(rest) + line =~= line);
        } else {
            lemma_split_after(batch_body(rest), line, '\n');
        }
        assert(split_on(Seq::<char>::empty(), '\n') =~= seq![Seq::<char>::empty()]);
        assert(batch_lines(rs) =~= batch_lines(rest).push(line));
        assert(split_on(batch_body(rs), '\n') =~= batch_lines(rs).push(Seq::<char>::empty()));
    }
}

proof fn lemma_read_concat(a: Seq<Seq<char>>, b: Seq<Seq<char>>)
    requires
        read_lines(a) is Ok,
        read_lines(b) is Ok,
    ensures
        read_lines(a + b) == Ok::<Seq<Record>, (Seq<char>, nat, crate::log::Fault)>(
            read_lines(b)->Ok_0 + read_lines(a)->Ok_0,
        ),
        entry_count(a + b) == entry_count(a) + entry_count(b),
    decreases a.len(),
{
    if a.len() == 0 {
        assert(a + b =~= b);
        assert(read_lines(b)->Ok_0 + read_lines(a)->Ok_0 =~= read_lines(b)->Ok_0);
    } else {
        assert((a + b).drop_first() =~= a.drop_first() + b);
        assert((a + b)[0] == a[0]);
        lemma_read_concat(a.drop_first(), b);
        let rb = read_lines(b)->Ok_0;
        let ra = read_lines(a.drop_first())->Ok_0;
        if a[0].len() != 0 {
            let r = decode_line(a[0])->Ok_0;
            assert((rb + ra).push(r) =~= rb + ra.push(r));
        }
    }
}

proof fn lemma_read_batch(rs: Seq<Record>)
    requires
        all_clean(rs),
    ensures
        read_lines(batch_lines(rs).push(Seq::<char>::empty())) == Ok::<
            Seq<Record>,
            (Seq<char>, nat, crate::log::Fault),
        >(newest_first(rs)),
        entry_count(batch_lines(rs).push(Seq::<char>::empty())) == rs.len(),
        rs.len() > 0 ==> block_starts(batch_lines(rs).push(Seq::<char>::empty())) == seq![1usize],
        rs.len() == 0 ==> block_starts(batch_lines(rs).push(Seq::<char>::empty())) == Seq::<usize>::empty(),
    decreases rs.len(),
{
    let ls = batch_lines(rs).push(Seq::<char>::empty());
    if rs.len() == 0 {
        assert(ls =~= seq![Seq::<char>::empty()]);
        assert(ls.drop_first() =~= Seq::<Seq<char>>::empty());
        assert(read_lines(ls.drop_first()) == Ok::<Seq<Record>, (Seq<char>, nat, crate::log::Fault)>(Seq::<Record>::empty()));
        assert(entry_count(ls.drop_first()) == 0);
        assert(newest_first(rs) =~= Seq::<Record>::empty());
        assert(!ends_block(ls));
        assert(block_starts(ls.drop_first()) == Seq::<usize>::empty());
    } else {
        let rest = rs.drop_first();
        assert(all_clean(rest)) by {
            assert forall|i: int| 0 <= i < rest.len() implies clean(#[trigger] rest[i]) by {
                assert(rest[i] == rs[i + 1]);
            }
        }
        lemma_read_batch(rest);
        assert(ls.drop_first() =~= batch_lines(rest).push(Seq::<char>::empty()));
        assert(clean(rs[0]));
        lemma_line_round_trip(rs[0]);
        assert(ls[0] == encode_spec(rs[0]));
        if rest.len() > 0 {
            assert(clean(rest[0]));
            lemma_line_round_trip(rest[0]);
            assert(ls[1] == encode_spec(rest[0]));
        }
        assert(ends_block(ls) == (rest.len() == 0));
        assert(ls[0].len() != 0);
        assert(read_lines(ls) == Ok::<Seq<Record>, (Seq<char>, nat, crate::log::Fault)>(newest_first(rest).push(rs[0])));
        assert(newest_first(rs) == newest_first(rest).push(rs[0]));
    }
}

proof fn lemma_starts_bound(ls: Seq<Seq<char>>)
    requires
        entry_count(ls) <= usize::MAX,
    ensures
        forall|k: int|
            0 <= k < block_starts(ls).len() ==> 1 <= #[trigger] block_starts(ls)[k] <= entry_count(ls),
        block_starts(ls).len() == 0 <==> entry_count(ls) == 0,
        block_starts(ls).len() > 0 ==> block_starts(ls)[0] == 1,
    decreases ls.len(),
{
    if ls.len() > 0 {
        let rest = ls.drop_first();
        lemma_starts_bound(rest);
        if ls[0].len() != 0 && entry_count(rest) > 0 && rest[0].len() == 0 {
            assert(ends_block(ls));
        }
        if ls[0].len() != 0 && entry_count(rest) > 0 && rest[0].len() != 0 {
            assert(!ends_block(ls));
        }
    }
}

proof fn lemma_count_first(ls: Seq<Seq<char>>)
    requires
        ls.len() > 0,
        ls[0].len() != 0,
    ensures
        entry_count(ls) >= 1,
{
}

proof fn lemma_starts_concat(a: Seq<Seq<char>>, b: Seq<Seq<char>>)
    requires
        a.len() == 0 || a.last().len() == 0,
        entry_count(a) + entry_count(b) <= usize::MAX,
    ensures
        entry_count(a + b) == entry_count(a) + entry_count(b),
        block_starts(a + b) == block_starts(b) + block_starts(a).map_values(
            |p: usize| (p + entry_count(b)) as usize,
        ),
    decreases a.len(),
{
    let c = entry_count(b);
    if a.len() == 0 {
        assert(a + b =~= b);
        assert(block_starts(b) + block_starts(a).map_values(|p: usize| (p + c) as usize) =~= block_starts(b));
    } else {
        let a1 = a.drop_first();
        assert((a + b).drop_first() =~= a1 + b);
        assert((a + b)[0] == a[0]);
        if a.len() > 1 {
            assert(a1.last() == a.last());
        }
        lemma_starts_concat(a1, b);
        lemma_starts_bound(a1);
        if a.len() == 1 {
            assert(a[0] == a.last());
            assert(!ends_block(a));
            assert(!ends_block(a + b));
        } else {
            assert((a + b)[1] == a[1]);
            if a1[0].len() != 0 {
                lemma_count_first(a1);
            }
            assert(ends_block(a + b) == ends_block(a));
        }
        let m1 = block_starts(a1).map_values(|p: usize| (p + c) as usize);
        if ends_block(a) {
            let q = (entry_count(a1) + 1) as usize;
            assert(block_starts(a).map_values(|p: usize| (p + c) as usize) =~= m1.push((q + c) as usize));
            assert((block_starts(b) + m1).push((entry_count(a1) + c + 1) as usize) =~= block_starts(b) + m1.push(
                (q + c) as usize,
            ));
        }
    }
}

/// The text `t0` ends a line (or is empty).
pub open spec fn ends_line(t0: Seq<char>) -> bool {
    t0.len() == 0 || t0.last() == '\n'
}

/// Appending a batch of clean records to a log whose last line is ended
/// adds the batch's lines and reads its records in front, newest first.
pub proof fn lemma_append_lines(t0: Seq<char>, rs: Seq<Record>)
    requires
        ends_line(t0),
        read_lines(log_lines(t0)) is Ok,
        all_clean(rs),
    ensures
        log_lines(t0 + batch_spec(rs)) == log_lines(t0) + batch_lines(rs).push(Seq::<char>::empty()),
        log_lines(t0).len() > 0 && log_lines(t0).last().len() == 0,
        read_lines(log_lines(t0 + batch_spec(rs))) == Ok::<Seq<Record>, (Seq<char>, nat, crate::log::Fault)>(
            newest_first(rs) + read_lines(log_lines(t0))->Ok_0,
        ),
        entry_count(log_lines(t0 + batch_spec(rs))) == entry_count(log_lines(t0)) + rs.len(),
{
    lemma_batch_body(rs);
    lemma_body_lines(rs);
    assert(t0 + batch_spec(rs) =~= t0 + seq!['\n'] + batch_body(rs));
    lemma_split_join(t0, batch_body(rs), '\n');
    let a = log_lines(t0);
    let b = batch_lines(rs).push(Seq::<char>::empty());
    if t0.len() == 0 {
        assert(a =~= seq![Seq::<char>::empty()]);
    } else {
        assert(a == split_on(t0.drop_last(), '\n').push(Seq::<char>::empty()));
    }
    lemma_read_batch(rs);
    lemma_read_concat(a, b);
}

/// Appending a batch as above also makes it block 1, the older blocks
/// moving back by its size.
pub proof fn lemma_append_batch(t0: Seq<char>, rs: Seq<Record>)
    requires
        ends_line(t0),
        read_lines(log_lines(t0)) is Ok,
        all_clean(rs),
        rs.len() > 0,
        entry_count(log_lines(t0)) + rs.len() <= usize::MAX,
    ensures
        log_lines(t0 + batch_spec(rs)) == log_lines(t0) + batch_lines(rs).push(Seq::<char>::empty()),
        read_lines(log_lines(t0 + batch_spec(rs))) == Ok::<Seq<Record>, (Seq<char>, nat, crate::log::Fault)>(
            newest_first(rs) + read_lines(log_lines(t0))->Ok_0,
        ),
        entry_count(log_lines(t0 + batch_spec(rs))) == entry_count(log_lines(t0)) + rs.len(),
        block_starts(log_lines(t0 + batch_spec(rs))) == seq![1usize] + block_starts(log_lines(t0)).map_values(
            |p: usize| (p + rs.len()) as usize,
        ),
{
    lemma_append_lines(t0, rs);
    lemma_read_batch(rs);
    lemma_starts_concat(log_lines(t0), batch_lines(rs).push(Seq::<char>::empty()));
}

/// Two files removed in one batch and appended to a log: in the history
/// that `Entries::load` gives for the new text, block 1 holds exactly those
/// two entries (positions 1 and 2, the later one first), whatever the log
/// held before.
pub proof fn lemma_new_batch_is_block_one(
    t0: Seq<char>,
    r1: Record,
    r2: Record,
    entries: &Entries,
    ctx: &Context,
)
    requires
        ends_line(t0),
        read_lines(log_lines(t0)) is Ok,
        clean(r1),
        clean(r2),
        entries.wf(),
        read_lines(log_lines(t0 + batch_spec(seq![r1, r2]))) == Ok::<
            Seq<Record>,
            (Seq<char>, nat, crate::log::Fault),
        >(entries.records()),
        entries.block_seq() == block_starts(log_lines(t0 + batch_spec(seq![r1, r2]))).push(
            (entries.records().len() + 1) as usize,
        ),
    ensures
        (Block { start: 1, end: 1 }).chosen(entries, ctx) == set![1usize, 2usize],
        entries.records()[0] == r2,
        entries.records()[1] == r1,
{
    let rs = seq![r1, r2];
    assert(all_clean(rs)) by {
        assert forall|i: int| 0 <= i < rs.len() implies clean(#[trigger] rs[i]) by {
            if i == 0 {
                assert(rs[i] == r1);
            } else {
                assert(rs[i] == r2);
            }
        }
    }
    lemma_append_lines(t0, rs);
    crate::log::lemma_read_lines_count(log_lines(t0 + batch_spec(rs)));
    assert(entries.block_seq().last() == entries.records().len() + 1);
    lemma_append_batch(t0, rs);
    let old_starts = block_starts(log_lines(t0));
    lemma_starts_bound(log_lines(t0));
    crate::log::lemma_read_lines_count(log_lines(t0));
    assert(rs.drop_first() =~= seq![r2]);
    assert(seq![r2].drop_first() =~= Seq::<Record>::empty());
    assert(newest_first(Seq::<Record>::empty()) =~= Seq::<Record>::empty());
    assert(newest_first(seq![r2]) =~= seq![r2]);
    assert(rs[0] == r1);
    assert(newest_first(rs) == newest_first(seq![r2]).push(r1));
    assert(newest_first(rs) =~= seq![r2, r1]);
    let bs = entries.block_seq();
    assert(bs[0] == 1);
    assert(bs[1] == 3) by {
        if old_starts.len() > 0 {
            assert(bs[1] == (old_starts[0] + 2) as usize);
        } else {
            assert(bs[1] == (entries.records().len() + 1) as usize);
        }
    }
    let chosen = (Block { start: 1, end: 1 }).chosen(entries, ctx);
    assert forall|p: usize| chosen.contains(p) <==> (p == 1 || p == 2) by {
        if p == 1 || p == 2 {
            assert(in_block(entries, 1, p));
        }
    }
    assert(chosen =~= set![1usize, 2usize]);
}

proof fn lemma_newest_first_len(rs: Seq<Record>)
    ensures
        newest_first(rs).len() == rs.len(),
    decreases rs.len(),
{
    if rs.len() > 0 {
        lemma_newest_first_len(rs.drop_first());
    }
}

proof fn lemma_newest_first_push(rs: Seq<Record>, e: Record)
    ensures
        newest_first(rs.push(e)) == seq![e] + newest_first(rs),
    decreases rs.len(),
{
    if rs.len() == 0 {
        assert(rs.push(e).drop_first() =~= Seq::<Record>::empty());
        assert(rs.push(e)[0] == e);
        assert(newest_first(Seq::<Record>::empty()) =~= Seq::<Record>::empty());
        assert(newest_first(rs) =~= Seq::<Record>::empty());
        assert(newest_first(rs.push(e)) == newest_first(Seq::<Record>::empty()).push(e));
        assert(newest_first(rs.push(e)) =~= seq![e] + newest_first(rs));
    } else {
        assert(rs.push(e).drop_first() =~= rs.drop_first().push(e));
        lemma_newest_first_push(rs.drop_first(), e);
        assert(newest_first(rs.push(e)) =~= seq![e] + newest_first(rs));
    }
}

proof fn lemma_newest_first_twice(rs: Seq<Record>)
    ensures
        newest_first(newest_first(rs)) == rs,
    decreases rs.len(),
{
    if rs.len() > 0 {
        lemma_newest_first_twice(rs.drop_first());
        lemma_newest_first_push(newest_first(rs.drop_first()), rs[0]);
        assert(seq![rs[0]] + rs.drop_first() =~= rs);
    } else {
        assert(newest_first(newest_first(rs)) =~= rs);
    }
}

/// The text of a batch's positions is the batch written oldest first.
proof fn lemma_block_text(recs: Seq<Record>, a: int, c: int)
    requires
        1 <= a <= c <= recs.len() + 1,
    ensures
        block_text(recs, a, c) == batch_spec(newest_first(recs.subrange(a - 1, c - 1))),
    decreases c - a,
{
    let sub = recs.subrange(a - 1, c - 1);
    if a == c {
        assert(sub =~= Seq::<Record>::empty());
    } else {
        lemma_block_text(recs, a + 1, c);
        assert(sub.drop_first() =~= recs.subrange(a, c - 1));
        assert(sub[0] == recs[a - 1]);
        let nf = newest_first(sub);
        assert(nf == newest_first(sub.drop_first()).push(sub[0]));
        assert(nf.drop_last() =~= newest_first(sub.drop_first()));
    }
}

proof fn lemma_log_text_shift(
    recs: Seq<Record>,
    older: Seq<Record>,
    starts: Seq<usize>,
    older_starts: Seq<usize>,
    m: int,
    k: int,
)
    requires
        m >= 0,
        recs.len() == older.len() + m,
        recs.subrange(m, recs.len() as int) == older,
        starts == seq![1usize] + older_starts.map_values(|p: usize| (p + m) as usize),
        forall|j: int|
            0 <= j < older_starts.len() ==> 1 <= #[trigger] older_starts[j] <= older.len() + 1,
        forall|i: int, j: int| 0 <= i < j < older_starts.len() ==> older_starts[i] < older_starts[j],
        older.len() + 1 + m <= usize::MAX,
        1 <= k <= older_starts.len(),
    ensures
        log_text(recs, starts, k) == log_text(older, older_starts, k - 1) + block_text(
            recs,
            1,
            starts[1] as int,
        ),
    decreases k,
{
    if k == 1 {
        assert(log_text(recs, starts, 0) =~= Seq::<char>::empty());
        assert(log_text(older, older_starts, 0) =~= Seq::<char>::empty());
        assert(log_text(recs, starts, 1) =~= log_text(older, older_starts, 0) + block_text(
            recs,
            1,
            starts[1] as int,
        ));
    } else {
        lemma_log_text_shift(recs, older, starts, older_starts, m, k - 1);
        let a = older_starts[k - 2] as int;
        let c = older_starts[k - 1] as int;
        assert(starts[k - 1] == a + m);
        assert(starts[k] == c + m);
        lemma_block_text(recs, a + m, c + m);
        lemma_block_text(older, a, c);
        assert(recs.subrange(a + m - 1, c + m - 1) =~= older.subrange(a - 1, c - 1));
        assert(log_text(recs, starts, k) =~= log_text(older, older_starts, k - 1) + block_text(
            recs,
            1,
            starts[1] as int,
        ));
    }
}

/// The text of a log written batch by batch, oldest first.
pub open spec fn log_of(batches: Seq<Seq<Record>>) -> Seq<char>
    decreases batches.len(),
{
    if batches.len() == 0 {
        Seq::<char>::empty()
    } else {
        log_of(batches.drop_last()) + batch_spec(batches.last())
    }
}

/// The records of a log written batch by batch, newest first.
pub open spec fn history_of(batches: Seq<Seq<Record>>) -> Seq<Record>
    decreases batches.len(),
{
    if batches.len() == 0 {
        seq![]
    } else {
        newest_first(batches.last()) + history_of(batches.drop_last())
    }
}

/// Every batch holds at least one record, and every record is clean.
pub open spec fn batches_ok(batches: Seq<Seq<Record>>) -> bool {
    forall|i: int|
        0 <= i < batches.len() ==> #[trigger] batches[i].len() > 0 && all_clean(batches[i])
}

/// The block starts of a log text as `Entries::load` records them: those
/// of its lines, closed by one past the last position.
pub open spec fn full_starts(text: Seq<char>, count: nat) -> Seq<usize> {
    block_starts(log_lines(text)).push((count + 1) as usize)
}

/// A log written batch by batch reads back into the history of its records,
/// one block per batch, and that history, written out again block by block
/// oldest first (as `Entries::encode` does), is the same text.
pub proof fn lemma_round_trip(batches: Seq<Seq<Record>>)
    requires
        batches_ok(batches),
        history_of(batches).len() < usize::MAX,
    ensures
        read_lines(log_lines(log_of(batches))) == Ok::<Seq<Record>, (Seq<char>, nat, crate::log::Fault)>(
            history_of(batches),
        ),
        block_starts(log_lines(log_of(batches))).len() == batches.len(),
        log_text(
            history_of(batches),
            full_starts(log_of(batches), history_of(batches).len()),
            batches.len() as int,
        ) == log_of(batches),
    decreases batches.len(),
{
    lemma_round_trip_steps(batches);
}

#[verifier::rlimit(80)]
proof fn lemma_round_trip_steps(batches: Seq<Seq<Record>>)
    requires
        batches_ok(batches),
        history_of(batches).len() < usize::MAX,
    ensures
        ends_line(log_of(batches)),
        read_lines(log_lines(log_of(batches))) == Ok::<Seq<Record>, (Seq<char>, nat, crate::log::Fault)>(
            history_of(batches),
        ),
        entry_count(log_lines(log_of(batches))) == history_of(batches).len(),
        block_starts(log_lines(log_of(batches))).len() == batches.len(),
        ({
            let fs = full_starts(log_of(batches), history_of(batches).len());
            &&& fs[0] == 1
            &&& forall|j: int| 0 <= j < fs.len() ==> 1 <= #[trigger] fs[j] <= history_of(batches).len() + 1
            &&& forall|i: int, j: int| 0 <= i < j < fs.len() ==> fs[i] < fs[j]
        }),
        log_text(
            history_of(batches),
            full_starts(log_of(batches), history_of(batches).len()),
            batches.len() as int,
        ) == log_of(batches),
    decreases batches.len(),
{
    let text = log_of(batches);
    let n = batches.len();
    if n == 0 {
        assert(log_lines(text) =~= seq![Seq::<char>::empty()]);
        assert(log_lines(text).drop_first() =~= Seq::<Seq<char>>::empty());
        assert(read_lines(log_lines(text).drop_first()) == Ok::<Seq<Record>, (Seq<char>, nat, crate::log::Fault)>(Seq::<Record>::empty()));
        assert(!ends_block(log_lines(text)));
        assert(block_starts(log_lines(text).drop_first()) == Seq::<usize>::empty());
        assert(block_starts(log_lines(text)) =~= Seq::<usize>::empty());
        assert(entry_count(log_lines(text).drop_first()) == 0);
        assert(entry_count(log_lines(text)) == 0);
        assert(history_of(batches) =~= Seq::<Record>::empty());
        assert(log_text(history_of(batches), full_starts(text, 0), 0) =~= text);
    } else {
        let prev = batches.drop_last();
        let b = batches.last();
        assert(batches_ok(prev)) by {
            assert forall|i: int| 0 <= i < prev.len() implies #[trigger] prev[i].len() > 0 && all_clean(prev[i]) by {
                assert(prev[i] == batches[i]);
            }
        }
        assert(b.len() > 0 && all_clean(b)) by {
            assert(batches[n - 1] == b);
        }
        lemma_newest_first_len(b);
        let older = history_of(prev);
        let recs = history_of(batches);
        assert(recs == newest_first(b) + older);
        lemma_round_trip_steps(prev);
        let t0 = log_of(prev);
        lemma_append_batch(t0, b);
        assert(text == t0 + batch_spec(b));
        let m = b.len() as int;
        let ofs = full_starts(t0, older.len());
        let fs = full_starts(text, recs.len());
        let old_bs = block_starts(log_lines(t0));
        assert(fs =~= seq![1usize] + ofs.map_values(|p: usize| (p + m) as usize)) by {
            assert(ofs.last() == (older.len() + 1) as usize);
        }
        assert(ends_line(text)) by {
            lemma_batch_body(b);
            assert(batch_spec(b).last() == '\n');
            assert(text.last() == batch_spec(b).last());
        }
        assert(recs.subrange(m, recs.len() as int) =~= older);
        lemma_log_text_shift(recs, older, fs, ofs, m, n as int);
        assert(fs[1] == 1 + m);
        lemma_block_text(recs, 1, 1 + m);
        assert(recs.subrange(0, m) =~= newest_first(b));
        lemma_newest_first_twice(b);
        assert forall|i: int, j: int| 0 <= i < j < fs.len() implies fs[i] < fs[j] by {
            if i > 0 {
                assert(ofs[i - 1] < ofs[j - 1]);
            } else {
                assert(1 <= ofs[j - 1]);
            }
        }
        assert forall|j: int| 0 <= j < fs.len() implies 1 <= #[trigger] fs[j] <= recs.len() + 1 by {
            if j > 0 {
                assert(1 <= ofs[j - 1] <= older.len() + 1);
            }
        }
    }
}

/// A log written batch by batch reads back into the history of its records.
proof fn lemma_round_trip_reads(batches: Seq<Seq<Record>>)
    requires
        batches_ok(batches),
    ensures
        ends_line(log_of(batches)),
        read_lines(log_lines(log_of(batches))) == Ok::<Seq<Record>, (Seq<char>, nat, crate::log::Fault)>(
            history_of(batches),
        ),
    decreases batches.len(),
{
    let text = log_of(batches);
    if batches.len() == 0 {
        assert(log_lines(text) =~= seq![Seq::<char>::empty()]);
        assert(log_lines(text).drop_first() =~= Seq::<Seq<char>>::empty());
        assert(read_lines(log_lines(text).drop_first()) == Ok::<Seq<Record>, (Seq<char>, nat, crate::log::Fault)>(Seq::<Record>::empty()));
        assert(history_of(batches) =~= Seq::<Record>::empty());
    } else {
        let prev = batches.drop_last();
        let b = batches.last();
        assert(batches_ok(prev)) by {
            assert forall|i: int| 0 <= i < prev.len() implies #[trigger] prev[i].len() > 0 && all_clean(prev[i]) by {
                assert(prev[i] == batches[i]);
            }
        }
        assert(b.len() > 0 && all_clean(b)) by {
            assert(batches[batches.len() - 1] == b);
        }
        lemma_round_trip_reads(prev);
        lemma_append_lines(log_of(prev), b);
        assert(ends_line(text)) by {
            lemma_batch_body(b);
            assert(text.last() == batch_spec(b).last());
        }
    }
}

/// Loading a log written batch by batch, then writing every entry out
/// again in its original order (what `Entries::encode` returns for the
/// history that `Entries::load` gives), reproduces the text exactly.
pub proof fn lemma_load_then_encode(batches: Seq<Seq<Record>>, entries: &Entries)
    requires
        batches_ok(batches),
        entries.wf(),
        read_lines(log_lines(log_of(batches))) == Ok::<Seq<Record>, (Seq<char>, nat, crate::log::Fault)>(
            entries.records(),
        ),
        entries.block_seq() == block_starts(log_lines(log_of(batches))).push(
            (entries.records().len() + 1) as usize,
        ),
    ensures
        entries.records() == history_of(batches),
        log_text(entries.records(), entries.block_seq(), entries.block_seq().len() - 1) == log_of(
            batches,
        ),
{
    lemma_round_trip_reads(batches);
    assert(entries.records() == history_of(batches));
    assert(entries.block_seq().last() == entries.records().len() + 1);
    lemma_round_trip(batches);
}

/// A line with a path but no timestamp field fails the whole read with
/// `MissingData` for the field `timestamp`, at its own position: one more
/// than the number of entries written after it.
pub proof fn lemma_missing_timestamp(
    older: Seq<Seq<char>>,
    line: Seq<char>,
    newer: Seq<Seq<char>>,
)
    requires
        split_on(line, '|').len() == 2,
        read_lines(newer) is Ok,
    ensures
        read_lines(older + seq![line] + newer) == Err::<Seq<Record>, (Seq<char>, nat, Fault)>(
            (line, read_lines(newer)->Ok_0.len() + 1, Fault::Missing(LogField::Timestamp)),
        ),
{
    let ls = older + seq![line] + newer;
    let k = older.len() as int;
    assert(line.len() != 0) by {
        if line.len() == 0 {
            assert(split_on(line, '|') =~= seq![Seq::<char>::empty()]);
        }
    }
    assert(ls.subrange(k, ls.len() as int) =~= seq![line] + newer);
    assert((seq![line] + newer).drop_first() =~= newer);
    assert((seq![line] + newer)[0] == line);
    lemma_read_lines_err(ls, 0, k);
    assert(ls.subrange(0, ls.len() as int) =~= ls);
}

/// The non-blank lines of a log, in file order.
pub open spec fn file_entries(ls: Seq<Seq<char>>) -> Seq<Seq<char>>
    decreases ls.len(),
{
    if ls.len() == 0 {
        seq![]
    } else if ls[0].len() == 0 {
        file_entries(ls.drop_first())
    } else {
        seq![ls[0]] + file_entries(ls.drop_first())
    }
}

/// Whatever the blocks, a log that reads holds one entry per non-blank line,
/// newest first: if its entry lines, in file order, decode to `e_1 .. e_n`,
/// the entry at position `p` is `e_(n + 1 - p)`, so position 1 is the last
/// line of the file.
pub proof fn lemma_newest_first_positions(ls: Seq<Seq<char>>)
    requires
        read_lines(ls) is Ok,
    ensures
        read_lines(ls)->Ok_0.len() == file_entries(ls).len(),
        forall|p: int|
            1 <= p <= file_entries(ls).len() ==> decode_line(
                #[trigger] file_entries(ls)[file_entries(ls).len() - p],
            ) == Ok::<Record, Fault>(read_lines(ls)->Ok_0[p - 1]),
    decreases ls.len(),
{
    if ls.len() > 0 {
        let rest = ls.drop_first();
        lemma_newest_first_positions(rest);
        let fe = file_entries(ls);
        let fr = file_entries(rest);
        let recs = read_lines(ls)->Ok_0;
        let rr = read_lines(rest)->Ok_0;
        if ls[0].len() != 0 {
            assert forall|p: int| 1 <= p <= fe.len() implies decode_line(
                #[trigger] fe[fe.len() - p],
            ) == Ok::<Record, Fault>(recs[p - 1]) by {
                if p < fe.len() {
                    assert(fe[fe.len() - p] == fr[fr.len() - p]);
                    assert(recs[p - 1] == rr[p - 1]);
                } else {
                    assert(fe[0] == ls[0]);
                }
            }
        }
    }
}

} // verus!
