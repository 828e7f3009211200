//! The history store and the selectors that pick entries from it.
use vstd::prelude::*;
use crate::command::Error;
use crate::config::{Config, join, join_spec};
use crate::codec::{
    chars_of, decimal, split_spans, spans_text, push_char, push_decimal, push_str, split_on,
};
use crate::log::{
    Record, encode, encode_spec, block_starts, decode, entry_count, lemma_read_lines_err, log_lines, read_lines,
    reports,
};

verus! {

/// One removed file: where it was, the registry directory that holds it, and
/// when it was removed (seconds since the epoch).
#[derive(Debug, PartialEq, Eq, PartialOrd, Ord, Clone)]
pub struct Entry {
    pub name: String,
    pub alias: String,
    pub timestamp: u64,
}

impl View for Entry {
    type V = Record;

    open spec fn view(&self) -> Record {
        Record { name: self.name@, alias: self.alias@, timestamp: self.timestamp }
    }
}

/// The history: every entry, newest first (position 1 is `contents[0]`), and
/// the position at which each removal batch starts, newest batch first,
/// closed by one past the last position.
#[derive(Debug, Clone)]
pub struct Entries {
    contents: Vec<Entry>,
    blocks: Vec<usize>,
}

impl Entries {
    /// The entries, newest first.
    pub closed spec fn records(&self) -> Seq<Record> {
        self.contents@.map_values(|e: Entry| e@)
    }

    pub closed spec fn block_seq(&self) -> Seq<usize> {
        self.blocks@
    }

    /// Block starts ascend strictly from 1 and end at `len + 1`.
    pub open spec fn wf(&self) -> bool {
        &&& self.block_seq().len() >= 1
        &&& self.block_seq()[0] == 1
        &&& self.block_seq().last() == self.records().len() + 1
        &&& forall|i: int, j: int|
            0 <= i < j < self.block_seq().len() ==> self.block_seq()[i] < self.block_seq()[j]
    }

    /// Reads a whole log text. Fails on the first line, newest first, that
    /// does not decode, reporting it with its position.
    pub fn load(text: &str) -> (r: Result<Entries, Error>)
        ensures
            match (r, read_lines(log_lines(text@))) {
                (Ok(e), Ok(recs)) => {
                    &&& e.wf()
                    &&& e.records() == recs
                    &&& e.block_seq() == block_starts(log_lines(text@)).push(
                        (recs.len() + 1) as usize,
                    )
                },
                (Err(err), Err(bad)) => reports(err, bad.0, bad.1, bad.2),
                _ => false,
            },
    {
        let chars = chars_of(text);
        let lines = split_spans(&chars, 0, chars.len(), '\n');
        let ghost ls = log_lines(text@);
        assert(chars@.subrange(0, chars@.len() as int) =~= text@);
        assert(spans_text(chars@, lines@) == ls);
        let ghost n = ls.len() as int;
        let mut contents: Vec<Entry> = Vec::new();
        let mut blocks: Vec<usize> = Vec::new();
        let mut idx: usize = 1;
        let mut k: usize = lines.len();
        assert(ls.subrange(n, n) =~= Seq::<Seq<char>>::empty());
        assert(contents@.map_values(|e: Entry| e@) =~= Seq::<Record>::empty());
        while k > 0
            invariant
                0 <= k <= lines.len(),
                n == lines.len(),
                ls == spans_text(chars@, lines@),
                ls == log_lines(text@),
                forall|j: int| 0 <= j < lines.len() ==> 0 <= #[trigger] lines[j].0 <= lines[j].1 <= chars.len(),
                read_lines(ls.subrange(k as int, n)) == Ok::<Seq<Record>, (Seq<char>, nat, crate::log::Fault)>(
                    contents@.map_values(|e: Entry| e@),
                ),
                entry_count(ls.subrange(k as int, n)) == contents.len(),
                blocks@ == block_starts(ls.subrange(k as int, n)),
                idx == contents.len() + 1,
                contents.len() + (if k < n {
                    lines[k as int].0 as int
                } else {
                    chars.len() as int
                }) <= chars.len(),
                forall|j: int| 0 < j < lines.len() ==> #[trigger] lines[j].0 == lines[j - 1].1 + 1,
                forall|i: int, j: int|
                    0 <= i < j < blocks@.len() ==> blocks@[i] < blocks@[j],
                forall|i: int| 0 <= i < blocks@.len() ==> 1 <= #[trigger] blocks@[i] <= contents.len(),
                blocks@.len() == 0 <==> contents.len() == 0,
                blocks@.len() > 0 ==> blocks@[0] == 1,
            decreases k,
        {
            k = k - 1;
            let (lo, hi) = lines[k];
            let ghost rest = ls.subrange(k + 1, n);
            let ghost here = ls.subrange(k as int, n);
            assert(here.drop_first() =~= rest);
            assert(here[0] == chars@.subrange(lo as int, hi as int));
            if lo < hi {
                let ends = contents.len() == 0 || lines[k + 1].0 == lines[k + 1].1;
                assert(contents.len() > 0 ==> here[1] == ls[k + 1]);
                assert(ends == crate::log::ends_block(here));
                if ends {
                    blocks.push(idx);
                }
                match decode(&chars, lo, hi, idx) {
                    Ok(entry) => {
                        contents.push(entry);
                        assert(contents@.map_values(|e: Entry| e@) =~= read_lines(rest)->Ok_0.push(entry@));
                        idx = idx + 1;
                    },
                    Err(err) => {
                        proof {
                            assert(read_lines(rest)->Ok_0.len() + 1 == idx);
                            let f = crate::log::decode_line(here[0])->Err_0;
                            assert(read_lines(here) == Err::<Seq<Record>, (Seq<char>, nat, crate::log::Fault)>((here[0], idx as nat, f)));
                            lemma_read_lines_err(ls, 0, k as int);
                            assert(ls.subrange(0, n) =~= ls);
                        }
                        return Err(err);
                    },
                }
            } else {
                assert(here[0].len() == 0);
            }
        }
        assert(ls.subrange(0, n) =~= ls);
        blocks.push(idx);
        Ok(Entries { contents, blocks })
    }

    /// The number of entries.
    pub fn len(&self) -> (r: usize)
        ensures
            r == self.records().len(),
    {
        self.contents.len()
    }

    /// The entry at `position` (newest is 1).
    pub fn entry_at(&self, position: usize) -> (r: &Entry)
        requires
            1 <= position <= self.records().len(),
        ensures
            r@ == self.records()[position - 1],
    {
        &self.contents[position - 1]
    }

    /// The number of removal batches.
    pub fn block_count(&self) -> (r: usize)
        requires
            self.wf(),
        ensures
            r == self.block_seq().len() - 1,
            r < usize::MAX,
    {
        self.blocks.len() - 1
    }

    /// The positions of batch `block` (newest is 1), as `start..end`.
    pub fn positions_in_block(&self, block: usize) -> (r: (usize, usize))
        requires
            self.wf(),
            1 <= block < self.block_seq().len(),
        ensures
            r.0 == self.block_seq()[block - 1],
            r.1 == self.block_seq()[block as int],
    {
        (self.blocks[block - 1], self.blocks[block])
    }
}

/// A set of positions, kept in ascending order.
#[derive(Debug, Clone)]
pub struct Selection {
    positions: Vec<usize>,
}

impl Selection {
    /// The positions, ascending.
    pub closed spec fn ordered(&self) -> Seq<usize> {
        self.positions@
    }

    pub open spec fn wf(&self) -> bool {
        forall|i: int, j: int|
            0 <= i < j < self.ordered().len() ==> self.ordered()[i] < self.ordered()[j]
    }

    pub fn new() -> (r: Selection)
        ensures
            r.wf(),
            r@ == Set::<usize>::empty(),
    {
        let r = Selection { positions: Vec::new() };
        assert(r@ =~= Set::<usize>::empty());
        r
    }

    /// The positions, ascending.
    pub fn positions(&self) -> (r: &Vec<usize>)
        ensures
            r@ == self.ordered(),
    {
        &self.positions
    }

    pub fn contains(&self, p: usize) -> (r: bool)
        requires
            self.wf(),
        ensures
            r == self@.contains(p),
    {
        let mut i: usize = 0;
        while i < self.positions.len()
            invariant
                i <= self.positions.len(),
                forall|j: int| 0 <= j < i ==> self.positions@[j] != p,
            decreases self.positions.len() - i,
        {
            if self.positions[i] == p {
                return true;
            }
            i = i + 1;
        }
        false
    }

    pub fn insert(&mut self, p: usize)
        requires
            old(self).wf(),
        ensures
            final(self).wf(),
            final(self)@ == old(self)@.insert(p),
    {
        let mut i: usize = 0;
        while i < self.positions.len() && self.positions[i] < p
            invariant
                i <= self.positions.len(),
                self.positions@ == old(self).positions@,
                forall|j: int| 0 <= j < i ==> self.positions@[j] < p,
            decreases self.positions.len() - i,
        {
            i = i + 1;
        }
        if i < self.positions.len() && self.positions[i] == p {
            assert(self@ =~= old(self)@.insert(p));
            return;
        }
        let ghost before = self.positions@;
        self.positions.insert(i, p);
        proof {
            assert(self.positions@ =~= before.subrange(0, i as int).push(p) + before.subrange(
                i as int,
                before.len() as int,
            ));
            assert forall|q: usize| #[trigger] self.positions@.contains(q) <==> (q == p || before.contains(q)) by {
                if before.contains(q) {
                    let j = choose|j: int| 0 <= j < before.len() && before[j] == q;
                    if j < i {
                        assert(self.positions@[j] == q);
                    } else {
                        assert(self.positions@[j + 1] == q);
                    }
                }
                if q == p {
                    assert(self.positions@[i as int] == q);
                }
            }
            assert(self@ =~= old(self)@.insert(p));
        }
    }
}

impl View for Selection {
    type V = Set<usize>;

    open spec fn view(&self) -> Set<usize> {
        Set::new(|p: usize| self.ordered().contains(p))
    }
}

/// What the world outside the history supplies to a selection: the current
/// time (seconds since the epoch) and the positions picked interactively.
#[derive(Debug, Clone)]
pub struct Context {
    pub now: u64,
    pub picked: Vec<usize>,
}

/// A criterion that adds the positions it matches to a selection.
pub trait Select {
    /// The positions this criterion may add.
    spec fn chosen(&self, entries: &Entries, ctx: &Context) -> Set<usize>;

    /// Whether the criterion adds all of `chosen`; false where an outside
    /// matcher decides which of them.
    spec fn exact(&self) -> bool;

    fn select(&self, entries: &Entries, ctx: &Context, selection: &mut Selection)
        requires
            entries.wf(),
            old(selection).wf(),
        ensures
            final(selection).wf(),
            old(selection)@.subset_of(final(selection)@),
            final(selection)@.subset_of(old(selection)@.union(self.chosen(entries, ctx))),
            self.exact() ==> final(selection)@ == old(selection)@.union(
                self.chosen(entries, ctx),
            ),
    ;
}

/// Adds the positions `lo..=hi` to `selection`.
fn insert_range(selection: &mut Selection, lo: usize, hi: usize)
    requires
        old(selection).wf(),
        hi < usize::MAX,
    ensures
        final(selection).wf(),
        final(selection)@ == old(selection)@.union(Set::new(|p: usize| lo <= p <= hi)),
{
    let mut p: usize = lo;
    while p <= hi
        invariant
            selection.wf(),
            lo <= p,
            hi < usize::MAX,
            p <= hi + 1 || p == lo,
            selection@ == old(selection)@.union(Set::new(|q: usize| lo <= q < p)),
        decreases hi + 1 - p,
    {
        selection.insert(p);
        p = p + 1;
        assert(selection@ =~= old(selection)@.union(Set::new(|q: usize| lo <= q < p)));
    }
    assert(selection@ =~= old(selection)@.union(Set::new(|q: usize| lo <= q <= hi)));
}

/// The positions `start..=end`, the latter clamped to the history.
#[derive(Debug, PartialEq, Eq)]
pub struct Index {
    pub start: usize,
    pub end: usize,
}

impl Index {
    pub fn new(start: usize, end: usize) -> (r: Index)
        ensures
            r.start == start,
            r.end == end,
    {
        Index { start, end }
    }

    /// The same range, over batches.
    pub fn as_block(self) -> (r: Block)
        ensures
            r.start == self.start,
            r.end == self.end,
    {
        Block { start: self.start, end: self.end }
    }
}

impl Select for Index {
    open spec fn chosen(&self, entries: &Entries, ctx: &Context) -> Set<usize> {
        Set::new(
            |p: usize|
                self.start <= p <= self.end && 1 <= p <= entries.records().len(),
        )
    }

    open spec fn exact(&self) -> bool {
        true
    }

    fn select(&self, entries: &Entries, ctx: &Context, selection: &mut Selection) {
        let len = entries.len();
        let lo = if self.start < 1 {
            1
        } else {
            self.start
        };
        let hi = if self.end < len {
            self.end
        } else {
            len
        };
        insert_range(selection, lo, hi);
        assert(Set::new(|p: usize| lo <= p <= hi) =~= self.chosen(entries, ctx));
    }
}

/// The batches `start..=end` (newest is 1), the latter clamped to the history.
#[derive(Debug, PartialEq, Eq)]
pub struct Block {
    pub start: usize,
    pub end: usize,
}

impl Block {
    pub fn new(start: usize, end: usize) -> (r: Block)
        ensures
            r.start == start,
            r.end == end,
    {
        Block { start, end }
    }
}

/// Position `p` lies in batch `k` (newest is 1).
pub open spec fn in_block(entries: &Entries, k: int, p: usize) -> bool {
    1 <= k < entries.block_seq().len() && entries.block_seq()[k - 1] <= p < entries.block_seq()[k]
}

impl Select for Block {
    open spec fn chosen(&self, entries: &Entries, ctx: &Context) -> Set<usize> {
        Set::new(
            |p: usize| exists|k: int| self.start <= k <= self.end && #[trigger] in_block(entries, k, p),
        )
    }

    open spec fn exact(&self) -> bool {
        true
    }

    fn select(&self, entries: &Entries, ctx: &Context, selection: &mut Selection) {
        let count = entries.block_count();
        let mut k: usize = if self.start < 1 {
            1
        } else {
            self.start
        };
        let hi = if self.end < count {
            self.end
        } else {
            count
        };
        let ghost lo = k;
        let ghost covered = |p: usize|
            exists|j: int| lo <= j < k && #[trigger] in_block(entries, j, p);
        while k <= hi
            invariant
                entries.wf(),
                selection.wf(),
                count == entries.block_seq().len() - 1,
                count < usize::MAX,
                hi <= count,
                1 <= lo <= k,
                k <= hi + 1 || k == lo,
                selection@ == old(selection)@.union(Set::new(
                    |p: usize| exists|j: int| lo <= j < k && #[trigger] in_block(entries, j, p),
                )),
            decreases hi + 1 - k,
        {
            let (a, b) = entries.positions_in_block(k);
            let ghost before = selection@;
            if a < b {
                insert_range(selection, a, b - 1);
            } else {
                assert(Set::new(|p: usize| a <= p <= b - 1) =~= Set::<usize>::empty());
            }
            k = k + 1;
            assert(selection@ =~= old(selection)@.union(Set::new(
                |p: usize| exists|j: int| lo <= j < k && #[trigger] in_block(entries, j, p),
            ))) by {
                assert forall|p: usize| #[trigger] selection@.contains(p) <==> old(selection)@.union(Set::new(
                    |p: usize| exists|j: int| lo <= j < k && #[trigger] in_block(entries, j, p),
                )).contains(p) by {
                    if in_block(entries, k - 1, p) {
                        assert(exists|j: int| lo <= j < k && #[trigger] in_block(entries, j, p));
                    }
                }
            }
        }
        assert(selection@ =~= old(selection)@.union(self.chosen(entries, ctx))) by {
            assert forall|p: usize| #[trigger] self.chosen(entries, ctx).contains(p) implies exists|j: int|
                lo <= j < k && #[trigger] in_block(entries, j, p) by {
                let j = choose|j: int| self.start <= j <= self.end && #[trigger] in_block(entries, j, p);
                assert(lo <= j < k);
            }
        }
    }
}

/// The entries whose age (`now - timestamp`, in seconds) lies in
/// `start..=end`; entries stamped after `now` have no age and never match.
#[derive(Debug, PartialEq, Eq)]
pub struct Time {
    pub start: u64,
    pub end: u64,
}

impl Time {
    pub fn new(start: u64, end: u64) -> (r: Time)
        ensures
            r.start == start,
            r.end == end,
    {
        Time { start, end }
    }
}

impl Select for Time {
    open spec fn chosen(&self, entries: &Entries, ctx: &Context) -> Set<usize> {
        Set::new(
            |p: usize|
                1 <= p <= entries.records().len() && entries.records()[p - 1].timestamp <= ctx.now
                    && self.start <= ctx.now - entries.records()[p - 1].timestamp <= self.end,
        )
    }

    open spec fn exact(&self) -> bool {
        true
    }

    fn select(&self, entries: &Entries, ctx: &Context, selection: &mut Selection) {
        let len = entries.len();
        let mut p: usize = 1;
        while p <= len
            invariant
                entries.wf(),
                selection.wf(),
                len == entries.records().len(),
                len < usize::MAX,
                1 <= p <= len + 1,
                selection@ == old(selection)@.union(
                    self.chosen(entries, ctx).filter(|q: usize| q < p),
                ),
            decreases len + 1 - p,
        {
            let ts = entries.entry_at(p).timestamp;
            if ts <= ctx.now && self.start <= ctx.now - ts && ctx.now - ts <= self.end {
                selection.insert(p);
            }
            p = p + 1;
            assert(selection@ =~= old(selection)@.union(
                self.chosen(entries, ctx).filter(|q: usize| q < p),
            ));
        }
        assert(self.chosen(entries, ctx).filter(|q: usize| q < p) =~= self.chosen(entries, ctx));
    }
}

/// The positions picked interactively, as far as they are in the history.
#[derive(Debug, PartialEq, Eq)]
pub struct Fzf {}

impl Select for Fzf {
    open spec fn chosen(&self, entries: &Entries, ctx: &Context) -> Set<usize> {
        Set::new(|p: usize| 1 <= p <= entries.records().len() && ctx.picked@.contains(p))
    }

    open spec fn exact(&self) -> bool {
        true
    }

    fn select(&self, entries: &Entries, ctx: &Context, selection: &mut Selection) {
        let len = entries.len();
        let mut i: usize = 0;
        while i < ctx.picked.len()
            invariant
                selection.wf(),
                len == entries.records().len(),
                i <= ctx.picked.len(),
                selection@ == old(selection)@.union(Set::new(
                    |p: usize| 1 <= p <= len && exists|j: int| 0 <= j < i && #[trigger] ctx.picked@[j] == p,
                )),
            decreases ctx.picked.len() - i,
        {
            let p = ctx.picked[i];
            if 1 <= p && p <= len {
                selection.insert(p);
            }
            i = i + 1;
            assert(selection@ =~= old(selection)@.union(Set::new(
                |p: usize| 1 <= p <= len && exists|j: int| 0 <= j < i && #[trigger] ctx.picked@[j] == p,
            ))) by {
                assert(ctx.picked@[i - 1] == p);
            }
        }
        assert(selection@ =~= old(selection)@.union(self.chosen(entries, ctx))) by {
            assert forall|q: usize| #[trigger] ctx.picked@.contains(q) <==> exists|j: int| 0 <= j < i && #[trigger] ctx.picked@[j] == q by {}
        }
    }
}

impl Entries {
    /// Adds every position `p` whose entry is flagged in `hits[p - 1]`.
    pub fn select_where(&self, hits: &Vec<bool>, selection: &mut Selection)
        requires
            self.wf(),
            old(selection).wf(),
            hits.len() == self.records().len(),
        ensures
            final(selection).wf(),
            final(selection)@ == old(selection)@.union(
                Set::new(|p: usize| 1 <= p <= hits.len() && hits@[p - 1]),
            ),
    {
        let len = hits.len();
        let mut p: usize = 1;
        while p <= len
            invariant
                selection.wf(),
                len == hits.len(),
                len < usize::MAX,
                1 <= p <= len + 1,
                selection@ == old(selection)@.union(
                    Set::new(|q: usize| 1 <= q < p && hits@[q - 1]),
                ),
            decreases len + 1 - p,
        {
            if hits[p - 1] {
                selection.insert(p);
            }
            p = p + 1;
            assert(selection@ =~= old(selection)@.union(
                Set::new(|q: usize| 1 <= q < p && hits@[q - 1]),
            ));
        }
        assert(Set::new(|q: usize| 1 <= q < p && hits@[q - 1]) =~= Set::new(
            |p: usize| 1 <= p <= hits.len() && hits@[p - 1],
        ));
    }
}

#[verifier::external_type_specification]
#[verifier::external_body]
pub struct ExRegex(regex::Regex);

/// Whether `regex::Regex::new` accepts the pattern (its syntax is valid and
/// the compiled program stays under the default size limit).
pub uninterp spec fn regex_compiles(pattern: Seq<char>) -> bool;

/// Whether the regular expression `pattern` matches somewhere in `text`.
pub uninterp spec fn regex_matches(pattern: Seq<char>, text: Seq<char>) -> bool;

/// The entries whose original path a regular expression matches anywhere.
/// It keeps the pattern text it was compiled from.
#[derive(Debug)]
pub struct Pattern {
    re: regex::Regex,
    source: String,
}

impl Pattern {
    /// The pattern text.
    pub closed spec fn source_spec(&self) -> Seq<char> {
        self.source@
    }
}

/// Relies on `regex::Regex::new`: it succeeds or fails on the pattern alone;
/// the compiled expression is kept with the text it was compiled from.
#[verifier::external_body]
pub(crate) fn compile_pattern(source: String) -> (r: Result<Pattern, regex::Error>)
    ensures
        r is Ok <==> regex_compiles(source@),
        r matches Ok(p) ==> p.source_spec() == source@,
{
    match regex::Regex::new(&source) {
        Ok(re) => Ok(Pattern { re, source }),
        Err(e) => Err(e),
    }
}

/// Relies on `regex::Regex::is_match`: whether the expression, compiled from
/// the pattern's text, matches somewhere in `text`.
#[verifier::external_body]
fn regex_is_match(p: &Pattern, text: &str) -> (r: bool)
    ensures
        r == regex_matches(p.source_spec(), text@),
{
    p.re.is_match(text)
}

impl Select for Pattern {
    open spec fn chosen(&self, entries: &Entries, ctx: &Context) -> Set<usize> {
        Set::new(
            |p: usize|
                1 <= p <= entries.records().len() && regex_matches(
                    self.source_spec(),
                    entries.records()[p - 1].name,
                ),
        )
    }

    open spec fn exact(&self) -> bool {
        true
    }

    fn select(&self, entries: &Entries, ctx: &Context, selection: &mut Selection) {
        let len = entries.len();
        let mut hits: Vec<bool> = Vec::new();
        let mut p: usize = 1;
        while p <= len
            invariant
                len == entries.records().len(),
                len < usize::MAX,
                1 <= p <= len + 1,
                hits.len() == p - 1,
                forall|j: int|
                    0 <= j < p - 1 ==> #[trigger] hits@[j] == regex_matches(
                        self.source_spec(),
                        entries.records()[j].name,
                    ),
            decreases len + 1 - p,
        {
            hits.push(regex_is_match(self, entries.entry_at(p).name.as_str()));
            p = p + 1;
        }
        entries.select_where(&hits, selection);
        assert(Set::new(|p: usize| 1 <= p <= hits.len() && hits@[p - 1]) =~= self.chosen(
            entries,
            ctx,
        ));
    }
}

/// One criterion of any kind.
#[derive(Debug)]
pub enum Criterion {
    Index(Index),
    Time(Time),
    Pattern(Pattern),
    Fzf(Fzf),
    Block(Block),
}

impl Select for Criterion {
    open spec fn chosen(&self, entries: &Entries, ctx: &Context) -> Set<usize> {
        match self {
            Criterion::Index(s) => s.chosen(entries, ctx),
            Criterion::Time(s) => s.chosen(entries, ctx),
            Criterion::Pattern(s) => s.chosen(entries, ctx),
            Criterion::Fzf(s) => s.chosen(entries, ctx),
            Criterion::Block(s) => s.chosen(entries, ctx),
        }
    }

    open spec fn exact(&self) -> bool {
        match self {
            Criterion::Index(s) => s.exact(),
            Criterion::Time(s) => s.exact(),
            Criterion::Pattern(s) => s.exact(),
            Criterion::Fzf(s) => s.exact(),
            Criterion::Block(s) => s.exact(),
        }
    }

    fn select(&self, entries: &Entries, ctx: &Context, selection: &mut Selection) {
        match self {
            Criterion::Index(s) => s.select(entries, ctx, selection),
            Criterion::Time(s) => s.select(entries, ctx, selection),
            Criterion::Pattern(s) => s.select(entries, ctx, selection),
            Criterion::Fzf(s) => s.select(entries, ctx, selection),
            Criterion::Block(s) => s.select(entries, ctx, selection),
        }
    }
}

/// The union of what the criteria `cs` may add.
pub open spec fn union_chosen(cs: Seq<Criterion>, entries: &Entries, ctx: &Context) -> Set<usize>
    decreases cs.len(),
{
    if cs.len() == 0 {
        Set::<usize>::empty()
    } else {
        union_chosen(cs.drop_last(), entries, ctx).union(cs.last().chosen(entries, ctx))
    }
}

pub open spec fn all_exact(cs: Seq<Criterion>) -> bool {
    forall|i: int| 0 <= i < cs.len() ==> #[trigger] cs[i].exact()
}

/// A list of criteria, resolved together: a position is selected when any
/// of them matches it.
#[derive(Debug)]
pub struct Selector(Vec<Criterion>);

impl Selector {
    pub closed spec fn criteria(&self) -> Seq<Criterion> {
        self.0@
    }

    pub fn new() -> (r: Selector)
        ensures
            r.criteria() == Seq::<Criterion>::empty(),
    {
        Selector(Vec::new())
    }

    pub fn push(&mut self, sel: Criterion)
        ensures
            final(self).criteria() == old(self).criteria().push(sel),
    {
        self.0.push(sel);
    }
}

impl Select for Selector {
    open spec fn chosen(&self, entries: &Entries, ctx: &Context) -> Set<usize> {
        union_chosen(self.criteria(), entries, ctx)
    }

    open spec fn exact(&self) -> bool {
        all_exact(self.criteria())
    }

    fn select(&self, entries: &Entries, ctx: &Context, selection: &mut Selection) {
        let mut i: usize = 0;
        while i < self.0.len()
            invariant
                entries.wf(),
                selection.wf(),
                i <= self.0.len(),
                old(selection)@.subset_of(selection@),
                selection@.subset_of(old(selection)@.union(union_chosen(self.0@.subrange(0, i as int), entries, ctx))),
                all_exact(self.0@.subrange(0, i as int)) ==> selection@ == old(selection)@.union(
                    union_chosen(self.0@.subrange(0, i as int), entries, ctx),
                ),
            decreases self.0.len() - i,
        {
            self.0[i].select(entries, ctx, selection);
            i = i + 1;
            let ghost done = self.0@.subrange(0, i as int);
            assert(done.drop_last() =~= self.0@.subrange(0, i - 1));
            assert(done.last() == self.0@[i - 1]);
            assert(all_exact(done) ==> all_exact(done.drop_last()) && done.last().exact()) by {
                if all_exact(done) {
                    assert(done[done.len() - 1].exact());
                    assert forall|j: int| 0 <= j < done.drop_last().len() implies #[trigger] done.drop_last()[j].exact() by {
                        assert(done[j].exact());
                    }
                }
            }
            assert(all_exact(done) ==> selection@ =~= old(selection)@.union(
                union_chosen(done, entries, ctx),
            ));
        }
        assert(self.0@.subrange(0, i as int) =~= self.0@);
    }
}

/// Resolving two criteria together may add exactly what either may add
/// alone, whichever comes first; repeating one adds nothing more.
pub proof fn lemma_union_of_two(s1: Criterion, s2: Criterion, entries: &Entries, ctx: &Context)
    ensures
        union_chosen(seq![s1, s2], entries, ctx) == s1.chosen(entries, ctx).union(
            s2.chosen(entries, ctx),
        ),
        union_chosen(seq![s1, s2], entries, ctx) == union_chosen(seq![s2, s1], entries, ctx),
        union_chosen(seq![s1, s1], entries, ctx) == s1.chosen(entries, ctx),
        all_exact(seq![s1, s2]) == (s1.exact() && s2.exact()),
{
    assert(seq![s1, s2].drop_last() =~= seq![s1]);
    assert(seq![s2, s1].drop_last() =~= seq![s2]);
    assert(seq![s1, s1].drop_last() =~= seq![s1]);
    assert(seq![s1].drop_last() =~= Seq::<Criterion>::empty());
    assert(seq![s2].drop_last() =~= Seq::<Criterion>::empty());
    assert(union_chosen(Seq::<Criterion>::empty(), entries, ctx) == Set::<usize>::empty());
    assert(seq![s1].last() == s1 && seq![s2].last() == s2);
    assert(seq![s1, s2].last() == s2 && seq![s2, s1].last() == s1 && seq![s1, s1].last() == s1);
    assert(union_chosen(seq![s1], entries, ctx) =~= s1.chosen(entries, ctx));
    assert(union_chosen(seq![s2], entries, ctx) =~= s2.chosen(entries, ctx));
    assert(union_chosen(seq![s1, s2], entries, ctx) == union_chosen(seq![s1], entries, ctx).union(s2.chosen(entries, ctx)));
    assert(union_chosen(seq![s2, s1], entries, ctx) == union_chosen(seq![s2], entries, ctx).union(s1.chosen(entries, ctx)));
    assert(union_chosen(seq![s1, s1], entries, ctx) == union_chosen(seq![s1], entries, ctx).union(s1.chosen(entries, ctx)));
    assert(union_chosen(seq![s1, s2], entries, ctx) =~= union_chosen(seq![s2, s1], entries, ctx));
    assert(union_chosen(seq![s1, s1], entries, ctx) =~= s1.chosen(entries, ctx));
    assert(union_chosen(seq![s1, s2], entries, ctx) =~= s1.chosen(entries, ctx).union(
        s2.chosen(entries, ctx),
    ));
    let both = seq![s1, s2];
    if s1.exact() && s2.exact() {
        assert forall|i: int| 0 <= i < 2 implies #[trigger] both[i].exact() by {}
    }
    assert(all_exact(both) ==> both[0].exact() && both[1].exact());
}

/// `s` with every occurrence of `from` replaced by `to`, as `str::replace`
/// does it: matches are taken left to right without overlap; an empty
/// `from` matches before every character and at the end.
pub open spec fn replaced(s: Seq<char>, from: Seq<char>, to: Seq<char>) -> Seq<char>
    decreases s.len(),
{
    if from.len() == 0 {
        if s.len() == 0 {
            to
        } else {
            to + seq![s[0]] + replaced(s.drop_first(), from, to)
        }
    } else if s.len() < from.len() {
        s
    } else if s.subrange(0, from.len() as int) == from {
        to + replaced(s.subrange(from.len() as int, s.len() as int), from, to)
    } else {
        seq![s[0]] + replaced(s.drop_first(), from, to)
    }
}

/// Relies on `str::replace`: every match of `from`, leftmost first and not
/// overlapping, is replaced by `to`.
#[verifier::external_body]
fn replace_text(s: &str, from: &str, to: &str) -> (r: String)
    ensures
        r@ == replaced(s@, from@, to@),
{
    s.replace(from, to)
}

/// The registry directory of a record.
pub open spec fn entry_dir(cfg: &Config, r: Record) -> Seq<char> {
    join_spec(cfg.registry_spec(), r.alias)
}

impl Entry {
    /// The original path with the home directory written `~`.
    pub fn true_name(&self, home: &str) -> (r: String)
        ensures
            r@ == replaced(self.name@, home@, "~"@),
    {
        replace_text(self.name.as_str(), home, "~")
    }

    /// The registry directory that holds this entry.
    pub fn dir(&self, cfg: &Config) -> (r: String)
        ensures
            r@ == entry_dir(cfg, self@),
    {
        join(cfg.registry(), self.alias.as_str())
    }

    /// The metadata snapshot that `info` shows.
    pub fn info(&self, cfg: &Config) -> (r: String)
        ensures
            r@ == join_spec(entry_dir(cfg, self@), "meta"@),
    {
        let d = self.dir(cfg);
        join(d.as_str(), "meta")
    }
}

/// A restore: move the file `from` in the registry back to `to`.
#[derive(Debug, Clone, PartialEq, Eq)]
pub struct Move {
    pub from: String,
    pub to: String,
}

impl Entries {
    /// The positions of `selection` are all in the history.
    pub open spec fn covers(&self, selection: &Selection) -> bool {
        forall|k: int|
            0 <= k < selection.ordered().len() ==> 1 <= #[trigger] selection.ordered()[k]
                <= self.records().len()
    }

    /// The metadata snapshot of each selected entry, by ascending position.
    pub fn info(&self, cfg: &Config, selection: &Selection) -> (r: Vec<String>)
        requires
            self.covers(selection),
        ensures
            r.len() == selection.ordered().len(),
            forall|k: int|
                0 <= k < r.len() ==> #[trigger] r[k]@ == join_spec(
                    entry_dir(cfg, self.records()[selection.ordered()[k] - 1]),
                    "meta"@,
                ),
    {
        let ps = selection.positions();
        let mut out: Vec<String> = Vec::new();
        let mut k: usize = 0;
        while k < ps.len()
            invariant
                k <= ps.len(),
                ps@ == selection.ordered(),
                self.covers(selection),
                out.len() == k,
                forall|j: int|
                    0 <= j < k ==> #[trigger] out[j]@ == join_spec(
                        entry_dir(cfg, self.records()[selection.ordered()[j] - 1]),
                        "meta"@,
                    ),
            decreases ps.len() - k,
        {
            out.push(self.entry_at(ps[k]).info(cfg));
            k = k + 1;
        }
        out
    }

    /// The registry directory of each selected entry, by ascending position:
    /// deleting removes each for good.
    pub fn delete(&self, cfg: &Config, selection: &Selection) -> (r: Vec<String>)
        requires
            self.covers(selection),
        ensures
            r.len() == selection.ordered().len(),
            forall|k: int|
                0 <= k < r.len() ==> #[trigger] r[k]@ == entry_dir(
                    cfg,
                    self.records()[selection.ordered()[k] - 1],
                ),
    {
        let ps = selection.positions();
        let mut out: Vec<String> = Vec::new();
        let mut k: usize = 0;
        while k < ps.len()
            invariant
                k <= ps.len(),
                ps@ == selection.ordered(),
                self.covers(selection),
                out.len() == k,
                forall|j: int|
                    0 <= j < k ==> #[trigger] out[j]@ == entry_dir(
                        cfg,
                        self.records()[selection.ordered()[j] - 1],
                    ),
            decreases ps.len() - k,
        {
            out.push(self.entry_at(ps[k]).dir(cfg));
            k = k + 1;
        }
        out
    }

    /// The move that puts each selected entry back where it was removed
    /// from, by ascending position.
    pub fn restore(&self, cfg: &Config, selection: &Selection) -> (r: Vec<Move>)
        requires
            self.covers(selection),
        ensures
            r.len() == selection.ordered().len(),
            forall|k: int|
                0 <= k < r.len() ==> {
                    let rec = self.records()[selection.ordered()[k] - 1];
                    &&& #[trigger] r[k].from@ == join_spec(entry_dir(cfg, rec), "file"@)
                    &&& r[k].to@ == rec.name
                },
    {
        let ps = selection.positions();
        let mut out: Vec<Move> = Vec::new();
        let mut k: usize = 0;
        while k < ps.len()
            invariant
                k <= ps.len(),
                ps@ == selection.ordered(),
                self.covers(selection),
                out.len() == k,
                forall|j: int|
                    0 <= j < k ==> {
                        let rec = self.records()[selection.ordered()[j] - 1];
                        &&& #[trigger] out[j].from@ == join_spec(entry_dir(cfg, rec), "file"@)
                        &&& out[j].to@ == rec.name
                    },
            decreases ps.len() - k,
        {
            let e = self.entry_at(ps[k]);
            let d = e.dir(cfg);
            out.push(Move { from: join(d.as_str(), "file"), to: e.name.clone() });
            k = k + 1;
        }
        out
    }
}

/// The log text of the batch that holds positions `a..b`: a blank-line
/// separator, then its lines oldest first (position `b - 1` down to `a`).
pub open spec fn block_text(recs: Seq<Record>, a: int, b: int) -> Seq<char>
    decreases b - a,
{
    if a >= b {
        seq!['\n']
    } else {
        block_text(recs, a + 1, b) + encode_spec(recs[a - 1]) + seq!['\n']
    }
}

/// The log text of the batches `k` down to 1, oldest first.
pub open spec fn log_text(recs: Seq<Record>, blocks: Seq<usize>, k: int) -> Seq<char>
    decreases k,
{
    if k <= 0 {
        Seq::<char>::empty()
    } else {
        block_text(recs, blocks[k - 1] as int, blocks[k] as int) + log_text(recs, blocks, k - 1)
    }
}

impl Entries {
    /// The log text of the whole history, oldest batch first, as the
    /// removals wrote it.
    pub fn encode(&self) -> (r: String)
        requires
            self.wf(),
        ensures
            r@ == log_text(self.records(), self.block_seq(), self.block_seq().len() - 1),
    {
        let ghost recs = self.records();
        let ghost bs = self.block_seq();
        let ghost nb = bs.len() - 1;
        let mut out = String::new();
        let mut k: usize = self.blocks.len() - 1;
        while k > 0
            invariant
                self.wf(),
                recs == self.records(),
                bs == self.block_seq(),
                nb == bs.len() - 1,
                0 <= k <= nb,
                out@ + log_text(recs, bs, k as int) == log_text(recs, bs, nb),
            decreases k,
        {
            let a = self.blocks[k - 1];
            let b = self.blocks[k];
            assert(a < b);
            assert(1 <= a);
            assert(b <= recs.len() + 1) by {
                if k < nb {
                    assert(bs[k as int] < bs[nb]);
                }
            }
            let mut block = String::new();
            push_char(&mut block, '\n');
            let mut p: usize = b;
            while p > a
                invariant
                    1 <= a <= p <= b <= recs.len() + 1,
                    recs == self.records(),
                    block@ == block_text(recs, p as int, b as int),
                decreases p,
            {
                p = p - 1;
                let line = encode(&self.contents[p - 1]);
                push_str(&mut block, line.as_str());
                push_char(&mut block, '\n');
                assert(block@ =~= block_text(recs, p as int, b as int));
            }
            let ghost before = out@;
            push_str(&mut out, block.as_str());
            assert(out@ + log_text(recs, bs, k - 1) =~= before + log_text(recs, bs, k as int));
            k = k - 1;
        }
        assert(out@ + log_text(recs, bs, 0) =~= out@);
        out
    }
}

/// The line that lists position `p` for the picker: the position, a tab,
/// the original path.
pub open spec fn listing_line(p: nat, r: Record) -> Seq<char> {
    decimal(p) + seq!['\t'] + r.name
}

/// What the picker answered for one line: the position before the first
/// tab, if it reads as one.
pub open spec fn picked_position(line: Seq<char>) -> Option<usize> {
    crate::command::parse_usize_spec(split_on(line, '\t')[0])
}

impl Entries {
    /// Every entry for the picker, newest first, one line each.
    pub fn listing(&self) -> (r: Vec<String>)
        ensures
            r.len() == self.records().len(),
            forall|k: int|
                0 <= k < r.len() ==> #[trigger] r[k]@ == listing_line((k + 1) as nat, self.records()[k]),
    {
        let mut out: Vec<String> = Vec::new();
        let mut k: usize = 0;
        while k < self.contents.len()
            invariant
                k <= self.contents.len(),
                out.len() == k,
                forall|j: int|
                    0 <= j < k ==> #[trigger] out[j]@ == listing_line((j + 1) as nat, self.records()[j]),
            decreases self.contents.len() - k,
        {
            let mut line = String::new();
            push_decimal(&mut line, (k + 1) as u64);
            push_char(&mut line, '\t');
            push_str(&mut line, self.contents[k].name.as_str());
            assert(line@ =~= listing_line((k + 1) as nat, self.records()[k as int]));
            out.push(line);
            k = k + 1;
        }
        out
    }
}

/// The positions in the lines the picker answered with, in order; lines
/// that do not start with a position are skipped.
pub fn read_picks(lines: &Vec<String>) -> (r: Vec<usize>)
    ensures
        r@ == picks_of(lines@),
{
    let mut out: Vec<usize> = Vec::new();
    let mut i: usize = 0;
    while i < lines.len()
        invariant
            i <= lines.len(),
            out@ == picks_of(lines@.subrange(0, i as int)),
        decreases lines.len() - i,
    {
        let c = crate::codec::chars_of(lines[i].as_str());
        let fields = crate::codec::split_spans(&c, 0, c.len(), '\t');
        assert(c@.subrange(0, c@.len() as int) =~= lines@[i as int]@);
        assert(crate::codec::spans_text(c@, fields@)[0] == c@.subrange(fields[0].0 as int, fields[0].1 as int));
        let got = crate::command::parse_usize(&c, fields[0].0, fields[0].1);
        assert(lines@.subrange(0, i + 1).drop_last() =~= lines@.subrange(0, i as int));
        match got {
            Some(p) => {
                out.push(p);
            },
            None => {},
        }
        i = i + 1;
    }
    assert(lines@.subrange(0, i as int) =~= lines@);
    out
}

/// The positions that the lines hold, in order, skipping lines that hold
/// none.
pub open spec fn picks_of(lines: Seq<String>) -> Seq<usize>
    decreases lines.len(),
{
    if lines.len() == 0 {
        seq![]
    } else {
        match picked_position(lines.last()@) {
            Some(p) => picks_of(lines.drop_last()).push(p),
            None => picks_of(lines.drop_last()),
        }
    }
}

} // verus!
