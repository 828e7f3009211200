//! User-facing criteria as typed on the command line, and the errors of the
//! whole library.
use vstd::prelude::*;
use crate::codec::{
    chars_of, decimal, digit_value, is_digit, parse_u64, parse_u64_spec, push_char, push_decimal,
    push_str, split_on, split_spans, spans_text, string_of,
};
use crate::select;
use crate::select::regex_compiles;
use regex::Error as RegexError;

verus! {

/// Everything that can go wrong, each with the text that caused it.
#[derive(Debug)]
pub enum Error {
    NonExclusiveCmd(&'static str, &'static str),
    TooManyArgs(&'static str, Vec<String>),
    EmptySelectorList(&'static str),
    ThreePartRange(String),
    InvalidIndex(String),
    UnknownArg(String),
    UselessSelector(&'static str, Selector),
    WrongDuration(String, char),
    InvalidRegexSyntax(String, String),
    RegexFailure(String),
    FileDoesNotExist(String),
    ReadOnlyFile(String),
    FailedToWrite(String, Option<String>),
    ExecError(&'static str),
    CouldNotCreateDir(String),
    CouldNotMove(String, String),
    InvalidVarLs(String),
    InvalidVarFzf(String),
    NoInstalledFzf,
    HistoryNotReadable(String),
    MissingData(String, usize, &'static str),
    CorruptedTimestamp(String),
    HelpNotFound(String),
    SandBoxed,
}

/// A notice that does not stop the work.
#[derive(Debug, PartialEq, Eq)]
pub enum Warning {
    /// The range (its text, start and end) is empty and can never match.
    EmptyRange(String, u64, u64),
}

/// The title and message of a warning.
pub open spec fn warning_text(w: Warning) -> (Seq<char>, Seq<char>) {
    match w {
        Warning::EmptyRange(t, a, b) => (
            "Empty range cannot match"@,
            "Range pattern '"@ + t@ + "' interpreted as "@ + decimal(a as nat) + "..="@ + decimal(
                b as nat,
            ) + " is useless since it will never match"@,
        ),
    }
}

impl Warning {
    /// The title and message to show.
    pub fn render(&self) -> (r: (String, String))
        ensures
            r.0@ == warning_text(*self).0,
            r.1@ == warning_text(*self).1,
    {
        match self {
            Warning::EmptyRange(t, a, b) => {
                let mut message = String::new();
                push_str(&mut message, "Range pattern '");
                push_str(&mut message, t.as_str());
                push_str(&mut message, "' interpreted as ");
                push_decimal(&mut message, *a);
                push_str(&mut message, "..=");
                push_decimal(&mut message, *b);
                push_str(&mut message, " is useless since it will never match");
                proof {
                    assert(message@ =~= warning_text(*self).1);
                }
                ("Empty range cannot match".to_owned(), message)
            },
        }
    }
}

/// The warning owed for a range read from `text` as `start..=end`.
pub fn range_warning(text: &String, start: u64, end: u64) -> (r: Option<Warning>)
    ensures
        r is Some <==> start > end,
        r matches Some(Warning::EmptyRange(t, a, b)) ==> t@ == text@ && a == start && b == end,
{
    if start > end {
        Some(Warning::EmptyRange(text.clone(), start, end))
    } else {
        None
    }
}

/// What `usize::from_str` accepts.
pub open spec fn parse_usize_spec(d: Seq<char>) -> Option<usize> {
    match parse_u64_spec(d) {
        Some(v) => if v <= usize::MAX {
            Some(v as usize)
        } else {
            None
        },
        None => None,
    }
}

/// How an index range text reads: `start`, `start:end`, `:end`, `start:`.
pub open spec fn index_range_spec(text: Seq<char>) -> Result<(usize, usize), IndexFault> {
    let parts = split_on(text, ':');
    if parts.len() > 2 {
        Err(IndexFault::ThreeParts)
    } else {
        let start = if parts[0].len() == 0 {
            Some(1usize)
        } else {
            parse_usize_spec(parts[0])
        };
        match start {
            None => Err(IndexFault::Invalid(parts[0])),
            Some(a) => if parts.len() == 1 {
                Ok((a, a))
            } else if parts[1].len() == 0 {
                Ok((a, usize::MAX))
            } else {
                match parse_usize_spec(parts[1]) {
                    None => Err(IndexFault::Invalid(parts[1])),
                    Some(b) => Ok((a, b)),
                }
            },
        }
    }
}

/// Why a range text does not read.
pub enum IndexFault {
    ThreeParts,
    Invalid(Seq<char>),
}

pub open spec fn index_error(err: Error, text: Seq<char>, f: IndexFault) -> bool {
    match f {
        IndexFault::ThreeParts => err matches Error::ThreePartRange(t) && t@ == text,
        IndexFault::Invalid(part) => err matches Error::InvalidIndex(t) && t@ == part,
    }
}

pub(crate) fn parse_usize(text: &Vec<char>, lo: usize, hi: usize) -> (r: Option<usize>)
    requires
        lo <= hi <= text.len(),
    ensures
        r == parse_usize_spec(text@.subrange(lo as int, hi as int)),
{
    match parse_u64(text, lo, hi) {
        Some(v) => if v <= usize::MAX as u64 {
            Some(v as usize)
        } else {
            None
        },
        None => None,
    }
}

/// An index range as typed.
#[derive(Debug, Clone, PartialEq, Eq)]
pub struct Index(pub String);

impl Index {
    pub fn make(self) -> (r: Result<select::Index, Error>)
        ensures
            match (r, index_range_spec(self.0@)) {
                (Ok(i), Ok((a, b))) => i.start == a && i.end == b,
                (Err(err), Err(f)) => index_error(err, self.0@, f),
                _ => false,
            },
    {
        let text = chars_of(self.0.as_str());
        let parts = split_spans(&text, 0, text.len(), ':');
        assert(text@.subrange(0, text@.len() as int) =~= self.0@);
        let ghost ps = split_on(self.0@, ':');
        assert(spans_text(text@, parts@) == ps);
        if parts.len() > 2 {
            return Err(Error::ThreePartRange(self.0));
        }
        assert(ps[0] == text@.subrange(parts[0].0 as int, parts[0].1 as int));
        let start = if parts[0].0 == parts[0].1 {
            1
        } else {
            match parse_usize(&text, parts[0].0, parts[0].1) {
                Some(n) => n,
                None => return Err(Error::InvalidIndex(string_of(&text, parts[0].0, parts[0].1))),
            }
        };
        if parts.len() == 1 {
            return Ok(select::Index::new(start, start));
        }
        assert(ps[1] == text@.subrange(parts[1].0 as int, parts[1].1 as int));
        let end = if parts[1].0 == parts[1].1 {
            usize::MAX
        } else {
            match parse_usize(&text, parts[1].0, parts[1].1) {
                Some(n) => n,
                None => return Err(Error::InvalidIndex(string_of(&text, parts[1].0, parts[1].1))),
            }
        };
        Ok(select::Index::new(start, end))
    }
}

/// A batch range as typed; it reads as an index range.
#[derive(Debug, Clone, PartialEq, Eq)]
pub struct Block(pub String);

impl Block {
    pub fn make(self) -> (r: Result<select::Block, Error>)
        ensures
            match (r, index_range_spec(self.0@)) {
                (Ok(i), Ok((a, b))) => i.start == a && i.end == b,
                (Err(err), Err(f)) => index_error(err, self.0@, f),
                _ => false,
            },
    {
        match Index(self.0).make() {
            Ok(i) => Ok(i.as_block()),
            Err(e) => Err(e),
        }
    }
}

/// The characters that `char::is_whitespace` accepts: Unicode `White_Space`.
pub open spec fn is_white(c: char) -> bool {
    ('\u{9}' <= c && c <= '\u{d}') || c == ' ' || c == '\u{85}' || c == '\u{a0}'
        || c == '\u{1680}' || ('\u{2000}' <= c && c <= '\u{200a}') || c == '\u{2028}'
        || c == '\u{2029}' || c == '\u{202f}' || c == '\u{205f}' || c == '\u{3000}'
}

fn is_white_char(c: char) -> (r: bool)
    ensures
        r == is_white(c),
{
    ('\u{9}' <= c && c <= '\u{d}') || c == ' ' || c == '\u{85}' || c == '\u{a0}'
        || c == '\u{1680}' || ('\u{2000}' <= c && c <= '\u{200a}') || c == '\u{2028}'
        || c == '\u{2029}' || c == '\u{202f}' || c == '\u{205f}' || c == '\u{3000}'
}

/// Seconds in one of each duration unit.
pub open spec fn unit_seconds(c: char) -> Option<u64> {
    if c == 's' {
        Some(1u64)
    } else if c == 'm' {
        Some(60u64)
    } else if c == 'h' {
        Some(3600u64)
    } else if c == 'D' {
        Some(86400u64)
    } else if c == 'W' {
        Some(604800u64)
    } else if c == 'M' {
        Some(2592000u64)
    } else if c == 'Y' {
        Some(31536000u64)
    } else {
        None
    }
}

fn unit_of(c: char) -> (r: Option<u64>)
    ensures
        r == unit_seconds(c),
{
    if c == 's' {
        Some(1)
    } else if c == 'm' {
        Some(60)
    } else if c == 'h' {
        Some(3600)
    } else if c == 'D' {
        Some(86400)
    } else if c == 'W' {
        Some(604800)
    } else if c == 'M' {
        Some(2592000)
    } else if c == 'Y' {
        Some(31536000)
    } else {
        None
    }
}

/// Reading a duration text: the seconds summed so far, and the count
/// waiting for its unit; or the first character that is not allowed.
pub open spec fn scan_duration(s: Seq<char>) -> Result<(int, Option<int>), char>
    decreases s.len(),
{
    if s.len() == 0 {
        Ok((0, None))
    } else {
        match scan_duration(s.drop_last()) {
            Err(c) => Err(c),
            Ok((acc, cur)) => {
                let c = s.last();
                if is_digit(c) {
                    Ok((acc, Some(cur.unwrap_or(0) * 10 + digit_value(c))))
                } else if unit_seconds(c) is Some {
                    Ok((acc + cur.unwrap_or(1) * unit_seconds(c)->0, None))
                } else if is_white(c) {
                    Ok((acc, cur))
                } else {
                    Err(c)
                }
            },
        }
    }
}

/// A duration such as `3D4m`: each count (1 when left out) times its unit,
/// summed, at most `u64::MAX`; a count with no unit after it adds nothing.
pub open spec fn duration_spec(s: Seq<char>) -> Result<u64, char> {
    match scan_duration(s) {
        Ok((acc, _)) => Ok(clamp(acc)),
        Err(c) => Err(c),
    }
}

pub open spec fn clamp(v: int) -> u64 {
    if v > u64::MAX {
        u64::MAX
    } else {
        v as u64
    }
}

proof fn lemma_scan_nonneg(s: Seq<char>)
    ensures
        scan_duration(s) matches Ok((acc, cur)) ==> acc >= 0 && (cur matches Some(v) ==> v >= 0),
    decreases s.len(),
{
    if s.len() > 0 {
        lemma_scan_nonneg(s.drop_last());
        if let Ok((acc, cur)) = scan_duration(s.drop_last()) {
            let c = s.last();
            if unit_seconds(c) is Some {
                assert(cur.unwrap_or(1) * unit_seconds(c)->0 >= 0) by (nonlinear_arith)
                    requires cur.unwrap_or(1) >= 0;
            }
            if is_digit(c) {
                assert(cur.unwrap_or(0) * 10 >= 0) by (nonlinear_arith)
                    requires cur.unwrap_or(0) >= 0;
            }
        }
    }
}

proof fn lemma_scan_err(s: Seq<char>, i: int)
    requires
        0 <= i <= s.len(),
        scan_duration(s.subrange(0, i)) is Err,
    ensures
        scan_duration(s) == scan_duration(s.subrange(0, i)),
    decreases s.len() - i,
{
    if i < s.len() {
        assert(s.subrange(0, i + 1).drop_last() =~= s.subrange(0, i));
        lemma_scan_err(s, i + 1);
    } else {
        assert(s.subrange(0, i) =~= s);
    }
}

/// How a time range text reads: `start`, `start:end`, `:end`, `start:`;
/// an empty start is now (0), an empty end the unbounded past (`u64::MAX`).
pub open spec fn time_range_spec(text: Seq<char>) -> Result<(u64, u64), TimeFault> {
    let parts = split_on(text, ':');
    if parts.len() > 2 {
        Err(TimeFault::ThreeParts)
    } else {
        let start = if parts[0].len() == 0 {
            Ok(0u64)
        } else {
            duration_spec(parts[0])
        };
        match start {
            Err(c) => Err(TimeFault::Duration(parts[0], c)),
            Ok(a) => if parts.len() == 1 {
                Ok((a, a))
            } else if parts[1].len() == 0 {
                Ok((a, u64::MAX))
            } else {
                match duration_spec(parts[1]) {
                    Err(c) => Err(TimeFault::Duration(parts[1], c)),
                    Ok(b) => Ok((a, b)),
                }
            },
        }
    }
}

/// Why a time range text does not read.
pub enum TimeFault {
    ThreeParts,
    Duration(Seq<char>, char),
}

pub open spec fn time_error(err: Error, text: Seq<char>, f: TimeFault) -> bool {
    match f {
        TimeFault::ThreeParts => err matches Error::ThreePartRange(t) && t@ == text,
        TimeFault::Duration(part, c) => err matches Error::WrongDuration(t, d) && t@ == part && d
            == c,
    }
}

/// A time range as typed: `start`, `start:end`, `:end`, `start:`.
#[derive(Debug, Clone, PartialEq, Eq)]
pub struct Time(pub String);

impl Time {
    /// Reads a duration, in seconds.
    pub fn delta_time(s: &str) -> (r: Result<u64, Error>)
        ensures
            match (r, duration_spec(s@)) {
                (Ok(v), Ok(w)) => v == w,
                (Err(Error::WrongDuration(t, c)), Err(d)) => t@ == s@ && c == d,
                _ => false,
            },
    {
        let text = chars_of(s);
        let mut acc: u64 = 0;
        let mut curr: Option<u64> = None;
        let mut i: usize = 0;
        assert(text@.subrange(0, 0) =~= Seq::<char>::empty());
        while i < text.len()
            invariant
                i <= text.len(),
                text@ == s@,
                scan_duration(text@.subrange(0, i as int)) matches Ok((a, cur)) && acc == clamp(a)
                    && (match (curr, cur) {
                    (None, None) => true,
                    (Some(x), Some(y)) => x == clamp(y),
                    _ => false,
                }),
            decreases text.len() - i,
        {
            let c = text[i];
            let ghost pre = text@.subrange(0, i as int);
            let ghost next = text@.subrange(0, i + 1);
            assert(next.drop_last() =~= pre);
            proof {
                lemma_scan_nonneg(pre);
            }
            let ghost a = scan_duration(pre)->Ok_0.0;
            let ghost cur = scan_duration(pre)->Ok_0.1;
            if '0' <= c && c <= '9' {
                let d = (c as u32 - '0' as u32) as u64;
                let base = match curr {
                    Some(x) => x,
                    None => 0,
                };
                let ghost y = cur.unwrap_or(0);
                assert(base == clamp(y));
                if base > (u64::MAX - d) / 10 {
                    assert(y * 10 + d > u64::MAX) by (nonlinear_arith)
                        requires base > (u64::MAX - d) / 10, base == clamp(y), y >= 0, d <= 9;
                    curr = Some(u64::MAX);
                } else {
                    assert(y == base);
                    curr = Some(base * 10 + d);
                }
            } else {
                match unit_of(c) {
                    Some(m) => {
                        let count = match curr {
                            Some(x) => x,
                            None => 1,
                        };
                        let ghost y = cur.unwrap_or(1);
                        assert(count == clamp(y));
                        let prod = if count > u64::MAX / m || count == u64::MAX {
                            assert(y * m >= u64::MAX) by (nonlinear_arith)
                                requires
                                    count > u64::MAX / m || count == u64::MAX,
                                    count == clamp(y),
                                    y >= 0,
                                    m >= 1,
                            ;
                            u64::MAX
                        } else {
                            assert(y == count);
                            assert(count * m <= u64::MAX) by (nonlinear_arith)
                                requires count <= u64::MAX / m, m >= 1;
                            count * m
                        };
                        assert(prod == clamp(y * m));
                        assert(y * m >= 0) by (nonlinear_arith)
                            requires y >= 0, m >= 1;
                        acc = if acc > u64::MAX - prod {
                            u64::MAX
                        } else {
                            acc + prod
                        };
                        curr = None;
                    },
                    None => {
                        if !is_white_char(c) {
                            assert(scan_duration(next) == Err::<(int, Option<int>), char>(c));
                            proof {
                                lemma_scan_err(text@, i + 1);
                            }
                            return Err(Error::WrongDuration(s.to_owned(), c));
                        }
                    },
                }
            }
            i = i + 1;
        }
        assert(text@.subrange(0, i as int) =~= s@);
        Ok(acc)
    }

    pub fn make(self) -> (r: Result<select::Time, Error>)
        ensures
            match (r, time_range_spec(self.0@)) {
                (Ok(t), Ok((a, b))) => t.start == a && t.end == b,
                (Err(err), Err(f)) => time_error(err, self.0@, f),
                _ => false,
            },
    {
        let text = chars_of(self.0.as_str());
        let parts = split_spans(&text, 0, text.len(), ':');
        assert(text@.subrange(0, text@.len() as int) =~= self.0@);
        let ghost ps = split_on(self.0@, ':');
        assert(spans_text(text@, parts@) == ps);
        if parts.len() > 2 {
            return Err(Error::ThreePartRange(self.0));
        }
        assert(ps[0] == text@.subrange(parts[0].0 as int, parts[0].1 as int));
        let start = if parts[0].0 == parts[0].1 {
            0
        } else {
            let part = string_of(&text, parts[0].0, parts[0].1);
            match Self::delta_time(part.as_str()) {
                Ok(n) => n,
                Err(e) => return Err(e),
            }
        };
        if parts.len() == 1 {
            return Ok(select::Time::new(start, start));
        }
        assert(ps[1] == text@.subrange(parts[1].0 as int, parts[1].1 as int));
        let end = if parts[1].0 == parts[1].1 {
            u64::MAX
        } else {
            let part = string_of(&text, parts[1].0, parts[1].1);
            match Self::delta_time(part.as_str()) {
                Ok(n) => n,
                Err(e) => return Err(e),
            }
        };
        Ok(select::Time::new(start, end))
    }
}

#[verifier::external_type_specification]
#[verifier::external_body]
pub struct ExRegexError(RegexError);

/// Relies on `regex::Error`: the message of a syntax error, or `None` for
/// the other variant (the compiled program is over the size limit).
#[verifier::external_body]
fn syntax_message(e: RegexError) -> Option<String> {
    match e {
        RegexError::Syntax(msg) => Some(msg),
        _ => None,
    }
}

impl Error {
    /// The error for a pattern that did not compile, given the message of a
    /// syntax error if that is what it was.
    pub fn from_regex(pattern: String, syntax: Option<String>) -> (r: Error)
        ensures
            match syntax {
                Some(msg) => r matches Error::InvalidRegexSyntax(p, m) && p@ == pattern@ && m@
                    == msg@,
                None => r matches Error::RegexFailure(p) && p@ == pattern@,
            },
    {
        match syntax {
            Some(msg) => Error::InvalidRegexSyntax(pattern, msg),
            None => Error::RegexFailure(pattern),
        }
    }
}

/// A regular expression as typed.
#[derive(Debug, Clone, PartialEq, Eq)]
pub struct Pattern(pub String);

impl Pattern {
    pub fn make(self) -> (r: Result<select::Pattern, Error>)
        ensures
            r is Ok <==> regex_compiles(self.0@),
            r matches Ok(p) ==> p.source_spec() == self.0@,
            r matches Err(e) ==> (e matches Error::InvalidRegexSyntax(p, _) && p@ == self.0@)
                || (e matches Error::RegexFailure(p) && p@ == self.0@),
    {
        let source = self.0.clone();
        match select::compile_pattern(source) {
            Ok(p) => Ok(p),
            Err(e) => Err(Error::from_regex(self.0, syntax_message(e))),
        }
    }
}

/// Whether two texts are the same.
pub fn same_text(a: &str, b: &str) -> (r: bool)
    ensures
        r == (a@ == b@),
{
    let x = chars_of(a);
    let y = chars_of(b);
    if x.len() != y.len() {
        return false;
    }
    let mut i: usize = 0;
    while i < x.len()
        invariant
            x.len() == y.len(),
            x@ == a@,
            y@ == b@,
            i <= x.len(),
            forall|j: int| 0 <= j < i ==> x@[j] == y@[j],
        decreases x.len() - i,
    {
        if x[i] != y[i] {
            assert(x@[i as int] != y@[i as int]);
            return false;
        }
        i = i + 1;
    }
    assert(x@ =~= y@);
    true
}

/// The action that edits existing entries.
#[derive(Debug, Clone, Copy, PartialEq, Eq)]
pub enum Editor {
    Delete,
    Restore,
    Info,
}

pub open spec fn editor_label(e: Editor) -> &'static str {
    match e {
        Editor::Delete => "del",
        Editor::Restore => "rest",
        Editor::Info => "info",
    }
}

impl Editor {
    pub fn as_str(self) -> (r: &'static str)
        ensures
            r == editor_label(self),
    {
        match self {
            Editor::Delete => "del",
            Editor::Restore => "rest",
            Editor::Info => "info",
        }
    }
}

/// An editor that may be chosen once.
#[derive(Debug)]
struct OnceEd {
    data: Option<Editor>,
}

impl OnceEd {
    fn new() -> (r: OnceEd)
        ensures
            r.data is None,
    {
        OnceEd { data: None }
    }

    /// Chooses `new`; a second choice is a conflict naming both.
    fn set(&mut self, new: Editor) -> (r: Result<(), Error>)
        ensures
            match old(self).data {
                None => r is Ok && final(self).data == Some(new),
                Some(prev) => final(self).data == old(self).data && (r matches Err(
                    Error::NonExclusiveCmd(a, b),
                ) && a == editor_label(prev) && b == editor_label(new)),
            },
    {
        match self.data {
            None => {
                self.data = Some(new);
                Ok(())
            },
            Some(prev) => Err(Error::NonExclusiveCmd(prev.as_str(), new.as_str())),
        }
    }

    fn make_inner(self) -> (r: Option<Editor>)
        ensures
            r == self.data,
    {
        self.data
    }
}

/// A file named on the command line.
#[derive(Debug, Clone, PartialEq, Eq)]
pub struct File(pub String);

impl File {
    /// The path as given.
    pub fn make(&self) -> (r: String)
        ensures
            r@ == self.0@,
    {
        self.0.clone()
    }

    pub fn contents(self) -> (r: String)
        ensures
            r == self.0,
    {
        self.0
    }
}

/// A help menu named on the command line.
#[derive(Debug, Clone, PartialEq, Eq)]
pub struct Help(pub String);

impl Help {
    pub fn as_str(&self) -> (r: &str)
        ensures
            r@ == self.0@,
    {
        self.0.as_str()
    }
}

/// The criteria given on the command line, as typed.
#[derive(Debug, Default, PartialEq, Eq)]
pub struct Selector {
    pub active: bool,
    pub pat: Vec<Pattern>,
    pub idx: Vec<Index>,
    pub blk: Vec<Block>,
    pub time: Vec<Time>,
    pub fzf: bool,
}

/// What a command-line selector holds.
pub struct SelectorView {
    pub active: bool,
    pub pat: Seq<Seq<char>>,
    pub idx: Seq<Seq<char>>,
    pub blk: Seq<Seq<char>>,
    pub time: Seq<Seq<char>>,
    pub fzf: bool,
}

impl View for Selector {
    type V = SelectorView;

    open spec fn view(&self) -> SelectorView {
        SelectorView {
            active: self.active,
            pat: self.pat@.map_values(|p: Pattern| p.0@),
            idx: self.idx@.map_values(|p: Index| p.0@),
            blk: self.blk@.map_values(|p: Block| p.0@),
            time: self.time@.map_values(|p: Time| p.0@),
            fzf: self.fzf,
        }
    }
}

impl Selector {
    pub fn new() -> (r: Selector)
        ensures
            r@ == (SelectorView {
                active: false,
                pat: seq![],
                idx: seq![],
                blk: seq![],
                time: seq![],
                fzf: false,
            }),
    {
        let r = Selector {
            active: false,
            pat: Vec::new(),
            idx: Vec::new(),
            blk: Vec::new(),
            time: Vec::new(),
            fzf: false,
        };
        assert(r@.pat =~= seq![]);
        assert(r@.idx =~= seq![]);
        assert(r@.blk =~= seq![]);
        assert(r@.time =~= seq![]);
        r
    }

    pub fn add_fzf(&mut self)
        ensures
            final(self)@ == (SelectorView { fzf: true, active: true, ..old(self)@ }),
    {
        self.fzf = true;
        self.active = true;
    }

    pub fn add_pat(&mut self, pat: String)
        ensures
            final(self)@ == (SelectorView {
                pat: old(self)@.pat.push(pat@),
                active: true,
                ..old(self)@
            }),
    {
        self.pat.push(Pattern(pat));
        self.active = true;
        assert(self@.pat =~= old(self)@.pat.push(pat@));
    }

    pub fn add_idx(&mut self, idx: String)
        ensures
            final(self)@ == (SelectorView {
                idx: old(self)@.idx.push(idx@),
                active: true,
                ..old(self)@
            }),
    {
        self.idx.push(Index(idx));
        self.active = true;
        assert(self@.idx =~= old(self)@.idx.push(idx@));
    }

    pub fn add_blk(&mut self, blk: String)
        ensures
            final(self)@ == (SelectorView {
                blk: old(self)@.blk.push(blk@),
                active: true,
                ..old(self)@
            }),
    {
        self.blk.push(Block(blk));
        self.active = true;
        assert(self@.blk =~= old(self)@.blk.push(blk@));
    }

    pub fn add_time(&mut self, time: String)
        ensures
            final(self)@ == (SelectorView {
                time: old(self)@.time.push(time@),
                active: true,
                ..old(self)@
            }),
    {
        self.time.push(Time(time));
        self.active = true;
        assert(self@.time =~= old(self)@.time.push(time@));
    }
}

/// The lists of criteria that the command line can hold.
#[derive(Debug, Clone, Copy, PartialEq, Eq)]
pub enum ListKind {
    Pat,
    Idx,
    Blk,
    Time,
}

pub open spec fn list_label(k: ListKind) -> &'static str {
    match k {
        ListKind::Pat => "pat",
        ListKind::Idx => "idx",
        ListKind::Blk => "blk",
        ListKind::Time => "time",
    }
}

/// What one argument is.
#[derive(Debug, Clone, Copy, PartialEq, Eq)]
pub enum ArgKind {
    Editor(Editor),
    Help,
    Undo,
    Fzf,
    List(ListKind),
    Sandbox,
    Overwrite,
    /// `--`: everything after it is a file.
    Rest,
    /// Starts with `-` but is none of the above.
    Unknown,
    /// A file or a menu name.
    Plain,
}

pub open spec fn is_flag(a: Seq<char>, long: &'static str, short: &'static str) -> bool {
    a == long@ || a == short@
}

pub open spec fn dashed(a: Seq<char>) -> bool {
    a.len() > 0 && a[0] == '-'
}

pub open spec fn classify(a: Seq<char>) -> ArgKind {
    if is_flag(a, "--info", "-i") {
        ArgKind::Editor(Editor::Info)
    } else if is_flag(a, "--help", "-h") {
        ArgKind::Help
    } else if is_flag(a, "--undo", "-u") {
        ArgKind::Undo
    } else if is_flag(a, "--rest", "-r") {
        ArgKind::Editor(Editor::Restore)
    } else if is_flag(a, "--del", "-d") {
        ArgKind::Editor(Editor::Delete)
    } else if is_flag(a, "--fzf", "-F") {
        ArgKind::Fzf
    } else if is_flag(a, "--pat", "-P") {
        ArgKind::List(ListKind::Pat)
    } else if is_flag(a, "--idx", "-I") {
        ArgKind::List(ListKind::Idx)
    } else if is_flag(a, "--blk", "-B") {
        ArgKind::List(ListKind::Blk)
    } else if is_flag(a, "--time", "-T") {
        ArgKind::List(ListKind::Time)
    } else if is_flag(a, "--sandbox", "-S") {
        ArgKind::Sandbox
    } else if is_flag(a, "--overwrite", "-O") {
        ArgKind::Overwrite
    } else if a == "--"@ {
        ArgKind::Rest
    } else if dashed(a) {
        ArgKind::Unknown
    } else {
        ArgKind::Plain
    }
}

fn flag(a: &str, long: &'static str, short: &'static str) -> (r: bool)
    ensures
        r == is_flag(a@, long, short),
{
    same_text(a, long) || same_text(a, short)
}

fn starts_with_dash(a: &str) -> (r: bool)
    ensures
        r == dashed(a@),
{
    let c = chars_of(a);
    c.len() > 0 && c[0] == '-'
}

pub fn classify_arg(a: &str) -> (r: ArgKind)
    ensures
        r == classify(a@),
{
    if flag(a, "--info", "-i") {
        ArgKind::Editor(Editor::Info)
    } else if flag(a, "--help", "-h") {
        ArgKind::Help
    } else if flag(a, "--undo", "-u") {
        ArgKind::Undo
    } else if flag(a, "--rest", "-r") {
        ArgKind::Editor(Editor::Restore)
    } else if flag(a, "--del", "-d") {
        ArgKind::Editor(Editor::Delete)
    } else if flag(a, "--fzf", "-F") {
        ArgKind::Fzf
    } else if flag(a, "--pat", "-P") {
        ArgKind::List(ListKind::Pat)
    } else if flag(a, "--idx", "-I") {
        ArgKind::List(ListKind::Idx)
    } else if flag(a, "--blk", "-B") {
        ArgKind::List(ListKind::Blk)
    } else if flag(a, "--time", "-T") {
        ArgKind::List(ListKind::Time)
    } else if flag(a, "--sandbox", "-S") {
        ArgKind::Sandbox
    } else if flag(a, "--overwrite", "-O") {
        ArgKind::Overwrite
    } else if same_text(a, "--") {
        ArgKind::Rest
    } else if starts_with_dash(a) {
        ArgKind::Unknown
    } else {
        ArgKind::Plain
    }
}

/// What has been read of the command line so far.
pub struct ArgState {
    pub pos: Seq<Seq<char>>,
    pub sel: SelectorView,
    pub help: bool,
    pub undo: bool,
    pub editor: Option<Editor>,
    pub sandbox: bool,
    pub overwrite: bool,
    /// The list that plain arguments are added to, after `--pat` and the like.
    pub list: Option<ListKind>,
}

/// Why a command line is refused.
pub enum ArgFault {
    Conflict(&'static str, &'static str),
    EmptyList(&'static str),
    Unknown(Seq<char>),
    TooMany(&'static str, Seq<Seq<char>>),
    Useless(&'static str, SelectorView),
}

pub open spec fn add_item(v: SelectorView, k: ListKind, item: Seq<char>) -> SelectorView {
    match k {
        ListKind::Pat => SelectorView { pat: v.pat.push(item), active: true, ..v },
        ListKind::Idx => SelectorView { idx: v.idx.push(item), active: true, ..v },
        ListKind::Blk => SelectorView { blk: v.blk.push(item), active: true, ..v },
        ListKind::Time => SelectorView { time: v.time.push(item), active: true, ..v },
    }
}

pub open spec fn initial_args() -> ArgState {
    ArgState {
        pos: seq![],
        sel: SelectorView {
            active: false,
            pat: seq![],
            idx: seq![],
            blk: seq![],
            time: seq![],
            fzf: false,
        },
        help: false,
        undo: false,
        editor: None,
        sandbox: false,
        overwrite: false,
        list: None,
    }
}

/// Reads `args[i..]` from the state `st`. A list flag takes the next
/// argument whatever it is, then every following one that does not start
/// with `-`.
pub open spec fn scan_args(args: Seq<Seq<char>>, i: int, st: ArgState) -> Result<ArgState, ArgFault>
    decreases args.len() - i,
{
    if i < 0 || i >= args.len() {
        Ok(st)
    } else if st.list is Some && !dashed(args[i]) {
        scan_args(args, i + 1, ArgState { sel: add_item(st.sel, st.list->0, args[i]), ..st })
    } else {
        let st = ArgState { list: None, ..st };
        match classify(args[i]) {
            ArgKind::Editor(e) => match st.editor {
                Some(prev) => Err(ArgFault::Conflict(editor_label(prev), editor_label(e))),
                None => scan_args(args, i + 1, ArgState { editor: Some(e), ..st }),
            },
            ArgKind::Help => scan_args(args, i + 1, ArgState { help: true, ..st }),
            ArgKind::Undo => scan_args(args, i + 1, ArgState { undo: true, ..st }),
            ArgKind::Fzf => scan_args(
                args,
                i + 1,
                ArgState { sel: SelectorView { fzf: true, active: true, ..st.sel }, ..st },
            ),
            ArgKind::List(k) => if i + 1 >= args.len() {
                Err(ArgFault::EmptyList(list_label(k)))
            } else {
                scan_args(
                    args,
                    i + 2,
                    ArgState { sel: add_item(st.sel, k, args[i + 1]), list: Some(k), ..st },
                )
            },
            ArgKind::Sandbox => scan_args(args, i + 1, ArgState { sandbox: true, ..st }),
            ArgKind::Overwrite => scan_args(args, i + 1, ArgState { overwrite: true, ..st }),
            ArgKind::Rest => Ok(
                ArgState { pos: st.pos + args.subrange(i + 1, args.len() as int), ..st },
            ),
            ArgKind::Unknown => Err(ArgFault::Unknown(args[i])),
            ArgKind::Plain => scan_args(args, i + 1, ArgState { pos: st.pos.push(args[i]), ..st }),
        }
    }
}

/// What the command line asks for.
#[derive(Debug, PartialEq, Eq)]
pub enum Action {
    Remove(Vec<File>),
    Edit(Option<Editor>, Selector),
    Help(Vec<Help>),
}

pub enum ActionView {
    Remove(Seq<Seq<char>>),
    Edit(Option<Editor>, SelectorView),
    Help(Seq<Seq<char>>),
}

impl View for Action {
    type V = ActionView;

    open spec fn view(&self) -> ActionView {
        match self {
            Action::Remove(v) => ActionView::Remove(v@.map_values(|f: File| f.0@)),
            Action::Edit(e, s) => ActionView::Edit(*e, s@),
            Action::Help(v) => ActionView::Help(v@.map_values(|h: Help| h.0@)),
        }
    }
}

/// A parsed command line.
#[derive(Debug)]
pub struct Command {
    pub action: Action,
    pub sandbox: bool,
    pub overwrite: bool,
    /// Whether the action changes the registry.
    pub critical: bool,
}

pub struct CommandView {
    pub action: ActionView,
    pub sandbox: bool,
    pub overwrite: bool,
    pub critical: bool,
}

impl View for Command {
    type V = CommandView;

    open spec fn view(&self) -> CommandView {
        CommandView {
            action: self.action@,
            sandbox: self.sandbox,
            overwrite: self.overwrite,
            critical: self.critical,
        }
    }
}

/// Only listing, showing info and help leave the registry alone.
pub open spec fn is_critical(a: ActionView) -> bool {
    !(a matches ActionView::Edit(None, _) || a matches ActionView::Edit(Some(Editor::Info), _)
        || a matches ActionView::Help(_))
}

/// The action that a fully read command line asks for. Help, undo and an
/// editor exclude one another; undo and the editors take no files; files
/// to remove take no criteria; undo restores the newest batch.
pub open spec fn decide(st: ArgState) -> Result<ActionView, ArgFault> {
    if st.help && st.undo {
        Err(ArgFault::Conflict("help", "undo"))
    } else if st.help && st.editor is Some {
        Err(ArgFault::Conflict("help", editor_label(st.editor->0)))
    } else if st.undo && st.editor is Some {
        Err(ArgFault::Conflict("undo", editor_label(st.editor->0)))
    } else if st.help {
        Ok(ActionView::Help(st.pos))
    } else if st.undo {
        if st.pos.len() > 0 {
            Err(ArgFault::TooMany("undo", st.pos))
        } else if st.sel.active {
            Err(ArgFault::Useless("undo", st.sel))
        } else {
            Ok(
                ActionView::Edit(
                    Some(Editor::Restore),
                    SelectorView { blk: st.sel.blk.push("1"@), ..st.sel },
                ),
            )
        }
    } else if st.editor is Some {
        if st.pos.len() > 0 {
            Err(ArgFault::TooMany(editor_label(st.editor->0), st.pos))
        } else {
            Ok(ActionView::Edit(st.editor, st.sel))
        }
    } else if st.pos.len() == 0 {
        Ok(ActionView::Edit(None, st.sel))
    } else if st.sel.active {
        Err(ArgFault::Useless("remove", st.sel))
    } else {
        Ok(ActionView::Remove(st.pos))
    }
}

pub open spec fn parse_spec(args: Seq<Seq<char>>) -> Result<CommandView, ArgFault> {
    match scan_args(args, 0, initial_args()) {
        Err(f) => Err(f),
        Ok(st) => match decide(st) {
            Err(f) => Err(f),
            Ok(a) => Ok(
                CommandView {
                    action: a,
                    sandbox: st.sandbox,
                    overwrite: st.overwrite,
                    critical: is_critical(a),
                },
            ),
        },
    }
}

pub open spec fn arg_error(err: Error, f: ArgFault) -> bool {
    match f {
        ArgFault::Conflict(a, b) => err matches Error::NonExclusiveCmd(x, y) && x == a && y == b,
        ArgFault::EmptyList(l) => err matches Error::EmptySelectorList(x) && x == l,
        ArgFault::Unknown(t) => err matches Error::UnknownArg(x) && x@ == t,
        ArgFault::TooMany(l, p) => err matches Error::TooManyArgs(x, v) && x == l && texts_view(v@) == p,
        ArgFault::Useless(l, sv) => err matches Error::UselessSelector(x, s) && x == l && s@ == sv,
    }
}

pub open spec fn texts_view(v: Seq<String>) -> Seq<Seq<char>> {
    v.map_values(|s: String| s@)
}

fn list_name(k: ListKind) -> (r: &'static str)
    ensures
        r == list_label(k),
{
    match k {
        ListKind::Pat => "pat",
        ListKind::Idx => "idx",
        ListKind::Blk => "blk",
        ListKind::Time => "time",
    }
}

fn add_to(sel: &mut Selector, k: ListKind, item: String)
    ensures
        final(sel)@ == add_item(old(sel)@, k, item@),
{
    match k {
        ListKind::Pat => sel.add_pat(item),
        ListKind::Idx => sel.add_idx(item),
        ListKind::Blk => sel.add_blk(item),
        ListKind::Time => sel.add_time(item),
    }
}

fn to_helps(v: &Vec<String>) -> (r: Vec<Help>)
    ensures
        r@.map_values(|h: Help| h.0@) == texts_view(v@),
{
    let mut out: Vec<Help> = Vec::new();
    let mut i: usize = 0;
    while i < v.len()
        invariant
            i <= v.len(),
            out@.map_values(|h: Help| h.0@) == texts_view(v@.subrange(0, i as int)),
        decreases v.len() - i,
    {
        let t = v[i].clone();
        assert(t@ == v@[i as int]@);
        let ghost prev = out@;
        out.push(Help(t));
        i = i + 1;
        assert(v@.subrange(0, i as int) =~= v@.subrange(0, i - 1).push(v@[i - 1]));
        assert(out@ =~= prev.push(Help(t)));
        assert(out@.map_values(|h: Help| h.0@) =~= prev.map_values(|h: Help| h.0@).push(t@));
        assert(texts_view(v@.subrange(0, i as int)) =~= texts_view(v@.subrange(0, i - 1)).push(t@));
    }
    assert(v@.subrange(0, i as int) =~= v@);
    out
}

fn to_files(v: &Vec<String>) -> (r: Vec<File>)
    ensures
        r@.map_values(|f: File| f.0@) == texts_view(v@),
{
    let mut out: Vec<File> = Vec::new();
    let mut i: usize = 0;
    while i < v.len()
        invariant
            i <= v.len(),
            out@.map_values(|f: File| f.0@) == texts_view(v@.subrange(0, i as int)),
        decreases v.len() - i,
    {
        let t = v[i].clone();
        assert(t@ == v@[i as int]@);
        let ghost prev = out@;
        out.push(File(t));
        i = i + 1;
        assert(v@.subrange(0, i as int) =~= v@.subrange(0, i - 1).push(v@[i - 1]));
        assert(out@ =~= prev.push(File(t)));
        assert(out@.map_values(|f: File| f.0@) =~= prev.map_values(|f: File| f.0@).push(t@));
        assert(texts_view(v@.subrange(0, i as int)) =~= texts_view(v@.subrange(0, i - 1)).push(t@));
    }
    assert(v@.subrange(0, i as int) =~= v@);
    out
}

pub open spec fn arg_texts(args: Seq<&str>) -> Seq<Seq<char>> {
    args.map_values(|a: &str| a@)
}

impl Command {
    /// Reads a command line (without the program name).
    pub fn parse(args: &[&str]) -> (r: Result<Command, Error>)
        ensures
            match (r, parse_spec(arg_texts(args@))) {
                (Ok(c), Ok(v)) => c@ == v,
                (Err(e), Err(f)) => arg_error(e, f),
                _ => false,
            },
    {
        let ghost a_seq = arg_texts(args@);
        let mut pos: Vec<String> = Vec::new();
        let mut selector = Selector::new();
        let mut help = false;
        let mut undo = false;
        let mut editor = OnceEd::new();
        let mut sandbox = false;
        let mut overwrite = false;
        let mut list: Option<ListKind> = None;
        let mut i: usize = 0;
        assert(texts_view(pos@) =~= seq![]);
        assert(selector@ =~= initial_args().sel);
        while i < args.len()
            invariant
                i <= args.len(),
                a_seq == arg_texts(args@),
                scan_args(
                    a_seq,
                    i as int,
                    ArgState {
                        pos: texts_view(pos@),
                        sel: selector@,
                        help,
                        undo,
                        editor: editor.data,
                        sandbox,
                        overwrite,
                        list,
                    },
                ) == scan_args(a_seq, 0, initial_args()),
            decreases args.len() - i,
        {
            let a = args[i];
            assert(a_seq[i as int] == a@);
            let ghost before = texts_view(pos@);
            if list.is_some() && !starts_with_dash(a) {
                match list {
                    Some(k) => add_to(&mut selector, k, a.to_owned()),
                    None => {},
                }
                i = i + 1;
            } else {
                list = None;
                match classify_arg(a) {
                    ArgKind::Editor(e) => {
                        match editor.set(e) {
                            Ok(()) => {},
                            Err(err) => {
                                return Err(err);
                            },
                        }
                        i = i + 1;
                    },
                    ArgKind::Help => {
                        help = true;
                        i = i + 1;
                    },
                    ArgKind::Undo => {
                        undo = true;
                        i = i + 1;
                    },
                    ArgKind::Fzf => {
                        selector.add_fzf();
                        i = i + 1;
                    },
                    ArgKind::List(k) => {
                        if i + 1 >= args.len() {
                            return Err(Error::EmptySelectorList(list_name(k)));
                        }
                        assert(a_seq[i + 1] == args@[i + 1]@);
                        add_to(&mut selector, k, args[i + 1].to_owned());
                        list = Some(k);
                        i = i + 2;
                    },
                    ArgKind::Sandbox => {
                        sandbox = true;
                        i = i + 1;
                    },
                    ArgKind::Overwrite => {
                        overwrite = true;
                        i = i + 1;
                    },
                    ArgKind::Rest => {
                        let mut j: usize = i + 1;
                        while j < args.len()
                            invariant
                                i < j <= args.len(),
                                a_seq == arg_texts(args@),
                                texts_view(pos@) == before + a_seq.subrange(i + 1, j as int),
                            decreases args.len() - j,
                        {
                            assert(a_seq[j as int] == args@[j as int]@);
                            let ghost prev = pos@;
                            let t = args[j].to_owned();
                            pos.push(t);
                            j = j + 1;
                            assert(texts_view(pos@) =~= texts_view(prev).push(t@));
                            assert(a_seq.subrange(i + 1, j as int) =~= a_seq.subrange(i + 1, j - 1).push(t@));
                            assert(texts_view(pos@) =~= before + a_seq.subrange(i + 1, j as int));
                        }
                        i = args.len();
                    },
                    ArgKind::Unknown => {
                        return Err(Error::UnknownArg(a.to_owned()));
                    },
                    ArgKind::Plain => {
                        pos.push(a.to_owned());
                        assert(texts_view(pos@) =~= before.push(a@));
                        i = i + 1;
                    },
                }
            }
        }
        let ed = editor.make_inner();
        if help && undo {
            return Err(Error::NonExclusiveCmd("help", "undo"));
        }
        let action = if help {
            match ed {
                Some(e) => {
                    return Err(Error::NonExclusiveCmd("help", e.as_str()));
                },
                None => Action::Help(to_helps(&pos)),
            }
        } else if undo {
            match ed {
                Some(e) => {
                    return Err(Error::NonExclusiveCmd("undo", e.as_str()));
                },
                None => {
                    if pos.len() > 0 {
                        return Err(Error::TooManyArgs("undo", pos));
                    }
                    if selector.active {
                        return Err(Error::UselessSelector("undo", selector));
                    }
                    let ghost blk = selector@.blk;
                    selector.blk.push(Block("1".to_owned()));
                    assert(selector@.blk =~= blk.push("1"@));
                    Action::Edit(Some(Editor::Restore), selector)
                },
            }
        } else {
            match ed {
                Some(e) => {
                    if pos.len() > 0 {
                        return Err(Error::TooManyArgs(e.as_str(), pos));
                    }
                    Action::Edit(Some(e), selector)
                },
                None => {
                    if pos.len() == 0 {
                        Action::Edit(None, selector)
                    } else if selector.active {
                        return Err(Error::UselessSelector("remove", selector));
                    } else {
                        Action::Remove(to_files(&pos))
                    }
                },
            }
        };
        let critical = match &action {
            Action::Edit(None, _) => false,
            Action::Edit(Some(Editor::Info), _) => false,
            Action::Help(_) => false,
            _ => true,
        };
        Ok(Command { action, sandbox, overwrite, critical })
    }
}

/// The criteria of a command-line selector in the order they are built:
/// patterns, then time ranges, then index ranges, then batch ranges.
pub open spec fn typed_items(v: SelectorView) -> Seq<(ListKind, Seq<char>)> {
    v.pat.map_values(|t: Seq<char>| (ListKind::Pat, t)) + v.time.map_values(
        |t: Seq<char>| (ListKind::Time, t),
    ) + v.idx.map_values(|t: Seq<char>| (ListKind::Idx, t)) + v.blk.map_values(
        |t: Seq<char>| (ListKind::Blk, t),
    )
}

/// Whether a typed criterion reads.
pub open spec fn item_reads(item: (ListKind, Seq<char>)) -> bool {
    match item.0 {
        ListKind::Pat => regex_compiles(item.1),
        ListKind::Time => time_range_spec(item.1) is Ok,
        ListKind::Idx | ListKind::Blk => index_range_spec(item.1) is Ok,
    }
}

/// `c` is what the typed criterion `item` builds.
pub open spec fn builds(item: (ListKind, Seq<char>), c: select::Criterion) -> bool {
    match item.0 {
        ListKind::Pat => c matches select::Criterion::Pattern(p) && p.source_spec() == item.1,
        ListKind::Time => c matches select::Criterion::Time(t) && time_range_spec(item.1) == Ok::<
            (u64, u64),
            TimeFault,
        >((t.start, t.end)),
        ListKind::Idx => c matches select::Criterion::Index(t) && index_range_spec(item.1) == Ok::<
            (usize, usize),
            IndexFault,
        >((t.start, t.end)),
        ListKind::Blk => c matches select::Criterion::Block(t) && index_range_spec(item.1) == Ok::<
            (usize, usize),
            IndexFault,
        >((t.start, t.end)),
    }
}

/// `e` is the error that the typed criterion `item` fails with.
pub open spec fn item_error(item: (ListKind, Seq<char>), e: Error) -> bool {
    match item.0 {
        ListKind::Pat => (e matches Error::InvalidRegexSyntax(p, _) && p@ == item.1) || (
        e matches Error::RegexFailure(p) && p@ == item.1),
        ListKind::Time => time_error(e, item.1, time_range_spec(item.1)->Err_0),
        ListKind::Idx | ListKind::Blk => index_error(e, item.1, index_range_spec(item.1)->Err_0),
    }
}

/// The range a typed criterion reads as, where it is a range that reads.
pub open spec fn item_range(item: (ListKind, Seq<char>)) -> Option<(int, int)> {
    match item.0 {
        ListKind::Pat => None,
        ListKind::Time => match time_range_spec(item.1) {
            Ok((a, b)) => Some((a as int, b as int)),
            Err(_) => None,
        },
        ListKind::Idx | ListKind::Blk => match index_range_spec(item.1) {
            Ok((a, b)) => Some((a as int, b as int)),
            Err(_) => None,
        },
    }
}

/// The warnings owed for the typed criteria: one per empty range, in order.
pub open spec fn owed_warnings(items: Seq<(ListKind, Seq<char>)>) -> Seq<(Seq<char>, int, int)>
    decreases items.len(),
{
    if items.len() == 0 {
        seq![]
    } else {
        let rest = owed_warnings(items.drop_last());
        match item_range(items.last()) {
            Some((a, b)) => if a > b {
                rest.push((items.last().1, a, b))
            } else {
                rest
            },
            None => rest,
        }
    }
}

pub open spec fn warning_view(w: Warning) -> (Seq<char>, int, int) {
    match w {
        Warning::EmptyRange(t, a, b) => (t@, a as int, b as int),
    }
}

fn build_item(kind: ListKind, text: String) -> (r: Result<(select::Criterion, Option<Warning>), Error>)
    ensures
        match r {
            Ok((c, w)) => {
                &&& item_reads((kind, text@))
                &&& builds((kind, text@), c)
                &&& match item_range((kind, text@)) {
                    Some((a, b)) => (w is Some <==> a > b) && (w matches Some(x) ==> warning_view(x)
                        == (text@, a, b)),
                    None => w is None,
                }
            },
            Err(e) => !item_reads((kind, text@)) && item_error((kind, text@), e),
        },
{
    let copy = text.clone();
    match kind {
        ListKind::Pat => match Pattern(text).make() {
            Ok(p) => Ok((select::Criterion::Pattern(p), None)),
            Err(e) => Err(e),
        },
        ListKind::Time => match Time(text).make() {
            Ok(t) => {
                let w = range_warning(&copy, t.start, t.end);
                Ok((select::Criterion::Time(t), w))
            },
            Err(e) => Err(e),
        },
        ListKind::Idx => match Index(text).make() {
            Ok(i) => {
                let w = range_warning(&copy, i.start as u64, i.end as u64);
                Ok((select::Criterion::Index(i), w))
            },
            Err(e) => Err(e),
        },
        ListKind::Blk => match Block(text).make() {
            Ok(b) => {
                let w = range_warning(&copy, b.start as u64, b.end as u64);
                Ok((select::Criterion::Block(b), w))
            },
            Err(e) => Err(e),
        },
    }
}

pub open spec fn items_view(v: Seq<(ListKind, String)>) -> Seq<(ListKind, Seq<char>)> {
    v.map_values(|it: (ListKind, String)| (it.0, it.1@))
}

/// A criterion as typed on the command line: it holds its text.
pub trait Typed {
    spec fn typed_text(&self) -> Seq<char>;

    fn text(&self) -> (r: String)
        ensures
            r@ == self.typed_text(),
    ;
}

impl Typed for Pattern {
    open spec fn typed_text(&self) -> Seq<char> {
        self.0@
    }

    fn text(&self) -> (r: String) {
        self.0.clone()
    }
}

impl Typed for Time {
    open spec fn typed_text(&self) -> Seq<char> {
        self.0@
    }

    fn text(&self) -> (r: String) {
        self.0.clone()
    }
}

impl Typed for Index {
    open spec fn typed_text(&self) -> Seq<char> {
        self.0@
    }

    fn text(&self) -> (r: String) {
        self.0.clone()
    }
}

impl Typed for Block {
    open spec fn typed_text(&self) -> Seq<char> {
        self.0@
    }

    fn text(&self) -> (r: String) {
        self.0.clone()
    }
}

/// Appends each criterion of `src`, with its kind and text.
fn append_items<T: Typed>(out: &mut Vec<(ListKind, String)>, kind: ListKind, src: &Vec<T>)
    ensures
        items_view(final(out)@) == items_view(old(out)@) + src@.map_values(
            |x: T| (kind, x.typed_text()),
        ),
{
    let mut i: usize = 0;
    while i < src.len()
        invariant
            i <= src.len(),
            items_view(out@) == items_view(old(out)@) + src@.subrange(0, i as int).map_values(
                |x: T| (kind, x.typed_text()),
            ),
        decreases src.len() - i,
    {
        let t = src[i].text();
        let ghost prev = out@;
        out.push((kind, t));
        i = i + 1;
        assert(items_view(out@) =~= items_view(prev).push((kind, t@)));
        assert(src@.subrange(0, i as int).map_values(|x: T| (kind, x.typed_text())) =~= src@.subrange(
            0,
            i - 1,
        ).map_values(|x: T| (kind, x.typed_text())).push((kind, t@)));
    }
    assert(src@.subrange(0, i as int) =~= src@);
}

impl Selector {
    /// The typed criteria, in the order they are built.
    fn items(&self) -> (r: Vec<(ListKind, String)>)
        ensures
            items_view(r@) == typed_items(self@),
    {
        let mut out: Vec<(ListKind, String)> = Vec::new();
        append_items(&mut out, ListKind::Pat, &self.pat);
        append_items(&mut out, ListKind::Time, &self.time);
        append_items(&mut out, ListKind::Idx, &self.idx);
        append_items(&mut out, ListKind::Blk, &self.blk);
        assert(items_view(out@) =~= typed_items(self@));
        out
    }

    /// Builds the criteria: the patterns, time ranges, index ranges and batch
    /// ranges in that order, then the interactive pick if asked for; with a
    /// warning for each range that can never match. Fails on the first
    /// criterion that does not read.
    pub fn make(self) -> (r: Result<(select::Selector, Vec<Warning>), Error>)
        ensures
            r is Ok <==> forall|k: int|
                0 <= k < typed_items(self@).len() ==> item_reads(#[trigger] typed_items(self@)[k]),
            r matches Ok((sel, ws)) ==> {
                let items = typed_items(self@);
                &&& sel.criteria().len() == items.len() + if self.fzf {
                    1int
                } else {
                    0int
                }
                &&& forall|k: int| 0 <= k < items.len() ==> builds(items[k], #[trigger] sel.criteria()[k])
                &&& self.fzf ==> sel.criteria().last() is Fzf
                &&& ws@.map_values(|w: Warning| warning_view(w)) == owed_warnings(items)
            },
            r matches Err(e) ==> exists|k: int|
                0 <= k < typed_items(self@).len() && !item_reads(#[trigger] typed_items(self@)[k])
                    && (forall|j: int| 0 <= j < k ==> item_reads(typed_items(self@)[j]))
                    && item_error(typed_items(self@)[k], e),
    {
        let items = self.items();
        let ghost tv = typed_items(self@);
        let mut sel = select::Selector::new();
        let mut warnings: Vec<Warning> = Vec::new();
        let mut k: usize = 0;
        assert(tv.subrange(0, 0) =~= seq![]);
        assert(warnings@.map_values(|w: Warning| warning_view(w)) =~= seq![]);
        while k < items.len()
            invariant
                k <= items.len(),
                items_view(items@) == tv,
                tv == typed_items(self@),
                sel.criteria().len() == k,
                forall|j: int| 0 <= j < k ==> item_reads(#[trigger] tv[j]),
                forall|j: int| 0 <= j < k ==> builds(tv[j], #[trigger] sel.criteria()[j]),
                warnings@.map_values(|w: Warning| warning_view(w)) == owed_warnings(tv.subrange(0, k as int)),
            decreases items.len() - k,
        {
            let kind = items[k].0;
            let text = items[k].1.clone();
            assert(tv[k as int] == (kind, text@));
            let ghost prev_w = warnings@;
            let ghost prev_c = sel.criteria();
            match build_item(kind, text) {
                Ok((c, w)) => {
                    sel.push(c);
                    match w {
                        Some(x) => warnings.push(x),
                        None => {},
                    }
                },
                Err(e) => {
                    return Err(e);
                },
            }
            k = k + 1;
            assert(tv.subrange(0, k as int).drop_last() =~= tv.subrange(0, k - 1));
            assert(warnings@.map_values(|w: Warning| warning_view(w)) =~= owed_warnings(tv.subrange(0, k as int)));
            assert forall|j: int| 0 <= j < k implies builds(tv[j], #[trigger] sel.criteria()[j]) by {
                if j < k - 1 {
                    assert(sel.criteria()[j] == prev_c[j]);
                }
            }
        }
        if self.fzf {
            sel.push(select::Criterion::Fzf(select::Fzf {}));
        }
        assert(tv.subrange(0, k as int) =~= tv);
        Ok((sel, warnings))
    }
}

/// The words joined with `sep` between them.
pub open spec fn joined(words: Seq<Seq<char>>, sep: char) -> Seq<char>
    decreases words.len(),
{
    if words.len() == 0 {
        Seq::<char>::empty()
    } else if words.len() == 1 {
        words[0]
    } else {
        joined(words.drop_last(), sep) + seq![sep] + words.last()
    }
}

pub fn join_words(words: &Vec<String>, sep: char) -> (r: String)
    ensures
        r@ == joined(texts_view(words@), sep),
{
    let ghost ws = texts_view(words@);
    let mut out = String::new();
    let mut i: usize = 0;
    assert(ws.subrange(0, 0) =~= seq![]);
    while i < words.len()
        invariant
            i <= words.len(),
            ws == texts_view(words@),
            out@ == joined(ws.subrange(0, i as int), sep),
        decreases words.len() - i,
    {
        if i > 0 {
            push_char(&mut out, sep);
        }
        push_str(&mut out, words[i].as_str());
        i = i + 1;
        assert(ws.subrange(0, i as int).drop_last() =~= ws.subrange(0, i - 1));
        if i == 1 {
            assert(out@ =~= joined(ws.subrange(0, i as int), sep));
        } else {
            assert(out@ =~= joined(ws.subrange(0, i as int), sep));
        }
    }
    assert(ws.subrange(0, i as int) =~= ws);
    out
}

/// The first two `:`-separated parts of a range text, joined again.
pub open spec fn first_two(text: Seq<char>) -> Seq<char> {
    let parts = split_on(text, ':');
    if parts.len() < 2 {
        parts[0]
    } else {
        parts[0] + seq![':'] + parts[1]
    }
}

fn first_two_of(text: &String) -> (r: String)
    ensures
        r@ == first_two(text@),
{
    let c = chars_of(text.as_str());
    let parts = split_spans(&c, 0, c.len(), ':');
    assert(c@.subrange(0, c@.len() as int) =~= text@);
    let ghost ps = split_on(text@, ':');
    assert(spans_text(c@, parts@) == ps);
    assert(ps[0] == c@.subrange(parts[0].0 as int, parts[0].1 as int));
    let mut out = string_of(&c, parts[0].0, parts[0].1);
    if parts.len() >= 2 {
        assert(ps[1] == c@.subrange(parts[1].0 as int, parts[1].1 as int));
        push_char(&mut out, ':');
        let second = string_of(&c, parts[1].0, parts[1].1);
        push_str(&mut out, second.as_str());
    }
    out
}

/// The flags that a selector holds, for messages: `<Empty>` when none.
pub open spec fn summary_spec(v: SelectorView) -> Seq<char> {
    if !v.active {
        "<Empty>"@
    } else {
        joined(summary_words(v), ' ')
    }
}

pub open spec fn summary_words(v: SelectorView) -> Seq<Seq<char>> {
    let w0 = if v.fzf { seq!["--fzf"@] } else { Seq::<Seq<char>>::empty() };
    let w1 = if v.pat.len() > 0 { w0.push("--pat ..."@) } else { w0 };
    let w2 = if v.idx.len() > 0 { w1.push("--idx ..."@) } else { w1 };
    let w3 = if v.time.len() > 0 { w2.push("--time ..."@) } else { w2 };
    if v.blk.len() > 0 { w3.push("--blk ..."@) } else { w3 }
}

impl Selector {
    /// The flags this selector holds, for messages.
    pub fn summary(&self) -> (r: String)
        ensures
            r@ == summary_spec(self@),
    {
        if !self.active {
            return "<Empty>".to_owned();
        }
        let mut v: Vec<String> = Vec::new();
        if self.fzf {
            v.push("--fzf".to_owned());
        }
        if self.pat.len() > 0 {
            v.push("--pat ...".to_owned());
        }
        if self.idx.len() > 0 {
            v.push("--idx ...".to_owned());
        }
        if self.time.len() > 0 {
            v.push("--time ...".to_owned());
        }
        if self.blk.len() > 0 {
            v.push("--blk ...".to_owned());
        }
        assert(texts_view(v@) =~= summary_words(self@));
        join_words(&v, ' ')
    }
}

/// An error as shown to the user.
#[derive(Debug, Clone, PartialEq, Eq)]
pub struct Rendered {
    pub title: String,
    pub message: String,
    pub hint: String,
}

/// The title, message and hint of an error; none for a dry run, which is
/// no error to show.
pub open spec fn render_spec(e: Error) -> Option<(Seq<char>, Seq<char>, Seq<char>)> {
    match e {
        Error::NonExclusiveCmd(prev, new) => Some(("Non-exclusive command"@, "'"@ + new@ + "' is given, but '"@ + prev@ + "' was already registered"@, "remove '--"@ + new@ + "'"@)),
        Error::TooManyArgs(cmd, args) => Some(("Too many positional arguments"@, "command '"@ + cmd@ + "' does not take positional arguments"@, "remove '"@ + joined(texts_view(args@), ' ') + "'"@)),
        Error::EmptySelectorList(label) => Some(("Empty selector list"@, "'--"@ + label@ + "' selector does not have arguments"@, Seq::<char>::empty() + "provide 'START:END' or 'PATTERN'"@)),
        Error::ThreePartRange(text) => Some(("Range argument takes at most two elements"@, "'"@ + text@ + "' is not a valid range"@, "replace with '"@ + first_two(text@) + "'"@)),
        Error::InvalidIndex(idx) => Some(("Invalid index"@, "'"@ + idx@ + "' is not an index"@, Seq::<char>::empty() + "make it parsable as a decimal integer"@)),
        Error::UnknownArg(arg) => Some(("Unknown argument"@, "'"@ + arg@ + "' is not a known argument"@, Seq::<char>::empty() + "place it after '--' if you want it to be treated as a filename"@)),
        Error::UselessSelector(cmd, sel) => Some(("Useless selector"@, "'"@ + cmd@ + "' takes no selector, yet '"@ + summary_spec(sel@) + "' was provided"@, Seq::<char>::empty() + "remove all selection arguments"@)),
        Error::WrongDuration(dur, c) => Some(("Wrong duration"@, "'"@ + dur@ + "' cannot be parsed as a time delta"@, "remove invalid character '"@ + seq![c] + "'"@)),
        Error::InvalidRegexSyntax(re, err) => Some(("Invalid regex syntax"@, "'"@ + re@ + "' is not a regex"@, Seq::<char>::empty() + err@)),
        Error::RegexFailure(re) => Some(("Regex failure"@, "error occurred while parsing '"@ + re@ + "'"@, Seq::<char>::empty() + "it may be too big"@)),
        Error::FileDoesNotExist(name) => Some(("File does not exist"@, "'"@ + name@ + "' not found"@, Seq::<char>::empty() + "maybe it exists but the permissions are invalid"@)),
        Error::ReadOnlyFile(name) => Some(("File is read-only"@, "'"@ + name@ + "' does not have the right permissions flags"@, Seq::<char>::empty() + "use plain `rm` or change permissions"@)),
        Error::FailedToWrite(path, None) => Some(("Could not write"@, "'"@ + path@ + "' does not have the right permissions flags"@, Seq::<char>::empty() + "change permissions to writeable"@)),
        Error::FailedToWrite(path, Some(s)) => Some(("Could not write"@, "'"@ + s@ + "' should have been written to '"@ + path@ + "'"@, Seq::<char>::empty() + "write manually and change permissions for next execution"@)),
        Error::ExecError(cmd) => Some(("Failed to execute"@, "'"@ + cmd@ + "' could not run"@, Seq::<char>::empty() + "ensure it is in your $PATH"@)),
        Error::CouldNotCreateDir(dir) => Some(("Failed to create directory"@, "'"@ + dir@ + "' is not accessible"@, Seq::<char>::empty() + "ensure parent has write permissions"@)),
        Error::CouldNotMove(src, dest) => Some(("Failed to move"@, "unable to move '"@ + src@ + "' to '"@ + dest@ + "'"@, Seq::<char>::empty() + "check write permissions"@)),
        Error::InvalidVarLs(cmd) => Some(("Invalid $REM_LS contents"@, "'"@ + cmd@ + "' is invalid"@, Seq::<char>::empty() + "it must be one of 'exa' or 'ls' _and_ be in your $PATH"@)),
        Error::InvalidVarFzf(cmd) => Some(("Invalid $REM_FZF contents"@, "'"@ + cmd@ + "' is invalid"@, Seq::<char>::empty() + "it must be one of 'sk' or 'fzf' _and_ be in your $PATH"@)),
        Error::NoInstalledFzf => Some(("No fzf equivalent detected"@, Seq::<char>::empty() + "neither 'fzf' nor 'sk' is installed"@, Seq::<char>::empty() + "make sure one of them is in your $PATH"@)),
        Error::HistoryNotReadable(histfile) => Some(("Can't read history file"@, "'"@ + histfile@ + "' is not readable"@, Seq::<char>::empty() + "check permissions"@)),
        Error::MissingData(entry, idx, pos) => Some(("Corrupted (missing) data"@, "'"@ + entry@ + "' is too short for 'alias|name|timestamp'"@, "fix missing field "@ + pos@ + " at entry number "@ + decimal(idx as nat))),
        Error::CorruptedTimestamp(ts) => Some(("Corrupted timestamp"@, "'"@ + ts@ + "' is not a number of seconds"@, Seq::<char>::empty() + "make it a non-negative decimal integer"@)),
        Error::HelpNotFound(menu) => Some(("Help menu not found"@, "'"@ + menu@ + "' does not exist"@, Seq::<char>::empty() + "use one of examples/cmd/select/info/rest/undo/del/pat/fzf/idx/main"@)),
        Error::SandBoxed => None,
    }
}

impl Error {
    /// The title, message and hint to show; `None` for a dry run.
    pub fn render(&self) -> (r: Option<Rendered>)
        ensures
            match (r, render_spec(*self)) {
                (Some(x), Some(y)) => x.title@ == y.0 && x.message@ == y.1 && x.hint@ == y.2,
                (None, None) => true,
                _ => false,
            },
    {
        match self {
            Error::NonExclusiveCmd(prev, new) => {
                let mut message = String::new();
                push_str(&mut message, "'");
                push_str(&mut message, new);
                push_str(&mut message, "' is given, but '");
                push_str(&mut message, prev);
                push_str(&mut message, "' was already registered");
                let mut hint = String::new();
                push_str(&mut hint, "remove '--");
                push_str(&mut hint, new);
                push_str(&mut hint, "'");
                proof {
                    assert(message@ =~= "'"@ + new@ + "' is given, but '"@ + prev@ + "' was already registered"@);
                    assert(hint@ =~= "remove '--"@ + new@ + "'"@);
                }
                Some(Rendered { title: "Non-exclusive command".to_owned(), message, hint })
            },
            Error::TooManyArgs(cmd, args) => {
                let mut message = String::new();
                push_str(&mut message, "command '");
                push_str(&mut message, cmd);
                push_str(&mut message, "' does not take positional arguments");
                let mut hint = String::new();
                push_str(&mut hint, "remove '");
                let words = join_words(args, ' ');
                push_str(&mut hint, words.as_str());
                push_str(&mut hint, "'");
                proof {
                    assert(message@ =~= "command '"@ + cmd@ + "' does not take positional arguments"@);
                    assert(hint@ =~= "remove '"@ + joined(texts_view(args@), ' ') + "'"@);
                }
                Some(Rendered { title: "Too many positional arguments".to_owned(), message, hint })
            },
            Error::EmptySelectorList(label) => {
                let mut message = String::new();
                push_str(&mut message, "'--");
                push_str(&mut message, label);
                push_str(&mut message, "' selector does not have arguments");
                let mut hint = String::new();
                push_str(&mut hint, "provide 'START:END' or 'PATTERN'");
                proof {
                    assert(message@ =~= "'--"@ + label@ + "' selector does not have arguments"@);
                    assert(hint@ =~= Seq::<char>::empty() + "provide 'START:END' or 'PATTERN'"@);
                }
                Some(Rendered { title: "Empty selector list".to_owned(), message, hint })
            },
            Error::ThreePartRange(text) => {
                let mut message = String::new();
                push_str(&mut message, "'");
                push_str(&mut message, text);
                push_str(&mut message, "' is not a valid range");
                let mut hint = String::new();
                push_str(&mut hint, "replace with '");
                let two = first_two_of(text);
                push_str(&mut hint, two.as_str());
                push_str(&mut hint, "'");
                proof {
                    assert(message@ =~= "'"@ + text@ + "' is not a valid range"@);
                    assert(hint@ =~= "replace with '"@ + first_two(text@) + "'"@);
                }
                Some(Rendered { title: "Range argument takes at most two elements".to_owned(), message, hint })
            },
            Error::InvalidIndex(idx) => {
                let mut message = String::new();
                push_str(&mut message, "'");
                push_str(&mut message, idx);
                push_str(&mut message, "' is not an index");
                let mut hint = String::new();
                push_str(&mut hint, "make it parsable as a decimal integer");
                proof {
                    assert(message@ =~= "'"@ + idx@ + "' is not an index"@);
                    assert(hint@ =~= Seq::<char>::empty() + "make it parsable as a decimal integer"@);
                }
                Some(Rendered { title: "Invalid index".to_owned(), message, hint })
            },
            Error::UnknownArg(arg) => {
                let mut message = String::new();
                push_str(&mut message, "'");
                push_str(&mut message, arg);
                push_str(&mut message, "' is not a known argument");
                let mut hint = String::new();
                push_str(&mut hint, "place it after '--' if you want it to be treated as a filename");
                proof {
                    assert(message@ =~= "'"@ + arg@ + "' is not a known argument"@);
                    assert(hint@ =~= Seq::<char>::empty() + "place it after '--' if you want it to be treated as a filename"@);
                }
                Some(Rendered { title: "Unknown argument".to_owned(), message, hint })
            },
            Error::UselessSelector(cmd, sel) => {
                let mut message = String::new();
                push_str(&mut message, "'");
                push_str(&mut message, cmd);
                push_str(&mut message, "' takes no selector, yet '");
                let sum = sel.summary();
                push_str(&mut message, sum.as_str());
                push_str(&mut message, "' was provided");
                let mut hint = String::new();
                push_str(&mut hint, "remove all selection arguments");
                proof {
                    assert(message@ =~= "'"@ + cmd@ + "' takes no selector, yet '"@ + summary_spec(sel@) + "' was provided"@);
                    assert(hint@ =~= Seq::<char>::empty() + "remove all selection arguments"@);
                }
                Some(Rendered { title: "Useless selector".to_owned(), message, hint })
            },
            Error::WrongDuration(dur, c) => {
                let mut message = String::new();
                push_str(&mut message, "'");
                push_str(&mut message, dur);
                push_str(&mut message, "' cannot be parsed as a time delta");
                let mut hint = String::new();
                push_str(&mut hint, "remove invalid character '");
                push_char(&mut hint, *c);
                push_str(&mut hint, "'");
                proof {
                    assert(message@ =~= "'"@ + dur@ + "' cannot be parsed as a time delta"@);
                    assert(hint@ =~= "remove invalid character '"@ + seq![*c] + "'"@);
                }
                Some(Rendered { title: "Wrong duration".to_owned(), message, hint })
            },
            Error::InvalidRegexSyntax(re, err) => {
                let mut message = String::new();
                push_str(&mut message, "'");
                push_str(&mut message, re);
                push_str(&mut message, "' is not a regex");
                let mut hint = String::new();
                push_str(&mut hint, err);
                proof {
                    assert(message@ =~= "'"@ + re@ + "' is not a regex"@);
                    assert(hint@ =~= Seq::<char>::empty() + err@);
                }
                Some(Rendered { title: "Invalid regex syntax".to_owned(), message, hint })
            },
            Error::RegexFailure(re) => {
                let mut message = String::new();
                push_str(&mut message, "error occurred while parsing '");
                push_str(&mut message, re);
                push_str(&mut message, "'");
                let mut hint = String::new();
                push_str(&mut hint, "it may be too big");
                proof {
                    assert(message@ =~= "error occurred while parsing '"@ + re@ + "'"@);
                    assert(hint@ =~= Seq::<char>::empty() + "it may be too big"@);
                }
                Some(Rendered { title: "Regex failure".to_owned(), message, hint })
            },
            Error::FileDoesNotExist(name) => {
                let mut message = String::new();
                push_str(&mut message, "'");
                push_str(&mut message, name);
                push_str(&mut message, "' not found");
                let mut hint = String::new();
                push_str(&mut hint, "maybe it exists but the permissions are invalid");
                proof {
                    assert(message@ =~= "'"@ + name@ + "' not found"@);
                    assert(hint@ =~= Seq::<char>::empty() + "maybe it exists but the permissions are invalid"@);
                }
                Some(Rendered { title: "File does not exist".to_owned(), message, hint })
            },
            Error::ReadOnlyFile(name) => {
                let mut message = String::new();
                push_str(&mut message, "'");
                push_str(&mut message, name);
                push_str(&mut message, "' does not have the right permissions flags");
                let mut hint = String::new();
                push_str(&mut hint, "use plain `rm` or change permissions");
                proof {
                    assert(message@ =~= "'"@ + name@ + "' does not have the right permissions flags"@);
                    assert(hint@ =~= Seq::<char>::empty() + "use plain `rm` or change permissions"@);
                }
                Some(Rendered { title: "File is read-only".to_owned(), message, hint })
            },
            Error::FailedToWrite(path, None) => {
                let mut message = String::new();
                push_str(&mut message, "'");
                push_str(&mut message, path);
                push_str(&mut message, "' does not have the right permissions flags");
                let mut hint = String::new();
                push_str(&mut hint, "change permissions to writeable");
                proof {
                    assert(message@ =~= "'"@ + path@ + "' does not have the right permissions flags"@);
                    assert(hint@ =~= Seq::<char>::empty() + "change permissions to writeable"@);
                }
                Some(Rendered { title: "Could not write".to_owned(), message, hint })
            },
            Error::FailedToWrite(path, Some(s)) => {
                let mut message = String::new();
                push_str(&mut message, "'");
                push_str(&mut message, s);
                push_str(&mut message, "' should have been written to '");
                push_str(&mut message, path);
                push_str(&mut message, "'");
                let mut hint = String::new();
                push_str(&mut hint, "write manually and change permissions for next execution");
                proof {
                    assert(message@ =~= "'"@ + s@ + "' should have been written to '"@ + path@ + "'"@);
                    assert(hint@ =~= Seq::<char>::empty() + "write manually and change permissions for next execution"@);
                }
                Some(Rendered { title: "Could not write".to_owned(), message, hint })
            },
            Error::ExecError(cmd) => {
                let mut message = String::new();
                push_str(&mut message, "'");
                push_str(&mut message, cmd);
                push_str(&mut message, "' could not run");
                let mut hint = String::new();
                push_str(&mut hint, "ensure it is in your $PATH");
                proof {
                    assert(message@ =~= "'"@ + cmd@ + "' could not run"@);
                    assert(hint@ =~= Seq::<char>::empty() + "ensure it is in your $PATH"@);
                }
                Some(Rendered { title: "Failed to execute".to_owned(), message, hint })
            },
            Error::CouldNotCreateDir(dir) => {
                let mut message = String::new();
                push_str(&mut message, "'");
                push_str(&mut message, dir);
                push_str(&mut message, "' is not accessible");
                let mut hint = String::new();
                push_str(&mut hint, "ensure parent has write permissions");
                proof {
                    assert(message@ =~= "'"@ + dir@ + "' is not accessible"@);
                    assert(hint@ =~= Seq::<char>::empty() + "ensure parent has write permissions"@);
                }
                Some(Rendered { title: "Failed to create directory".to_owned(), message, hint })
            },
            Error::CouldNotMove(src, dest) => {
                let mut message = String::new();
                push_str(&mut message, "unable to move '");
                push_str(&mut message, src);
                push_str(&mut message, "' to '");
                push_str(&mut message, dest);
                push_str(&mut message, "'");
                let mut hint = String::new();
                push_str(&mut hint, "check write permissions");
                proof {
                    assert(message@ =~= "unable to move '"@ + src@ + "' to '"@ + dest@ + "'"@);
                    assert(hint@ =~= Seq::<char>::empty() + "check write permissions"@);
                }
                Some(Rendered { title: "Failed to move".to_owned(), message, hint })
            },
            Error::InvalidVarLs(cmd) => {
                let mut message = String::new();
                push_str(&mut message, "'");
                push_str(&mut message, cmd);
                push_str(&mut message, "' is invalid");
                let mut hint = String::new();
                push_str(&mut hint, "it must be one of 'exa' or 'ls' _and_ be in your $PATH");
                proof {
                    assert(message@ =~= "'"@ + cmd@ + "' is invalid"@);
                    assert(hint@ =~= Seq::<char>::empty() + "it must be one of 'exa' or 'ls' _and_ be in your $PATH"@);
                }
                Some(Rendered { title: "Invalid $REM_LS contents".to_owned(), message, hint })
            },
            Error::InvalidVarFzf(cmd) => {
                let mut message = String::new();
                push_str(&mut message, "'");
                push_str(&mut message, cmd);
                push_str(&mut message, "' is invalid");
                let mut hint = String::new();
                push_str(&mut hint, "it must be one of 'sk' or 'fzf' _and_ be in your $PATH");
                proof {
                    assert(message@ =~= "'"@ + cmd@ + "' is invalid"@);
                    assert(hint@ =~= Seq::<char>::empty() + "it must be one of 'sk' or 'fzf' _and_ be in your $PATH"@);
                }
                Some(Rendered { title: "Invalid $REM_FZF contents".to_owned(), message, hint })
            },
            Error::NoInstalledFzf => {
                let mut message = String::new();
                push_str(&mut message, "neither 'fzf' nor 'sk' is installed");
                let mut hint = String::new();
                push_str(&mut hint, "make sure one of them is in your $PATH");
                proof {
                    assert(message@ =~= Seq::<char>::empty() + "neither 'fzf' nor 'sk' is installed"@);
                    assert(hint@ =~= Seq::<char>::empty() + "make sure one of them is in your $PATH"@);
                }
                Some(Rendered { title: "No fzf equivalent detected".to_owned(), message, hint })
            },
            Error::HistoryNotReadable(histfile) => {
                let mut message = String::new();
                push_str(&mut message, "'");
                push_str(&mut message, histfile);
                push_str(&mut message, "' is not readable");
                let mut hint = String::new();
                push_str(&mut hint, "check permissions");
                proof {
                    assert(message@ =~= "'"@ + histfile@ + "' is not readable"@);
                    assert(hint@ =~= Seq::<char>::empty() + "check permissions"@);
                }
                Some(Rendered { title: "Can't read history file".to_owned(), message, hint })
            },
            Error::MissingData(entry, idx, pos) => {
                let mut message = String::new();
                push_str(&mut message, "'");
                push_str(&mut message, entry);
                push_str(&mut message, "' is too short for 'alias|name|timestamp'");
                let mut hint = String::new();
                push_str(&mut hint, "fix missing field ");
                push_str(&mut hint, pos);
                push_str(&mut hint, " at entry number ");
                push_decimal(&mut hint, *idx as u64);
                proof {
                    assert(message@ =~= "'"@ + entry@ + "' is too short for 'alias|name|timestamp'"@);
                    assert(hint@ =~= "fix missing field "@ + pos@ + " at entry number "@ + decimal(*idx as nat));
                }
                Some(Rendered { title: "Corrupted (missing) data".to_owned(), message, hint })
            },
            Error::CorruptedTimestamp(ts) => {
                let mut message = String::new();
                push_str(&mut message, "'");
                push_str(&mut message, ts);
                push_str(&mut message, "' is not a number of seconds");
                let mut hint = String::new();
                push_str(&mut hint, "make it a non-negative decimal integer");
                proof {
                    assert(message@ =~= "'"@ + ts@ + "' is not a number of seconds"@);
                    assert(hint@ =~= Seq::<char>::empty() + "make it a non-negative decimal integer"@);
                }
                Some(Rendered { title: "Corrupted timestamp".to_owned(), message, hint })
            },
            Error::HelpNotFound(menu) => {
                let mut message = String::new();
                push_str(&mut message, "'");
                push_str(&mut message, menu);
                push_str(&mut message, "' does not exist");
                let mut hint = String::new();
                push_str(&mut hint, "use one of examples/cmd/select/info/rest/undo/del/pat/fzf/idx/main");
                proof {
                    assert(message@ =~= "'"@ + menu@ + "' does not exist"@);
                    assert(hint@ =~= Seq::<char>::empty() + "use one of examples/cmd/select/info/rest/undo/del/pat/fzf/idx/main"@);
                }
                Some(Rendered { title: "Help menu not found".to_owned(), message, hint })
            },
            Error::SandBoxed => None,
        }
    }
}

} // verus!
