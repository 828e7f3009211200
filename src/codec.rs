//! Character-level helpers for the log grammar: splitting on a separator,
//! decimal numbers, and building strings.
use vstd::prelude::*;
use vstd::std_specs::iter::IteratorSpec;

verus! {

broadcast use vstd::string::group_string_axioms;


/// The fields of `s` between occurrences of `sep`, as `str::split` yields
/// them: `n` separators give `n + 1` fields, empty ones included.
pub open spec fn split_on(s: Seq<char>, sep: char) -> Seq<Seq<char>>
    decreases s.len(),
{
    if s.len() == 0 {
        seq![Seq::<char>::empty()]
    } else {
        let init = split_on(s.drop_last(), sep);
        if s.last() == sep {
            init.push(Seq::<char>::empty())
        } else {
            init.update(init.len() - 1, init.last().push(s.last()))
        }
    }
}

pub proof fn lemma_split_on_nonempty(s: Seq<char>, sep: char)
    ensures
        split_on(s, sep).len() >= 1,
    decreases s.len(),
{
    if s.len() > 0 {
        lemma_split_on_nonempty(s.drop_last(), sep);
    }
}

/// Relies on `String::push`: the character is appended at the end.
#[verifier::external_body]
pub fn push_char(s: &mut String, c: char)
    ensures
        final(s)@ == old(s)@.push(c),
{
    s.push(c)
}

/// The characters of `s`, in order.
pub fn chars_of(s: &str) -> (r: Vec<char>)
    ensures
        r@ == s@,
{
    let mut out: Vec<char> = Vec::new();
    let mut it = s.chars();
    loop
        invariant
            out@ + it.remaining() == s@,
            it.decrease() is Some,
            it.obeys_prophetic_iter_laws(),
        ensures
            out@ == s@,
        decreases it.decrease()->0,
    {
        match it.next() {
            Some(c) => {
                out.push(c);
            },
            None => {
                assert(out@ + it.remaining() =~= out@);
                break;
            },
        }
    }
    out
}

/// The text that each span covers.
pub open spec fn spans_text(text: Seq<char>, spans: Seq<(usize, usize)>) -> Seq<Seq<char>> {
    spans.map_values(|sp: (usize, usize)| text.subrange(sp.0 as int, sp.1 as int))
}

/// The spans of the fields of `text[lo..hi]` that lie between occurrences
/// of `sep`.
pub fn split_spans(text: &Vec<char>, lo: usize, hi: usize, sep: char) -> (r: Vec<(usize, usize)>)
    requires
        lo <= hi <= text.len(),
    ensures
        r.len() >= 1,
        forall|k: int| 0 <= k < r.len() ==> lo <= #[trigger] r[k].0 <= r[k].1 <= hi,
        forall|k: int| 0 < k < r.len() ==> #[trigger] r[k].0 == r[k - 1].1 + 1,
        spans_text(text@, r@) == split_on(text@.subrange(lo as int, hi as int), sep),
{
    let mut done: Vec<(usize, usize)> = Vec::new();
    let mut start: usize = lo;
    let mut i: usize = lo;
    assert(text@.subrange(lo as int, lo as int) =~= Seq::<char>::empty());
    assert(spans_text(text@, done@.push((start, i))) =~= seq![Seq::<char>::empty()]);
    while i < hi
        invariant
            lo <= start <= i <= hi <= text.len(),
            forall|k: int| 0 <= k < done.len() ==> lo <= #[trigger] done[k].0 <= done[k].1 <= start,
            forall|k: int| 0 < k < done.len() ==> #[trigger] done[k].0 == done[k - 1].1 + 1,
            done.len() > 0 ==> start == done@.last().1 + 1,
            spans_text(text@, done@.push((start, i))) == split_on(
                text@.subrange(lo as int, i as int),
                sep,
            ),
        decreases hi - i,
    {
        let ghost before = text@.subrange(lo as int, i as int);
        let ghost after = text@.subrange(lo as int, i + 1);
        assert(after.drop_last() =~= before);
        assert(after.last() == text@[i as int]);
        if text[i] == sep {
            done.push((start, i));
            start = i + 1;
            assert(text@.subrange(start as int, start as int) =~= Seq::<char>::empty());
            assert(spans_text(text@, done@.push((start, (i + 1) as usize))) =~= split_on(before, sep).push(
                Seq::<char>::empty(),
            ));
        } else {
            assert(text@.subrange(start as int, i + 1) =~= text@.subrange(
                start as int,
                i as int,
            ).push(text@[i as int]));
            let ghost init = split_on(before, sep);
            assert(spans_text(text@, done@.push((start, (i + 1) as usize))) =~= init.update(
                init.len() - 1,
                init.last().push(text@[i as int]),
            ));
        }
        i = i + 1;
    }
    done.push((start, hi));
    done
}

/// The characters `text[lo..hi]` as a string.
pub fn string_of(text: &Vec<char>, lo: usize, hi: usize) -> (r: String)
    requires
        lo <= hi <= text.len(),
    ensures
        r@ == text@.subrange(lo as int, hi as int),
{
    let mut out = String::new();
    let mut i: usize = lo;
    while i < hi
        invariant
            lo <= i <= hi <= text.len(),
            out@ == text@.subrange(lo as int, i as int),
        decreases hi - i,
    {
        push_char(&mut out, text[i]);
        assert(out@ =~= text@.subrange(lo as int, i + 1));
        i = i + 1;
    }
    out
}

pub open spec fn is_digit(c: char) -> bool {
    '0' <= c && c <= '9'
}

pub open spec fn digit_value(c: char) -> int {
    c as int - '0' as int
}

pub open spec fn all_digits(d: Seq<char>) -> bool {
    forall|i: int| 0 <= i < d.len() ==> is_digit(#[trigger] d[i])
}

/// The number that the decimal digits `d` spell, most significant first.
pub open spec fn decimal_value(d: Seq<char>) -> int
    decreases d.len(),
{
    if d.len() == 0 {
        0
    } else {
        decimal_value(d.drop_last()) * 10 + digit_value(d.last())
    }
}

/// What `u64::from_str` accepts: an optional `+`, then at least one decimal
/// digit, spelling a number that fits in 64 bits.
pub open spec fn parse_u64_spec(d: Seq<char>) -> Option<u64> {
    let digits = if d.len() > 0 && d[0] == '+' {
        d.drop_first()
    } else {
        d
    };
    if digits.len() > 0 && all_digits(digits) && decimal_value(digits) <= u64::MAX {
        Some(decimal_value(digits) as u64)
    } else {
        None
    }
}

pub proof fn lemma_decimal_value_grows(d: Seq<char>, i: int)
    requires
        all_digits(d),
        0 <= i <= d.len(),
    ensures
        decimal_value(d.subrange(0, i)) <= decimal_value(d),
        0 <= decimal_value(d),
    decreases d.len(),
{
    if d.len() > 0 {
        if i == d.len() {
            assert(d.subrange(0, i) =~= d);
            lemma_decimal_value_grows(d.drop_last(), 0);
        } else {
            assert(d.drop_last().subrange(0, i) =~= d.subrange(0, i));
            lemma_decimal_value_grows(d.drop_last(), i);
        }
    } else {
        assert(d.subrange(0, i) =~= d);
    }
}

/// Reads `text[lo..hi]` as `u64::from_str` does.
pub fn parse_u64(text: &Vec<char>, lo: usize, hi: usize) -> (r: Option<u64>)
    requires
        lo <= hi <= text.len(),
    ensures
        r == parse_u64_spec(text@.subrange(lo as int, hi as int)),
{
    let ghost d = text@.subrange(lo as int, hi as int);
    let mut i: usize = lo;
    if lo < hi && text[lo] == '+' {
        i = lo + 1;
    }
    let ghost digits = text@.subrange(i as int, hi as int);
    assert(digits =~= (if d.len() > 0 && d[0] == '+' {
        d.drop_first()
    } else {
        d
    }));
    if i == hi {
        return None;
    }
    let start = i;
    let mut acc: u64 = 0;
    assert(text@.subrange(start as int, start as int) =~= Seq::<char>::empty());
    while i < hi
        invariant
            start <= i <= hi <= text.len(),
            digits == text@.subrange(start as int, hi as int),
            d == text@.subrange(lo as int, hi as int),
            digits == (if d.len() > 0 && d[0] == '+' {
                d.drop_first()
            } else {
                d
            }),
            all_digits(text@.subrange(start as int, i as int)),
            acc as int == decimal_value(text@.subrange(start as int, i as int)),
        decreases hi - i,
    {
        let c = text[i];
        let ghost pre = text@.subrange(start as int, i as int);
        let ghost next = text@.subrange(start as int, i + 1);
        assert(next.drop_last() =~= pre);
        if c < '0' || c > '9' {
            assert(!is_digit(digits[i - start]));
            assert(!all_digits(digits));
            return None;
        }
        let v = (c as u32 - '0' as u32) as u64;
        assert(all_digits(next));
        if acc > (u64::MAX - v) / 10 {
            assert(decimal_value(next) > u64::MAX) by (nonlinear_arith)
                requires
                    decimal_value(next) == acc * 10 + v,
                    acc > (u64::MAX - v) / 10,
                    v <= 9,
            ;
            proof {
                if all_digits(digits) {
                    assert(digits.subrange(0, i + 1 - start) =~= next);
                    lemma_decimal_value_grows(digits, i + 1 - start);
                }
                assert(!(all_digits(digits) && decimal_value(digits) <= u64::MAX));
            }
            return None;
        }
        acc = acc * 10 + v;
        i = i + 1;
    }
    assert(text@.subrange(start as int, i as int) =~= digits);
    Some(acc)
}

/// The decimal digits of `n`, most significant first, without leading zeros.
pub open spec fn decimal(n: nat) -> Seq<char>
    decreases n,
{
    if n < 10 {
        seq![digit_char(n)]
    } else {
        decimal(n / 10).push(digit_char(n % 10))
    }
}

pub open spec fn digit_char(d: nat) -> char {
    ('0' as nat + d) as char
}

/// Appends the decimal digits of `n` to `out`.
pub fn push_decimal(out: &mut String, n: u64)
    ensures
        final(out)@ == old(out)@ + decimal(n as nat),
    decreases n,
{
    if n >= 10 {
        push_decimal(out, n / 10);
    }
    let c = ((n % 10) as u8 + 48u8) as char;
    assert(c == digit_char((n % 10) as nat));
    push_char(out, c);
    proof {
        if n < 10 {
            assert(old(out)@.push(c) =~= old(out)@ + decimal(n as nat));
        } else {
            assert(old(out)@ + decimal((n / 10) as nat) + seq![c] =~= old(out)@ + decimal(
                n as nat,
            ));
        }
    }
}

pub proof fn lemma_decimal_parses(n: u64)
    ensures
        parse_u64_spec(decimal(n as nat)) == Some(n),
{
    lemma_decimal_digits(n as nat);
}

proof fn lemma_decimal_digits(n: nat)
    ensures
        decimal(n).len() > 0,
        decimal(n)[0] != '+',
        all_digits(decimal(n)),
        decimal_value(decimal(n)) == n,
    decreases n,
{
    if n >= 10 {
        lemma_decimal_digits(n / 10);
        assert(decimal(n).drop_last() =~= decimal(n / 10));
        assert(digit_value(digit_char(n % 10)) == n % 10);
        assert(n == (n / 10) * 10 + n % 10) by (nonlinear_arith);
    } else {
        assert(decimal(n).drop_last() =~= Seq::<char>::empty());
        assert(decimal_value(Seq::<char>::empty()) == 0);
        assert(digit_value(digit_char(n)) == n);
    }
}

/// Appends the characters of `s` to `out`.
pub fn push_str(out: &mut String, s: &str)
    ensures
        final(out)@ == old(out)@ + s@,
{
    let c = chars_of(s);
    let mut i: usize = 0;
    while i < c.len()
        invariant
            i <= c.len(),
            c@ == s@,
            out@ == old(out)@ + c@.subrange(0, i as int),
        decreases c.len() - i,
    {
        push_char(out, c[i]);
        i = i + 1;
        assert(out@ =~= old(out)@ + c@.subrange(0, i as int));
    }
    assert(c@.subrange(0, i as int) =~= c@);
}

} // verus!
