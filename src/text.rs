//! Byte-level model of the line and whitespace structure of kernel text
//! interfaces, with executable scanners proved against it.

use vstd::prelude::*;

verus! {

/// ASCII whitespace: space, tab, line feed, vertical tab, form feed, carriage return.
pub open spec fn is_space(b: u8) -> bool {
    b == 32 || (9 <= b && b <= 13)
}

/// The lines of `s`: the pieces between line feeds (a carriage return stays in
/// its line, where it counts as whitespace).
pub open spec fn lines(s: Seq<u8>) -> Seq<Seq<u8>>
    decreases s.len(),
{
    if s.len() == 0 {
        seq![Seq::empty()]
    } else {
        let init = lines(s.drop_last());
        if s.last() == 10 {
            init.push(Seq::empty())
        } else {
            init.drop_last().push(init.last().push(s.last()))
        }
    }
}

/// The whitespace-separated words of `s`, in order.
pub open spec fn tokens(s: Seq<u8>) -> Seq<Seq<u8>>
    decreases s.len(),
{
    if s.len() == 0 {
        Seq::empty()
    } else {
        let init = tokens(s.drop_last());
        if is_space(s.last()) {
            init
        } else if s.len() >= 2 && !is_space(s[s.len() - 2]) {
            init.drop_last().push(init.last().push(s.last()))
        } else {
            init.push(seq![s.last()])
        }
    }
}

/// The pieces of `s` that a list of spans marks out.
pub open spec fn pieces(s: Seq<u8>, spans: Seq<(usize, usize)>) -> Seq<Seq<u8>> {
    spans.map_values(|p: (usize, usize)| s.subrange(p.0 as int, p.1 as int))
}

pub open spec fn spans_within(spans: Seq<(usize, usize)>, lo: int, hi: int) -> bool {
    forall|k: int| 0 <= k < spans.len() ==> lo <= #[trigger] spans[k].0 <= spans[k].1 <= hi
}

pub open spec fn is_digit(b: u8) -> bool {
    48 <= b && b <= 57
}

/// The number that a string of decimal digits denotes.
pub open spec fn digits_value(t: Seq<u8>) -> nat
    decreases t.len(),
{
    if t.len() == 0 {
        0
    } else {
        digits_value(t.drop_last()) * 10 + (t.last() - 48) as nat
    }
}

/// The digits of a number as written, without an optional leading `+`.
pub open spec fn unsigned_digits(t: Seq<u8>) -> Seq<u8> {
    if t.len() > 0 && t[0] == 43 {
        t.drop_first()
    } else {
        t
    }
}

/// How `u64` reads a decimal number: an optional `+`, then at least one digit,
/// and a value that fits.
pub open spec fn parse_u64(t: Seq<u8>) -> Option<u64> {
    let d = unsigned_digits(t);
    if d.len() > 0 && (forall|i: int| 0 <= i < d.len() ==> is_digit(#[trigger] d[i]))
        && digits_value(d) <= u64::MAX {
        Some(digits_value(d) as u64)
    } else {
        None
    }
}

/// A number read from `t`, or zero where `t` holds none.
pub open spec fn u64_or_zero(t: Seq<u8>) -> u64 {
    match parse_u64(t) {
        Some(v) => v,
        None => 0,
    }
}

pub open spec fn has_prefix(s: Seq<u8>, p: Seq<u8>) -> bool {
    p.len() <= s.len() && s.subrange(0, p.len() as int) == p
}

proof fn lemma_lines_nonempty(s: Seq<u8>)
    ensures
        lines(s).len() >= 1,
    decreases s.len(),
{
    if s.len() > 0 {
        lemma_lines_nonempty(s.drop_last());
    }
}

/// Splits `s` into the spans of its lines.
pub fn line_spans(s: &[u8]) -> (r: Vec<(usize, usize)>)
    ensures
        pieces(s@, r@) == lines(s@),
        spans_within(r@, 0, s@.len() as int),
{
    let mut r: Vec<(usize, usize)> = Vec::new();
    r.push((0, 0));
    assert(pieces(s@, r@) =~~= lines(s@.subrange(0, 0)));
    let mut i: usize = 0;
    while i < s.len()
        invariant
            i <= s@.len(),
            r@.len() >= 1,
            r@.last().1 == i,
            spans_within(r@, 0, i as int),
            pieces(s@, r@) == lines(s@.subrange(0, i as int)),
        decreases s@.len() - i,
    {
        let ghost prev = s@.subrange(0, i as int);
        let ghost next = s@.subrange(0, i + 1);
        assert(next.drop_last() == prev);
        proof {
            lemma_lines_nonempty(prev);
        }
        let ghost old_r = r@;
        if s[i] == 10 {
            r.push((i + 1, i + 1));
            assert(pieces(s@, r@) =~~= pieces(s@, old_r).push(Seq::empty()));
        } else {
            let k = r.len() - 1;
            let start = r[k].0;
            r.set(k, (start, i + 1));
            assert(s@.subrange(start as int, i + 1) =~= s@.subrange(start as int, i as int).push(s@[i as int]));
            assert(pieces(s@, r@) =~~= lines(next));
        }
        assert forall|k: int| 0 <= k < r@.len() implies 0 <= #[trigger] r@[k].0 <= r@[k].1 <= i + 1 by {
            if k < old_r.len() && k != old_r.len() - 1 {
                assert(r@[k] == old_r[k]);
            }
        }
        i = i + 1;
    }
    assert(s@.subrange(0, s@.len() as int) =~= s@);
    r
}

/// Splits `s[lo..hi]` into the spans of its words.
pub fn token_spans(s: &[u8], lo: usize, hi: usize) -> (r: Vec<(usize, usize)>)
    requires
        lo <= hi <= s@.len(),
    ensures
        pieces(s@, r@) == tokens(s@.subrange(lo as int, hi as int)),
        spans_within(r@, lo as int, hi as int),
{
    let mut r: Vec<(usize, usize)> = Vec::new();
    let mut i: usize = lo;
    assert(pieces(s@, r@) =~~= tokens(s@.subrange(lo as int, lo as int)));
    while i < hi
        invariant
            lo <= i <= hi <= s@.len(),
            spans_within(r@, lo as int, i as int),
            pieces(s@, r@) == tokens(s@.subrange(lo as int, i as int)),
            i > lo && !is_space(s@[i - 1]) ==> r@.len() >= 1 && r@.last().1 == i,
        decreases hi - i,
    {
        let ghost prev = s@.subrange(lo as int, i as int);
        let ghost next = s@.subrange(lo as int, i + 1);
        assert(next.drop_last() == prev);
        let ghost old_r = r@;
        if is_space_byte(s[i]) {
            assert(pieces(s@, r@) =~~= tokens(next));
        } else if i > lo && !is_space_byte(s[i - 1]) {
            let k = r.len() - 1;
            let start = r[k].0;
            r.set(k, (start, i + 1));
            assert(next[next.len() - 2] == s@[i - 1]);
            assert(s@.subrange(start as int, i + 1) =~= s@.subrange(start as int, i as int).push(
                s@[i as int],
            ));
            assert(pieces(s@, r@) =~~= tokens(next));
        } else {
            r.push((i, i + 1));
            assert(i > lo ==> next[next.len() - 2] == s@[i - 1]);
            assert(s@.subrange(i as int, i + 1) =~= seq![s@[i as int]]);
            assert(pieces(s@, r@) =~~= tokens(next));
        }
        assert forall|k: int| 0 <= k < r@.len() implies lo <= #[trigger] r@[k].0 <= r@[k].1 <= i
            + 1 by {
            if k < old_r.len() && k != old_r.len() - 1 {
                assert(r@[k] == old_r[k]);
            }
        }
        i = i + 1;
    }
    r
}

pub fn is_space_byte(b: u8) -> (r: bool)
    ensures
        r == is_space(b),
{
    b == 32 || (9 <= b && b <= 13)
}

proof fn lemma_digits_prefix_grows(t: Seq<u8>, n: int)
    requires
        0 <= n <= t.len(),
        forall|i: int| 0 <= i < t.len() ==> is_digit(#[trigger] t[i]),
    ensures
        digits_value(t.subrange(0, n)) <= digits_value(t),
    decreases t.len() - n,
{
    if n < t.len() {
        lemma_digits_prefix_grows(t, n + 1);
        assert(t.subrange(0, n + 1).drop_last() =~= t.subrange(0, n));
    } else {
        assert(t.subrange(0, n) =~= t);
    }
}

/// Reads the decimal number written in `s[lo..hi]`.
pub fn parse_u64_at(s: &[u8], lo: usize, hi: usize) -> (r: Option<u64>)
    requires
        lo <= hi <= s@.len(),
    ensures
        r == parse_u64(s@.subrange(lo as int, hi as int)),
{
    let ghost t = s@.subrange(lo as int, hi as int);
    let mut start = lo;
    if lo < hi && s[lo] == 43 {
        start = lo + 1;
    }
    let ghost d = s@.subrange(start as int, hi as int);
    assert(d =~= unsigned_digits(t));
    if start == hi {
        return None;
    }
    let mut v: u64 = 0;
    let mut i: usize = start;
    while i < hi
        invariant
            start <= i <= hi <= s@.len(),
            d == s@.subrange(start as int, hi as int),
            d == unsigned_digits(s@.subrange(lo as int, hi as int)),
            forall|j: int| start <= j < i ==> is_digit(#[trigger] s@[j]),
            v == digits_value(s@.subrange(start as int, i as int)),
        decreases hi - i,
    {
        let b = s[i];
        assert(s@.subrange(start as int, i + 1).drop_last() =~= s@.subrange(start as int, i as int));
        if b < 48 || b > 57 {
            assert(!is_digit(d[i - start]));
            return None;
        }
        let digit = (b - 48) as u64;
        if v > (u64::MAX - digit) / 10 {
            proof {
                assert(v * 10 + digit > u64::MAX) by (nonlinear_arith)
                    requires
                        v > (u64::MAX - digit) / 10,
                        digit <= 9,
                ;
                if forall|j: int| 0 <= j < d.len() ==> is_digit(#[trigger] d[j]) {
                    lemma_digits_prefix_grows(d, i + 1 - start);
                    assert(d.subrange(0, i + 1 - start) =~= s@.subrange(start as int, i + 1));
                }
            }
            return None;
        }
        v = v * 10 + digit;
        i = i + 1;
    }
    assert(d =~= s@.subrange(start as int, i as int));
    Some(v)
}

/// Where `b` first occurs in `s`.
pub open spec fn first_index(s: Seq<u8>, b: u8) -> Option<int>
    decreases s.len(),
{
    if s.len() == 0 {
        None
    } else {
        match first_index(s.drop_last(), b) {
            Some(i) => Some(i),
            None => if s.last() == b {
                Some(s.len() - 1)
            } else {
                None
            },
        }
    }
}

/// Finds the first `b` in `s[lo..hi]`.
pub fn find_byte(s: &[u8], lo: usize, hi: usize, b: u8) -> (r: Option<usize>)
    requires
        lo <= hi <= s@.len(),
    ensures
        match r {
            Some(i) => lo <= i < hi && first_index(s@.subrange(lo as int, hi as int), b) == Some(
                i - lo,
            ),
            None => first_index(s@.subrange(lo as int, hi as int), b) == None::<int>,
        },
{
    let mut i: usize = lo;
    while i < hi
        invariant
            lo <= i <= hi <= s@.len(),
            first_index(s@.subrange(lo as int, i as int), b) == None::<int>,
        decreases hi - i,
    {
        assert(s@.subrange(lo as int, i + 1).drop_last() =~= s@.subrange(lo as int, i as int));
        if s[i] == b {
            proof {
                lemma_first_index_extends(s@.subrange(lo as int, hi as int), b, i - lo);
                assert(s@.subrange(lo as int, hi as int).subrange(0, i - lo + 1) =~= s@.subrange(
                    lo as int,
                    i + 1,
                ));
            }
            return Some(i);
        }
        i = i + 1;
    }
    None
}

proof fn lemma_first_index_extends(s: Seq<u8>, b: u8, i: int)
    requires
        0 <= i < s.len(),
        first_index(s.subrange(0, i + 1), b) is Some,
    ensures
        first_index(s, b) == first_index(s.subrange(0, i + 1), b),
    decreases s.len() - i,
{
    if i + 1 < s.len() {
        assert(s.drop_last().subrange(0, i + 1) =~= s.subrange(0, i + 1));
        lemma_first_index_extends(s.drop_last(), b, i);
    } else {
        assert(s.subrange(0, i + 1) =~= s);
    }
}

/// Where `b` last occurs in `s`.
pub open spec fn last_index(s: Seq<u8>, b: u8) -> Option<int>
    decreases s.len(),
{
    if s.len() == 0 {
        None
    } else if s.last() == b {
        Some(s.len() - 1)
    } else {
        last_index(s.drop_last(), b)
    }
}

/// Finds the last `b` in `s`.
pub fn find_last_byte(s: &[u8], b: u8) -> (r: Option<usize>)
    ensures
        r matches Some(i) ==> i < s@.len() && last_index(s@, b) == Some(i as int),
        r is None ==> last_index(s@, b) is None,
{
    let mut i: usize = s.len();
    assert(s@.subrange(0, i as int) =~= s@);
    while i > 0
        invariant
            i <= s@.len(),
            last_index(s@, b) == last_index(s@.subrange(0, i as int), b),
        decreases i,
    {
        assert(s@.subrange(0, i as int).drop_last() =~= s@.subrange(0, i - 1));
        if s[i - 1] == b {
            return Some(i - 1);
        }
        i = i - 1;
    }
    None
}

/// Whether `s[lo..hi]` is exactly `key`.
pub fn span_equals(s: &[u8], lo: usize, hi: usize, key: &[u8]) -> (r: bool)
    requires
        lo <= hi <= s@.len(),
    ensures
        r == (s@.subrange(lo as int, hi as int) == key@),
{
    if hi - lo != key.len() {
        return false;
    }
    span_has_prefix(s, lo, hi, key)
}

/// Whether `s[lo..hi]` starts with `key`.
pub fn span_has_prefix(s: &[u8], lo: usize, hi: usize, key: &[u8]) -> (r: bool)
    requires
        lo <= hi <= s@.len(),
    ensures
        r == has_prefix(s@.subrange(lo as int, hi as int), key@),
        r && hi - lo == key@.len() ==> s@.subrange(lo as int, hi as int) == key@,
        s@.subrange(lo as int, hi as int) == key@ ==> r,
{
    let ghost t = s@.subrange(lo as int, hi as int);
    if hi - lo < key.len() {
        return false;
    }
    let mut k: usize = 0;
    while k < key.len()
        invariant
            key@.len() <= hi - lo,
            lo <= hi <= s@.len(),
            t == s@.subrange(lo as int, hi as int),
            k <= key@.len(),
            forall|j: int| 0 <= j < k ==> s@[lo + j] == #[trigger] key@[j],
        decreases key@.len() - k,
    {
        if s[lo + k] != key[k] {
            assert(t.subrange(0, key@.len() as int)[k as int] != key@[k as int]);
            return false;
        }
        k = k + 1;
    }
    assert(t.subrange(0, key@.len() as int) =~= key@);
    proof {
        if hi - lo == key@.len() {
            assert(t =~= t.subrange(0, key@.len() as int));
        }
    }
    true
}

} // verus!
