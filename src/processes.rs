//! The process query layer: filter, sort and page a table of processes.

use vstd::prelude::*;
use vstd::string::StringSliceAdditionalSpecFns;
use vstd::utf8::encode_utf8;
use crate::delta::Ratio;
use crate::models::ProcessRow;
use crate::text::span_equals;

verus! {

/// The column a table is sorted by.
#[derive(Debug, Clone, Copy, PartialEq, Eq, Structural)]
pub enum SortKey {
    Cpu,
    Mem,
    Pid,
    User,
    Command,
}

#[derive(Debug, Clone, Copy, PartialEq, Eq, Structural)]
pub enum SortDir {
    Asc,
    Desc,
}

/// A request for part of the process table.
pub struct ProcessQuery {
    pub search: Option<String>,
    pub sort_by: Option<SortKey>,
    pub sort_dir: Option<SortDir>,
    pub limit: Option<usize>,
    pub offset: Option<usize>,
}

/// What `str::to_lowercase` makes of a string.
pub uninterp spec fn lower_of(s: Seq<char>) -> Seq<char>;

/// Relies on `str::to_lowercase`: its result depends on the characters alone.
#[verifier::external_body]
fn lowercase(s: &str) -> (r: String)
    ensures
        r@ == lower_of(s@),
{
    s.to_lowercase()
}

/// Whether `pat` occurs in `hay`.
pub open spec fn contains_bytes(hay: Seq<u8>, pat: Seq<u8>) -> bool {
    exists|i: int|
        0 <= i && i + pat.len() <= hay.len() && #[trigger] hay.subrange(i, i + pat.len()) == pat
}

fn bytes_contain(hay: &[u8], pat: &[u8]) -> (r: bool)
    ensures
        r == contains_bytes(hay@, pat@),
{
    if pat.len() > hay.len() {
        return false;
    }
    let last = hay.len() - pat.len();
    let plen = pat.len();
    let hlen = hay.len();
    let mut i: usize = 0;
    loop
        invariant
            plen == pat@.len(),
            hlen == hay@.len(),
            last + plen == hlen,
            pat@.len() <= hay@.len(),
            last == hay@.len() - pat@.len(),
            i <= last,
            forall|j: int|
                0 <= j < i ==> #[trigger] hay@.subrange(j, j + pat@.len()) != pat@,
        decreases last - i,
    {
        if span_equals(hay, i, i + plen, pat) {
            return true;
        }
        if i == last {
            return false;
        }
        i = i + 1;
    }
}

/// Whether a lowercased filter occurs in a lowercased command or user name.
pub open spec fn folded_match(needle: Seq<u8>, command: Seq<u8>, user: Seq<u8>) -> bool {
    contains_bytes(command, needle) || contains_bytes(user, needle)
}

/// The filter test on text that is already lowercased.
pub fn matches_folded(needle: &str, command: &str, user: &str) -> (r: bool)
    ensures
        r == folded_match(needle.spec_bytes(), command.spec_bytes(), user.spec_bytes()),
{
    bytes_contain(command.as_bytes(), needle.as_bytes()) || bytes_contain(user.as_bytes(), needle.as_bytes())
}

/// Whether a row passes the filter `search`, ignoring case.
pub open spec fn row_matches(row: ProcessRow, search: Option<String>) -> bool {
    match search {
        None => true,
        Some(q) => folded_match(
            encode_utf8(lower_of(q@)),
            encode_utf8(lower_of(row.command@)),
            encode_utf8(lower_of(row.user@)),
        ),
    }
}

fn row_passes(row: &ProcessRow, needle: &Option<String>, search: Ghost<Option<String>>) -> (r: bool)
    requires
        match search@ {
            None => needle is None,
            Some(q) => needle matches Some(n) && n@ == lower_of(q@),
        },
    ensures
        r == row_matches(*row, search@),
{
    match needle {
        None => true,
        Some(n) => {
            let command = lowercase(row.command.as_str());
            let user = lowercase(row.user.as_str());
            matches_folded(n.as_str(), command.as_str(), user.as_str())
        },
    }
}

/// `a` is larger than `b`, compared by cross-multiplication.
pub open spec fn share_gt(a: Ratio, b: Ratio) -> bool {
    a.num * b.den > b.num * a.den
}

/// `a` comes before `b` in byte order.
pub open spec fn lex_lt(a: Seq<u8>, b: Seq<u8>) -> bool
    decreases a.len(),
{
    if a.len() == 0 {
        b.len() > 0
    } else if b.len() == 0 {
        false
    } else if a[0] != b[0] {
        a[0] < b[0]
    } else {
        lex_lt(a.drop_first(), b.drop_first())
    }
}

/// Row `a` sorts strictly before row `b` by `key`: larger CPU or memory share
/// first, smaller pid first, user and command in byte order.
pub open spec fn key_before(key: SortKey, a: ProcessRow, b: ProcessRow) -> bool {
    match key {
        SortKey::Cpu => share_gt(a.cpu_share, b.cpu_share),
        SortKey::Mem => share_gt(a.mem_share, b.mem_share),
        SortKey::Pid => a.pid < b.pid,
        SortKey::User => lex_lt(encode_utf8(a.user@), encode_utf8(b.user@)),
        SortKey::Command => lex_lt(encode_utf8(a.command@), encode_utf8(b.command@)),
    }
}

/// Row `x` of `rows` goes before row `y`: by the key, and in scan order among
/// rows that the key does not tell apart or where there is no key.
pub open spec fn in_order(key: Option<SortKey>, rows: Seq<ProcessRow>, x: usize, y: usize) -> bool {
    match key {
        None => x < y,
        Some(k) => key_before(k, rows[x as int], rows[y as int]) || (!key_before(
            k,
            rows[y as int],
            rows[x as int],
        ) && x < y),
    }
}

/// `order` lists each row of `rows` that passes `search` once, by index,
/// each before the next.
pub open spec fn arranged(
    rows: Seq<ProcessRow>,
    search: Option<String>,
    key: Option<SortKey>,
    order: Seq<usize>,
) -> bool {
    &&& order.no_duplicates()
    &&& forall|j: int|
        0 <= j < order.len() ==> #[trigger] order[j] < rows.len() && row_matches(
            rows[order[j] as int],
            search,
        )
    &&& forall|i: usize| i < rows.len() && row_matches(rows[i as int], search) ==> order.contains(i)
    &&& forall|j: int| 0 <= j < order.len() - 1 ==> in_order(key, rows, #[trigger] order[j], order[j + 1])
}

/// The part of `s` from `offset` (default zero), at most `limit` long
/// (default: all the rest).
pub open spec fn page<T>(s: Seq<T>, offset: Option<usize>, limit: Option<usize>) -> Seq<T> {
    let o: int = match offset {
        Some(v) => v as int,
        None => 0,
    };
    let start: int = if o > s.len() {
        s.len() as int
    } else {
        o
    };
    let end: int = match limit {
        None => s.len() as int,
        Some(l) => if start + l > s.len() {
            s.len() as int
        } else {
            start + l
        },
    };
    s.subrange(start, end)
}

/// The rows that a query returns, given the arrangement `order` of the rows it
/// keeps: reversed where `asc` is asked for together with a key, then paged.
pub open spec fn listed(rows: Seq<ProcessRow>, query: ProcessQuery, order: Seq<usize>) -> Seq<ProcessRow> {
    let o = if query.sort_dir == Some(SortDir::Asc) && query.sort_by is Some {
        order.reverse()
    } else {
        order
    };
    page(o.map_values(|i: usize| rows[i as int]), query.offset, query.limit)
}

fn bytes_lex_lt(a: &[u8], b: &[u8]) -> (r: bool)
    ensures
        r == lex_lt(a@, b@),
{
    let mut i: usize = 0;
    assert(a@.subrange(0, a@.len() as int) =~= a@);
    assert(b@.subrange(0, b@.len() as int) =~= b@);
    while i < a.len() && i < b.len()
        invariant
            i <= a@.len(),
            i <= b@.len(),
            lex_lt(a@, b@) == lex_lt(a@.subrange(i as int, a@.len() as int), b@.subrange(i as int, b@.len() as int)),
        decreases a@.len() - i,
    {
        let ghost sa = a@.subrange(i as int, a@.len() as int);
        let ghost sb = b@.subrange(i as int, b@.len() as int);
        assert(sa[0] == a@[i as int]);
        assert(sb[0] == b@[i as int]);
        if a[i] != b[i] {
            return a[i] < b[i];
        }
        assert(sa.drop_first() =~= a@.subrange(i + 1, a@.len() as int));
        assert(sb.drop_first() =~= b@.subrange(i + 1, b@.len() as int));
        i = i + 1;
    }
    i == a.len() && i < b.len()
}

fn share_greater(a: Ratio, b: Ratio) -> (r: bool)
    ensures
        r == share_gt(a, b),
{
    let (an, ad, bn, bd) = (a.num as u128, a.den as u128, b.num as u128, b.den as u128);
    assert(an * bd <= 0xffff_ffff_ffff_ffff * 0xffff_ffff_ffff_ffff) by (nonlinear_arith)
        requires
            an <= 0xffff_ffff_ffff_ffff,
            bd <= 0xffff_ffff_ffff_ffff,
    ;
    assert(bn * ad <= 0xffff_ffff_ffff_ffff * 0xffff_ffff_ffff_ffff) by (nonlinear_arith)
        requires
            bn <= 0xffff_ffff_ffff_ffff,
            ad <= 0xffff_ffff_ffff_ffff,
    ;
    an * bd > bn * ad
}

fn row_before(key: SortKey, a: &ProcessRow, b: &ProcessRow) -> (r: bool)
    ensures
        r == key_before(key, *a, *b),
{
    match key {
        SortKey::Cpu => share_greater(a.cpu_share, b.cpu_share),
        SortKey::Mem => share_greater(a.mem_share, b.mem_share),
        SortKey::Pid => a.pid < b.pid,
        SortKey::User => bytes_lex_lt(a.user.as_str().as_bytes(), b.user.as_str().as_bytes()),
        SortKey::Command => bytes_lex_lt(a.command.as_str().as_bytes(), b.command.as_str().as_bytes()),
    }
}

/// The indices of the rows that pass the filter, in scan order.
fn filter_rows(rows: &Vec<ProcessRow>, search: &Option<String>) -> (r: Vec<usize>)
    ensures
        forall|j: int, k: int| 0 <= j < k < r@.len() ==> r@[j] < r@[k],
        forall|j: int| 0 <= j < r@.len() ==> #[trigger] r@[j] < rows@.len() && row_matches(rows@[r@[j] as int], *search),
        forall|i: usize| i < rows@.len() && row_matches(rows@[i as int], *search) ==> r@.contains(i),
{
    let needle: Option<String> = match search {
        None => None,
        Some(q) => Some(lowercase(q.as_str())),
    };
    let mut r: Vec<usize> = Vec::new();
    let mut i: usize = 0;
    while i < rows.len()
        invariant
            i <= rows@.len(),
            match *search {
                None => needle is None,
                Some(q) => needle matches Some(n) && n@ == lower_of(q@),
            },
            forall|j: int, k: int| 0 <= j < k < r@.len() ==> r@[j] < r@[k],
            forall|j: int| 0 <= j < r@.len() ==> #[trigger] r@[j] < i && row_matches(rows@[r@[j] as int], *search),
            forall|x: usize| x < i && #[trigger] row_matches(rows@[x as int], *search) ==> r@.contains(x),
        decreases rows@.len() - i,
    {
        if row_passes(&rows[i], &needle, Ghost(*search)) {
            let ghost old_r = r@;
            r.push(i);
            assert forall|x: usize| x < i + 1 && row_matches(rows@[x as int], *search) implies r@.contains(x) by {
                if x < i {
                    let k = choose|k: int| 0 <= k < old_r.len() && old_r[k] == x;
                    assert(r@[k] == x);
                } else {
                    assert(r@[r@.len() - 1] == x);
                }
            }
        }
        i = i + 1;
    }
    r
}

proof fn lemma_insert_in_order(rows: Seq<ProcessRow>, key: SortKey, s: Seq<usize>, p: int, x: usize)
    requires
        0 <= p <= s.len(),
        forall|j: int| 0 <= j < s.len() - 1 ==> in_order(Some(key), rows, #[trigger] s[j], s[j + 1]),
        forall|j: int| 0 <= j < s.len() ==> #[trigger] s[j] < x,
        forall|j: int| 0 <= j < p ==> !key_before(key, rows[x as int], rows[#[trigger] s[j] as int]),
        p < s.len() ==> key_before(key, rows[x as int], rows[s[p] as int]),
    ensures
        forall|j: int|
            0 <= j < s.insert(p, x).len() - 1 ==> in_order(
                Some(key),
                rows,
                #[trigger] s.insert(p, x)[j],
                s.insert(p, x)[j + 1],
            ),
{
    let r = s.insert(p, x);
    s.insert_ensures(p, x);
    assert forall|j: int| 0 <= j < r.len() - 1 implies in_order(Some(key), rows, #[trigger] r[j], r[j + 1]) by {
        if j + 1 < p {
            assert(r[j] == s[j] && r[j + 1] == s[j + 1]);
        } else if j + 1 == p {
            assert(r[j] == s[j]);
            assert(s[j] < x);
        } else if j == p {
            assert(r[j + 1] == s[j]);
        } else {
            assert(r[j] == s[j - 1] && r[j + 1] == s[j]);
        }
    }
}

proof fn lemma_insert_members(s: Seq<usize>, p: int, x: usize, before: Seq<usize>)
    requires
        0 <= p <= s.len(),
        s.no_duplicates(),
        forall|j: int| 0 <= j < s.len() ==> #[trigger] s[j] < x,
        forall|y: usize| s.contains(y) <==> before.contains(y),
    ensures
        s.insert(p, x).no_duplicates(),
        forall|y: usize| s.insert(p, x).contains(y) <==> before.push(x).contains(y),
{
    let r = s.insert(p, x);
    let after = before.push(x);
    s.insert_ensures(p, x);
    assert forall|y: usize| r.contains(y) <==> after.contains(y) by {
        if r.contains(y) {
            let k = choose|k: int| 0 <= k < r.len() && r[k] == y;
            if y != x {
                if k < p {
                    assert(s[k] == y);
                } else {
                    assert(s[k - 1] == y);
                }
                assert(s.contains(y));
                let m = choose|m: int| 0 <= m < before.len() && before[m] == y;
                assert(after[m] == y);
            } else {
                assert(after[before.len() as int] == y);
            }
        }
        if after.contains(y) {
            let m = choose|m: int| 0 <= m < after.len() && after[m] == y;
            if m < before.len() {
                assert(before[m] == y);
                assert(s.contains(y));
                let k = choose|k: int| 0 <= k < s.len() && s[k] == y;
                if k < p {
                    assert(r[k] == y);
                } else {
                    assert(r[k + 1] == y);
                }
            } else {
                assert(r[p] == y);
            }
        }
    }
    assert forall|a: int, b: int| 0 <= a < r.len() && 0 <= b < r.len() && a != b implies r[a] != r[b] by {
        if a != p && b != p {
            let a0 = if a < p { a } else { a - 1 };
            let b0 = if b < p { b } else { b - 1 };
            assert(r[a] == s[a0] && r[b] == s[b0]);
        } else if a == p {
            let b0 = if b < p { b } else { b - 1 };
            assert(r[b] == s[b0]);
        } else {
            let a0 = if a < p { a } else { a - 1 };
            assert(r[a] == s[a0]);
        }
    }
}

/// Sorts the indices `kept`, given in scan order, by `key`.
fn sort_indices(rows: &Vec<ProcessRow>, kept: Vec<usize>, key: SortKey) -> (r: Vec<usize>)
    requires
        forall|j: int, k: int| 0 <= j < k < kept@.len() ==> kept@[j] < kept@[k],
        forall|j: int| 0 <= j < kept@.len() ==> #[trigger] kept@[j] < rows@.len(),
    ensures
        r@.no_duplicates(),
        forall|x: usize| r@.contains(x) <==> kept@.contains(x),
        forall|j: int| 0 <= j < r@.len() - 1 ==> in_order(Some(key), rows@, #[trigger] r@[j], r@[j + 1]),
{
    let mut r: Vec<usize> = Vec::new();
    let mut t: usize = 0;
    while t < kept.len()
        invariant
            t <= kept@.len(),
            forall|j: int, k: int| 0 <= j < k < kept@.len() ==> kept@[j] < kept@[k],
            forall|j: int| 0 <= j < kept@.len() ==> #[trigger] kept@[j] < rows@.len(),
            r@.no_duplicates(),
            forall|x: usize| r@.contains(x) <==> kept@.subrange(0, t as int).contains(x),
            forall|j: int| 0 <= j < r@.len() - 1 ==> in_order(Some(key), rows@, #[trigger] r@[j], r@[j + 1]),
        decreases kept@.len() - t,
    {
        let x = kept[t];
        assert forall|j: int| 0 <= j < r@.len() implies #[trigger] r@[j] < x && r@[j] < rows@.len() by {
            assert(r@.contains(r@[j]));
            let k = choose|k: int| 0 <= k < t && #[trigger] kept@.subrange(0, t as int)[k] == r@[j];
            assert(kept@[k] == r@[j]);
        }
        let mut p: usize = 0;
        while p < r.len() && !row_before(key, &rows[x], &rows[r[p]])
            invariant
                p <= r@.len(),
                x < rows@.len(),
                forall|j: int| 0 <= j < r@.len() ==> #[trigger] r@[j] < rows@.len(),
                forall|j: int| 0 <= j < p ==> !key_before(key, rows@[x as int], rows@[#[trigger] r@[j] as int]),
            decreases r@.len() - p,
        {
            p = p + 1;
        }
        let ghost old_r = r@;
        r.insert(p, x);
        proof {
            lemma_insert_in_order(rows@, key, old_r, p as int, x);
            assert(kept@.subrange(0, t + 1) =~= kept@.subrange(0, t as int).push(x));
            lemma_insert_members(old_r, p as int, x, kept@.subrange(0, t as int));
        }
        t = t + 1;
    }
    assert(kept@.subrange(0, t as int) =~= kept@);
    r
}

fn reversed(v: &Vec<usize>) -> (r: Vec<usize>)
    ensures
        r@ == v@.reverse(),
{
    let mut r: Vec<usize> = Vec::new();
    let mut i: usize = v.len();
    while i > 0
        invariant
            i <= v@.len(),
            r@.len() == v@.len() - i,
            forall|j: int| 0 <= j < r@.len() ==> #[trigger] r@[j] == v@[v@.len() - 1 - j],
        decreases i,
    {
        i = i - 1;
        r.push(v[i]);
    }
    assert(r@ =~= v@.reverse());
    r
}

/// Filters, sorts and pages `rows` as `query` asks.
pub fn apply_query(rows: &Vec<ProcessRow>, query: ProcessQuery) -> (r: Vec<ProcessRow>)
    ensures
        exists|order: Seq<usize>|
            arranged(rows@, query.search, query.sort_by, order) && r@ == listed(rows@, query, order),
{
    let kept = filter_rows(rows, &query.search);
    let order = match query.sort_by {
        None => kept,
        Some(k) => sort_indices(rows, kept, k),
    };
    proof {
        if query.sort_by is None {
            assert forall|a: int, b: int| 0 <= a < order@.len() && 0 <= b < order@.len() && a != b implies order@[a] != order@[b] by {
                if a < b {
                    assert(order@[a] < order@[b]);
                } else {
                    assert(order@[b] < order@[a]);
                }
            }
        } else {
            assert forall|j: int| 0 <= j < order@.len() implies #[trigger] order@[j] < rows@.len() && row_matches(rows@[order@[j] as int], query.search) by {
                assert(order@.contains(order@[j]));
                assert(kept@.contains(order@[j]));
            }
        }
    }
    assert(arranged(rows@, query.search, query.sort_by, order@));
    let flip = match (query.sort_dir, query.sort_by) {
        (Some(SortDir::Asc), Some(_)) => true,
        _ => false,
    };
    let shown = if flip {
        reversed(&order)
    } else {
        order
    };
    let ghost full = shown@.map_values(|i: usize| rows@[i as int]);
    let n = shown.len();
    let off = match query.offset {
        Some(v) => v,
        None => 0,
    };
    let start = if off > n {
        n
    } else {
        off
    };
    let end = match query.limit {
        None => n,
        Some(l) => if l > n - start {
            n
        } else {
            start + l
        },
    };
    let mut r: Vec<ProcessRow> = Vec::new();
    let mut j: usize = start;
    while j < end
        invariant
            start <= j <= end <= n,
            n == shown@.len(),
            full == shown@.map_values(|i: usize| rows@[i as int]),
            forall|k: int| 0 <= k < shown@.len() ==> #[trigger] shown@[k] < rows@.len(),
            r@ == full.subrange(start as int, j as int),
        decreases end - j,
    {
        let row = rows[shown[j]].duplicate();
        r.push(row);
        j = j + 1;
        assert(r@ =~= full.subrange(start as int, j as int));
    }
    proof {
        if flip {
            assert forall|k: int| 0 <= k < shown@.len() implies #[trigger] shown@[k] < rows@.len() by {
                assert(shown@[k] == order@[order@.len() - 1 - k]);
            }
        }
    }
    assert(r@ == listed(rows@, query, order@));
    r
}

/// The query used where the caller gives none: the 300 busiest processes.
pub fn default_query() -> (q: ProcessQuery)
    ensures
        q.search is None,
        q.sort_by == Some(SortKey::Cpu),
        q.sort_dir == Some(SortDir::Desc),
        q.limit == Some(300usize),
        q.offset == Some(0usize),
{
    ProcessQuery {
        search: None,
        sort_by: Some(SortKey::Cpu),
        sort_dir: Some(SortDir::Desc),
        limit: Some(300),
        offset: Some(0),
    }
}

proof fn lemma_lex_facts(a: Seq<u8>, b: Seq<u8>)
    ensures
        lex_lt(a, b) ==> !lex_lt(b, a),
        !lex_lt(a, b) && !lex_lt(b, a) ==> a == b,
    decreases a.len(),
{
    if a.len() > 0 && b.len() > 0 && a[0] == b[0] {
        lemma_lex_facts(a.drop_first(), b.drop_first());
        if !lex_lt(a, b) && !lex_lt(b, a) {
            assert(a =~= seq![a[0]] + a.drop_first());
            assert(b =~= seq![b[0]] + b.drop_first());
        }
    } else if a.len() == 0 && b.len() == 0 {
        assert(a =~= b);
    }
}

proof fn lemma_lex_transitive(a: Seq<u8>, b: Seq<u8>, c: Seq<u8>)
    requires
        lex_lt(a, b),
        lex_lt(b, c),
    ensures
        lex_lt(a, c),
    decreases a.len(),
{
    if a.len() > 0 && b.len() > 0 && c.len() > 0 && a[0] == b[0] && b[0] == c[0] {
        lemma_lex_transitive(a.drop_first(), b.drop_first(), c.drop_first());
    }
}

proof fn lemma_share_chain(a: Ratio, b: Ratio, c: Ratio)
    requires
        a.wf(),
        b.wf(),
        c.wf(),
    ensures
        share_gt(a, b) && share_gt(b, c) ==> share_gt(a, c),
        !share_gt(a, b) && !share_gt(b, c) ==> !share_gt(a, c),
{
    let (an, ad, bn, bd, cn, cd) = (a.num as int, a.den as int, b.num as int, b.den as int, c.num as int, c.den as int);
    if an * bd > bn * ad && bn * cd > cn * bd {
        assert(an * bd * cd > bn * ad * cd) by (nonlinear_arith)
            requires an * bd > bn * ad, cd > 0;
        assert(bn * cd * ad > cn * bd * ad) by (nonlinear_arith)
            requires bn * cd > cn * bd, ad > 0;
        assert(bd * (an * cd) > bd * (cn * ad)) by (nonlinear_arith)
            requires an * bd * cd > bn * ad * cd, bn * cd * ad > cn * bd * ad;
        assert(an * cd > cn * ad) by (nonlinear_arith)
            requires bd * (an * cd) > bd * (cn * ad), bd > 0;
    }
    if an * bd <= bn * ad && bn * cd <= cn * bd {
        assert(an * bd * cd <= bn * ad * cd) by (nonlinear_arith)
            requires an * bd <= bn * ad, cd > 0;
        assert(bn * cd * ad <= cn * bd * ad) by (nonlinear_arith)
            requires bn * cd <= cn * bd, ad > 0;
        assert(bd * (an * cd) <= bd * (cn * ad)) by (nonlinear_arith)
            requires an * bd * cd <= bn * ad * cd, bn * cd * ad <= cn * bd * ad;
        assert(an * cd <= cn * ad) by (nonlinear_arith)
            requires bd * (an * cd) <= bd * (cn * ad), bd > 0;
    }
}

/// Every share of `rows` has a positive denominator.
pub open spec fn shares_wf(rows: Seq<ProcessRow>) -> bool {
    forall|i: int| 0 <= i < rows.len() ==> #[trigger] rows[i].cpu_share.wf() && rows[i].mem_share.wf()
}

/// `key_before` is a strict weak order on the rows of a table.
proof fn lemma_key_order(key: SortKey, a: ProcessRow, b: ProcessRow, c: ProcessRow)
    requires
        a.cpu_share.wf() && a.mem_share.wf(),
        b.cpu_share.wf() && b.mem_share.wf(),
        c.cpu_share.wf() && c.mem_share.wf(),
    ensures
        key_before(key, a, b) ==> !key_before(key, b, a),
        key_before(key, a, b) && key_before(key, b, c) ==> key_before(key, a, c),
        !key_before(key, a, b) && !key_before(key, b, c) ==> !key_before(key, a, c),
{
    match key {
        SortKey::Cpu => {
            lemma_share_chain(a.cpu_share, b.cpu_share, c.cpu_share);
        },
        SortKey::Mem => {
            lemma_share_chain(a.mem_share, b.mem_share, c.mem_share);
        },
        SortKey::Pid => {},
        SortKey::User => {
            lemma_lex_str_order(encode_utf8(a.user@), encode_utf8(b.user@), encode_utf8(c.user@));
        },
        SortKey::Command => {
            lemma_lex_str_order(encode_utf8(a.command@), encode_utf8(b.command@), encode_utf8(c.command@));
        },
    }
}

proof fn lemma_lex_str_order(a: Seq<u8>, b: Seq<u8>, c: Seq<u8>)
    ensures
        lex_lt(a, b) ==> !lex_lt(b, a),
        lex_lt(a, b) && lex_lt(b, c) ==> lex_lt(a, c),
        !lex_lt(a, b) && !lex_lt(b, c) ==> !lex_lt(a, c),
{
    lemma_lex_facts(a, b);
    lemma_lex_facts(b, c);
    lemma_lex_facts(a, c);
    if lex_lt(a, b) && lex_lt(b, c) {
        lemma_lex_transitive(a, b, c);
    }
    if !lex_lt(a, b) && !lex_lt(b, c) {
        if lex_lt(c, b) && lex_lt(b, a) {
            lemma_lex_transitive(c, b, a);
        }
    }
}

/// `in_order` is transitive and asymmetric on the indices of a table whose
/// shares are well formed.
proof fn lemma_in_order(key: Option<SortKey>, rows: Seq<ProcessRow>, x: usize, y: usize, z: usize)
    requires
        shares_wf(rows),
        x < rows.len(),
        y < rows.len(),
        z < rows.len(),
    ensures
        in_order(key, rows, x, y) && in_order(key, rows, y, z) ==> in_order(key, rows, x, z),
        in_order(key, rows, x, y) ==> !in_order(key, rows, y, x),
        x != y ==> in_order(key, rows, x, y) || in_order(key, rows, y, x),
{
    if let Some(k) = key {
        let (a, b, c) = (rows[x as int], rows[y as int], rows[z as int]);
        assert(rows[x as int].cpu_share.wf() && rows[x as int].mem_share.wf());
        assert(rows[y as int].cpu_share.wf() && rows[y as int].mem_share.wf());
        assert(rows[z as int].cpu_share.wf() && rows[z as int].mem_share.wf());
        lemma_key_order(k, a, b, c);
        lemma_key_order(k, b, a, c);
        lemma_key_order(k, a, c, b);
        lemma_key_order(k, c, b, a);
        lemma_key_order(k, b, c, a);
        lemma_key_order(k, c, a, b);
    }
}

proof fn lemma_sorted_everywhere(key: Option<SortKey>, rows: Seq<ProcessRow>, o: Seq<usize>, i: int, j: int)
    requires
        shares_wf(rows),
        forall|k: int| 0 <= k < o.len() ==> #[trigger] o[k] < rows.len(),
        forall|k: int| 0 <= k < o.len() - 1 ==> in_order(key, rows, #[trigger] o[k], o[k + 1]),
        0 <= i < j < o.len(),
    ensures
        in_order(key, rows, o[i], o[j]),
    decreases j - i,
{
    if j > i + 1 {
        lemma_sorted_everywhere(key, rows, o, i, j - 1);
        assert(in_order(key, rows, o[j - 1], o[j]));
        lemma_in_order(key, rows, o[i], o[j - 1], o[j]);
    }
}

proof fn lemma_sorted_unique(key: Option<SortKey>, rows: Seq<ProcessRow>, o1: Seq<usize>, o2: Seq<usize>)
    requires
        shares_wf(rows),
        o1.no_duplicates(),
        o2.no_duplicates(),
        forall|k: int| 0 <= k < o1.len() ==> #[trigger] o1[k] < rows.len(),
        forall|k: int| 0 <= k < o2.len() ==> #[trigger] o2[k] < rows.len(),
        forall|k: int| 0 <= k < o1.len() - 1 ==> in_order(key, rows, #[trigger] o1[k], o1[k + 1]),
        forall|k: int| 0 <= k < o2.len() - 1 ==> in_order(key, rows, #[trigger] o2[k], o2[k + 1]),
        forall|x: usize| o1.contains(x) <==> o2.contains(x),
    ensures
        o1 == o2,
    decreases o1.len(),
{
    if o1.len() == 0 {
        if o2.len() > 0 {
            assert(o2.contains(o2[0]));
        }
        assert(o1 =~= o2);
    } else {
        assert(o1.contains(o1[0]));
        assert(o2.len() > 0);
        let h1 = o1[0];
        let h2 = o2[0];
        if h1 != h2 {
            assert(o2.contains(h2));
            let j = choose|j: int| 0 <= j < o1.len() && o1[j] == h2;
            assert(o2.contains(h1));
            let k = choose|k: int| 0 <= k < o2.len() && o2[k] == h1;
            lemma_sorted_everywhere(key, rows, o1, 0, j);
            lemma_sorted_everywhere(key, rows, o2, 0, k);
            lemma_in_order(key, rows, h1, h2, h1);
        }
        let t1 = o1.drop_first();
        let t2 = o2.drop_first();
        assert forall|x: usize| t1.contains(x) <==> t2.contains(x) by {
            if t1.contains(x) {
                let j = choose|j: int| 0 <= j < t1.len() && t1[j] == x;
                assert(o1[j + 1] == x);
                assert(x != h1);
                assert(o1.contains(x));
                let k = choose|k: int| 0 <= k < o2.len() && o2[k] == x;
                assert(k != 0);
                assert(t2[k - 1] == x);
            }
            if t2.contains(x) {
                let k = choose|k: int| 0 <= k < t2.len() && t2[k] == x;
                assert(o2[k + 1] == x);
                assert(x != h2);
                assert(o2.contains(x));
                let j = choose|j: int| 0 <= j < o1.len() && o1[j] == x;
                assert(j != 0);
                assert(t1[j - 1] == x);
            }
        }
        assert forall|k: int| 0 <= k < t1.len() - 1 implies in_order(key, rows, #[trigger] t1[k], t1[k + 1]) by {
            assert(t1[k] == o1[k + 1] && t1[k + 1] == o1[k + 2]);
        }
        assert forall|k: int| 0 <= k < t2.len() - 1 implies in_order(key, rows, #[trigger] t2[k], t2[k + 1]) by {
            assert(t2[k] == o2[k + 1] && t2[k + 1] == o2[k + 2]);
        }
        assert forall|k: int| 0 <= k < t1.len() implies #[trigger] t1[k] < rows.len() by {
            assert(t1[k] == o1[k + 1]);
        }
        assert forall|k: int| 0 <= k < t2.len() implies #[trigger] t2[k] < rows.len() by {
            assert(t2[k] == o2[k + 1]);
        }
        lemma_sorted_unique(key, rows, t1, t2);
        assert(o1 =~= seq![h1] + t1);
        assert(o2 =~= seq![h2] + t2);
    }
}

/// Where every share is well formed, a query arranges a table in one way only.
proof fn lemma_arrangement_unique(
    rows: Seq<ProcessRow>,
    query: ProcessQuery,
    o1: Seq<usize>,
    o2: Seq<usize>,
)
    requires
        shares_wf(rows),
        arranged(rows, query.search, query.sort_by, o1),
        arranged(rows, query.search, query.sort_by, o2),
    ensures
        o1 == o2,
{
    assert forall|x: usize| o1.contains(x) <==> o2.contains(x) by {
        if o1.contains(x) {
            let j = choose|j: int| 0 <= j < o1.len() && o1[j] == x;
            assert(x < rows.len() && row_matches(rows[x as int], query.search));
        }
        if o2.contains(x) {
            let j = choose|j: int| 0 <= j < o2.len() && o2[j] == x;
            assert(x < rows.len() && row_matches(rows[x as int], query.search));
        }
    }
    lemma_sorted_unique(query.sort_by, rows, o1, o2);
}

/// Listing the same table twice with the same query gives the same rows, in
/// the same order (where every share is well formed): any two results that
/// meet the contract of `apply_query` are equal.
pub proof fn lemma_listing_is_repeatable(
    rows: Seq<ProcessRow>,
    query: ProcessQuery,
    r1: Seq<ProcessRow>,
    r2: Seq<ProcessRow>,
)
    requires
        shares_wf(rows),
        exists|order: Seq<usize>|
            arranged(rows, query.search, query.sort_by, order) && r1 == listed(rows, query, order),
        exists|order: Seq<usize>|
            arranged(rows, query.search, query.sort_by, order) && r2 == listed(rows, query, order),
    ensures
        r1 == r2,
{
    let o1 = choose|order: Seq<usize>|
        arranged(rows, query.search, query.sort_by, order) && r1 == listed(rows, query, order);
    let o2 = choose|order: Seq<usize>|
        arranged(rows, query.search, query.sort_by, order) && r2 == listed(rows, query, order);
    lemma_arrangement_unique(rows, query, o1, o2);
}

/// A process table held for querying.
pub struct ProcessService {
    rows: Vec<ProcessRow>,
}

impl View for ProcessService {
    type V = Seq<ProcessRow>;

    closed spec fn view(&self) -> Seq<ProcessRow> {
        self.rows@
    }
}

impl ProcessService {
    pub fn new_for_tests() -> (r: Self)
        ensures
            r@ == Seq::<ProcessRow>::empty(),
    {
        ProcessService { rows: Vec::new() }
    }

    pub fn seed_for_tests(&mut self, rows: Vec<ProcessRow>)
        ensures
            final(self)@ == rows@,
    {
        self.rows = rows;
    }

    /// The rows that `query` asks for.
    pub fn list(&self, query: ProcessQuery) -> (r: Vec<ProcessRow>)
        ensures
            exists|order: Seq<usize>|
                arranged(self@, query.search, query.sort_by, order) && r@ == listed(self@, query, order),
    {
        let ghost q = query;
        let r = apply_query(&self.rows, query);
        proof {
            let order = choose|order: Seq<usize>|
                arranged(self.rows@, q.search, q.sort_by, order) && r@ == listed(self.rows@, q, order);
            assert(arranged(self@, q.search, q.sort_by, order) && r@ == listed(self@, q, order));
        }
        r
    }
}

} // verus!
