//! User names by user id, from the system's account database.

use vstd::prelude::*;
use vstd::string::StringSliceAdditionalSpecFns;
use crate::text::{find_byte, first_index, line_spans, lines, parse_u64, parse_u64_at, pieces, spans_within};

verus! {

/// The piece of `s` before its first colon, or all of it.
pub open spec fn up_to_colon(s: Seq<u8>) -> Seq<u8> {
    match first_index(s, 58) {
        Some(i) => s.subrange(0, i),
        None => s,
    }
}

/// The user id and name of a line of `/etc/passwd` (`name:password:uid:...`):
/// absent for a line of fewer than three fields, or whose third field is no
/// number that fits `u32`.
pub open spec fn passwd_entry(line: Seq<u8>) -> Option<(u32, Seq<u8>)> {
    match first_index(line, 58) {
        None => None,
        Some(c1) => {
            let rest = line.subrange(c1 + 1, line.len() as int);
            match first_index(rest, 58) {
                None => None,
                Some(c2) => {
                    let field = up_to_colon(rest.subrange(c2 + 1, rest.len() as int));
                    match parse_u64(field) {
                        Some(v) => if v <= u32::MAX {
                            Some((v as u32, line.subrange(0, c1)))
                        } else {
                            None
                        },
                        None => None,
                    }
                },
            }
        },
    }
}

/// The entries of the lines `ls`, in order.
pub open spec fn passwd_entries(ls: Seq<Seq<u8>>) -> Seq<(u32, Seq<u8>)>
    decreases ls.len(),
{
    if ls.len() == 0 {
        Seq::empty()
    } else {
        let p = passwd_entries(ls.drop_last());
        match passwd_entry(ls.last()) {
            Some(e) => p.push(e),
            None => p,
        }
    }
}

/// The entries that a list of `(uid, start, end)` marks out in `s`.
pub open spec fn named_spans(s: Seq<u8>, r: Seq<(u32, usize, usize)>) -> Seq<(u32, Seq<u8>)> {
    r.map_values(|e: (u32, usize, usize)| (e.0, s.subrange(e.1 as int, e.2 as int)))
}

fn passwd_line(s: &[u8], lo: usize, hi: usize) -> (r: Option<(u32, usize, usize)>)
    requires
        lo <= hi <= s@.len(),
    ensures
        match r {
            None => passwd_entry(s@.subrange(lo as int, hi as int)) is None,
            Some(e) => lo <= e.1 <= e.2 <= hi && passwd_entry(s@.subrange(lo as int, hi as int))
                == Some((e.0, s@.subrange(e.1 as int, e.2 as int))),
        },
{
    let ghost line = s@.subrange(lo as int, hi as int);
    let c1 = match find_byte(s, lo, hi, 58) {
        None => return None,
        Some(c) => c,
    };
    let ghost rest = line.subrange(c1 - lo + 1, line.len() as int);
    assert(rest =~= s@.subrange(c1 + 1, hi as int));
    let c2 = match find_byte(s, c1 + 1, hi, 58) {
        None => return None,
        Some(c) => c,
    };
    let ghost tail = rest.subrange(c2 - (c1 + 1) + 1, rest.len() as int);
    assert(tail =~= s@.subrange(c2 + 1, hi as int));
    let end = match find_byte(s, c2 + 1, hi, 58) {
        Some(c) => {
            assert(tail.subrange(0, c - (c2 + 1)) =~= s@.subrange(c2 + 1, c as int));
            c
        },
        None => hi,
    };
    assert(line.subrange(0, c1 - lo) =~= s@.subrange(lo as int, c1 as int));
    match parse_u64_at(s, c2 + 1, end) {
        Some(v) => if v <= 0xffff_ffff {
            Some((v as u32, lo, c1))
        } else {
            None
        },
        None => None,
    }
}

/// Reads the user id and the span of the user name of each entry of
/// `/etc/passwd` text, in order; lines that do not fit are passed over.
pub fn parse_passwd(text: &str) -> (r: Vec<(u32, usize, usize)>)
    ensures
        named_spans(text.spec_bytes(), r@) == passwd_entries(lines(text.spec_bytes())),
        forall|k: int| 0 <= k < r@.len() ==> (#[trigger] r@[k]).1 <= r@[k].2 <= text.spec_bytes().len(),
{
    let s = text.as_bytes();
    let ls = line_spans(s);
    let ghost all = pieces(s@, ls@);
    let mut r: Vec<(u32, usize, usize)> = Vec::new();
    let mut i: usize = 0;
    while i < ls.len()
        invariant
            i <= ls@.len(),
            all == pieces(s@, ls@),
            spans_within(ls@, 0, s@.len() as int),
            named_spans(s@, r@) == passwd_entries(all.subrange(0, i as int)),
            forall|k: int| 0 <= k < r@.len() ==> (#[trigger] r@[k]).1 <= r@[k].2 <= s@.len(),
        decreases ls@.len() - i,
    {
        let (lo, hi) = ls[i];
        assert(all.subrange(0, i + 1).drop_last() =~= all.subrange(0, i as int));
        assert(all.subrange(0, i + 1).last() == s@.subrange(lo as int, hi as int));
        if let Some(e) = passwd_line(s, lo, hi) {
            let ghost old_r = r@;
            r.push(e);
            assert(named_spans(s@, r@) =~= named_spans(s@, old_r).push(
                (e.0, s@.subrange(e.1 as int, e.2 as int)),
            ));
        }
        i = i + 1;
    }
    assert(all.subrange(0, i as int) =~= all);
    assert(s@ == text.spec_bytes());
    r
}

} // verus!
