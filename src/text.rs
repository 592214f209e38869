//! Character-level helpers shared by the parser and the printer.

use vstd::prelude::*;
use vstd::std_specs::iter::IteratorSpec;

verus! {

/// The characters of `s`, in order.
pub(crate) fn chars_of(s: &str) -> (r: Vec<char>)
    ensures
        r@ == s@,
{
    broadcast use vstd::string::group_string_axioms;
    let mut out: Vec<char> = Vec::new();
    let mut it = s.chars();
    loop
        invariant
            out@ + it.remaining() == s@,
            it.obeys_prophetic_iter_laws(),
            it.decrease() is Some,
        decreases it.decrease()->Some_0,
    {
        match it.next() {
            Some(c) => {
                out.push(c);
            },
            None => {
                proof {
                    assert(out@ + it.remaining() =~= out@);
                }
                return out;
            },
        }
    }
}

/// Relies on `String: FromIterator<char>` over a slice of `cs`, which keeps
/// the characters in order.
#[verifier::external_body]
pub(crate) fn string_between(cs: &Vec<char>, start: usize, end: usize) -> (r: String)
    requires
        start <= end <= cs@.len(),
    ensures
        r@ == cs@.subrange(start as int, end as int),
{
    cs[start..end].iter().collect()
}

/// The segments of `s` between occurrences of `::`, scanning from `i` with the
/// current segment starting at `start`.
pub open spec fn split_path_from(s: Seq<char>, i: int, start: int) -> Seq<Seq<char>>
    decreases s.len() - i,
{
    if i + 1 < s.len() && s[i] == ':' && s[i + 1] == ':' {
        seq![s.subrange(start, i)] + split_path_from(s, i + 2, i + 2)
    } else if i < s.len() {
        split_path_from(s, i + 1, start)
    } else {
        seq![s.subrange(start, s.len() as int)]
    }
}

/// `s` cut at every `::`, left to right; there is always at least one segment.
pub open spec fn split_path(s: Seq<char>) -> Seq<Seq<char>> {
    split_path_from(s, 0, 0)
}

/// The segments joined with `::` between them.
pub open spec fn join_path(segs: Seq<Seq<char>>) -> Seq<char>
    decreases segs.len(),
{
    if segs.len() == 0 {
        Seq::empty()
    } else if segs.len() == 1 {
        segs[0]
    } else {
        join_path(segs.drop_last()) + seq![':', ':'] + segs.last()
    }
}

/// Splits `s` at each `::`.
pub fn split_path_exec(s: &str) -> (r: Vec<String>)
    ensures
        r.deep_view() == split_path(s@),
{
    let cs = chars_of(s);
    let n = cs.len();
    let mut out: Vec<String> = Vec::new();
    let mut i: usize = 0;
    let mut start: usize = 0;
    while i < n
        invariant
            n == cs@.len(),
            cs@ == s@,
            start <= i <= n,
            out@.map_values(|x: String| x@) + split_path_from(cs@, i as int, start as int)
                == split_path(s@),
        decreases n - i,
    {
        if i + 1 < n && cs[i] == ':' && cs[i + 1] == ':' {
            let seg = string_between(&cs, start, i);
            let ghost old_out = out@;
            out.push(seg);
            proof {
                assert(out@.map_values(|x: String| x@) =~= old_out.map_values(|x: String| x@).push(
                    seg@,
                ));
                assert(split_path_from(cs@, i as int, start as int) == seq![
                    cs@.subrange(start as int, i as int),
                ] + split_path_from(cs@, i + 2, i + 2));
                assert(old_out.map_values(|x: String| x@) + split_path_from(
                    cs@,
                    i as int,
                    start as int,
                ) =~= out@.map_values(|x: String| x@) + split_path_from(cs@, i + 2, i + 2));
            }
            i = i + 2;
            start = i;
        } else {
            i = i + 1;
        }
    }
    let seg = string_between(&cs, start, n);
    let ghost old_out = out@;
    out.push(seg);
    proof {
        assert(out@.map_values(|x: String| x@) =~= old_out.map_values(|x: String| x@).push(seg@));
    }
    out
}

} // verus!
