//! Tokens of the source language, stated over the sequence of characters of
//! the input. Every token reader skips the whitespace in front of it.

use vstd::prelude::*;

use crate::text::string_between;

verus! {

pub open spec fn is_ws(c: char) -> bool {
    c == ' ' || c == '\t' || c == '\n' || c == '\r'
}

pub open spec fn is_ident_start(c: char) -> bool {
    ('a' <= c && c <= 'z') || ('A' <= c && c <= 'Z') || c == '_'
}

pub open spec fn is_digit(c: char) -> bool {
    '0' <= c && c <= '9'
}

pub open spec fn is_ident_char(c: char) -> bool {
    is_ident_start(c) || is_digit(c)
}

/// The first position at or after `i` whose character does not satisfy `p`.
pub open spec fn scan_while(s: Seq<char>, i: int, p: spec_fn(char) -> bool) -> int
    decreases s.len() - i,
{
    if 0 <= i < s.len() && p(s[i]) {
        scan_while(s, i + 1, p)
    } else {
        i
    }
}

pub open spec fn skip_ws(s: Seq<char>, i: int) -> int {
    scan_while(s, i, |c: char| is_ws(c))
}

pub open spec fn ident_end(s: Seq<char>, i: int) -> int {
    scan_while(s, i, |c: char| is_ident_char(c))
}

pub open spec fn digits_end(s: Seq<char>, i: int) -> int {
    scan_while(s, i, |c: char| is_digit(c))
}

pub open spec fn line_end(s: Seq<char>, i: int) -> int {
    scan_while(s, i, |c: char| c != '\n')
}

pub open spec fn quote_end(s: Seq<char>, i: int) -> int {
    scan_while(s, i, |c: char| c != '"')
}

/// An identifier: a letter or `_`, then letters, digits and `_`.
pub open spec fn sp_ident(s: Seq<char>, i: int) -> Option<(Seq<char>, int)> {
    let j = skip_ws(s, i);
    if j < s.len() && is_ident_start(s[j]) {
        let e = ident_end(s, j + 1);
        Some((s.subrange(j, e), e))
    } else {
        None
    }
}

/// The single character `c`.
pub open spec fn sp_symbol(s: Seq<char>, i: int, c: char) -> Option<int> {
    let j = skip_ws(s, i);
    if j < s.len() && s[j] == c {
        Some(j + 1)
    } else {
        None
    }
}

/// The arrow `->` in front of a return type.
pub open spec fn sp_arrow(s: Seq<char>, i: int) -> Option<int> {
    let j = skip_ws(s, i);
    if j + 1 < s.len() && s[j] == '-' && s[j + 1] == '>' {
        Some(j + 2)
    } else {
        None
    }
}

/// The segments `::ident` that directly follow position `i`.
pub open spec fn path_tail(s: Seq<char>, i: int) -> (Seq<Seq<char>>, int)
    decreases s.len() - i,
{
    if 0 <= i && i + 2 < s.len() && s[i] == ':' && s[i + 1] == ':' && is_ident_start(s[i + 2]) {
        let e = ident_end(s, i + 3);
        if i < e <= s.len() {
            let rest = path_tail(s, e);
            (seq![s.subrange(i + 2, e)] + rest.0, rest.1)
        } else {
            (Seq::empty(), i)
        }
    } else {
        (Seq::empty(), i)
    }
}

/// A path: identifiers joined by `::`, with no whitespace inside.
pub open spec fn sp_path(s: Seq<char>, i: int) -> Option<(Seq<Seq<char>>, int)> {
    match sp_ident(s, i) {
        Some((first, e)) => {
            let tail = path_tail(s, e);
            Some((seq![first] + tail.0, tail.1))
        },
        None => None,
    }
}

/// A string literal: `"`, any characters but `"`, `"`.
pub open spec fn sp_string(s: Seq<char>, i: int) -> Option<(Seq<char>, int)> {
    let j = skip_ws(s, i);
    if j < s.len() && s[j] == '"' {
        let k = quote_end(s, j + 1);
        if k < s.len() {
            Some((s.subrange(j + 1, k), k + 1))
        } else {
            None
        }
    } else {
        None
    }
}

/// The first position in `[a, e)` that is not whitespace, or `e`.
pub open spec fn trim_front(s: Seq<char>, a: int, e: int) -> int
    decreases e - a,
{
    if a < e && is_ws(s[a]) {
        trim_front(s, a + 1, e)
    } else {
        a
    }
}

/// The end of `[a, e)` without its trailing whitespace.
pub open spec fn trim_back(s: Seq<char>, a: int, e: int) -> int
    decreases e - a,
{
    if a < e && is_ws(s[e - 1]) {
        trim_back(s, a, e - 1)
    } else {
        e
    }
}

/// Whether a doc comment `///` starts at `j`.
pub open spec fn comment_at(s: Seq<char>, j: int) -> bool {
    0 <= j && j + 2 < s.len() && s[j] == '/' && s[j + 1] == '/' && s[j + 2] == '/'
}

/// A doc comment: `///` and the rest of its line, whose text is kept without
/// the surrounding whitespace.
pub open spec fn sp_comment(s: Seq<char>, i: int) -> Option<(Seq<char>, int)> {
    let j = skip_ws(s, i);
    if comment_at(s, j) {
        let e = line_end(s, j + 3);
        let a = trim_front(s, j + 3, e);
        let b = trim_back(s, a, e);
        Some((s.subrange(a, b), e))
    } else {
        None
    }
}

pub open spec fn digit_value(c: char) -> nat {
    (c as nat - '0' as nat) as nat
}

/// The number that a run of decimal digits writes.
pub open spec fn digits_value(d: Seq<char>) -> nat
    decreases d.len(),
{
    if d.len() == 0 {
        0
    } else {
        digits_value(d.drop_last()) * 10 + digit_value(d.last())
    }
}

pub proof fn lemma_digits_value_grows(d: Seq<char>, k: int)
    requires
        0 <= k <= d.len(),
        forall|x: int| 0 <= x < d.len() ==> is_digit(#[trigger] d[x]),
    ensures
        digits_value(d.subrange(0, k)) <= digits_value(d),
    decreases d.len() - k,
{
    if k < d.len() {
        lemma_digits_value_grows(d, k + 1);
        let p = d.subrange(0, k + 1);
        assert(p.drop_last() =~= d.subrange(0, k));
        assert(digits_value(p) == digits_value(d.subrange(0, k)) * 10 + digit_value(p.last()));
    } else {
        assert(d.subrange(0, k) =~= d);
    }
}

pub open spec fn word_import() -> Seq<char> {
    seq!['i', 'm', 'p', 'o', 'r', 't']
}

pub open spec fn word_data() -> Seq<char> {
    seq!['d', 'a', 't', 'a']
}

pub open spec fn word_enum() -> Seq<char> {
    seq!['e', 'n', 'u', 'm']
}

pub open spec fn word_service() -> Seq<char> {
    seq!['s', 'e', 'r', 'v', 'i', 'c', 'e']
}

pub open spec fn word_depends() -> Seq<char> {
    seq!['d', 'e', 'p', 'e', 'n', 'd', 's']
}

pub open spec fn word_on() -> Seq<char> {
    seq!['o', 'n']
}

pub open spec fn word_fn() -> Seq<char> {
    seq!['f', 'n']
}

pub open spec fn word_handles() -> Seq<char> {
    seq!['h', 'a', 'n', 'd', 'l', 'e', 's']
}

pub open spec fn word_event() -> Seq<char> {
    seq!['e', 'v', 'e', 'n', 't']
}

pub open spec fn word_of() -> Seq<char> {
    seq!['o', 'f']
}

pub open spec fn word_list() -> Seq<char> {
    seq!['l', 'i', 's', 't']
}

/// A type: `N of path` (a list of fixed length), `list of path` (a list of
/// any length) or `path`. Gives the path, whether it is a list, and the count.
pub open spec fn sp_type(s: Seq<char>, i: int) -> Option<(Seq<Seq<char>>, bool, Option<usize>, int)> {
    let j = skip_ws(s, i);
    if j < s.len() && is_digit(s[j]) {
        let e = digits_end(s, j);
        let n = digits_value(s.subrange(j, e));
        match sp_ident(s, e) {
            Some((w, e2)) => if w == word_of() && n <= usize::MAX {
                match sp_path(s, e2) {
                    Some((p, e3)) => Some((p, true, Some(n as usize), e3)),
                    None => None,
                }
            } else {
                None
            },
            None => None,
        }
    } else {
        match sp_ident(s, i) {
            Some((w, e)) => {
                let next = sp_ident(s, e);
                if w == word_list() && next is Some && next->Some_0.0 == word_of() {
                    match sp_path(s, next->Some_0.1) {
                        Some((p, e3)) => Some((p, true, None, e3)),
                        None => None,
                    }
                } else {
                    match sp_path(s, i) {
                        Some((p, e3)) => Some((p, false, None, e3)),
                        None => None,
                    }
                }
            },
            None => None,
        }
    }
}

/// The value of an enum variant written as `digits` or `-digits`, where it
/// fits in an `i64`.
pub open spec fn integer_value(neg: bool, n: nat) -> Option<i64> {
    if neg {
        if n <= 0x8000_0000_0000_0000 {
            Some((-n) as i64)
        } else {
            None
        }
    } else {
        if n <= 0x7fff_ffff_ffff_ffff {
            Some(n as i64)
        } else {
            None
        }
    }
}

/// An integer: an optional `-` and decimal digits. Gives its text and its
/// value, which is `None` where it does not fit in an `i64`.
pub open spec fn sp_integer(s: Seq<char>, i: int) -> Option<(Seq<char>, Option<i64>, int)> {
    let j = skip_ws(s, i);
    let neg = j < s.len() && s[j] == '-';
    let d0 = if neg {
        j + 1
    } else {
        j
    };
    if d0 < s.len() && is_digit(s[d0]) {
        let e = digits_end(s, d0);
        Some((s.subrange(j, e), integer_value(neg, digits_value(s.subrange(d0, e))), e))
    } else {
        None
    }
}

// ---------------------------------------------------------------------------
// Executable readers
// ---------------------------------------------------------------------------

pub fn is_ws_char(c: char) -> (r: bool)
    ensures
        r == is_ws(c),
{
    c == ' ' || c == '\t' || c == '\n' || c == '\r'
}

pub fn is_ident_start_char(c: char) -> (r: bool)
    ensures
        r == is_ident_start(c),
{
    ('a' <= c && c <= 'z') || ('A' <= c && c <= 'Z') || c == '_'
}

pub fn is_digit_char(c: char) -> (r: bool)
    ensures
        r == is_digit(c),
{
    '0' <= c && c <= '9'
}

pub fn skip_ws_at(cs: &Vec<char>, i: usize) -> (r: usize)
    requires
        i <= cs@.len(),
    ensures
        r == skip_ws(cs@, i as int),
        i <= r <= cs@.len(),
{
    let mut j = i;
    while j < cs.len() && is_ws_char(cs[j])
        invariant
            i <= j <= cs@.len(),
            skip_ws(cs@, i as int) == skip_ws(cs@, j as int),
        decreases cs@.len() - j,
    {
        j = j + 1;
    }
    j
}

pub fn ident_end_at(cs: &Vec<char>, i: usize) -> (r: usize)
    requires
        i <= cs@.len(),
    ensures
        r == ident_end(cs@, i as int),
        i <= r <= cs@.len(),
{
    let mut j = i;
    while j < cs.len() && (is_ident_start_char(cs[j]) || is_digit_char(cs[j]))
        invariant
            i <= j <= cs@.len(),
            ident_end(cs@, i as int) == ident_end(cs@, j as int),
        decreases cs@.len() - j,
    {
        j = j + 1;
    }
    j
}

pub fn digits_end_at(cs: &Vec<char>, i: usize) -> (r: usize)
    requires
        i <= cs@.len(),
    ensures
        r == digits_end(cs@, i as int),
        i <= r <= cs@.len(),
        forall|x: int| i <= x < r ==> is_digit(#[trigger] cs@[x]),
{
    let mut j = i;
    while j < cs.len() && is_digit_char(cs[j])
        invariant
            i <= j <= cs@.len(),
            digits_end(cs@, i as int) == digits_end(cs@, j as int),
            forall|x: int| i <= x < j ==> is_digit(#[trigger] cs@[x]),
        decreases cs@.len() - j,
    {
        j = j + 1;
    }
    j
}

pub fn line_end_at(cs: &Vec<char>, i: usize) -> (r: usize)
    requires
        i <= cs@.len(),
    ensures
        r == line_end(cs@, i as int),
        i <= r <= cs@.len(),
{
    let mut j = i;
    while j < cs.len() && cs[j] != '\n'
        invariant
            i <= j <= cs@.len(),
            line_end(cs@, i as int) == line_end(cs@, j as int),
        decreases cs@.len() - j,
    {
        j = j + 1;
    }
    j
}

pub fn quote_end_at(cs: &Vec<char>, i: usize) -> (r: usize)
    requires
        i <= cs@.len(),
    ensures
        r == quote_end(cs@, i as int),
        i <= r <= cs@.len(),
{
    let mut j = i;
    while j < cs.len() && cs[j] != '"'
        invariant
            i <= j <= cs@.len(),
            quote_end(cs@, i as int) == quote_end(cs@, j as int),
        decreases cs@.len() - j,
    {
        j = j + 1;
    }
    j
}

pub fn read_ident(cs: &Vec<char>, i: usize) -> (r: Option<(usize, usize)>)
    requires
        i <= cs@.len(),
    ensures
        match sp_ident(cs@, i as int) {
            Some((w, e)) => r is Some && r->Some_0.0 <= r->Some_0.1 && cs@.subrange(
                r->Some_0.0 as int,
                r->Some_0.1 as int,
            ) == w && r->Some_0.1 == e,
            None => r is None,
        },
        r is Some ==> i <= r->Some_0.1 <= cs@.len(),
        r is Some ==> r->Some_0.0 as int == skip_ws(cs@, i as int),
{
    let j = skip_ws_at(cs, i);
    if j < cs.len() && is_ident_start_char(cs[j]) {
        let e = ident_end_at(cs, j + 1);
        Some((j, e))
    } else {
        None
    }
}

pub fn read_symbol(cs: &Vec<char>, i: usize, c: char) -> (r: Option<usize>)
    requires
        i <= cs@.len(),
    ensures
        r is Some == sp_symbol(cs@, i as int, c) is Some,
        r is Some ==> r->Some_0 as int == sp_symbol(cs@, i as int, c)->Some_0,
        r is Some ==> i < r->Some_0 <= cs@.len(),
{
    let j = skip_ws_at(cs, i);
    if j < cs.len() && cs[j] == c {
        Some(j + 1)
    } else {
        None
    }
}

pub fn read_arrow(cs: &Vec<char>, i: usize) -> (r: Option<usize>)
    requires
        i <= cs@.len(),
    ensures
        r is Some == sp_arrow(cs@, i as int) is Some,
        r is Some ==> r->Some_0 as int == sp_arrow(cs@, i as int)->Some_0,
        r is Some ==> i < r->Some_0 <= cs@.len(),
{
    let j = skip_ws_at(cs, i);
    if j < cs.len() && cs.len() - j > 1 && cs[j] == '-' && cs[j + 1] == '>' {
        Some(j + 2)
    } else {
        None
    }
}

/// Whether the characters in `[a, b)` are those of `w`.
pub fn word_is(cs: &Vec<char>, a: usize, b: usize, w: &Vec<char>) -> (r: bool)
    requires
        a <= b <= cs@.len(),
    ensures
        r == (cs@.subrange(a as int, b as int) == w@),
{
    if b - a != w.len() {
        proof {
            assert(cs@.subrange(a as int, b as int).len() != w@.len());
        }
        return false;
    }
    let mut k: usize = 0;
    while k < w.len()
        invariant
            b - a == w@.len(),
            a <= b <= cs@.len(),
            k <= w@.len(),
            forall|x: int| 0 <= x < k ==> cs@[a + x] == w@[x],
        decreases w@.len() - k,
    {
        if cs[a + k] != w[k] {
            proof {
                assert(cs@.subrange(a as int, b as int)[k as int] != w@[k as int]);
            }
            return false;
        }
        k = k + 1;
    }
    proof {
        assert(cs@.subrange(a as int, b as int) =~= w@);
    }
    true
}

pub fn read_path(cs: &Vec<char>, i: usize) -> (r: Option<(Vec<String>, usize)>)
    requires
        i <= cs@.len(),
    ensures
        match sp_path(cs@, i as int) {
            Some((p, e)) => r is Some && r->Some_0.0.deep_view() == p && r->Some_0.1 == e,
            None => r is None,
        },
        r is Some ==> i <= r->Some_0.1 <= cs@.len(),
{
    let (a, b) = match read_ident(cs, i) {
        Some(x) => x,
        None => {
            return None;
        },
    };
    let mut segs: Vec<String> = Vec::new();
    segs.push(string_between(cs, a, b));
    let ghost s = cs@;
    let ghost e0 = b as int;
    let mut e = b;
    while e < cs.len() && cs.len() - e > 2 && cs[e] == ':' && cs[e + 1] == ':' && is_ident_start_char(cs[e + 2])
        invariant
            a <= b <= e <= cs@.len(),
            i <= b,
            s == cs@,
            segs.deep_view().len() >= 1,
            segs.deep_view()[0] == s.subrange(a as int, b as int),
            path_tail(s, e0) == (segs.deep_view().drop_first() + path_tail(s, e as int).0, path_tail(s, e as int).1),
        decreases cs@.len() - e,
    {
        let f = ident_end_at(cs, e + 3);
        let seg = string_between(cs, e + 2, f);
        let ghost old_segs = segs.deep_view();
        segs.push(seg);
        proof {
            assert(segs.deep_view() =~= old_segs.push(seg@));
            assert(segs.deep_view().drop_first() =~= old_segs.drop_first().push(seg@));
            let t = path_tail(s, f as int);
            assert(path_tail(s, e as int) == (seq![s.subrange(e + 2, f as int)] + t.0, t.1));
            assert(old_segs.drop_first() + (seq![s.subrange(e + 2, f as int)] + t.0) =~= segs.deep_view().drop_first() + t.0);
        }
        e = f;
    }
    proof {
        assert(path_tail(s, e as int) == (Seq::<Seq<char>>::empty(), e as int));
        assert(segs.deep_view().drop_first() + Seq::<Seq<char>>::empty() =~= segs.deep_view().drop_first());
        assert(seq![s.subrange(a as int, b as int)] + segs.deep_view().drop_first() =~= segs.deep_view());
    }
    Some((segs, e))
}

pub fn read_string(cs: &Vec<char>, i: usize) -> (r: Option<(String, usize)>)
    requires
        i <= cs@.len(),
    ensures
        match sp_string(cs@, i as int) {
            Some((v, e)) => r is Some && r->Some_0.0@ == v && r->Some_0.1 == e,
            None => r is None,
        },
        r is Some ==> i < r->Some_0.1 <= cs@.len(),
{
    let j = skip_ws_at(cs, i);
    if j < cs.len() && cs[j] == '"' {
        let k = quote_end_at(cs, j + 1);
        if k < cs.len() {
            Some((string_between(cs, j + 1, k), k + 1))
        } else {
            None
        }
    } else {
        None
    }
}

pub fn read_comment(cs: &Vec<char>, i: usize) -> (r: Option<(String, usize)>)
    requires
        i <= cs@.len(),
    ensures
        match sp_comment(cs@, i as int) {
            Some((v, e)) => r is Some && r->Some_0.0@ == v && r->Some_0.1 == e,
            None => r is None,
        },
        r is Some ==> i < r->Some_0.1 <= cs@.len(),
{
    let j = skip_ws_at(cs, i);
    if j < cs.len() && cs.len() - j > 2 && cs[j] == '/' && cs[j + 1] == '/' && cs[j + 2] == '/' {
        let e = line_end_at(cs, j + 3);
        let mut a = j + 3;
        while a < e && is_ws_char(cs[a])
            invariant
                j + 3 <= a <= e <= cs@.len(),
                trim_front(cs@, j + 3, e as int) == trim_front(cs@, a as int, e as int),
            decreases e - a,
        {
            a = a + 1;
        }
        let mut b = e;
        while a < b && is_ws_char(cs[b - 1])
            invariant
                a <= b <= e <= cs@.len(),
                trim_back(cs@, a as int, e as int) == trim_back(cs@, a as int, b as int),
            decreases b - a,
        {
            b = b - 1;
        }
        Some((string_between(cs, a, b), e))
    } else {
        None
    }
}

/// The number written by the digits in `[a, b)`, where it is at most `bound`.
pub fn read_number(cs: &Vec<char>, a: usize, b: usize, bound: u64) -> (r: Option<u64>)
    requires
        a <= b <= cs@.len(),
        forall|x: int| a <= x < b ==> is_digit(#[trigger] cs@[x]),
        bound >= 9,
    ensures
        r == if digits_value(cs@.subrange(a as int, b as int)) <= bound {
            Some(digits_value(cs@.subrange(a as int, b as int)) as u64)
        } else {
            None::<u64>
        },
{
    let ghost d = cs@.subrange(a as int, b as int);
    let mut acc: u64 = 0;
    let mut k = a;
    while k < b
        invariant
            a <= k <= b <= cs@.len(),
            d == cs@.subrange(a as int, b as int),
            forall|x: int| a <= x < b ==> is_digit(#[trigger] cs@[x]),
            acc == digits_value(d.subrange(0, k - a)),
            acc <= bound,
            bound >= 9,
        decreases b - k,
    {
        let c = cs[k];
        let dv: u64 = (c as u32 - '0' as u32) as u64;
        proof {
            assert(is_digit(cs@[k as int]));
            let p = d.subrange(0, k - a + 1);
            assert(p.drop_last() =~= d.subrange(0, k - a));
            assert(p.last() == c);
            assert(digits_value(p) == acc * 10 + dv);
        }
        if acc > (bound - dv) / 10 {
            proof {
                assert(acc * 10 + dv > bound) by (nonlinear_arith)
                    requires acc > (bound - dv) / 10, dv <= 9, dv <= bound;
                lemma_digits_value_grows(d, k - a + 1);
            }
            return None;
        }
        proof {
            assert(acc * 10 + dv <= bound) by (nonlinear_arith)
                requires acc <= (bound - dv) / 10, dv <= 9;
        }
        acc = acc * 10 + dv;
        k = k + 1;
    }
    proof {
        assert(d.subrange(0, b - a) =~= d);
    }
    Some(acc)
}

pub fn read_type(cs: &Vec<char>, i: usize) -> (r: Option<(Vec<String>, bool, Option<usize>, usize)>)
    requires
        i <= cs@.len(),
    ensures
        match sp_type(cs@, i as int) {
            Some((p, l, c, e)) => r is Some && r->Some_0.0.deep_view() == p && r->Some_0.1 == l
                && r->Some_0.2 == c && r->Some_0.3 == e,
            None => r is None,
        },
        r is Some ==> i <= r->Some_0.3 <= cs@.len(),
{
    let word_of_v: Vec<char> = vec!['o', 'f'];
    let word_list_v: Vec<char> = vec!['l', 'i', 's', 't'];
    proof {
        assert(word_of_v@ =~= word_of());
        assert(word_list_v@ =~= word_list());
    }
    let j = skip_ws_at(cs, i);
    if j < cs.len() && is_digit_char(cs[j]) {
        let e = digits_end_at(cs, j);
        let (a2, e2) = match read_ident(cs, e) {
            Some(x) => x,
            None => {
                return None;
            },
        };
        if !word_is(cs, a2, e2, &word_of_v) {
            return None;
        }
        let n = match read_number(cs, j, e, usize::MAX as u64) {
            Some(n) => n,
            None => {
                return None;
            },
        };
        match read_path(cs, e2) {
            Some((p, e3)) => Some((p, true, Some(n as usize), e3)),
            None => None,
        }
    } else {
        let (a, e) = match read_ident(cs, i) {
            Some(x) => x,
            None => {
                return None;
            },
        };
        if word_is(cs, a, e, &word_list_v) {
            if let Some((a2, e2)) = read_ident(cs, e) {
                if word_is(cs, a2, e2, &word_of_v) {
                    return match read_path(cs, e2) {
                        Some((p, e3)) => Some((p, true, None, e3)),
                        None => None,
                    };
                }
            }
        }
        match read_path(cs, i) {
            Some((p, e3)) => Some((p, false, None, e3)),
            None => None,
        }
    }
}

pub fn read_integer(cs: &Vec<char>, i: usize) -> (r: Option<(String, Option<i64>, usize)>)
    requires
        i <= cs@.len(),
    ensures
        match sp_integer(cs@, i as int) {
            Some((t, v, e)) => r is Some && r->Some_0.0@ == t && r->Some_0.1 == v && r->Some_0.2
                == e,
            None => r is None,
        },
        r is Some ==> i <= r->Some_0.2 <= cs@.len(),
{
    let j = skip_ws_at(cs, i);
    let neg = j < cs.len() && cs[j] == '-';
    let d0 = if neg {
        j + 1
    } else {
        j
    };
    if d0 < cs.len() && is_digit_char(cs[d0]) {
        let e = digits_end_at(cs, d0);
        let text = string_between(cs, j, e);
        let n = read_number(cs, d0, e, 0x8000_0000_0000_0000u64);
        let ghost dv = digits_value(cs@.subrange(d0 as int, e as int));
        let value: Option<i64> = match n {
            None => None,
            Some(n) => {
                if neg {
                    if n == 0x8000_0000_0000_0000u64 {
                        Some(-0x8000_0000_0000_0000i64)
                    } else {
                        Some(-(n as i64))
                    }
                } else if n <= 0x7fff_ffff_ffff_ffffu64 {
                    Some(n as i64)
                } else {
                    None
                }
            },
        };
        Some((text, value, e))
    } else {
        None
    }
}

} // verus!
