//! The names that a command line and a file layout give to a module.

use vstd::prelude::*;

use crate::ast::Namespace;
use crate::text::{chars_of, string_between};

verus! {

/// The pieces of `s` between occurrences of `c`, scanning from `i` with the
/// current piece starting at `start`.
pub open spec fn split_char_from(s: Seq<char>, c: char, i: int, start: int) -> Seq<Seq<char>>
    decreases s.len() - i,
{
    if 0 <= i < s.len() {
        if s[i] == c {
            seq![s.subrange(start, i)] + split_char_from(s, c, i + 1, i + 1)
        } else {
            split_char_from(s, c, i + 1, start)
        }
    } else {
        seq![s.subrange(start, s.len() as int)]
    }
}

/// The position of the last `.` in `seg`, if any.
pub open spec fn last_dot(seg: Seq<char>, i: int) -> Option<int>
    decreases i,
{
    if 0 < i <= seg.len() {
        if seg[i - 1] == '.' {
            Some(i - 1)
        } else {
            last_dot(seg, i - 1)
        }
    } else {
        None
    }
}

/// A file name without its extension: the text before its last `.`, where
/// that `.` is not the first character.
pub open spec fn file_stem(seg: Seq<char>) -> Seq<char> {
    match last_dot(seg, seg.len() as int) {
        Some(k) => if k > 0 {
            seg.subrange(0, k)
        } else {
            seg
        },
        None => seg,
    }
}

/// The pieces that name directories or the file: neither empty nor `.`.
pub open spec fn kept_segments(parts: Seq<Seq<char>>) -> Seq<Seq<char>>
    decreases parts.len(),
{
    if parts.len() == 0 {
        Seq::empty()
    } else {
        let rest = kept_segments(parts.drop_last());
        let p = parts.last();
        if p.len() == 0 || p == seq!['.'] {
            rest
        } else {
            rest.push(p)
        }
    }
}

/// The namespace of the file at the `/`-separated relative path `path`: its
/// directories and its file name without extension.
pub open spec fn file_namespace(path: Seq<char>) -> Seq<Seq<char>> {
    let segs = kept_segments(split_char_from(path, '/', 0, 0));
    if segs.len() == 0 {
        segs
    } else {
        segs.drop_last().push(file_stem(segs.last()))
    }
}

fn stem_exec(seg: &String) -> (r: String)
    ensures
        r@ == file_stem(seg@),
{
    let cs = chars_of(seg.as_str());
    let mut i = cs.len();
    while i > 0 && cs[i - 1] != '.'
        invariant
            i <= cs@.len(),
            cs@ == seg@,
            last_dot(cs@, cs@.len() as int) == last_dot(cs@, i as int),
        decreases i,
    {
        i = i - 1;
    }
    if i > 1 {
        string_between(&cs, 0, i - 1)
    } else {
        proof {
            assert(cs@.subrange(0, cs@.len() as int) =~= cs@);
        }
        string_between(&cs, 0, cs.len())
    }
}

/// The namespace of a file from its path relative to the base directory,
/// with `/` between directories: each directory, then the file name without
/// its extension; empty pieces and `.` are skipped.
pub fn namespace_for_file(path: &str) -> (r: Namespace)
    ensures
        r.deep_view() == file_namespace(path@),
{
    let cs = chars_of(path);
    let dot: Vec<char> = vec!['.'];
    let ghost parts = split_char_from(cs@, '/', 0, 0);
    let mut segs: Vec<String> = Vec::new();
    let mut i: usize = 0;
    let mut start: usize = 0;
    let ghost done: Seq<Seq<char>> = Seq::empty();
    while i < cs.len()
        invariant
            start <= i <= cs@.len(),
            cs@ == path@,
            dot@ == seq!['.'],
            parts == done + split_char_from(cs@, '/', i as int, start as int),
            segs.deep_view() == kept_segments(done),
        decreases cs@.len() - i,
    {
        if cs[i] == '/' {
            let seg = string_between(&cs, start, i);
            proof {
                assert(split_char_from(cs@, '/', i as int, start as int) == seq![seg@]
                    + split_char_from(cs@, '/', i + 1, i + 1));
                assert(parts =~= done.push(seg@) + split_char_from(cs@, '/', i + 1, i + 1));
                assert(done.push(seg@).drop_last() =~= done);
            }
            let is_dot = i - start == 1 && crate::lexer::word_is(&cs, start, i, &dot);
            proof {
                assert(seg@.len() == 1 ==> (seg@ =~= seq!['.'] <==> seg@[0] == '.'));
            }
            let ghost old_segs = segs.deep_view();
            if i - start != 0 && !is_dot {
                segs.push(seg);
                proof {
                    assert(segs.deep_view() =~= old_segs.push(seg@));
                }
            }
            proof {
                done = done.push(seg@);
            }
            i = i + 1;
            start = i;
        } else {
            i = i + 1;
        }
    }
    let seg = string_between(&cs, start, cs.len());
    proof {
        assert(parts =~= done.push(seg@));
        assert(done.push(seg@).drop_last() =~= done);
    }
    let is_dot = cs.len() - start == 1 && crate::lexer::word_is(&cs, start, cs.len(), &dot);
    let ghost old_segs = segs.deep_view();
    if cs.len() - start != 0 && !is_dot {
        segs.push(seg);
        proof {
            assert(segs.deep_view() =~= old_segs.push(seg@));
        }
    }
    if segs.len() > 0 {
        let last = segs.pop().unwrap();
        let ghost before = segs.deep_view();
        let stem = stem_exec(&last);
        segs.push(stem);
        proof {
            assert(segs.deep_view() =~= before.push(file_stem(last@)));
            assert(old_segs.len() >= 0);
        }
    }
    Namespace { components: segs }
}

/// The first `=` splits a `KEY=VALUE` definition; without one, the value is
/// empty.
pub open spec fn key_value(s: Seq<char>) -> (Seq<char>, Seq<char>) {
    match first_index(s, '=', 0) {
        Some(k) => (s.subrange(0, k), s.subrange(k + 1, s.len() as int)),
        None => (s, Seq::empty()),
    }
}

/// The first position at or after `i` that holds `c`.
pub open spec fn first_index(s: Seq<char>, c: char, i: int) -> Option<int>
    decreases s.len() - i,
{
    if 0 <= i < s.len() {
        if s[i] == c {
            Some(i)
        } else {
            first_index(s, c, i + 1)
        }
    } else {
        None
    }
}

/// Splits a `KEY=VALUE` definition of the command line at its first `=`.
pub fn parse_key_val(env: &str) -> (r: (String, String))
    ensures
        (r.0@, r.1@) == key_value(env@),
{
    let cs = chars_of(env);
    let mut i: usize = 0;
    while i < cs.len() && cs[i] != '='
        invariant
            i <= cs@.len(),
            cs@ == env@,
            first_index(cs@, '=', 0) == first_index(cs@, '=', i as int),
        decreases cs@.len() - i,
    {
        i = i + 1;
    }
    if i < cs.len() {
        (string_between(&cs, 0, i), string_between(&cs, i + 1, cs.len()))
    } else {
        proof {
            assert(cs@.subrange(0, cs@.len() as int) =~= cs@);
            assert(cs@.subrange(i as int, i as int) =~= Seq::<char>::empty());
        }
        (string_between(&cs, 0, cs.len()), string_between(&cs, i, i))
    }
}

} // verus!
