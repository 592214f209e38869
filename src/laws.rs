//! Laws of the front end.
//!
//! Printing and parsing: the text that the printer writes for a piece of the
//! model reads back as that piece. This is proved for paths, type references,
//! integers, one-line comments, attribute groups, and whole documents made of
//! comments, imports, data types and enums (everything but services); from the
//! last follow, for such documents, that printing is idempotent and that the
//! printed text assembles to the same module.

use vstd::prelude::*;

use crate::ast::{
    type_name_wf, AttributeModel, DataTypeModel, ElementModel, EnumModel, EnumValueModel,
    ImportModel, ParameterModel, TypeNameModel,
};
use crate::lexer::{
    digits_end, digits_value, digit_value, ident_end, is_digit, is_ident_char, is_ident_start,
    is_ws, path_tail, scan_while, skip_ws, sp_ident, sp_path, sp_symbol, sp_type, word_list,
    word_data, word_enum, word_import, word_of, comment_at, sp_comment, sp_integer, line_end,
    trim_back, trim_front, sp_string, quote_end,
};
use crate::assemble::assemble_model;
use crate::error::ParseErrorModel;
use crate::parser::{
    prepend_all, sp_attribute, sp_attributes, sp_attributes_more, sp_data, sp_param,
    sp_params_more, sp_element, sp_elements, sp_enum, sp_import, sp_properties,
    sp_property, sp_variant, sp_variants,
};
use crate::pretty::{
    attributes_line, comments_text, datatype_text, digit_char, element_text, import_text, nat_text,
    comment_block, comment_lines_text, attribute_list_text, attribute_text, attributes_inline, attributes_text, enum_text,
    param_text, params_text, int_text, pretty_model, pretty_upto, properties_text, property_text,
    separator, type_text, variant_text, variants_text,
};
use crate::files::split_char_from;
use crate::text::join_path;

verus! {

/// Scanning from `i` stops at `j` when every character in `[i, j)` satisfies
/// `p` and the one at `j`, if any, does not.
pub proof fn lemma_scan_run(s: Seq<char>, i: int, j: int, p: spec_fn(char) -> bool)
    requires
        0 <= i <= j <= s.len(),
        forall|k: int| i <= k < j ==> p(#[trigger] s[k]),
        j == s.len() || !p(s[j]),
    ensures
        scan_while(s, i, p) == j,
    decreases j - i,
{
    if i < j {
        lemma_scan_run(s, i + 1, j, p);
    }
}

pub proof fn lemma_skip_ws_none(s: Seq<char>, i: int)
    requires
        0 <= i <= s.len(),
        i == s.len() || !is_ws(s[i]),
    ensures
        skip_ws(s, i) == i,
{
    lemma_scan_run(s, i, i, |c: char| is_ws(c));
}

/// `w` is an identifier: a letter or `_`, then letters, digits and `_`.
pub open spec fn is_identifier(w: Seq<char>) -> bool {
    &&& w.len() > 0
    &&& is_ident_start(w[0])
    &&& forall|k: int| 1 <= k < w.len() ==> is_ident_char(#[trigger] w[k])
}

/// A path that the grammar can write: one or more identifiers.
pub open spec fn is_path(segs: Seq<Seq<char>>) -> bool {
    &&& segs.len() > 0
    &&& forall|k: int| 0 <= k < segs.len() ==> is_identifier(#[trigger] segs[k])
}

/// `s` holds `w` at position `i`.
pub open spec fn holds_at(s: Seq<char>, i: int, w: Seq<char>) -> bool {
    0 <= i && i + w.len() <= s.len() && s.subrange(i, i + w.len()) == w
}

/// After position `e` of `s` comes nothing, or a character that ends a token
/// without being whitespace, part of an identifier or `:`.
pub open spec fn ends_token(s: Seq<char>, e: int) -> bool {
    e == s.len() || (!is_ident_char(s[e]) && s[e] != ':' && !is_ws(s[e]))
}

pub proof fn lemma_holds_index(s: Seq<char>, i: int, w: Seq<char>, k: int)
    requires
        holds_at(s, i, w),
        0 <= k < w.len(),
    ensures
        s[i + k] == w[k],
{
    assert(s.subrange(i, i + w.len())[k] == s[i + k]);
}

pub proof fn lemma_holds_concat(s: Seq<char>, i: int, a: Seq<char>, b: Seq<char>)
    requires
        holds_at(s, i, a + b),
    ensures
        holds_at(s, i, a),
        holds_at(s, i + a.len(), b),
{
    assert(s.subrange(i, i + a.len()) =~= (a + b).subrange(0, a.len() as int)) by {
        assert(s.subrange(i, i + (a + b).len()) == a + b);
    }
    assert((a + b).subrange(0, a.len() as int) =~= a);
    assert(s.subrange(i + a.len(), i + a.len() + b.len()) =~= (a + b).subrange(
        a.len() as int,
        (a + b).len() as int,
    )) by {
        assert(s.subrange(i, i + (a + b).len()) == a + b);
    }
    assert((a + b).subrange(a.len() as int, (a + b).len() as int) =~= b);
}

/// An identifier is read back as itself.
pub proof fn lemma_ident_text(s: Seq<char>, i: int, w: Seq<char>)
    requires
        holds_at(s, i, w),
        is_identifier(w),
        i + w.len() == s.len() || !is_ident_char(s[i + w.len()]),
    ensures
        sp_ident(s, i) == Some((w, i + w.len())),
{
    lemma_holds_index(s, i, w, 0);
    lemma_skip_ws_none(s, i);
    assert forall|k: int| i + 1 <= k < i + w.len() implies is_ident_char(#[trigger] s[k]) by {
        lemma_holds_index(s, i, w, k - i);
    }
    lemma_scan_run(s, i + 1, i + w.len(), |c: char| is_ident_char(c));
    assert(ident_end(s, i + 1) == i + w.len());
}

pub proof fn lemma_join_path_first(segs: Seq<Seq<char>>)
    requires
        segs.len() >= 2,
    ensures
        join_path(segs) == segs[0] + seq![':', ':'] + join_path(segs.drop_first()),
    decreases segs.len(),
{
    if segs.len() == 2 {
        assert(segs.drop_last() =~= seq![segs[0]]);
        assert(segs.drop_first() =~= seq![segs[1]]);
        assert(join_path(segs.drop_last()) == segs[0]);
        assert(join_path(segs.drop_first()) == segs[1]);
        assert(segs.last() == segs[1]);
    } else {
        lemma_join_path_first(segs.drop_last());
        assert(segs.drop_last().drop_first() =~= segs.drop_first().drop_last());
        assert(segs.drop_last()[0] == segs[0]);
        assert(segs.drop_first().last() == segs.last());
        assert(join_path(segs) =~= segs[0] + seq![':', ':'] + join_path(segs.drop_first()));
    }
}

pub proof fn lemma_path_tail_text(s: Seq<char>, e: int, segs: Seq<Seq<char>>)
    requires
        is_path(segs),
        holds_at(s, e, seq![':', ':'] + join_path(segs)),
        ends_token(s, e + 2 + join_path(segs).len()),
    ensures
        path_tail(s, e) == (segs, e + 2 + join_path(segs).len()),
    decreases segs.len(),
{
    let x = segs[0];
    lemma_holds_concat(s, e, seq![':', ':'], join_path(segs));
    lemma_holds_index(s, e, seq![':', ':'], 0);
    lemma_holds_index(s, e, seq![':', ':'], 1);
    assert(is_identifier(x));
    if segs.len() == 1 {
        assert(join_path(segs) == x);
        lemma_holds_index(s, e + 2, x, 0);
        lemma_ident_text(s, e + 2, x);
        assert(ident_end(s, e + 3) == e + 2 + x.len()) by {
            assert forall|k: int| e + 3 <= k < e + 2 + x.len() implies is_ident_char(#[trigger] s[k]) by {
                lemma_holds_index(s, e + 2, x, k - e - 2);
            }
            lemma_scan_run(s, e + 3, e + 2 + x.len(), |c: char| is_ident_char(c));
        }
        let f = e + 2 + x.len();
        assert(path_tail(s, f) == (Seq::<Seq<char>>::empty(), f));
        assert(seq![x] + Seq::<Seq<char>>::empty() =~= segs);
    } else {
        let rest = segs.drop_first();
        lemma_join_path_first(segs);
        assert(is_path(rest)) by {
            assert forall|k: int| 0 <= k < rest.len() implies is_identifier(#[trigger] rest[k]) by {
                assert(rest[k] == segs[k + 1]);
            }
        }
        assert(seq![':', ':'] + join_path(segs) =~= seq![':', ':'] + x + (seq![':', ':'] + join_path(rest)));
        lemma_holds_concat(s, e, seq![':', ':'] + x, seq![':', ':'] + join_path(rest));
        lemma_holds_concat(s, e, seq![':', ':'], x);
        lemma_holds_index(s, e + 2, x, 0);
        let f = e + 2 + x.len();
        lemma_holds_index(s, f, seq![':', ':'] + join_path(rest), 0);
        assert(ident_end(s, e + 3) == f) by {
            assert forall|k: int| e + 3 <= k < f implies is_ident_char(#[trigger] s[k]) by {
                lemma_holds_index(s, e + 2, x, k - e - 2);
            }
            lemma_scan_run(s, e + 3, f, |c: char| is_ident_char(c));
        }
        lemma_path_tail_text(s, f, rest);
        assert(seq![x] + rest =~= segs);
        assert(f + 2 + join_path(rest).len() == e + 2 + join_path(segs).len());
    }
}

/// A path is read back as its segments.
pub proof fn lemma_path_text(s: Seq<char>, i: int, segs: Seq<Seq<char>>)
    requires
        is_path(segs),
        holds_at(s, i, join_path(segs)),
        ends_token(s, i + join_path(segs).len()),
    ensures
        sp_path(s, i) == Some((segs, i + join_path(segs).len())),
{
    let x = segs[0];
    assert(is_identifier(x));
    if segs.len() == 1 {
        assert(join_path(segs) == x);
        lemma_ident_text(s, i, x);
        let f = i + x.len();
        assert(path_tail(s, f) == (Seq::<Seq<char>>::empty(), f));
        assert(seq![x] + Seq::<Seq<char>>::empty() =~= segs);
    } else {
        let rest = segs.drop_first();
        lemma_join_path_first(segs);
        assert(is_path(rest)) by {
            assert forall|k: int| 0 <= k < rest.len() implies is_identifier(#[trigger] rest[k]) by {
                assert(rest[k] == segs[k + 1]);
            }
        }
        assert(join_path(segs) =~= x + (seq![':', ':'] + join_path(rest)));
        lemma_holds_concat(s, i, x, seq![':', ':'] + join_path(rest));
        let f = i + x.len();
        lemma_holds_index(s, f, seq![':', ':'] + join_path(rest), 0);
        lemma_ident_text(s, i, x);
        lemma_path_tail_text(s, f, rest);
        assert(seq![x] + rest =~= segs);
    }
}

/// The decimal text of `n` is a run of digits that reads back as `n`.
pub proof fn lemma_nat_text(n: nat)
    ensures
        nat_text(n).len() >= 1,
        forall|k: int| 0 <= k < nat_text(n).len() ==> is_digit(#[trigger] nat_text(n)[k]),
        digits_value(nat_text(n)) == n,
    decreases n,
{
    if n < 10 {
        let d = nat_text(n);
        assert(d.drop_last() =~= Seq::<char>::empty());
        assert(digits_value(d.drop_last()) == 0);
        assert(d.last() == digit_char(n));
        assert(digit_value(digit_char(n)) == n);
        assert(digits_value(d) == digits_value(d.drop_last()) * 10 + digit_value(d.last()));
    } else {
        lemma_nat_text(n / 10);
        let d = nat_text(n);
        assert(d.drop_last() =~= nat_text(n / 10));
        assert(d.last() == digit_char(n % 10));
        assert(digit_value(digit_char(n % 10)) == n % 10);
        vstd::arithmetic::div_mod::lemma_fundamental_div_mod(n as int, 10);
        assert(digits_value(d) == digits_value(nat_text(n / 10)) * 10 + n % 10);
        assert(forall|k: int| 0 <= k < d.len() ==> is_digit(#[trigger] d[k])) by {
            assert forall|k: int| 0 <= k < d.len() implies is_digit(#[trigger] d[k]) by {
                if k < d.len() - 1 {
                    assert(d[k] == nat_text(n / 10)[k]);
                }
            }
        }
    }
}

pub proof fn lemma_skip_ws_one(s: Seq<char>, i: int)
    requires
        0 <= i,
        i + 1 < s.len(),
        is_ws(s[i]),
        !is_ws(s[i + 1]),
    ensures
        skip_ws(s, i) == i + 1,
{
    lemma_scan_run(s, i, i + 1, |c: char| is_ws(c));
}

/// The text of a type reference is read back as its path, list flag and count.
pub proof fn lemma_type_text(s: Seq<char>, i: int, t: TypeNameModel)
    requires
        type_name_wf(t),
        is_path(t.typ),
        holds_at(s, i, type_text(t)),
        ends_token(s, i + type_text(t).len()),
    ensures
        sp_type(s, i) == Some((t.typ, t.is_list, t.count, i + type_text(t).len())),
{
    let p = join_path(t.typ);
    let x = t.typ[0];
    assert(is_identifier(x));
    assert(p.len() >= x.len() && p.subrange(0, x.len() as int) == x) by {
        if t.typ.len() >= 2 {
            lemma_join_path_first(t.typ);
            assert(p =~= x + (seq![':', ':'] + join_path(t.typ.drop_first())));
            assert(p.subrange(0, x.len() as int) =~= x);
        } else {
            assert(p == x);
            assert(p.subrange(0, x.len() as int) =~= x);
        }
    }
    reveal_strlit(" of ");
    reveal_strlit("list of ");
    if !t.is_list {
        assert(type_text(t) == p);
        lemma_holds_index(s, i, p, 0);
        lemma_skip_ws_none(s, i);
        assert(holds_at(s, i, x)) by {
            assert(s.subrange(i, i + x.len()) =~= p.subrange(0, x.len() as int)) by {
                assert(s.subrange(i, i + p.len()) == p);
            }
        }
        let e = i + x.len();
        if t.typ.len() >= 2 {
            lemma_join_path_first(t.typ);
            assert(p =~= x + (seq![':', ':'] + join_path(t.typ.drop_first())));
            lemma_holds_concat(s, i, x, seq![':', ':'] + join_path(t.typ.drop_first()));
            lemma_holds_index(s, e, seq![':', ':'] + join_path(t.typ.drop_first()), 0);
            lemma_skip_ws_none(s, e);
        } else {
            assert(p == x);
            lemma_skip_ws_none(s, e);
        }
        lemma_ident_text(s, i, x);
        assert(sp_ident(s, e) is None);
        lemma_path_text(s, i, t.typ);
    } else {
        match t.count {
            None => {
                let lead = "list of "@;
                assert(type_text(t) == lead + p);
                lemma_holds_concat(s, i, lead, p);
                assert forall|k: int| 0 <= k < 8 implies s[i + k] == lead[k] by {
                    lemma_holds_index(s, i, lead, k);
                }
                assert(s[i + 4] == ' ' && s[i + 5] == 'o' && s[i + 6] == 'f' && s[i + 7] == ' ') by {
                    lemma_holds_index(s, i, lead, 4);
                    lemma_holds_index(s, i, lead, 5);
                    lemma_holds_index(s, i, lead, 6);
                    lemma_holds_index(s, i, lead, 7);
                }
                assert(holds_at(s, i, word_list())) by {
                    assert(s.subrange(i, i + 4) =~= word_list());
                }
                lemma_ident_text(s, i, word_list());
                lemma_skip_ws_one(s, i + 4);
                assert(holds_at(s, i + 5, word_of())) by {
                    assert(s.subrange(i + 5, i + 7) =~= word_of());
                }
                lemma_ident_text(s, i + 5, word_of());
                assert(sp_ident(s, i + 4) == sp_ident(s, i + 5));
                lemma_holds_index(s, i + 8, p, 0);
                lemma_skip_ws_one(s, i + 7);
                lemma_path_text(s, i + 8, t.typ);
                assert(sp_path(s, i + 7) == sp_path(s, i + 8)) by {
                    lemma_skip_ws_none(s, i + 8);
                }
                lemma_holds_index(s, i, lead, 0);
                lemma_skip_ws_none(s, i);
            },
            Some(n) => {
                let d = nat_text(n as nat);
                let mid = " of "@;
                lemma_nat_text(n as nat);
                assert(type_text(t) == d + mid + p);
                lemma_holds_concat(s, i, d + mid, p);
                lemma_holds_concat(s, i, d, mid);
                let e = i + d.len();
                assert(s[e] == ' ' && s[e + 1] == 'o' && s[e + 2] == 'f' && s[e + 3] == ' ') by {
                    lemma_holds_index(s, e, mid, 0);
                    lemma_holds_index(s, e, mid, 1);
                    lemma_holds_index(s, e, mid, 2);
                    lemma_holds_index(s, e, mid, 3);
                }
                assert forall|k: int| i <= k < e implies is_digit(#[trigger] s[k]) by {
                    lemma_holds_index(s, i, d, k - i);
                }
                lemma_holds_index(s, i, d, 0);
                lemma_skip_ws_none(s, i);
                lemma_scan_run(s, i, e, |c: char| is_digit(c));
                assert(digits_end(s, i) == e);
                assert(s.subrange(i, e) == d) by {
                    assert(s.subrange(i, i + d.len()) == d);
                }
                lemma_skip_ws_one(s, e);
                assert(holds_at(s, e + 1, word_of())) by {
                    assert(s.subrange(e + 1, e + 3) =~= word_of());
                }
                lemma_ident_text(s, e + 1, word_of());
                assert(sp_ident(s, e) == sp_ident(s, e + 1));
                lemma_holds_index(s, e + 4, p, 0);
                lemma_skip_ws_one(s, e + 3);
                lemma_path_text(s, e + 4, t.typ);
                assert(sp_path(s, e + 3) == sp_path(s, e + 4)) by {
                    lemma_skip_ws_none(s, e + 4);
                }
            },
        }
    }
}

/// A type's text starts with a character that is not whitespace.
pub proof fn lemma_type_text_start(t: TypeNameModel)
    requires
        type_name_wf(t),
        is_path(t.typ),
    ensures
        type_text(t).len() > 0,
        !is_ws(type_text(t)[0]),
        is_ident_char(type_text(t)[0]),
{
    reveal_strlit(" of ");
    reveal_strlit("list of ");
    let x = t.typ[0];
    assert(is_identifier(x));
    let p = join_path(t.typ);
    assert(p.len() > 0 && p[0] == x[0]) by {
        if t.typ.len() >= 2 {
            lemma_join_path_first(t.typ);
            assert(p =~= x + (seq![':', ':'] + join_path(t.typ.drop_first())));
        } else {
            assert(p == x);
        }
    }
    if t.is_list {
        match t.count {
            Some(n) => {
                lemma_nat_text(n as nat);
                assert(type_text(t) == nat_text(n as nat) + " of "@ + p);
                assert(type_text(t)[0] == nat_text(n as nat)[0]);
            },
            None => {
                assert(type_text(t) == "list of "@ + p);
            },
        }
    }
}

/// Reading a type depends on its start only through the whitespace skipped there.
pub proof fn lemma_sp_type_skip(s: Seq<char>, i: int, j: int)
    requires
        skip_ws(s, i) == skip_ws(s, j),
    ensures
        sp_type(s, i) == sp_type(s, j),
{
    assert(sp_ident(s, i) == sp_ident(s, j));
    assert(sp_path(s, i) == sp_path(s, j));
}

pub proof fn lemma_skip_ws_run(s: Seq<char>, i: int, k: int)
    requires
        0 <= i <= k <= s.len(),
        forall|x: int| i <= x < k ==> is_ws(#[trigger] s[x]),
        k == s.len() || !is_ws(s[k]),
    ensures
        skip_ws(s, i) == k,
{
    lemma_scan_run(s, i, k, |c: char| is_ws(c));
}

/// The text `[#[..]] name: type,` of a property without comments reads
/// back as that property, wherever only whitespace precedes it.
pub proof fn lemma_property_text(s: Seq<char>, i: int, k0: int, n: Seq<char>, t: TypeNameModel)
    requires
        0 <= i <= k0,
        skip_ws(s, i) == k0,
        holds_at(s, k0, attributes_prefix(t.attributes, "\n\t"@) + (n + ": "@ + type_text(t) + ","@)),
        is_identifier(n),
        is_path(t.typ),
        type_name_wf(t),
        forall|x: int| 0 <= x < t.attributes.len() ==> plain_attribute(#[trigger] t.attributes[x]),
        t.comments.len() == 0,
    ensures
        sp_property(s, i) == Ok::<_, crate::error::ParseErrorModel>(
            (
                (n, t),
                k0 + attributes_prefix(t.attributes, "\n\t"@).len() + n.len() + 2 + type_text(t).len()
                    + 1,
            ),
        ),
{
    reveal_strlit(": ");
    reveal_strlit(",");
    reveal_strlit("\n\t");
    assert(all_ws("\n\t"@));
    let body = n + ": "@ + type_text(t) + ","@;
    assert(body[0] == n[0]);
    let a = lemma_attributes_gap(s, i, k0, t.attributes, "\n\t"@, body);
    let k = k0 + attributes_prefix(t.attributes, "\n\t"@).len();
    let tt = type_text(t);
    lemma_holds_concat(s, k, n + ": "@ + tt, ","@);
    lemma_holds_concat(s, k, n + ": "@, tt);
    lemma_holds_concat(s, k, n, ": "@);
    let ne = k + n.len();
    lemma_holds_index(s, ne, ": "@, 0);
    lemma_holds_index(s, ne, ": "@, 1);
    lemma_holds_index(s, k, n, 0);
    lemma_type_text_start(t);
    lemma_holds_index(s, ne + 2, tt, 0);
    let te = ne + 2 + tt.len();
    lemma_holds_index(s, te, ","@, 0);
    lemma_skip_ws_none(s, k);
    lemma_ident_text(s, k, n);
    assert(sp_ident(s, a) == sp_ident(s, k));
    lemma_skip_ws_none(s, ne);
    assert(sp_symbol(s, ne, ':') == Some(ne + 1));
    lemma_skip_ws_one(s, ne + 1);
    lemma_skip_ws_none(s, ne + 2);
    lemma_sp_type_skip(s, ne + 1, ne + 2);
    lemma_type_text(s, ne + 2, t);
    lemma_skip_ws_none(s, te);
    assert(sp_symbol(s, te, ',') == Some(te + 1));
    assert(t.comments =~= Seq::<Seq<char>>::empty());
    assert(crate::parser::type_model((t.typ, t.is_list, t.count, te), t.attributes, Seq::empty()) == t);
}

/// A property whose attributes and comments read back.
pub open spec fn plain_property(p: (Seq<char>, TypeNameModel)) -> bool {
    &&& is_identifier(p.0)
    &&& is_path(p.1.typ)
    &&& type_name_wf(p.1)
    &&& forall|k: int| 0 <= k < p.1.attributes.len() ==> plain_attribute(#[trigger] p.1.attributes[k])
    &&& forall|k: int| 0 <= k < p.1.comments.len() ==> plain_comment(#[trigger] p.1.comments[k])
}

pub proof fn lemma_plain_property_text(p: (Seq<char>, TypeNameModel))
    requires
        plain_property(p),
    ensures
        property_text(p) == comments_text(p.1.comments) + (attributes_line(p.1.attributes, "\t"@)
            + "\t"@ + (p.0 + ": "@ + type_text(p.1) + ","@) + "\n"@),
        "\n"@ + attributes_line(p.1.attributes, "\t"@) + "\t"@ == "\n\t"@ + attributes_prefix(
            p.1.attributes,
            "\n\t"@,
        ),
{
    reveal_strlit(",\n");
    reveal_strlit(",");
    reveal_strlit("\n");
    reveal_strlit("\t");
    reveal_strlit("\n\t");
    assert(property_text(p) =~= comments_text(p.1.comments) + (attributes_line(p.1.attributes, "\t"@)
        + "\t"@ + (p.0 + ": "@ + type_text(p.1) + ","@) + "\n"@));
    if p.1.attributes.len() == 0 {
        assert("\n"@ + attributes_line(p.1.attributes, "\t"@) + "\t"@ =~= "\n\t"@ + attributes_prefix(
            p.1.attributes,
            "\n\t"@,
        ));
    } else {
        assert("\n"@ + attributes_line(p.1.attributes, "\t"@) + "\t"@ =~= "\n\t"@ + attributes_prefix(
            p.1.attributes,
            "\n\t"@,
        ));
    }
}

pub proof fn lemma_properties_text_first(ps: Seq<(Seq<char>, TypeNameModel)>)
    requires
        ps.len() >= 1,
    ensures
        properties_text(ps) == property_text(ps[0]) + properties_text(ps.drop_first()),
    decreases ps.len(),
{
    if ps.len() == 1 {
        assert(ps.drop_last() =~= Seq::<(Seq<char>, TypeNameModel)>::empty());
        assert(ps.drop_first() =~= Seq::<(Seq<char>, TypeNameModel)>::empty());
        assert(properties_text(ps) =~= property_text(ps[0]) + properties_text(ps.drop_first()));
    } else {
        lemma_properties_text_first(ps.drop_last());
        assert(ps.drop_last().drop_first() =~= ps.drop_first().drop_last());
        assert(ps.drop_first().last() == ps.last());
        assert(properties_text(ps) =~= property_text(ps[0]) + properties_text(ps.drop_first()));
    }
}

pub proof fn lemma_split_no_newline(c: Seq<char>, i: int, start: int)
    requires
        0 <= start <= i <= c.len(),
        forall|k: int| 0 <= k < c.len() ==> #[trigger] c[k] != '\n',
    ensures
        split_char_from(c, '\n', i, start) == seq![c.subrange(start, c.len() as int)],
    decreases c.len() - i,
{
    if i < c.len() {
        lemma_split_no_newline(c, i + 1, start);
    }
}

/// A one-line comment is written as a single `/// ` line.
pub proof fn lemma_plain_comment_block(c: Seq<char>)
    requires
        plain_comment(c),
    ensures
        comment_block(c) == "\t/// "@ + c + "\n"@,
{
    lemma_split_no_newline(c, 0, 0);
    assert(c.subrange(0, c.len() as int) =~= c);
    let ls = seq![c];
    assert(ls.drop_last() =~= Seq::<Seq<char>>::empty());
    assert(comment_lines_text(ls.drop_last()) == Seq::<char>::empty());
    assert(comment_block(c) =~= "\t/// "@ + c + "\n"@);
}

pub proof fn lemma_comments_text_first(cs: Seq<Seq<char>>)
    requires
        cs.len() >= 1,
    ensures
        comments_text(cs) == comment_block(cs[0]) + comments_text(cs.drop_first()),
    decreases cs.len(),
{
    if cs.len() == 1 {
        assert(cs.drop_last() =~= Seq::<Seq<char>>::empty());
        assert(cs.drop_first() =~= Seq::<Seq<char>>::empty());
        assert(comments_text(cs) =~= comment_block(cs[0]) + comments_text(cs.drop_first()));
    } else {
        lemma_comments_text_first(cs.drop_last());
        assert(cs.drop_last().drop_first() =~= cs.drop_first().drop_last());
        assert(cs.drop_first().last() == cs.last());
        assert(comments_text(cs) =~= comment_block(cs[0]) + comments_text(cs.drop_first()));
    }
}

/// The comment line at `i`: where whitespace ends, and where reading goes on.
pub proof fn lemma_comment_line(s: Seq<char>, i: int, cs: Seq<Seq<char>>, rest: Seq<char>)
    requires
        0 <= i,
        cs.len() >= 1,
        plain_comment(cs[0]),
        holds_at(s, i, "\n"@ + comments_text(cs) + rest),
    ensures
        sp_comment(s, i) == Some((cs[0], i + 6 + cs[0].len())),
        holds_at(s, i + 6 + cs[0].len(), "\n"@ + comments_text(cs.drop_first()) + rest),
        i + 6 + cs[0].len() + comments_text(cs.drop_first()).len() == i + comments_text(cs).len(),
{
    reveal_strlit("\n");
    reveal_strlit("\t/// ");
    reveal_strlit("/// ");
    reveal_strlit("\t");
    let c0 = cs[0];
    let tail = cs.drop_first();
    lemma_comments_text_first(cs);
    lemma_plain_comment_block(c0);
    let whole = "\n"@ + comments_text(cs) + rest;
    assert(whole =~= "\n"@ + "\t"@ + ("/// "@ + c0 + "\n"@) + ("\n"@ + comments_text(tail) + rest).drop_first());
    assert(("\n"@ + comments_text(tail) + rest).drop_first() =~= comments_text(tail) + rest);
    assert(whole =~= ("\n"@ + "\t"@ + ("/// "@ + c0)) + ("\n"@ + comments_text(tail) + rest));
    lemma_holds_concat(s, i, "\n"@ + "\t"@ + ("/// "@ + c0), "\n"@ + comments_text(tail) + rest);
    assert(whole =~= ("\n"@ + "\t"@) + ("/// "@ + c0 + "\n"@) + (comments_text(tail) + rest));
    lemma_holds_concat(s, i, ("\n"@ + "\t"@) + ("/// "@ + c0 + "\n"@), comments_text(tail) + rest);
    lemma_holds_concat(s, i, "\n"@ + "\t"@, "/// "@ + c0 + "\n"@);
    lemma_holds_index(s, i, "\n"@ + "\t"@, 0);
    lemma_holds_index(s, i, "\n"@ + "\t"@, 1);
    lemma_holds_index(s, i + 2, "/// "@ + c0 + "\n"@, 0);
    lemma_skip_ws_run(s, i, i + 2);
    lemma_comment_text(s, i, i + 2, c0);
}

/// Comment lines before a property are gathered, in order, to be attached to it.
pub proof fn lemma_comment_lines_props(
    s: Seq<char>,
    i: int,
    cs: Seq<Seq<char>>,
    buf: Seq<Seq<char>>,
    rest: Seq<char>,
)
    requires
        0 <= i,
        forall|k: int| 0 <= k < cs.len() ==> plain_comment(#[trigger] cs[k]),
        holds_at(s, i, "\n"@ + comments_text(cs) + rest),
    ensures
        sp_properties(s, i, buf) == sp_properties(s, i + comments_text(cs).len(), buf + cs),
        holds_at(s, i + comments_text(cs).len(), "\n"@ + rest),
    decreases cs.len(),
{
    if cs.len() == 0 {
        assert(comments_text(cs) =~= Seq::<char>::empty());
        assert(buf + cs =~= buf);
        assert("\n"@ + comments_text(cs) + rest =~= "\n"@ + rest);
    } else {
        lemma_comment_line(s, i, cs, rest);
        let e = i + 6 + cs[0].len();
        let tail = cs.drop_first();
        assert forall|k: int| 0 <= k < tail.len() implies plain_comment(#[trigger] tail[k]) by {
            assert(tail[k] == cs[k + 1]);
        }
        lemma_comment_lines_props(s, e, tail, buf.push(cs[0]), rest);
        assert(buf.push(cs[0]) + tail =~= buf + cs);
    }
}

/// Comment lines before a variant are gathered, in order, to be attached to it.
pub proof fn lemma_comment_lines_variants(
    s: Seq<char>,
    i: int,
    cs: Seq<Seq<char>>,
    buf: Seq<Seq<char>>,
    rest: Seq<char>,
)
    requires
        0 <= i,
        forall|k: int| 0 <= k < cs.len() ==> plain_comment(#[trigger] cs[k]),
        holds_at(s, i, "\n"@ + comments_text(cs) + rest),
    ensures
        sp_variants(s, i, buf) == sp_variants(s, i + comments_text(cs).len(), buf + cs),
        holds_at(s, i + comments_text(cs).len(), "\n"@ + rest),
    decreases cs.len(),
{
    if cs.len() == 0 {
        assert(comments_text(cs) =~= Seq::<char>::empty());
        assert(buf + cs =~= buf);
        assert("\n"@ + comments_text(cs) + rest =~= "\n"@ + rest);
    } else {
        lemma_comment_line(s, i, cs, rest);
        let e = i + 6 + cs[0].len();
        let tail = cs.drop_first();
        assert forall|k: int| 0 <= k < tail.len() implies plain_comment(#[trigger] tail[k]) by {
            assert(tail[k] == cs[k + 1]);
        }
        lemma_comment_lines_variants(s, e, tail, buf.push(cs[0]), rest);
        assert(buf.push(cs[0]) + tail =~= buf + cs);
    }
}

/// One property, with its comment lines, after a newline, is read as that
/// property, and reading goes on after its `,`.
#[verifier::rlimit(100)]
pub proof fn lemma_properties_step(s: Seq<char>, i: int, ps: Seq<(Seq<char>, TypeNameModel)>)
    requires
        0 <= i,
        ps.len() >= 1,
        plain_property(ps[0]),
        holds_at(s, i, "\n"@ + properties_text(ps) + "};"@),
    ensures
        ({
            let e = i + comments_text(ps[0].1.comments).len() + 2 + attributes_prefix(
                ps[0].1.attributes,
                "\n\t"@,
            ).len() + (ps[0].0 + ": "@ + type_text(ps[0].1) + ","@).len();
            &&& holds_at(s, e, "\n"@ + properties_text(ps.drop_first()) + "};"@)
            &&& i < e <= s.len()
            &&& sp_properties(s, i, Seq::empty()) == prepend_all(
                seq![ps[0]],
                sp_properties(s, e, Seq::empty()),
            )
        }),
{
    reveal_strlit("\n");
    reveal_strlit("};");
    reveal_strlit("\t");
    reveal_strlit(": ");
    reveal_strlit(",");
    let p = ps[0];
    let rest = ps.drop_first();
    let cs = p.1.comments;
    let ct = comments_text(cs);
    let body = p.0 + ": "@ + type_text(p.1) + ","@;
    lemma_properties_text_first(ps);
    lemma_plain_property_text(p);
    let al = attributes_line(p.1.attributes, "\t"@);
    let pre = attributes_prefix(p.1.attributes, "\n\t"@);
    let after = al + "\t"@ + body + ("\n"@ + properties_text(rest) + "};"@);
    let whole = "\n"@ + properties_text(ps) + "};"@;
    assert(whole =~= "\n"@ + ct + after);
    lemma_comment_lines_props(s, i, cs, Seq::empty(), after);
    assert(Seq::<Seq<char>>::empty() + cs =~= cs);
    let i2 = i + ct.len();
    let tail2 = "\n"@ + properties_text(rest) + "};"@;
    let whole2 = "\n"@ + after;
    assert(whole2 =~= ("\n"@ + al + "\t"@) + body + tail2);
    assert(whole2 =~= "\n\t"@ + attributes_prefix(p.1.attributes, "\n\t"@) + body + tail2);
    lemma_property_line(s, i2, p, tail2);
}

/// A property line (after a newline), its comments already gathered, is read
/// as that property; reading goes on after its `,`.
#[verifier::rlimit(100)]
pub proof fn lemma_property_line(
    s: Seq<char>,
    i2: int,
    p: (Seq<char>, TypeNameModel),
    tail2: Seq<char>,
)
    requires
        0 <= i2,
        plain_property(p),
        holds_at(
            s,
            i2,
            "\n\t"@ + attributes_prefix(p.1.attributes, "\n\t"@) + (p.0 + ": "@ + type_text(p.1)
                + ","@) + tail2,
        ),
    ensures
        ({
            let e = i2 + 2 + attributes_prefix(p.1.attributes, "\n\t"@).len() + (p.0 + ": "@
                + type_text(p.1) + ","@).len();
            &&& holds_at(s, e, tail2)
            &&& i2 < e <= s.len()
            &&& sp_properties(s, i2, p.1.comments) == prepend_all(
                seq![p],
                sp_properties(s, e, Seq::empty()),
            )
        }),
{
    reveal_strlit("\n\t");
    reveal_strlit("\t");
    reveal_strlit(": ");
    reveal_strlit(",");
    let cs = p.1.comments;
    let body = p.0 + ": "@ + type_text(p.1) + ","@;
    let pre = attributes_prefix(p.1.attributes, "\n\t"@);
    let t0 = TypeNameModel { comments: Seq::empty(), ..p.1 };
    assert(type_text(t0) == type_text(p.1));
    lemma_holds_concat(s, i2, "\n\t"@ + pre + body, tail2);
    assert("\n\t"@ + pre + body =~= "\n\t"@ + (pre + body));
    lemma_holds_concat(s, i2, "\n\t"@, pre + body);
    lemma_holds_index(s, i2, "\n\t"@, 0);
    lemma_holds_index(s, i2, "\n\t"@, 1);
    lemma_holds_index(s, i2 + 2, pre + body, 0);
    assert(body[0] == p.0[0]);
    assert(is_identifier(p.0));
    assert((pre + body)[0] == '#' || is_ident_start((pre + body)[0])) by {
        reveal_strlit("#[");
        if p.1.attributes.len() > 0 {
            assert(pre =~= seq!['#', '['] + attribute_list_text(p.1.attributes) + "]"@ + "\n\t"@);
        } else {
            assert(pre =~= Seq::<char>::empty());
        }
    }
    lemma_skip_ws_run(s, i2, i2 + 2);
    assert(!comment_at(s, i2 + 2));
    assert(sp_comment(s, i2) is None);
    lemma_property_text(s, i2, i2 + 2, p.0, t0);
    assert(TypeNameModel { comments: cs, ..t0 } == p.1);
    let e = i2 + 2 + pre.len() + body.len();
    assert(!(s[i2 + 2] == '}'));
    assert(sp_property(s, i2) == Ok::<_, ParseErrorModel>(((p.0, t0), e)));
    assert(sp_properties(s, i2, cs) == prepend_all(seq![p], sp_properties(s, e, Seq::empty())));
}

/// The lines of such properties, each after its comment lines, then `};`,
/// read
/// back as those properties; `i` is at the newline before them.
pub proof fn lemma_properties_text(s: Seq<char>, i: int, ps: Seq<(Seq<char>, TypeNameModel)>)
    requires
        forall|k: int| 0 <= k < ps.len() ==> plain_property(#[trigger] ps[k]),
        holds_at(s, i, "\n"@ + properties_text(ps) + "};"@),
    ensures
        sp_properties(s, i, Seq::empty()) == Ok::<_, ParseErrorModel>(
            (ps, i + 1 + properties_text(ps).len() + 1),
        ),
    decreases ps.len(),
{
    reveal_strlit("\n");
    reveal_strlit("};");
    reveal_strlit("\t");
    if ps.len() == 0 {
        let pt = properties_text(ps);
        assert(pt =~= Seq::<char>::empty());
        assert("\n"@ + pt + "};"@ =~= seq!['\n', '}', ';']);
        lemma_holds_index(s, i, "\n"@ + pt + "};"@, 0);
        lemma_holds_index(s, i, "\n"@ + pt + "};"@, 1);
        lemma_skip_ws_run(s, i, i + 1);
        assert(!comment_at(s, i + 1));
        assert(sp_comment(s, i) is None);
        assert(ps =~= Seq::<(Seq<char>, TypeNameModel)>::empty());
    } else {
        let rest = ps.drop_first();
        lemma_properties_step(s, i, ps);
        let e = i + comments_text(ps[0].1.comments).len() + 2 + attributes_prefix(
            ps[0].1.attributes,
            "\n\t"@,
        ).len() + (ps[0].0 + ": "@ + type_text(ps[0].1) + ","@).len();
        assert forall|k: int| 0 <= k < rest.len() implies plain_property(#[trigger] rest[k]) by {
            assert(rest[k] == ps[k + 1]);
        }
        lemma_properties_text(s, e, rest);
        assert(seq![ps[0]] + rest =~= ps);
        lemma_properties_text_first(ps);
        lemma_plain_property_text(ps[0]);
        let al = attributes_line(ps[0].1.attributes, "\t"@);
        let pre = attributes_prefix(ps[0].1.attributes, "\n\t"@);
        assert(("\n"@ + al + "\t"@).len() == ("\n\t"@ + pre).len());
        assert(al.len() == pre.len());
    }
}

/// A data type whose attributes, properties and comments read back.
pub open spec fn plain_data(n: Seq<char>, d: DataTypeModel) -> bool {
    &&& is_identifier(n)
    &&& forall|k: int| 0 <= k < d.attributes.len() ==> plain_attribute(#[trigger] d.attributes[k])
    &&& forall|k: int| 0 <= k < d.properties.len() ==> plain_property(#[trigger] d.properties[k])
}

/// An import whose attributes read back.
pub open spec fn plain_import(im: ImportModel) -> bool {
    &&& forall|k: int| 0 <= k < im.attributes.len() ==> plain_attribute(#[trigger] im.attributes[k])
    &&& is_path(im.path)
}

/// The elements whose text the laws below read back.
pub open spec fn plain_element(el: ElementModel) -> bool {
    match el {
        ElementModel::DataType(n, d) => plain_data(n, d),
        ElementModel::Import(im) => plain_import(im),
        ElementModel::Enum(n, e) => plain_enum(n, e),
        ElementModel::Comment(c) => plain_comment(c),
        _ => false,
    }
}

/// The text in front of a name: the attributes and a whitespace gap, or
/// nothing where there are no attributes.
pub open spec fn attributes_prefix(attrs: Seq<AttributeModel>, gap: Seq<char>) -> Seq<char> {
    if attrs.len() == 0 {
        Seq::empty()
    } else {
        attributes_text(attrs) + gap
    }
}

/// Attributes, a whitespace gap and then a name read back as those attributes,
/// and the name follows.
pub proof fn lemma_attributes_gap(
    s: Seq<char>,
    i: int,
    k: int,
    attrs: Seq<AttributeModel>,
    gap: Seq<char>,
    core: Seq<char>,
) -> (a: int)
    requires
        0 <= i <= k,
        skip_ws(s, i) == k,
        forall|x: int| 0 <= x < attrs.len() ==> plain_attribute(#[trigger] attrs[x]),
        all_ws(gap),
        core.len() > 0,
        is_ident_start(core[0]),
        holds_at(s, k, attributes_prefix(attrs, gap) + core),
    ensures
        sp_attributes(s, i) == Ok::<_, ParseErrorModel>((attrs, a)),
        0 <= a <= k + attributes_prefix(attrs, gap).len(),
        skip_ws(s, a) == k + attributes_prefix(attrs, gap).len(),
        holds_at(s, k + attributes_prefix(attrs, gap).len(), core),
{
    let pre = attributes_prefix(attrs, gap);
    lemma_holds_concat(s, k, pre, core);
    lemma_holds_index(s, k + pre.len(), core, 0);
    if attrs.len() == 0 {
        assert(attrs =~= Seq::<AttributeModel>::empty());
        lemma_holds_index(s, k, core, 0);
        assert(pre =~= Seq::<char>::empty());
        i
    } else {
        let at = attributes_text(attrs);
        lemma_holds_concat(s, k, at, gap);
        lemma_attributes_text(s, i, k, attrs);
        assert forall|x: int| k + at.len() <= x < k + pre.len() implies is_ws(#[trigger] s[x]) by {
            lemma_holds_index(s, k + at.len(), gap, x - k - at.len());
        }
        lemma_skip_ws_run(s, k + at.len(), k + pre.len());
        k + at.len()
    }
}

/// Attributes on the line before a declaration read back as themselves, and
/// the declaration's keyword follows.
pub proof fn lemma_attributes_prefix(
    s: Seq<char>,
    i: int,
    k: int,
    attrs: Seq<AttributeModel>,
    core: Seq<char>,
) -> (a: int)
    requires
        0 <= i <= k,
        skip_ws(s, i) == k,
        forall|x: int| 0 <= x < attrs.len() ==> plain_attribute(#[trigger] attrs[x]),
        core.len() > 0,
        is_ident_start(core[0]),
        holds_at(s, k, attributes_line(attrs, Seq::empty()) + core),
    ensures
        sp_attributes(s, i) == Ok::<_, ParseErrorModel>((attrs, a)),
        0 <= a <= k + attributes_line(attrs, Seq::empty()).len(),
        skip_ws(s, a) == k + attributes_line(attrs, Seq::empty()).len(),
        holds_at(s, k + attributes_line(attrs, Seq::empty()).len(), core),
{
    reveal_strlit("\n");
    let al = attributes_line(attrs, Seq::empty());
    lemma_holds_concat(s, k, al, core);
    lemma_holds_index(s, k + al.len(), core, 0);
    if attrs.len() == 0 {
        assert(al =~= Seq::<char>::empty());
        assert(attrs =~= Seq::<AttributeModel>::empty());
        i
    } else {
        let at = attributes_text(attrs);
        assert(al =~= at + seq!['\n']);
        lemma_holds_concat(s, k, at, seq!['\n']);
        lemma_holds_index(s, k + at.len(), seq!['\n'], 0);
        lemma_attributes_text(s, i, k, attrs);
        lemma_skip_ws_one(s, k + at.len());
        k + at.len()
    }
}

/// The text of such a data type reads back as that
/// data type, wherever only whitespace precedes it; reading stops at its `;`.
#[verifier::rlimit(100)]
pub proof fn lemma_data_text(s: Seq<char>, i: int, k0: int, n: Seq<char>, d: DataTypeModel)
    requires
        0 <= i <= k0,
        skip_ws(s, i) == k0,
        plain_data(n, d),
        holds_at(s, k0, datatype_text(n, d) + "\n"@),
    ensures
        sp_element(s, i) == Ok::<_, ParseErrorModel>(
            (ElementModel::DataType(n, d), k0 + datatype_text(n, d).len()),
        ),
{
    reveal_strlit("data ");
    reveal_strlit(" {\n");
    reveal_strlit("};\n");
    reveal_strlit("\n");
    reveal_strlit("};");
    let al = attributes_line(d.attributes, Seq::empty());
    let core = "data "@ + n + " {\n"@ + properties_text(d.properties) + "};\n"@;
    assert(datatype_text(n, d) + "\n"@ =~= al + core);
    let a = lemma_attributes_prefix(s, i, k0, d.attributes, core);
    let k = k0 + al.len();
    let ps = d.properties;
    let pt = properties_text(ps);
    let text = datatype_text(n, d);
    let head = "data "@ + n + seq![' ', '{'];
    assert(core =~= head + ("\n"@ + pt + "};"@) + "\n"@);
    lemma_holds_concat(s, k, head + ("\n"@ + pt + "};"@), "\n"@);
    lemma_holds_concat(s, k, head, "\n"@ + pt + "};"@);
    lemma_holds_concat(s, k, "data "@ + n, seq![' ', '{']);
    lemma_holds_concat(s, k, "data "@, n);
    assert("data "@ =~= seq!['d', 'a', 't', 'a', ' ']);
    lemma_holds_index(s, k, "data "@, 0);
    lemma_holds_index(s, k, "data "@, 4);
    assert(s[k] == 'd' && s[k + 4] == ' ');
    lemma_holds_index(s, k + 5, n, 0);
    let ne = k + 5 + n.len();
    lemma_holds_index(s, ne, seq![' ', '{'], 0);
    lemma_holds_index(s, ne, seq![' ', '{'], 1);
    // no attributes, then the keyword
    assert(holds_at(s, k, word_data())) by {
        assert(s.subrange(k, k + 5) == "data "@);
        assert(s.subrange(k, k + 4) =~= s.subrange(k, k + 5).subrange(0, 4));
        assert(s.subrange(k, k + 4) =~= word_data());
    }
    lemma_ident_text(s, k, word_data());
    lemma_skip_ws_none(s, k);
    assert(sp_ident(s, a) == sp_ident(s, k));
    assert(word_data() != word_import()) by {
        assert(word_data().len() != word_import().len());
    }
    // the name
    lemma_skip_ws_one(s, k + 4);
    lemma_ident_text(s, k + 5, n);
    assert(sp_ident(s, k + 4) == sp_ident(s, k + 5)) by {
        lemma_skip_ws_none(s, k + 5);
    }
    lemma_skip_ws_one(s, ne);
    assert(sp_symbol(s, ne, '{') == Some(ne + 2));
    // the body
    lemma_properties_text(s, ne + 2, ps);
    let pe = ne + 2 + 1 + pt.len() + 1;
    assert(("\n"@ + pt + "};"@)[1 + pt.len() as int + 1] == ';');
    lemma_holds_index(s, ne + 2, "\n"@ + pt + "};"@, 1 + pt.len() as int + 1);
    lemma_skip_ws_none(s, pe);
    assert(sp_symbol(s, pe, ';') == Some(pe + 1));
    assert(sp_data(s, k + 4, d.attributes) == Ok::<_, ParseErrorModel>(
        (ElementModel::DataType(n, d), pe + 1),
    ));
}

/// The text of an import without attributes reads back as that import,
/// wherever only whitespace precedes it; reading stops at its `;`.
#[verifier::rlimit(60)]
pub proof fn lemma_import_text(s: Seq<char>, i: int, k0: int, im: ImportModel)
    requires
        0 <= i <= k0,
        skip_ws(s, i) == k0,
        plain_import(im),
        holds_at(s, k0, import_text(im)),
    ensures
        sp_element(s, i) == Ok::<_, ParseErrorModel>(
            (ElementModel::Import(im), k0 + import_text(im).len() - 1),
        ),
{
    reveal_strlit("import ");
    reveal_strlit(";\n");
    let al = attributes_line(im.attributes, Seq::empty());
    let core = "import "@ + join_path(im.path) + ";\n"@;
    assert(import_text(im) =~= al + core);
    let a = lemma_attributes_prefix(s, i, k0, im.attributes, core);
    let k = k0 + al.len();
    let p = join_path(im.path);
    let text = import_text(im);
    assert(core =~= "import "@ + p + seq![';'] + seq!['\n']);
    lemma_holds_concat(s, k, "import "@ + p + seq![';'], seq!['\n']);
    lemma_holds_concat(s, k, "import "@ + p, seq![';']);
    lemma_holds_concat(s, k, "import "@, p);
    assert("import "@ =~= seq!['i', 'm', 'p', 'o', 'r', 't', ' ']);
    lemma_holds_index(s, k, "import "@, 0);
    lemma_holds_index(s, k, "import "@, 6);
    assert(s[k] == 'i' && s[k + 6] == ' ');
    let pe = k + 7 + p.len();
    lemma_holds_index(s, pe, seq![';'], 0);
    assert(holds_at(s, k, word_import())) by {
        assert(s.subrange(k, k + 7) == "import "@);
        assert(s.subrange(k, k + 6) =~= s.subrange(k, k + 7).subrange(0, 6));
        assert(s.subrange(k, k + 6) =~= word_import());
    }
    lemma_ident_text(s, k, word_import());
    lemma_skip_ws_none(s, k);
    assert(sp_ident(s, a) == sp_ident(s, k));
    lemma_type_text_start(crate::ast::TypeNameModel {
        typ: im.path,
        is_list: false,
        count: None,
        attributes: Seq::empty(),
        comments: Seq::empty(),
    });
    lemma_holds_index(s, k + 7, p, 0);
    lemma_skip_ws_one(s, k + 6);
    lemma_path_text(s, k + 7, im.path);
    assert(sp_path(s, k + 6) == sp_path(s, k + 7)) by {
        lemma_skip_ws_none(s, k + 7);
    }
    lemma_skip_ws_none(s, pe);
    assert(sp_symbol(s, pe, ';') == Some(pe + 1));
    assert(sp_import(s, k + 6, im.attributes) == Ok::<_, ParseErrorModel>(
        (ElementModel::Import(im), pe + 1),
    ));
}

/// The decimal text of an `i64` reads back as that integer, wherever it is
/// followed by something other than a digit.
pub proof fn lemma_int_text(s: Seq<char>, k: int, x: i64)
    requires
        0 <= k,
        holds_at(s, k, int_text(x as int)),
        k + int_text(x as int).len() == s.len() || !is_digit(s[k + int_text(x as int).len()]),
    ensures
        sp_integer(s, k) == Some((int_text(x as int), Some(x), k + int_text(x as int).len())),
{
    let t = int_text(x as int);
    if x < 0 {
        let m = (-x) as nat;
        let d = nat_text(m);
        lemma_nat_text(m);
        assert(t == seq!['-'] + d);
        lemma_holds_concat(s, k, seq!['-'], d);
        lemma_holds_index(s, k, seq!['-'], 0);
        lemma_skip_ws_none(s, k);
        lemma_holds_index(s, k + 1, d, 0);
        assert forall|y: int| k + 1 <= y < k + 1 + d.len() implies is_digit(#[trigger] s[y]) by {
            lemma_holds_index(s, k + 1, d, y - k - 1);
        }
        lemma_scan_run(s, k + 1, k + 1 + d.len(), |c: char| is_digit(c));
        assert(digits_end(s, k + 1) == k + 1 + d.len());
        assert(s.subrange(k + 1, k + 1 + d.len()) == d);
        assert(s.subrange(k, k + t.len()) == t);
        assert(m <= 0x8000_0000_0000_0000);
        assert(((-m) as i64) == x);
    } else {
        let d = nat_text(x as nat);
        lemma_nat_text(x as nat);
        assert(t == d);
        lemma_holds_index(s, k, d, 0);
        lemma_skip_ws_none(s, k);
        assert forall|y: int| k <= y < k + d.len() implies is_digit(#[trigger] s[y]) by {
            lemma_holds_index(s, k, d, y - k);
        }
        lemma_scan_run(s, k, k + d.len(), |c: char| is_digit(c));
        assert(digits_end(s, k) == k + d.len());
        assert(s.subrange(k, k + d.len()) == d);
    }
}

/// A variant whose attributes and comments read back.
pub open spec fn plain_variant(v: (Seq<char>, EnumValueModel)) -> bool {
    &&& is_identifier(v.0)
    &&& forall|k: int| 0 <= k < v.1.attributes.len() ==> plain_attribute(#[trigger] v.1.attributes[k])
    &&& forall|k: int| 0 <= k < v.1.comments.len() ==> plain_comment(#[trigger] v.1.comments[k])
}

/// The text of a variant between its tab and its newline.
pub open spec fn variant_body(v: (Seq<char>, EnumValueModel)) -> Seq<char> {
    v.0 + match v.1.value {
        Some(x) => " = "@ + int_text(x as int),
        None => Seq::empty(),
    } + ","@
}

pub proof fn lemma_plain_variant_text(v: (Seq<char>, EnumValueModel))
    requires
        plain_variant(v),
    ensures
        variant_text(v) == comments_text(v.1.comments) + ("\t"@ + attributes_prefix(
            v.1.attributes,
            " "@,
        ) + variant_body(v) + "\n"@),
{
    reveal_strlit(",\n");
    reveal_strlit(",");
    reveal_strlit("\n");
    assert(attributes_inline(v.1.attributes) =~= attributes_prefix(v.1.attributes, " "@));
    assert(variant_text(v) =~= comments_text(v.1.comments) + ("\t"@ + attributes_prefix(
        v.1.attributes,
        " "@,
    ) + variant_body(v) + "\n"@));
}

pub proof fn lemma_variants_text_first(vs: Seq<(Seq<char>, EnumValueModel)>)
    requires
        vs.len() >= 1,
    ensures
        variants_text(vs) == variant_text(vs[0]) + variants_text(vs.drop_first()),
    decreases vs.len(),
{
    if vs.len() == 1 {
        assert(vs.drop_last() =~= Seq::<(Seq<char>, EnumValueModel)>::empty());
        assert(vs.drop_first() =~= Seq::<(Seq<char>, EnumValueModel)>::empty());
        assert(variants_text(vs) =~= variant_text(vs[0]) + variants_text(vs.drop_first()));
    } else {
        lemma_variants_text_first(vs.drop_last());
        assert(vs.drop_last().drop_first() =~= vs.drop_first().drop_last());
        assert(vs.drop_first().last() == vs.last());
        assert(variants_text(vs) =~= variant_text(vs[0]) + variants_text(vs.drop_first()));
    }
}

/// The text of a variant without comments reads back as that
/// variant, wherever only whitespace precedes it.
#[verifier::rlimit(60)]
pub proof fn lemma_variant_text(s: Seq<char>, i: int, k0: int, v: (Seq<char>, EnumValueModel))
    requires
        0 <= i <= k0,
        skip_ws(s, i) == k0,
        is_identifier(v.0),
        forall|x: int| 0 <= x < v.1.attributes.len() ==> plain_attribute(#[trigger] v.1.attributes[x]),
        v.1.comments.len() == 0,
        holds_at(s, k0, attributes_prefix(v.1.attributes, " "@) + variant_body(v)),
    ensures
        sp_variant(s, i) == Ok::<_, ParseErrorModel>(
            (v, k0 + attributes_prefix(v.1.attributes, " "@).len() + variant_body(v).len()),
        ),
{
    reveal_strlit(" = ");
    reveal_strlit(",");
    reveal_strlit(" ");
    assert(all_ws(" "@));
    assert(variant_body(v)[0] == v.0[0]);
    let a = lemma_attributes_gap(s, i, k0, v.1.attributes, " "@, variant_body(v));
    let k = k0 + attributes_prefix(v.1.attributes, " "@).len();
    let n = v.0;
    let ne = k + n.len();
    let b = variant_body(v);
    let tail_b = b.subrange(n.len() as int, b.len() as int);
    assert(b =~= n + tail_b);
    lemma_holds_concat(s, k, n, tail_b);
    lemma_holds_index(s, k, n, 0);
    lemma_skip_ws_none(s, k);
    assert(v.1.comments =~= Seq::<Seq<char>>::empty());
    match v.1.value {
        None => {
            assert(b =~= n + ","@);
            lemma_holds_concat(s, k, n, ","@);
            lemma_holds_index(s, ne, ","@, 0);
            lemma_ident_text(s, k, n);
            assert(sp_ident(s, a) == sp_ident(s, k));
            lemma_skip_ws_none(s, ne);
            assert(sp_symbol(s, ne, '=') is None);
            assert(sp_symbol(s, ne, ',') == Some(ne + 1));
        },
        Some(x) => {
            let it = int_text(x as int);
            assert(b =~= n + (" = "@ + it + ","@));
            lemma_holds_concat(s, k, n, " = "@ + it + ","@);
            lemma_holds_concat(s, ne, " = "@ + it, ","@);
            lemma_holds_concat(s, ne, " = "@, it);
            lemma_holds_index(s, ne, " = "@, 0);
            lemma_holds_index(s, ne, " = "@, 1);
            lemma_holds_index(s, ne, " = "@, 2);
            let ie = ne + 3 + it.len();
            lemma_holds_index(s, ie, ","@, 0);
            lemma_ident_text(s, k, n);
            assert(sp_ident(s, a) == sp_ident(s, k));
            lemma_skip_ws_one(s, ne);
            assert(sp_symbol(s, ne, '=') == Some(ne + 2));
            assert(it.len() > 0) by {
                lemma_nat_text(if x < 0 { (-x) as nat } else { x as nat });
            }
            lemma_holds_index(s, ne + 3, it, 0);
            assert(!is_ws(s[ne + 3])) by {
                if x < 0 {
                    assert(it[0] == '-');
                } else {
                    lemma_nat_text(x as nat);
                    assert(is_digit(it[0]));
                }
            }
            lemma_skip_ws_one(s, ne + 2);
            lemma_int_text(s, ne + 3, x);
            assert(sp_integer(s, ne + 2) == sp_integer(s, ne + 3)) by {
                lemma_skip_ws_none(s, ne + 3);
            }
            lemma_skip_ws_none(s, ie);
            assert(sp_symbol(s, ie, ',') == Some(ie + 1));
        },
    }
}

/// One variant, with its comment lines, after a newline, is read as that
/// variant, and reading goes on after its `,`.
#[verifier::rlimit(100)]
pub proof fn lemma_variants_step(s: Seq<char>, i: int, vs: Seq<(Seq<char>, EnumValueModel)>)
    requires
        0 <= i,
        vs.len() >= 1,
        plain_variant(vs[0]),
        holds_at(s, i, "\n"@ + variants_text(vs) + "};"@),
    ensures
        ({
            let e = i + comments_text(vs[0].1.comments).len() + 2 + attributes_prefix(
                vs[0].1.attributes,
                " "@,
            ).len() + variant_body(vs[0]).len();
            &&& holds_at(s, e, "\n"@ + variants_text(vs.drop_first()) + "};"@)
            &&& i < e <= s.len()
            &&& sp_variants(s, i, Seq::empty()) == prepend_all(
                seq![vs[0]],
                sp_variants(s, e, Seq::empty()),
            )
        }),
{
    reveal_strlit("\n");
    reveal_strlit("};");
    reveal_strlit("\t");
    let v = vs[0];
    let rest = vs.drop_first();
    let cs = v.1.comments;
    let ct = comments_text(cs);
    let body = variant_body(v);
    lemma_variants_text_first(vs);
    lemma_plain_variant_text(v);
    let pre = attributes_prefix(v.1.attributes, " "@);
    let tail2 = "\n"@ + variants_text(rest) + "};"@;
    let after = "\t"@ + pre + body + tail2;
    let whole = "\n"@ + variants_text(vs) + "};"@;
    assert(whole =~= "\n"@ + ct + after);
    lemma_comment_lines_variants(s, i, cs, Seq::empty(), after);
    assert(Seq::<Seq<char>>::empty() + cs =~= cs);
    let i2 = i + ct.len();
    let v0 = (v.0, EnumValueModel { comments: Seq::empty(), ..v.1 });
    assert(variant_body(v0) == body);
    let whole2 = "\n"@ + after;
    assert(whole2 =~= "\n"@ + "\t"@ + (pre + body) + tail2);
    lemma_holds_concat(s, i2, "\n"@ + "\t"@ + (pre + body), tail2);
    lemma_holds_concat(s, i2, "\n"@ + "\t"@, pre + body);
    lemma_holds_index(s, i2, "\n"@ + "\t"@, 0);
    lemma_holds_index(s, i2, "\n"@ + "\t"@, 1);
    lemma_holds_index(s, i2 + 2, pre + body, 0);
    assert(body[0] == v.0[0]);
    assert(is_identifier(v.0));
    assert((pre + body)[0] == '#' || is_ident_start((pre + body)[0])) by {
        reveal_strlit("#[");
        if v.1.attributes.len() > 0 {
            assert(pre =~= seq!['#', '['] + attribute_list_text(v.1.attributes) + "]"@ + " "@);
        } else {
            assert(pre =~= Seq::<char>::empty());
        }
    }
    lemma_skip_ws_run(s, i2, i2 + 2);
    assert(!comment_at(s, i2 + 2));
    assert(sp_comment(s, i2) is None);
    lemma_variant_text(s, i2, i2 + 2, v0);
    assert(EnumValueModel { comments: cs, ..v0.1 } == v.1);
    assert(!(s[i2 + 2] == '}'));
    assert(sp_variants(s, i2, cs) == prepend_all(
        seq![v],
        sp_variants(s, i2 + 2 + pre.len() + body.len(), Seq::empty()),
    ));
}

/// The lines of such variants, each after its comment lines, then `};`,
/// read
/// back as those variants; `i` is at the newline before them.
pub proof fn lemma_variants_text(s: Seq<char>, i: int, vs: Seq<(Seq<char>, EnumValueModel)>)
    requires
        forall|k: int| 0 <= k < vs.len() ==> plain_variant(#[trigger] vs[k]),
        holds_at(s, i, "\n"@ + variants_text(vs) + "};"@),
    ensures
        sp_variants(s, i, Seq::empty()) == Ok::<_, ParseErrorModel>(
            (vs, i + 1 + variants_text(vs).len() + 1),
        ),
    decreases vs.len(),
{
    reveal_strlit("\n");
    reveal_strlit("};");
    reveal_strlit("\t");
    if vs.len() == 0 {
        let vt = variants_text(vs);
        assert(vt =~= Seq::<char>::empty());
        assert("\n"@ + vt + "};"@ =~= seq!['\n', '}', ';']);
        lemma_holds_index(s, i, "\n"@ + vt + "};"@, 0);
        lemma_holds_index(s, i, "\n"@ + vt + "};"@, 1);
        lemma_skip_ws_run(s, i, i + 1);
        assert(!comment_at(s, i + 1));
        assert(sp_comment(s, i) is None);
        assert(vs =~= Seq::<(Seq<char>, EnumValueModel)>::empty());
    } else {
        let rest = vs.drop_first();
        lemma_variants_step(s, i, vs);
        let e = i + comments_text(vs[0].1.comments).len() + 2 + attributes_prefix(
            vs[0].1.attributes,
            " "@,
        ).len() + variant_body(vs[0]).len();
        assert forall|k: int| 0 <= k < rest.len() implies plain_variant(#[trigger] rest[k]) by {
            assert(rest[k] == vs[k + 1]);
        }
        lemma_variants_text(s, e, rest);
        assert(seq![vs[0]] + rest =~= vs);
        lemma_variants_text_first(vs);
        lemma_plain_variant_text(vs[0]);
    }
}

/// An enum whose attributes, variants and comments read back.
pub open spec fn plain_enum(n: Seq<char>, e: EnumModel) -> bool {
    &&& is_identifier(n)
    &&& forall|k: int| 0 <= k < e.attributes.len() ==> plain_attribute(#[trigger] e.attributes[k])
    &&& forall|k: int| 0 <= k < e.values.len() ==> plain_variant(#[trigger] e.values[k])
}

/// The text of such an enum reads back as that
/// enum, wherever only whitespace precedes it; reading stops at its `;`.
#[verifier::rlimit(100)]
pub proof fn lemma_enum_text(s: Seq<char>, i: int, k0: int, n: Seq<char>, en: EnumModel)
    requires
        0 <= i <= k0,
        skip_ws(s, i) == k0,
        plain_enum(n, en),
        holds_at(s, k0, enum_text(n, en) + "\n"@),
    ensures
        sp_element(s, i) == Ok::<_, ParseErrorModel>(
            (ElementModel::Enum(n, en), k0 + enum_text(n, en).len()),
        ),
{
    reveal_strlit("enum ");
    reveal_strlit(" {\n");
    reveal_strlit("};\n");
    reveal_strlit("\n");
    reveal_strlit("};");
    let al = attributes_line(en.attributes, Seq::empty());
    let core = "enum "@ + n + " {\n"@ + variants_text(en.values) + "};\n"@;
    assert(enum_text(n, en) + "\n"@ =~= al + core);
    let a = lemma_attributes_prefix(s, i, k0, en.attributes, core);
    let k = k0 + al.len();
    let vs = en.values;
    let vt = variants_text(vs);
    let text = enum_text(n, en);
    let head = "enum "@ + n + seq![' ', '{'];
    assert(core =~= head + ("\n"@ + vt + "};"@) + "\n"@);
    lemma_holds_concat(s, k, head + ("\n"@ + vt + "};"@), "\n"@);
    lemma_holds_concat(s, k, head, "\n"@ + vt + "};"@);
    lemma_holds_concat(s, k, "enum "@ + n, seq![' ', '{']);
    lemma_holds_concat(s, k, "enum "@, n);
    assert("enum "@ =~= seq!['e', 'n', 'u', 'm', ' ']);
    lemma_holds_index(s, k, "enum "@, 0);
    lemma_holds_index(s, k, "enum "@, 4);
    lemma_holds_index(s, k + 5, n, 0);
    let ne = k + 5 + n.len();
    lemma_holds_index(s, ne, seq![' ', '{'], 0);
    lemma_holds_index(s, ne, seq![' ', '{'], 1);
    assert(holds_at(s, k, word_enum())) by {
        assert(s.subrange(k, k + 5) == "enum "@);
        assert(s.subrange(k, k + 4) =~= s.subrange(k, k + 5).subrange(0, 4));
        assert(s.subrange(k, k + 4) =~= word_enum());
    }
    lemma_ident_text(s, k, word_enum());
    lemma_skip_ws_none(s, k);
    assert(sp_ident(s, a) == sp_ident(s, k));
    assert(word_enum() != word_import() && word_enum() != word_data()) by {
        assert(word_enum().len() != word_import().len());
        assert(word_enum()[0] != word_data()[0]);
    }
    lemma_skip_ws_one(s, k + 4);
    lemma_ident_text(s, k + 5, n);
    assert(sp_ident(s, k + 4) == sp_ident(s, k + 5)) by {
        lemma_skip_ws_none(s, k + 5);
    }
    lemma_skip_ws_one(s, ne);
    assert(sp_symbol(s, ne, '{') == Some(ne + 2));
    lemma_variants_text(s, ne + 2, vs);
    let pe = ne + 2 + 1 + vt.len() + 1;
    assert(("\n"@ + vt + "};"@)[1 + vt.len() as int + 1] == ';');
    lemma_holds_index(s, ne + 2, "\n"@ + vt + "};"@, 1 + vt.len() as int + 1);
    lemma_skip_ws_none(s, pe);
    assert(sp_symbol(s, pe, ';') == Some(pe + 1));
    assert(sp_enum(s, k + 4, en.attributes) == Ok::<_, ParseErrorModel>(
        (ElementModel::Enum(n, en), pe + 1),
    ));
}

/// A comment text that reads back as itself: one line, without whitespace
/// at either end.
pub open spec fn plain_comment(c: Seq<char>) -> bool {
    &&& forall|k: int| 0 <= k < c.len() ==> #[trigger] c[k] != '\n'
    &&& c.len() > 0 ==> !is_ws(c[0]) && !is_ws(c.last())
}

/// The line `/// c` reads back as the comment `c`, wherever only whitespace
/// precedes it; reading stops before the newline.
pub proof fn lemma_comment_text(s: Seq<char>, i: int, k: int, c: Seq<char>)
    requires
        0 <= i <= k,
        skip_ws(s, i) == k,
        plain_comment(c),
        holds_at(s, k, "/// "@ + c + "\n"@),
    ensures
        sp_comment(s, i) == Some((c, k + 4 + c.len())),
{
    reveal_strlit("/// ");
    reveal_strlit("\n");
    let t = "/// "@ + c + "\n"@;
    assert(t =~= seq!['/', '/', '/', ' '] + c + seq!['\n']);
    lemma_holds_concat(s, k, "/// "@ + c, "\n"@);
    lemma_holds_concat(s, k, "/// "@, c);
    lemma_holds_index(s, k, "/// "@, 0);
    lemma_holds_index(s, k, "/// "@, 1);
    lemma_holds_index(s, k, "/// "@, 2);
    lemma_holds_index(s, k, "/// "@, 3);
    let e = k + 4 + c.len();
    lemma_holds_index(s, e, "\n"@, 0);
    assert(comment_at(s, k));
    assert forall|x: int| k + 3 <= x < e implies #[trigger] s[x] != '\n' by {
        if x > k + 3 {
            lemma_holds_index(s, k + 4, c, x - k - 4);
        }
    }
    lemma_scan_run(s, k + 3, e, |ch: char| ch != '\n');
    assert(line_end(s, k + 3) == e);
    if c.len() == 0 {
        assert(trim_front(s, k + 4, e) == e);
        assert(trim_front(s, k + 3, e) == e);
        assert(trim_back(s, e, e) == e);
        assert(s.subrange(e, e) =~= c);
    } else {
        lemma_holds_index(s, k + 4, c, 0);
        lemma_holds_index(s, k + 4, c, c.len() - 1);
        assert(trim_front(s, k + 4, e) == k + 4);
        assert(trim_front(s, k + 3, e) == k + 4);
        assert(trim_back(s, k + 4, e) == e);
        assert(s.subrange(k + 4, e) == c);
    }
}

/// The rendering of the elements from `i` on, each after its separator.
pub open spec fn pretty_from(els: Seq<ElementModel>, i: int) -> Seq<char>
    decreases els.len() - i,
{
    if 0 <= i < els.len() {
        separator(els, i) + element_text(els[i]) + pretty_from(els, i + 1)
    } else {
        Seq::empty()
    }
}

pub proof fn lemma_pretty_split(els: Seq<ElementModel>, i: int)
    requires
        0 <= i <= els.len(),
    ensures
        pretty_upto(els, i) + pretty_from(els, i) == pretty_model(els),
    decreases els.len() - i,
{
    if i < els.len() {
        lemma_pretty_split(els, i + 1);
        assert(pretty_upto(els, i) + pretty_from(els, i) =~= pretty_upto(els, i + 1) + pretty_from(
            els,
            i + 1,
        ));
    } else {
        assert(pretty_upto(els, i) + pretty_from(els, i) =~= pretty_upto(els, i));
    }
}

/// `w` is whitespace only.
pub open spec fn all_ws(w: Seq<char>) -> bool {
    forall|k: int| 0 <= k < w.len() ==> is_ws(#[trigger] w[k])
}

/// Attributes on a line of their own, then a declaration starting with a
/// letter: the text starts with neither whitespace nor `/`.
pub proof fn lemma_attributes_line_start(attrs: Seq<AttributeModel>, core: Seq<char>)
    requires
        core.len() > 0,
        is_ident_start(core[0]),
    ensures
        (attributes_line(attrs, Seq::empty()) + core).len() > 0,
        !is_ws((attributes_line(attrs, Seq::empty()) + core)[0]),
        (attributes_line(attrs, Seq::empty()) + core)[0] != '/',
{
    reveal_strlit("#[");
    reveal_strlit("\n");
    let al = attributes_line(attrs, Seq::empty());
    if attrs.len() == 0 {
        assert(al =~= Seq::<char>::empty());
        assert((al + core)[0] == core[0]);
    } else {
        assert(al =~= seq!['#', '['] + attribute_list_text(attrs) + "]"@ + "\n"@);
        assert((al + core)[0] == '#');
    }
}

/// The text of such an element starts with neither whitespace nor, unless it
/// is a comment, `/`, and ends with a newline.
pub proof fn lemma_plain_element_ends(el: ElementModel)
    requires
        plain_element(el),
    ensures
        element_text(el).len() >= 2,
        !is_ws(element_text(el)[0]),
        el is Comment || element_text(el)[0] != '/',
        element_text(el).last() == '\n',
        element_text(el) == element_text(el).drop_last() + seq!['\n'],
{
    reveal_strlit("};");
    reveal_strlit("\n");
    reveal_strlit("data ");
    reveal_strlit("};\n");
    reveal_strlit("import ");
    reveal_strlit(";\n");
    reveal_strlit(" {\n");
    let t = element_text(el);
    match el {
        ElementModel::DataType(n, d) => {
            let al = attributes_line(d.attributes, Seq::empty());
            assert(t == crate::pretty::datatype_text(n, d) + "\n"@);
            let core = "data "@ + n + " {\n"@ + properties_text(d.properties) + "};\n"@;
            assert(t =~= al + core);
            lemma_attributes_line_start(d.attributes, core);
        },
        ElementModel::Import(im) => {
            let al = attributes_line(im.attributes, Seq::empty());
            let core = "import "@ + join_path(im.path) + ";\n"@;
            assert(t =~= al + core);
            lemma_attributes_line_start(im.attributes, core);
        },
        ElementModel::Comment(c) => {
            reveal_strlit("/// ");
            reveal_strlit("\n");
            assert(t =~= "/// "@ + c + "\n"@);
            assert(t[0] == '/');
        },
        ElementModel::Enum(n, e) => {
            reveal_strlit("enum ");
            let al = attributes_line(e.attributes, Seq::empty());
            assert(t == enum_text(n, e) + "\n"@);
            let core = "enum "@ + n + " {\n"@ + variants_text(e.values) + "};\n"@;
            assert(t =~= al + core);
            lemma_attributes_line_start(e.attributes, core);
        },
        _ => {},
    }
    assert(t =~= t.drop_last() + seq!['\n']);
}

/// The text of such an element reads back as that element, wherever only
/// whitespace precedes it; reading stops before its final newline.
#[verifier::rlimit(60)]
pub proof fn lemma_plain_element_text(s: Seq<char>, i: int, k: int, el: ElementModel)
    requires
        0 <= i <= k,
        skip_ws(s, i) == k,
        plain_element(el),
        !(el is Comment),
        holds_at(s, k, element_text(el)),
    ensures
        sp_element(s, i) == Ok::<_, ParseErrorModel>((el, k + element_text(el).len() - 1)),
{
    reveal_strlit("\n");
    match el {
        ElementModel::DataType(n, d) => {
            assert(element_text(el) == crate::pretty::datatype_text(n, d) + "\n"@);
            lemma_data_text(s, i, k, n, d);
        },
        ElementModel::Import(im) => {
            lemma_import_text(s, i, k, im);
        },
        ElementModel::Enum(n, en) => {
            assert(element_text(el) == enum_text(n, en) + "\n"@);
            lemma_enum_text(s, i, k, n, en);
        },
        _ => {},
    }
}

/// Where the text of element `i` stands after whitespace, and where its
/// final newline is.
#[verifier::rlimit(80)]
pub proof fn lemma_step_layout(
    s: Seq<char>,
    pos: int,
    lead: Seq<char>,
    els: Seq<ElementModel>,
    i: int,
) -> (k: int)
    requires
        0 <= pos,
        0 <= i < els.len(),
        plain_element(els[i]),
        all_ws(lead),
        holds_at(s, pos, lead + pretty_from(els, i)),
        s.len() == pos + lead.len() + pretty_from(els, i).len(),
    ensures
        pos <= k,
        skip_ws(s, pos) == k,
        holds_at(s, k, element_text(els[i])),
        k + element_text(els[i]).len() - 1 == s.len() - 1 - pretty_from(els, i + 1).len(),
        pos < s.len() - 1 - pretty_from(els, i + 1).len(),
        holds_at(s, s.len() - 1 - pretty_from(els, i + 1).len(), seq!['\n'] + pretty_from(els, i + 1)),
{
    reveal_strlit("\n");
    let rest = pretty_from(els, i);
    lemma_holds_concat(s, pos, lead, rest);
    let el = els[i];
    let sep = separator(els, i);
    let et = element_text(el);
    let tail = pretty_from(els, i + 1);
    assert(sep == Seq::<char>::empty() || sep == "\n"@);
    lemma_plain_element_ends(el);
    assert(rest == sep + et + tail);
    lemma_holds_concat(s, pos + lead.len(), sep + et, tail);
    lemma_holds_concat(s, pos + lead.len(), sep, et);
    let k = pos + lead.len() + sep.len();
    assert forall|x: int| pos <= x < k implies is_ws(#[trigger] s[x]) by {
        if x >= pos + lead.len() {
            lemma_holds_index(s, pos + lead.len(), sep, x - pos - lead.len());
        } else {
            lemma_holds_index(s, pos, lead, x - pos);
        }
    }
    lemma_holds_index(s, k, et, 0);
    lemma_skip_ws_run(s, pos, k);
    let e = k + et.len() - 1;
    lemma_holds_concat(s, k, et.drop_last(), seq!['\n']);
    assert(s.subrange(e, e + 1 + tail.len()) =~= seq!['\n'] + tail) by {
        assert(s.subrange(e, e + 1) == seq!['\n']);
        assert(s.subrange(k + et.len(), k + et.len() + tail.len()) == tail);
    }
    k
}

/// Whitespace, then one element's text: the element is read, and reading
/// goes on at its final newline.
#[verifier::rlimit(80)]
pub proof fn lemma_elements_step(
    s: Seq<char>,
    pos: int,
    lead: Seq<char>,
    els: Seq<ElementModel>,
    i: int,
)
    requires
        0 <= pos,
        0 <= i < els.len(),
        plain_element(els[i]),
        all_ws(lead),
        holds_at(s, pos, lead + pretty_from(els, i)),
        s.len() == pos + lead.len() + pretty_from(els, i).len(),
    ensures
        ({
            let e = s.len() - 1 - pretty_from(els, i + 1).len();
            &&& pos < e <= s.len()
            &&& holds_at(s, e, seq!['\n'] + pretty_from(els, i + 1))
            &&& sp_elements(s, pos) == prepend_all(seq![els[i]], sp_elements(s, e))
        }),
{
    let k = lemma_step_layout(s, pos, lead, els, i);
    let el = els[i];
    lemma_plain_element_ends(el);
    match el {
        ElementModel::Comment(c) => {
            reveal_strlit("/// ");
            reveal_strlit("\n");
            assert(element_text(el) == "/// "@ + c + "\n"@);
            lemma_comment_text(s, pos, k, c);
        },
        _ => {
            lemma_holds_index(s, k, element_text(el), 0);
            assert(!comment_at(s, k));
            assert(sp_comment(s, pos) is None);
            lemma_plain_element_text(s, pos, k, el);
        },
    }
}

/// Whitespace, then the rendering of the elements from `i` on, reads back as
/// those elements.
#[verifier::rlimit(100)]
pub proof fn lemma_elements_text(
    s: Seq<char>,
    pos: int,
    lead: Seq<char>,
    els: Seq<ElementModel>,
    i: int,
)
    requires
        0 <= pos,
        0 <= i <= els.len(),
        forall|k: int| 0 <= k < els.len() ==> plain_element(#[trigger] els[k]),
        all_ws(lead),
        holds_at(s, pos, lead + pretty_from(els, i)),
        s.len() == pos + lead.len() + pretty_from(els, i).len(),
    ensures
        sp_elements(s, pos) == Ok::<_, ParseErrorModel>((els.subrange(i, els.len() as int), s.len() as int)),
    decreases els.len() - i,
{
    if i == els.len() {
        let rest = pretty_from(els, i);
        lemma_holds_concat(s, pos, lead, rest);
        assert(rest =~= Seq::<char>::empty());
        assert forall|x: int| pos <= x < s.len() implies is_ws(#[trigger] s[x]) by {
            lemma_holds_index(s, pos, lead, x - pos);
        }
        lemma_skip_ws_run(s, pos, s.len() as int);
        assert(!comment_at(s, s.len() as int));
        assert(sp_comment(s, pos) is None);
        assert(els.subrange(i, els.len() as int) =~= Seq::<ElementModel>::empty());
    } else {
        lemma_elements_step(s, pos, lead, els, i);
        let e = s.len() - 1 - pretty_from(els, i + 1).len();
        assert(all_ws(seq!['\n']));
        lemma_elements_text(s, e, seq!['\n'], els, i + 1);
        assert(seq![els[i]] + els.subrange(i + 1, els.len() as int) =~= els.subrange(
            i,
            els.len() as int,
        ));
    }
}

/// A document without services reads back, once printed, as the same
/// elements, where its comments are single lines without surrounding
/// whitespace and its attribute values hold no `"`.
pub proof fn lemma_plain_document_round_trip(els: Seq<ElementModel>)
    requires
        forall|k: int| 0 <= k < els.len() ==> plain_element(#[trigger] els[k]),
    ensures
        crate::parser::parse_model(pretty_model(els)) == Ok::<_, ParseErrorModel>(els),
{
    let s = pretty_model(els);
    lemma_pretty_split(els, 0);
    assert(pretty_upto(els, 0) =~= Seq::<char>::empty());
    assert(s =~= Seq::<char>::empty() + pretty_from(els, 0));
    assert(holds_at(s, 0, Seq::<char>::empty() + pretty_from(els, 0))) by {
        assert(s.subrange(0, s.len() as int) =~= s);
    }
    lemma_elements_text(s, 0, Seq::empty(), els, 0);
    assert(els.subrange(0, els.len() as int) =~= els);
}

/// For such a document, printing what its printed text parses to gives the
/// same text again.
pub proof fn lemma_plain_document_printing_idempotent(els: Seq<ElementModel>)
    requires
        forall|k: int| 0 <= k < els.len() ==> plain_element(#[trigger] els[k]),
    ensures
        crate::parser::parse_model(pretty_model(els)) is Ok,
        pretty_model(crate::parser::parse_model(pretty_model(els))->Ok_0) == pretty_model(els),
{
    lemma_plain_document_round_trip(els);
}

/// For such a document, the module assembled from its printed text is the
/// module assembled from the document.
pub proof fn lemma_plain_document_assembles_alike(namespace: Seq<Seq<char>>, els: Seq<ElementModel>)
    requires
        forall|k: int| 0 <= k < els.len() ==> plain_element(#[trigger] els[k]),
    ensures
        crate::parser::parse_model(pretty_model(els)) is Ok,
        crate::assemble::assemble_model(
            namespace,
            crate::parser::parse_model(pretty_model(els))->Ok_0,
        ) == crate::assemble::assemble_model(namespace, els),
{
    lemma_plain_document_round_trip(els);
}

/// A parameter that reads back: an identifier, and a value without `"`.
pub open spec fn plain_param(p: ParameterModel) -> bool {
    &&& is_identifier(p.name)
    &&& p.value is Some ==> forall|k: int|
        0 <= k < p.value->Some_0.len() ==> #[trigger] p.value->Some_0[k] != '"'
}

/// An attribute that reads back: a path and such parameters.
pub open spec fn plain_attribute(a: AttributeModel) -> bool {
    &&& is_path(a.name)
    &&& forall|k: int| 0 <= k < a.parameters.len() ==> plain_param(#[trigger] a.parameters[k])
}

/// A parameter's text reads back as that parameter, before `,` or `)`.
pub proof fn lemma_param_text(s: Seq<char>, i: int, k: int, p: ParameterModel)
    requires
        0 <= i <= k,
        skip_ws(s, i) == k,
        plain_param(p),
        holds_at(s, k, param_text(p)),
        k + param_text(p).len() < s.len(),
        s[k + param_text(p).len()] == ',' || s[k + param_text(p).len()] == ')',
    ensures
        sp_param(s, i) == Ok::<_, ParseErrorModel>((p, k + param_text(p).len())),
{
    reveal_strlit(" = \"");
    reveal_strlit("\"");
    let n = p.name;
    let ne = k + n.len();
    match p.value {
        None => {
            assert(param_text(p) == n);
            lemma_ident_text(s, k, n);
            assert(sp_ident(s, i) == sp_ident(s, k)) by {
                lemma_holds_index(s, k, n, 0);
                lemma_skip_ws_none(s, k);
            }
            lemma_skip_ws_none(s, ne);
            assert(sp_symbol(s, ne, '=') is None);
        },
        Some(v) => {
            let pt = param_text(p);
            assert(pt == n + " = \""@ + v + "\""@);
            assert(pt =~= n + (seq![' ', '=', ' '] + (seq!['"'] + v + seq!['"'])));
            lemma_holds_concat(s, k, n, seq![' ', '=', ' '] + (seq!['"'] + v + seq!['"']));
            lemma_holds_concat(s, ne, seq![' ', '=', ' '], seq!['"'] + v + seq!['"']);
            lemma_holds_index(s, ne, seq![' ', '=', ' '], 0);
            lemma_holds_index(s, ne, seq![' ', '=', ' '], 1);
            lemma_holds_index(s, ne, seq![' ', '=', ' '], 2);
            let q = ne + 3;
            lemma_holds_concat(s, q, seq!['"'] + v, seq!['"']);
            lemma_holds_concat(s, q, seq!['"'], v);
            lemma_holds_index(s, q, seq!['"'], 0);
            lemma_holds_index(s, q + 1 + v.len(), seq!['"'], 0);
            lemma_holds_index(s, k, n, 0);
            lemma_skip_ws_none(s, k);
            lemma_ident_text(s, k, n);
            assert(sp_ident(s, i) == sp_ident(s, k));
            lemma_skip_ws_one(s, ne);
            assert(sp_symbol(s, ne, '=') == Some(ne + 2));
            lemma_skip_ws_one(s, ne + 2);
            assert forall|x: int| q + 1 <= x < q + 1 + v.len() implies #[trigger] s[x] != '"' by {
                lemma_holds_index(s, q + 1, v, x - q - 1);
            }
            lemma_scan_run(s, q + 1, q + 1 + v.len(), |c: char| c != '"');
            assert(quote_end(s, q + 1) == q + 1 + v.len());
            assert(s.subrange(q + 1, q + 1 + v.len()) == v);
            assert(sp_string(s, ne + 2) == Some((v, q + 2 + v.len())));
        },
    }
}

/// The parameters after the first, each after `, `.
pub open spec fn params_tail_text(ps: Seq<ParameterModel>) -> Seq<char>
    decreases ps.len(),
{
    if ps.len() == 0 {
        Seq::empty()
    } else {
        ", "@ + param_text(ps[0]) + params_tail_text(ps.drop_first())
    }
}

pub proof fn lemma_params_text_split(ps: Seq<ParameterModel>)
    requires
        ps.len() >= 1,
    ensures
        params_text(ps) == param_text(ps[0]) + params_tail_text(ps.drop_first()),
    decreases ps.len(),
{
    if ps.len() == 1 {
        assert(ps.drop_first() =~= Seq::<ParameterModel>::empty());
        assert(params_text(ps) =~= param_text(ps[0]) + params_tail_text(ps.drop_first()));
    } else {
        lemma_params_text_split(ps.drop_last());
        lemma_params_tail_push(ps.drop_first().drop_last(), ps.last());
        assert(ps.drop_last().drop_first() =~= ps.drop_first().drop_last());
        assert(ps.drop_first().drop_last().push(ps.last()) =~= ps.drop_first());
        assert(params_text(ps) =~= param_text(ps[0]) + params_tail_text(ps.drop_first()));
    }
}

pub proof fn lemma_params_tail_push(ps: Seq<ParameterModel>, p: ParameterModel)
    ensures
        params_tail_text(ps.push(p)) == params_tail_text(ps) + ", "@ + param_text(p),
    decreases ps.len(),
{
    if ps.len() == 0 {
        assert(ps.push(p).drop_first() =~= Seq::<ParameterModel>::empty());
        assert(ps.push(p)[0] == p);
        assert(params_tail_text(Seq::<ParameterModel>::empty()) == Seq::<char>::empty());
        assert(params_tail_text(ps) == Seq::<char>::empty());
        assert(params_tail_text(ps.push(p)) == ", "@ + param_text(p) + params_tail_text(
            ps.push(p).drop_first(),
        ));
        assert(params_tail_text(ps.push(p)) =~= params_tail_text(ps) + ", "@ + param_text(p));
    } else {
        lemma_params_tail_push(ps.drop_first(), p);
        assert(ps.push(p).drop_first() =~= ps.drop_first().push(p));
        assert(ps.push(p)[0] == ps[0]);
        assert(params_tail_text(ps.push(p)) == ", "@ + param_text(ps[0]) + params_tail_text(
            ps.drop_first().push(p),
        ));
        assert(params_tail_text(ps) == ", "@ + param_text(ps[0]) + params_tail_text(ps.drop_first()));
        assert(params_tail_text(ps.push(p)) =~= params_tail_text(ps) + ", "@ + param_text(p));
    }
}

/// Further parameters, each after `, `, then `)`, read back as themselves.
pub proof fn lemma_params_more_text(s: Seq<char>, i: int, ps: Seq<ParameterModel>)
    requires
        0 <= i,
        forall|k: int| 0 <= k < ps.len() ==> plain_param(#[trigger] ps[k]),
        holds_at(s, i, params_tail_text(ps) + seq![')']),
    ensures
        sp_params_more(s, i) == Ok::<_, ParseErrorModel>((ps, i + params_tail_text(ps).len())),
    decreases ps.len(),
{
    reveal_strlit(", ");
    let t = params_tail_text(ps);
    lemma_holds_concat(s, i, t, seq![')']);
    lemma_holds_index(s, i + t.len(), seq![')'], 0);
    if ps.len() == 0 {
        assert(t =~= Seq::<char>::empty());
        lemma_skip_ws_none(s, i);
        assert(sp_symbol(s, i, ',') is None);
        assert(ps =~= Seq::<ParameterModel>::empty());
    } else {
        let p = ps[0];
        let rest = ps.drop_first();
        let pt = param_text(p);
        let rt = params_tail_text(rest);
        assert(t =~= seq![',', ' '] + pt + rt);
        assert(t + seq![')'] =~= seq![',', ' '] + pt + (rt + seq![')']));
        lemma_holds_concat(s, i, seq![',', ' '] + pt, rt + seq![')']);
        lemma_holds_concat(s, i, seq![',', ' '], pt);
        lemma_holds_index(s, i, seq![',', ' '], 0);
        lemma_holds_index(s, i, seq![',', ' '], 1);
        assert(plain_param(p));
        lemma_holds_index(s, i + 2, pt, 0);
        assert(pt[0] == p.name[0]);
        lemma_skip_ws_none(s, i);
        assert(sp_symbol(s, i, ',') == Some(i + 1));
        lemma_skip_ws_one(s, i + 1);
        let e2 = i + 2 + pt.len();
        lemma_holds_index(s, e2, rt + seq![')'], 0);
        assert((rt + seq![')'])[0] == ',' || (rt + seq![')'])[0] == ')') by {
            if rest.len() > 0 {
                assert(rt =~= seq![',', ' '] + param_text(rest[0]) + params_tail_text(rest.drop_first()));
            }
        }
        lemma_param_text(s, i + 1, i + 2, p);
        assert forall|k: int| 0 <= k < rest.len() implies plain_param(#[trigger] rest[k]) by {
            assert(rest[k] == ps[k + 1]);
        }
        lemma_params_more_text(s, e2, rest);
        assert(seq![p] + rest =~= ps);
    }
}

/// An attribute's text reads back as that attribute, before `,` or `]`.
#[verifier::rlimit(60)]
pub proof fn lemma_attribute_text(s: Seq<char>, i: int, k: int, a: AttributeModel)
    requires
        0 <= i <= k,
        skip_ws(s, i) == k,
        plain_attribute(a),
        holds_at(s, k, attribute_text(a)),
        k + attribute_text(a).len() < s.len(),
        s[k + attribute_text(a).len()] == ',' || s[k + attribute_text(a).len()] == ']',
    ensures
        sp_attribute(s, i) == Ok::<_, ParseErrorModel>((a, k + attribute_text(a).len())),
{
    reveal_strlit("(");
    reveal_strlit(")");
    let jp = join_path(a.name);
    let at = attribute_text(a);
    let pe = k + jp.len();
    let ps = a.parameters;
    lemma_type_text_start(TypeNameModel {
        typ: a.name,
        is_list: false,
        count: None,
        attributes: Seq::empty(),
        comments: Seq::empty(),
    });
    if ps.len() == 0 {
        assert(at == jp);
        lemma_holds_index(s, k, jp, 0);
        lemma_skip_ws_none(s, k);
        lemma_path_text(s, k, a.name);
        assert(sp_path(s, i) == sp_path(s, k));
        lemma_skip_ws_none(s, pe);
        assert(sp_symbol(s, pe, '(') is None);
        assert(ps =~= Seq::<ParameterModel>::empty());
    } else {
        let p0 = ps[0];
        let rest = ps.drop_first();
        let pt0 = param_text(p0);
        let tail = params_tail_text(rest);
        lemma_params_text_split(ps);
        assert(at =~= jp + (seq!['('] + (pt0 + (tail + seq![')']))));
        lemma_holds_concat(s, k, jp, seq!['('] + (pt0 + (tail + seq![')'])));
        lemma_holds_concat(s, pe, seq!['('], pt0 + (tail + seq![')']));
        lemma_holds_concat(s, pe + 1, pt0, tail + seq![')']);
        lemma_holds_index(s, pe, seq!['('], 0);
        lemma_holds_index(s, k, jp, 0);
        lemma_skip_ws_none(s, k);
        lemma_path_text(s, k, a.name);
        assert(sp_path(s, i) == sp_path(s, k));
        lemma_skip_ws_none(s, pe);
        assert(sp_symbol(s, pe, '(') == Some(pe + 1));
        assert(plain_param(p0));
        lemma_holds_index(s, pe + 1, pt0, 0);
        assert(pt0[0] == p0.name[0]);
        lemma_skip_ws_none(s, pe + 1);
        let e3 = pe + 1 + pt0.len();
        lemma_holds_index(s, e3, tail + seq![')'], 0);
        assert((tail + seq![')'])[0] == ',' || (tail + seq![')'])[0] == ')') by {
            reveal_strlit(", ");
            if rest.len() > 0 {
                assert(tail =~= seq![',', ' '] + param_text(rest[0]) + params_tail_text(rest.drop_first()));
            }
        }
        lemma_param_text(s, pe + 1, pe + 1, p0);
        assert forall|x: int| 0 <= x < rest.len() implies plain_param(#[trigger] rest[x]) by {
            assert(rest[x] == ps[x + 1]);
        }
        lemma_params_more_text(s, e3, rest);
        let e4 = e3 + tail.len();
        lemma_holds_concat(s, e3, tail, seq![')']);
        lemma_holds_index(s, e4, seq![')'], 0);
        lemma_skip_ws_none(s, e4);
        assert(sp_symbol(s, e4, ')') == Some(e4 + 1));
        assert(seq![p0] + rest =~= ps);
    }
}

/// The attributes after the first, each after `, `.
pub open spec fn attributes_tail_text(xs: Seq<AttributeModel>) -> Seq<char>
    decreases xs.len(),
{
    if xs.len() == 0 {
        Seq::empty()
    } else {
        ", "@ + attribute_text(xs[0]) + attributes_tail_text(xs.drop_first())
    }
}

pub proof fn lemma_attributes_tail_push(xs: Seq<AttributeModel>, a: AttributeModel)
    ensures
        attributes_tail_text(xs.push(a)) == attributes_tail_text(xs) + ", "@ + attribute_text(a),
    decreases xs.len(),
{
    if xs.len() == 0 {
        assert(xs.push(a).drop_first() =~= Seq::<AttributeModel>::empty());
        assert(xs.push(a)[0] == a);
        assert(attributes_tail_text(Seq::<AttributeModel>::empty()) == Seq::<char>::empty());
        assert(attributes_tail_text(xs) == Seq::<char>::empty());
        assert(attributes_tail_text(xs.push(a)) == ", "@ + attribute_text(a) + attributes_tail_text(
            xs.push(a).drop_first(),
        ));
        assert(attributes_tail_text(xs.push(a)) =~= attributes_tail_text(xs) + ", "@ + attribute_text(a));
    } else {
        lemma_attributes_tail_push(xs.drop_first(), a);
        assert(xs.push(a).drop_first() =~= xs.drop_first().push(a));
        assert(xs.push(a)[0] == xs[0]);
        assert(attributes_tail_text(xs.push(a)) == ", "@ + attribute_text(xs[0]) + attributes_tail_text(
            xs.drop_first().push(a),
        ));
        assert(attributes_tail_text(xs) == ", "@ + attribute_text(xs[0]) + attributes_tail_text(
            xs.drop_first(),
        ));
        assert(attributes_tail_text(xs.push(a)) =~= attributes_tail_text(xs) + ", "@ + attribute_text(a));
    }
}

pub proof fn lemma_attribute_list_split(xs: Seq<AttributeModel>)
    requires
        xs.len() >= 1,
    ensures
        attribute_list_text(xs) == attribute_text(xs[0]) + attributes_tail_text(xs.drop_first()),
    decreases xs.len(),
{
    if xs.len() == 1 {
        assert(xs.drop_first() =~= Seq::<AttributeModel>::empty());
        assert(attribute_list_text(xs) =~= attribute_text(xs[0]) + attributes_tail_text(xs.drop_first()));
    } else {
        lemma_attribute_list_split(xs.drop_last());
        lemma_attributes_tail_push(xs.drop_first().drop_last(), xs.last());
        assert(xs.drop_last().drop_first() =~= xs.drop_first().drop_last());
        assert(xs.drop_first().drop_last().push(xs.last()) =~= xs.drop_first());
        assert(attribute_list_text(xs) =~= attribute_text(xs[0]) + attributes_tail_text(xs.drop_first()));
    }
}

/// Further attributes, each after `, `, then `]`, read back as themselves.
pub proof fn lemma_attributes_more_text(s: Seq<char>, i: int, xs: Seq<AttributeModel>)
    requires
        0 <= i,
        forall|k: int| 0 <= k < xs.len() ==> plain_attribute(#[trigger] xs[k]),
        holds_at(s, i, attributes_tail_text(xs) + seq![']']),
    ensures
        sp_attributes_more(s, i) == Ok::<_, ParseErrorModel>((xs, i + attributes_tail_text(xs).len())),
    decreases xs.len(),
{
    reveal_strlit(", ");
    let t = attributes_tail_text(xs);
    lemma_holds_concat(s, i, t, seq![']']);
    lemma_holds_index(s, i + t.len(), seq![']'], 0);
    if xs.len() == 0 {
        assert(t =~= Seq::<char>::empty());
        lemma_skip_ws_none(s, i);
        assert(sp_symbol(s, i, ',') is None);
        assert(xs =~= Seq::<AttributeModel>::empty());
    } else {
        let a = xs[0];
        let rest = xs.drop_first();
        let at = attribute_text(a);
        let rt = attributes_tail_text(rest);
        assert(t =~= seq![',', ' '] + at + rt);
        assert(t + seq![']'] =~= seq![',', ' '] + at + (rt + seq![']']));
        lemma_holds_concat(s, i, seq![',', ' '] + at, rt + seq![']']);
        lemma_holds_concat(s, i, seq![',', ' '], at);
        lemma_holds_index(s, i, seq![',', ' '], 0);
        lemma_holds_index(s, i, seq![',', ' '], 1);
        assert(plain_attribute(a));
        lemma_type_text_start(TypeNameModel {
            typ: a.name,
            is_list: false,
            count: None,
            attributes: Seq::empty(),
            comments: Seq::empty(),
        });
        lemma_holds_index(s, i + 2, at, 0);
        assert(at[0] == join_path(a.name)[0]);
        lemma_skip_ws_none(s, i);
        assert(sp_symbol(s, i, ',') == Some(i + 1));
        lemma_skip_ws_one(s, i + 1);
        let e2 = i + 2 + at.len();
        lemma_holds_index(s, e2, rt + seq![']'], 0);
        assert((rt + seq![']'])[0] == ',' || (rt + seq![']'])[0] == ']') by {
            if rest.len() > 0 {
                assert(rt =~= seq![',', ' '] + attribute_text(rest[0]) + attributes_tail_text(
                    rest.drop_first(),
                ));
            }
        }
        lemma_attribute_text(s, i + 1, i + 2, a);
        assert forall|k: int| 0 <= k < rest.len() implies plain_attribute(#[trigger] rest[k]) by {
            assert(rest[k] == xs[k + 1]);
        }
        lemma_attributes_more_text(s, e2, rest);
        assert(seq![a] + rest =~= xs);
    }
}

/// The text `#[...]` of one or more attributes reads back as those
/// attributes, wherever only whitespace precedes it.
pub proof fn lemma_attributes_text(s: Seq<char>, i: int, k: int, xs: Seq<AttributeModel>)
    requires
        0 <= i <= k,
        skip_ws(s, i) == k,
        xs.len() >= 1,
        forall|x: int| 0 <= x < xs.len() ==> plain_attribute(#[trigger] xs[x]),
        holds_at(s, k, attributes_text(xs)),
    ensures
        sp_attributes(s, i) == Ok::<_, ParseErrorModel>((xs, k + attributes_text(xs).len())),
{
    reveal_strlit("#[");
    reveal_strlit("]");
    let a = xs[0];
    let rest = xs.drop_first();
    let at = attribute_text(a);
    let tail = attributes_tail_text(rest);
    lemma_attribute_list_split(xs);
    let text = attributes_text(xs);
    assert(text =~= seq!['#', '['] + (at + (tail + seq![']'])));
    lemma_holds_concat(s, k, seq!['#', '['], at + (tail + seq![']']));
    lemma_holds_concat(s, k + 2, at, tail + seq![']']);
    lemma_holds_index(s, k, seq!['#', '['], 0);
    lemma_holds_index(s, k, seq!['#', '['], 1);
    assert(plain_attribute(a));
    lemma_type_text_start(TypeNameModel {
        typ: a.name,
        is_list: false,
        count: None,
        attributes: Seq::empty(),
        comments: Seq::empty(),
    });
    lemma_holds_index(s, k + 2, at, 0);
    assert(at[0] == join_path(a.name)[0]);
    lemma_skip_ws_none(s, k + 2);
    let e = k + 2 + at.len();
    lemma_holds_index(s, e, tail + seq![']'], 0);
    assert((tail + seq![']'])[0] == ',' || (tail + seq![']'])[0] == ']') by {
        reveal_strlit(", ");
        if rest.len() > 0 {
            assert(tail =~= seq![',', ' '] + attribute_text(rest[0]) + attributes_tail_text(
                rest.drop_first(),
            ));
        }
    }
    lemma_attribute_text(s, k + 2, k + 2, a);
    assert forall|x: int| 0 <= x < rest.len() implies plain_attribute(#[trigger] rest[x]) by {
        assert(rest[x] == xs[x + 1]);
    }
    lemma_attributes_more_text(s, e, rest);
    let e2 = e + tail.len();
    lemma_holds_concat(s, e, tail, seq![']']);
    lemma_holds_index(s, e2, seq![']'], 0);
    lemma_skip_ws_none(s, e2);
    assert(sp_symbol(s, e2, ']') == Some(e2 + 1));
    assert(seq![a] + rest =~= xs);
}

/// One or more attributes, once printed as `#[...]`, read back as the same
/// attributes, where their parameter values hold no `"`.
pub proof fn lemma_attributes_round_trip(xs: Seq<AttributeModel>)
    requires
        xs.len() >= 1,
        forall|x: int| 0 <= x < xs.len() ==> plain_attribute(#[trigger] xs[x]),
    ensures
        sp_attributes(attributes_text(xs), 0) == Ok::<_, ParseErrorModel>(
            (xs, attributes_text(xs).len() as int),
        ),
{
    reveal_strlit("#[");
    let s = attributes_text(xs);
    assert(holds_at(s, 0, s)) by {
        assert(s.subrange(0, s.len() as int) =~= s);
    }
    assert(s[0] == '#');
    lemma_skip_ws_none(s, 0);
    lemma_attributes_text(s, 0, 0, xs);
}

} // verus!
