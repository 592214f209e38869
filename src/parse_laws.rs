//! Laws of the parser: what it reads is well formed in the sense the printing
//! laws need. So for every source text that parses without services, printing
//! is idempotent and the printed text parses to the same elements and
//! assembles to the same module.

use vstd::prelude::*;

use crate::lexer::{
    ident_end, is_ident_char, is_ident_start, is_ws, line_end, path_tail, quote_end, scan_while,
    skip_ws, sp_comment, sp_ident, sp_path, sp_string, sp_type, trim_back, trim_front,
};
use crate::ast::{EnumValueModel, TypeNameModel};
use crate::laws::{
    is_identifier, is_path, plain_attribute, plain_comment, plain_element, plain_param,
    plain_property, plain_variant,
};
use crate::lexer::sp_symbol;
use crate::parser::{
    sp_attribute, sp_attributes, sp_attributes_more, sp_param, sp_params_more, sp_properties,
    sp_property, sp_variant, sp_variants, sp_element, sp_elements, parse_model,
};
use crate::lexer::sp_integer;

verus! {

/// Scanning from `i` stops at or after `i`, within the text, after characters
/// that all satisfy `p`.
pub proof fn lemma_scan_all(s: Seq<char>, i: int, p: spec_fn(char) -> bool)
    requires
        0 <= i <= s.len(),
    ensures
        i <= scan_while(s, i, p) <= s.len(),
        forall|k: int| i <= k < scan_while(s, i, p) ==> p(#[trigger] s[k]),
    decreases s.len() - i,
{
    if i < s.len() && p(s[i]) {
        lemma_scan_all(s, i + 1, p);
    }
}

pub proof fn lemma_skip_ws_bounds(s: Seq<char>, i: int)
    requires
        0 <= i <= s.len(),
    ensures
        i <= skip_ws(s, i) <= s.len(),
{
    lemma_scan_all(s, i, |c: char| is_ws(c));
}

/// An identifier read is an identifier.
pub proof fn lemma_ident_read(s: Seq<char>, i: int)
    requires
        0 <= i <= s.len(),
        sp_ident(s, i) is Some,
    ensures
        is_identifier(sp_ident(s, i)->Some_0.0),
        i < sp_ident(s, i)->Some_0.1 <= s.len(),
{
    let j = skip_ws(s, i);
    lemma_skip_ws_bounds(s, i);
    lemma_scan_all(s, j + 1, |c: char| is_ident_char(c));
    let e = ident_end(s, j + 1);
    let w = s.subrange(j, e);
    assert forall|k: int| 1 <= k < w.len() implies is_ident_char(#[trigger] w[k]) by {
        assert(w[k] == s[j + k]);
    }
}

pub proof fn lemma_path_tail_read(s: Seq<char>, i: int)
    requires
        0 <= i <= s.len(),
    ensures
        forall|k: int| 0 <= k < path_tail(s, i).0.len() ==> is_identifier(#[trigger] path_tail(s, i).0[k]),
        i <= path_tail(s, i).1 <= s.len(),
    decreases s.len() - i,
{
    if 0 <= i && i + 2 < s.len() && s[i] == ':' && s[i + 1] == ':' && is_ident_start(s[i + 2]) {
        let e = ident_end(s, i + 3);
        lemma_scan_all(s, i + 3, |c: char| is_ident_char(c));
        if i < e <= s.len() {
            lemma_path_tail_read(s, e);
            let w = s.subrange(i + 2, e);
            assert forall|k: int| 1 <= k < w.len() implies is_ident_char(#[trigger] w[k]) by {
                assert(w[k] == s[i + 2 + k]);
            }
            let rest = path_tail(s, e);
            assert forall|k: int| 0 <= k < path_tail(s, i).0.len() implies is_identifier(
                #[trigger] path_tail(s, i).0[k],
            ) by {
                if k > 0 {
                    assert(path_tail(s, i).0[k] == rest.0[k - 1]);
                }
            }
        }
    }
}

/// A path read is a path.
pub proof fn lemma_path_read(s: Seq<char>, i: int)
    requires
        0 <= i <= s.len(),
        sp_path(s, i) is Some,
    ensures
        is_path(sp_path(s, i)->Some_0.0),
        i < sp_path(s, i)->Some_0.1 <= s.len(),
{
    lemma_ident_read(s, i);
    let e = sp_ident(s, i)->Some_0.1;
    lemma_path_tail_read(s, e);
    let p = sp_path(s, i)->Some_0.0;
    assert forall|k: int| 0 <= k < p.len() implies is_identifier(#[trigger] p[k]) by {
        if k > 0 {
            assert(p[k] == path_tail(s, e).0[k - 1]);
        }
    }
}

/// A type read has a path, and a count only where it is a list.
pub proof fn lemma_type_read(s: Seq<char>, i: int)
    requires
        0 <= i <= s.len(),
        sp_type(s, i) is Some,
    ensures
        is_path(sp_type(s, i)->Some_0.0),
        sp_type(s, i)->Some_0.2 is Some ==> sp_type(s, i)->Some_0.1,
        i < sp_type(s, i)->Some_0.3 <= s.len(),
{
    let j = skip_ws(s, i);
    lemma_skip_ws_bounds(s, i);
    if j < s.len() && crate::lexer::is_digit(s[j]) {
        let e = crate::lexer::digits_end(s, j);
        lemma_scan_all(s, j, |c: char| crate::lexer::is_digit(c));
        lemma_ident_read(s, e);
        let e2 = sp_ident(s, e)->Some_0.1;
        lemma_path_read(s, e2);
    } else {
        lemma_ident_read(s, i);
        let e = sp_ident(s, i)->Some_0.1;
        let next = sp_ident(s, e);
        if sp_ident(s, i)->Some_0.0 == crate::lexer::word_list() && next is Some && next->Some_0.0
            == crate::lexer::word_of() {
            lemma_ident_read(s, e);
            lemma_path_read(s, next->Some_0.1);
        } else {
            lemma_path_read(s, i);
        }
    }
}

/// A string read holds no `"`.
pub proof fn lemma_string_read(s: Seq<char>, i: int)
    requires
        0 <= i <= s.len(),
        sp_string(s, i) is Some,
    ensures
        forall|k: int| 0 <= k < sp_string(s, i)->Some_0.0.len() ==> #[trigger] sp_string(s, i)->Some_0.0[k] != '"',
        i < sp_string(s, i)->Some_0.1 <= s.len(),
{
    let j = skip_ws(s, i);
    lemma_skip_ws_bounds(s, i);
    lemma_scan_all(s, j + 1, |c: char| c != '"');
    let k2 = quote_end(s, j + 1);
    let v = s.subrange(j + 1, k2);
    assert forall|k: int| 0 <= k < v.len() implies #[trigger] v[k] != '"' by {
        assert(v[k] == s[j + 1 + k]);
    }
}

pub proof fn lemma_trim_front(s: Seq<char>, a: int, e: int)
    requires
        0 <= a <= e <= s.len(),
    ensures
        a <= trim_front(s, a, e) <= e,
        trim_front(s, a, e) < e ==> !is_ws(s[trim_front(s, a, e)]),
    decreases e - a,
{
    if a < e && is_ws(s[a]) {
        lemma_trim_front(s, a + 1, e);
    }
}

pub proof fn lemma_trim_back(s: Seq<char>, a: int, e: int)
    requires
        0 <= a <= e <= s.len(),
    ensures
        a <= trim_back(s, a, e) <= e,
        a < trim_back(s, a, e) ==> !is_ws(s[trim_back(s, a, e) - 1]),
    decreases e - a,
{
    if a < e && is_ws(s[e - 1]) {
        lemma_trim_back(s, a, e - 1);
    }
}

/// A comment read is one line without whitespace at either end.
pub proof fn lemma_comment_read(s: Seq<char>, i: int)
    requires
        0 <= i <= s.len(),
        sp_comment(s, i) is Some,
    ensures
        plain_comment(sp_comment(s, i)->Some_0.0),
        i < sp_comment(s, i)->Some_0.1 <= s.len(),
{
    let j = skip_ws(s, i);
    lemma_skip_ws_bounds(s, i);
    lemma_scan_all(s, j + 3, |c: char| c != '\n');
    let e = line_end(s, j + 3);
    lemma_trim_front(s, j + 3, e);
    let a = trim_front(s, j + 3, e);
    lemma_trim_back(s, a, e);
    let b = trim_back(s, a, e);
    let c = s.subrange(a, b);
    assert forall|k: int| 0 <= k < c.len() implies #[trigger] c[k] != '\n' by {
        assert(c[k] == s[a + k]);
    }
    if c.len() > 0 {
        assert(c[0] == s[a]);
        assert(c.last() == s[b - 1]);
    }
}

pub proof fn lemma_symbol_read(s: Seq<char>, i: int, c: char)
    requires
        0 <= i <= s.len(),
        sp_symbol(s, i, c) is Some,
    ensures
        i < sp_symbol(s, i, c)->Some_0 <= s.len(),
{
    lemma_skip_ws_bounds(s, i);
}

pub proof fn lemma_param_read(s: Seq<char>, i: int)
    requires
        0 <= i <= s.len(),
        sp_param(s, i) is Ok,
    ensures
        plain_param(sp_param(s, i)->Ok_0.0),
        i < sp_param(s, i)->Ok_0.1 <= s.len(),
{
    lemma_ident_read(s, i);
    let e = sp_ident(s, i)->Some_0.1;
    if sp_symbol(s, e, '=') is Some {
        lemma_symbol_read(s, e, '=');
        lemma_string_read(s, sp_symbol(s, e, '=')->Some_0);
    }
}

pub proof fn lemma_params_more_read(s: Seq<char>, i: int)
    requires
        0 <= i <= s.len(),
        sp_params_more(s, i) is Ok,
    ensures
        forall|k: int| 0 <= k < sp_params_more(s, i)->Ok_0.0.len() ==> plain_param(#[trigger] sp_params_more(s, i)->Ok_0.0[k]),
        i <= sp_params_more(s, i)->Ok_0.1 <= s.len(),
    decreases s.len() - i,
{
    if sp_symbol(s, i, ',') is Some {
        let e = sp_symbol(s, i, ',')->Some_0;
        lemma_symbol_read(s, i, ',');
        lemma_param_read(s, e);
        let (p, e2) = sp_param(s, e)->Ok_0;
        lemma_params_more_read(s, e2);
        let rest = sp_params_more(s, e2)->Ok_0.0;
        let all = sp_params_more(s, i)->Ok_0.0;
        assert forall|k: int| 0 <= k < all.len() implies plain_param(#[trigger] all[k]) by {
            if k > 0 {
                assert(all[k] == rest[k - 1]);
            }
        }
    }
}

pub proof fn lemma_attribute_read(s: Seq<char>, i: int)
    requires
        0 <= i <= s.len(),
        sp_attribute(s, i) is Ok,
    ensures
        plain_attribute(sp_attribute(s, i)->Ok_0.0),
        i < sp_attribute(s, i)->Ok_0.1 <= s.len(),
{
    lemma_path_read(s, i);
    let e = sp_path(s, i)->Some_0.1;
    if sp_symbol(s, e, '(') is Some {
        let e2 = sp_symbol(s, e, '(')->Some_0;
        lemma_symbol_read(s, e, '(');
        lemma_param_read(s, e2);
        let (p, e3) = sp_param(s, e2)->Ok_0;
        lemma_params_more_read(s, e3);
        let e4 = sp_params_more(s, e3)->Ok_0.1;
        lemma_symbol_read(s, e4, ')');
        let rest = sp_params_more(s, e3)->Ok_0.0;
        let all = sp_attribute(s, i)->Ok_0.0.parameters;
        assert forall|k: int| 0 <= k < all.len() implies plain_param(#[trigger] all[k]) by {
            if k > 0 {
                assert(all[k] == rest[k - 1]);
            }
        }
    }
}

pub proof fn lemma_attributes_more_read(s: Seq<char>, i: int)
    requires
        0 <= i <= s.len(),
        sp_attributes_more(s, i) is Ok,
    ensures
        forall|k: int| 0 <= k < sp_attributes_more(s, i)->Ok_0.0.len() ==> plain_attribute(#[trigger] sp_attributes_more(s, i)->Ok_0.0[k]),
        i <= sp_attributes_more(s, i)->Ok_0.1 <= s.len(),
    decreases s.len() - i,
{
    if sp_symbol(s, i, ',') is Some {
        let e = sp_symbol(s, i, ',')->Some_0;
        lemma_symbol_read(s, i, ',');
        lemma_attribute_read(s, e);
        let (a, e2) = sp_attribute(s, e)->Ok_0;
        lemma_attributes_more_read(s, e2);
        let rest = sp_attributes_more(s, e2)->Ok_0.0;
        let all = sp_attributes_more(s, i)->Ok_0.0;
        assert forall|k: int| 0 <= k < all.len() implies plain_attribute(#[trigger] all[k]) by {
            if k > 0 {
                assert(all[k] == rest[k - 1]);
            }
        }
    }
}

/// Attributes read can be written back.
pub proof fn lemma_attributes_read(s: Seq<char>, i: int)
    requires
        0 <= i <= s.len(),
        sp_attributes(s, i) is Ok,
    ensures
        forall|k: int| 0 <= k < sp_attributes(s, i)->Ok_0.0.len() ==> plain_attribute(#[trigger] sp_attributes(s, i)->Ok_0.0[k]),
        i <= sp_attributes(s, i)->Ok_0.1 <= s.len(),
{
    let j = skip_ws(s, i);
    lemma_skip_ws_bounds(s, i);
    if j + 1 < s.len() && s[j] == '#' && s[j + 1] == '[' {
        lemma_attribute_read(s, j + 2);
        let (a, e) = sp_attribute(s, j + 2)->Ok_0;
        lemma_attributes_more_read(s, e);
        let e2 = sp_attributes_more(s, e)->Ok_0.1;
        lemma_symbol_read(s, e2, ']');
        let rest = sp_attributes_more(s, e)->Ok_0.0;
        let all = sp_attributes(s, i)->Ok_0.0;
        assert forall|k: int| 0 <= k < all.len() implies plain_attribute(#[trigger] all[k]) by {
            if k > 0 {
                assert(all[k] == rest[k - 1]);
            }
        }
    }
}

pub proof fn lemma_integer_read(s: Seq<char>, i: int)
    requires
        0 <= i <= s.len(),
        sp_integer(s, i) is Some,
    ensures
        i <= sp_integer(s, i)->Some_0.2 <= s.len(),
{
    let j = skip_ws(s, i);
    lemma_skip_ws_bounds(s, i);
    let neg = j < s.len() && s[j] == '-';
    let d0 = if neg { j + 1 } else { j };
    lemma_scan_all(s, d0, |c: char| crate::lexer::is_digit(c));
}

/// A property read has a name, a path, attributes that can be written back,
/// and no comments yet.
pub proof fn lemma_property_read(s: Seq<char>, i: int)
    requires
        0 <= i <= s.len(),
        sp_property(s, i) is Ok,
    ensures
        plain_property(sp_property(s, i)->Ok_0.0),
        sp_property(s, i)->Ok_0.0.1.comments.len() == 0,
        i < sp_property(s, i)->Ok_0.1 <= s.len(),
{
    lemma_attributes_read(s, i);
    let a = sp_attributes(s, i)->Ok_0.1;
    lemma_ident_read(s, a);
    let n = sp_ident(s, a)->Some_0.1;
    lemma_symbol_read(s, n, ':');
    let c = sp_symbol(s, n, ':')->Some_0;
    lemma_type_read(s, c);
    let t = sp_type(s, c)->Some_0;
    lemma_symbol_read(s, t.3, ',');
    let pm = sp_property(s, i)->Ok_0.0;
    assert(pm.1.comments =~= Seq::<Seq<char>>::empty());
}

/// Properties read, with the comments gathered before each, can be written back.
pub proof fn lemma_properties_read(s: Seq<char>, i: int, buf: Seq<Seq<char>>)
    requires
        0 <= i <= s.len(),
        forall|k: int| 0 <= k < buf.len() ==> plain_comment(#[trigger] buf[k]),
        sp_properties(s, i, buf) is Ok,
    ensures
        forall|k: int| 0 <= k < sp_properties(s, i, buf)->Ok_0.0.len() ==> plain_property(#[trigger] sp_properties(s, i, buf)->Ok_0.0[k]),
        i < sp_properties(s, i, buf)->Ok_0.1 <= s.len(),
    decreases s.len() - i,
{
    match sp_comment(s, i) {
        Some((c, e)) => {
            lemma_comment_read(s, i);
            let buf2 = buf.push(c);
            assert forall|k: int| 0 <= k < buf2.len() implies plain_comment(#[trigger] buf2[k]) by {
                if k < buf.len() {
                    assert(buf2[k] == buf[k]);
                }
            }
            lemma_properties_read(s, e, buf2);
        },
        None => {
            let j = skip_ws(s, i);
            lemma_skip_ws_bounds(s, i);
            if j < s.len() && s[j] != '}' {
                lemma_property_read(s, i);
                let ((name, t), e) = sp_property(s, i)->Ok_0;
                lemma_properties_read(s, e, Seq::empty());
                let rest = sp_properties(s, e, Seq::empty())->Ok_0.0;
                let all = sp_properties(s, i, buf)->Ok_0.0;
                let first = (name, TypeNameModel { comments: buf, ..t });
                assert(plain_property(first)) by {
                    assert(plain_property((name, t)));
                }
                assert forall|k: int| 0 <= k < all.len() implies plain_property(#[trigger] all[k]) by {
                    if k > 0 {
                        assert(all[k] == rest[k - 1]);
                    } else {
                        assert(all[0] == first);
                    }
                }
            }
        },
    }
}

pub proof fn lemma_variant_read(s: Seq<char>, i: int)
    requires
        0 <= i <= s.len(),
        sp_variant(s, i) is Ok,
    ensures
        plain_variant(sp_variant(s, i)->Ok_0.0),
        i < sp_variant(s, i)->Ok_0.1 <= s.len(),
{
    lemma_attributes_read(s, i);
    let a = sp_attributes(s, i)->Ok_0.1;
    lemma_ident_read(s, a);
    let n = sp_ident(s, a)->Some_0.1;
    if sp_symbol(s, n, '=') is Some {
        lemma_symbol_read(s, n, '=');
        let q = sp_symbol(s, n, '=')->Some_0;
        lemma_integer_read(s, q);
        lemma_symbol_read(s, sp_integer(s, q)->Some_0.2, ',');
    } else {
        lemma_symbol_read(s, n, ',');
    }
    let vm = sp_variant(s, i)->Ok_0.0;
    assert(vm.1.comments =~= Seq::<Seq<char>>::empty());
}

pub proof fn lemma_variants_read(s: Seq<char>, i: int, buf: Seq<Seq<char>>)
    requires
        0 <= i <= s.len(),
        forall|k: int| 0 <= k < buf.len() ==> plain_comment(#[trigger] buf[k]),
        sp_variants(s, i, buf) is Ok,
    ensures
        forall|k: int| 0 <= k < sp_variants(s, i, buf)->Ok_0.0.len() ==> plain_variant(#[trigger] sp_variants(s, i, buf)->Ok_0.0[k]),
        i < sp_variants(s, i, buf)->Ok_0.1 <= s.len(),
    decreases s.len() - i,
{
    match sp_comment(s, i) {
        Some((c, e)) => {
            lemma_comment_read(s, i);
            let buf2 = buf.push(c);
            assert forall|k: int| 0 <= k < buf2.len() implies plain_comment(#[trigger] buf2[k]) by {
                if k < buf.len() {
                    assert(buf2[k] == buf[k]);
                }
            }
            lemma_variants_read(s, e, buf2);
        },
        None => {
            let j = skip_ws(s, i);
            lemma_skip_ws_bounds(s, i);
            if j < s.len() && s[j] != '}' {
                lemma_variant_read(s, i);
                let ((name, v), e) = sp_variant(s, i)->Ok_0;
                lemma_variants_read(s, e, Seq::empty());
                let rest = sp_variants(s, e, Seq::empty())->Ok_0.0;
                let all = sp_variants(s, i, buf)->Ok_0.0;
                let first = (name, EnumValueModel { comments: buf, ..v });
                assert forall|k: int| 0 <= k < all.len() implies plain_variant(#[trigger] all[k]) by {
                    if k > 0 {
                        assert(all[k] == rest[k - 1]);
                    } else {
                        assert(all[0] == first);
                    }
                }
            }
        },
    }
}

/// An element read that is not a service can be written back.
pub proof fn lemma_element_read(s: Seq<char>, i: int)
    requires
        0 <= i <= s.len(),
        sp_element(s, i) is Ok,
        !(sp_element(s, i)->Ok_0.0 is Service),
    ensures
        plain_element(sp_element(s, i)->Ok_0.0),
{
    lemma_attributes_read(s, i);
    let (attrs, a) = sp_attributes(s, i)->Ok_0;
    lemma_ident_read(s, a);
    let (w, k) = sp_ident(s, a)->Some_0;
    if w == crate::lexer::word_import() {
        lemma_path_read(s, k);
    } else if w == crate::lexer::word_data() {
        lemma_ident_read(s, k);
        let n = sp_ident(s, k)->Some_0.1;
        lemma_symbol_read(s, n, '{');
        let b = sp_symbol(s, n, '{')->Some_0;
        lemma_properties_read(s, b, Seq::empty());
    } else if w == crate::lexer::word_enum() {
        lemma_ident_read(s, k);
        let n = sp_ident(s, k)->Some_0.1;
        lemma_symbol_read(s, n, '{');
        let b = sp_symbol(s, n, '{')->Some_0;
        lemma_variants_read(s, b, Seq::empty());
    }
}

/// Every element read is a service or can be written back.
pub proof fn lemma_elements_read(s: Seq<char>, i: int)
    requires
        0 <= i <= s.len(),
        sp_elements(s, i) is Ok,
    ensures
        forall|k: int|
            0 <= k < sp_elements(s, i)->Ok_0.0.len() ==> (#[trigger] sp_elements(s, i)->Ok_0.0[k]) is Service
                || plain_element(sp_elements(s, i)->Ok_0.0[k]),
    decreases s.len() - i,
{
    let all = sp_elements(s, i)->Ok_0.0;
    match sp_comment(s, i) {
        Some((c, e)) => {
            lemma_comment_read(s, i);
            lemma_elements_read(s, e);
            let rest = sp_elements(s, e)->Ok_0.0;
            assert forall|k: int| 0 <= k < all.len() implies (#[trigger] all[k]) is Service
                || plain_element(all[k]) by {
                if k > 0 {
                    assert(all[k] == rest[k - 1]);
                }
            }
        },
        None => {
            let j = skip_ws(s, i);
            lemma_skip_ws_bounds(s, i);
            if j < s.len() {
                let (el, e) = sp_element(s, i)->Ok_0;
                if !(el is Service) {
                    lemma_element_read(s, i);
                }
                lemma_elements_read(s, e);
                let rest = sp_elements(s, e)->Ok_0.0;
                assert forall|k: int| 0 <= k < all.len() implies (#[trigger] all[k]) is Service
                    || plain_element(all[k]) by {
                    if k > 0 {
                        assert(all[k] == rest[k - 1]);
                    }
                }
            }
        },
    }
}

/// Whatever the parser reads from `s` is either a service or can be written
/// back.
pub proof fn lemma_parsed_elements_plain(s: Seq<char>)
    requires
        parse_model(s) is Ok,
    ensures
        forall|k: int|
            0 <= k < parse_model(s)->Ok_0.len() ==> (#[trigger] parse_model(s)->Ok_0[k]) is Service
                || plain_element(parse_model(s)->Ok_0[k]),
{
    lemma_elements_read(s, 0);
}

/// For any source text that parses to elements none of which is a service,
/// printing those elements and parsing the text again gives the same elements.
pub proof fn lemma_parsed_round_trip_without_services(s: Seq<char>)
    requires
        parse_model(s) is Ok,
        forall|k: int| 0 <= k < parse_model(s)->Ok_0.len() ==> !(#[trigger] parse_model(s)->Ok_0[k] is Service),
    ensures
        parse_model(crate::pretty::pretty_model(parse_model(s)->Ok_0)) == parse_model(s),
{
    let els = parse_model(s)->Ok_0;
    lemma_parsed_elements_plain(s);
    assert forall|k: int| 0 <= k < els.len() implies plain_element(#[trigger] els[k]) by {
        assert(!(els[k] is Service));
    }
    crate::laws::lemma_plain_document_round_trip(els);
}

/// For any source text without services that parses, printing is idempotent:
/// printing what its printed text parses to gives that text again.
pub proof fn lemma_parsed_printing_idempotent_without_services(s: Seq<char>)
    requires
        parse_model(s) is Ok,
        forall|k: int| 0 <= k < parse_model(s)->Ok_0.len() ==> !(#[trigger] parse_model(s)->Ok_0[k] is Service),
    ensures
        parse_model(crate::pretty::pretty_model(parse_model(s)->Ok_0)) is Ok,
        crate::pretty::pretty_model(
            parse_model(crate::pretty::pretty_model(parse_model(s)->Ok_0))->Ok_0,
        ) == crate::pretty::pretty_model(parse_model(s)->Ok_0),
{
    lemma_parsed_round_trip_without_services(s);
}

/// For any source text without services that parses, the module assembled
/// from its printed text is the module assembled from the text itself.
pub proof fn lemma_parsed_assembles_alike_without_services(namespace: Seq<Seq<char>>, s: Seq<char>)
    requires
        parse_model(s) is Ok,
        forall|k: int| 0 <= k < parse_model(s)->Ok_0.len() ==> !(#[trigger] parse_model(s)->Ok_0[k] is Service),
    ensures
        parse_model(crate::pretty::pretty_model(parse_model(s)->Ok_0)) is Ok,
        crate::assemble::assemble_model(
            namespace,
            parse_model(crate::pretty::pretty_model(parse_model(s)->Ok_0))->Ok_0,
        ) == crate::assemble::assemble_model(namespace, parse_model(s)->Ok_0),
{
    lemma_parsed_round_trip_without_services(s);
}

} // verus!
