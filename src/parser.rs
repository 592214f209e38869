//! The grammar of the source language, as spec functions over the characters
//! of the input, and the parser that follows it.
//!
//! ```text
//! file      := (comment | import | data | enum | service)*
//! import    := attributes? "import" path ";"
//! data      := attributes? "data" ident "{" (comment | property)* "}" ";"
//! property  := attributes? ident ":" type ","
//! enum      := attributes? "enum" ident "{" (comment | variant)* "}" ";"
//! variant   := attributes? ident ("=" integer)? ","
//! service   := attributes? "service" ident "{" (comment | depends | function | event)* "}" ";"
//! depends   := attributes? "depends" "on" path ";"
//! function  := attributes? ("fn" | "handles") ident "(" arguments ")" ("->" type)? ";"
//! event     := attributes? "event" ident "(" arguments ")" ";"
//! arguments := (argument ("," argument)* ","?)?
//! argument  := attributes? ident ":" type
//! type      := (integer "of" | "list" "of")? path
//! attributes:= "#[" attribute ("," attribute)* "]"
//! attribute := path ("(" param ("," param)* ")")?
//! param     := ident ("=" string)?
//! comment   := "///" rest of the line
//! ```

use vstd::prelude::*;

use crate::ast::{
    AstElement, Attribute, AttributeModel, DataType, DataTypeModel, Dependency, DependencyModel,
    ElementModel, Enum, EnumModel, EnumValue, EnumValueModel, Event, EventModel, Function,
    FunctionModel, Import, ImportModel, Namespace, Parameter, ParameterModel, ServiceAstElement,
    ServiceElementModel, TypeName, TypeNameModel,
};
use crate::error::{error_at, error_at_exec, ErrorKindModel, ParseError, ParseErrorModel, ParseErrorType};
use crate::lexer::{
    read_arrow, read_comment, read_ident, read_integer, read_path, read_string, read_symbol,
    read_type, skip_ws, skip_ws_at, sp_arrow, sp_comment, sp_ident, sp_integer, sp_path, sp_string,
    sp_symbol, sp_type, word_data, word_depends, word_enum, word_event, word_fn, word_handles,
    word_import, word_is, word_on, word_service,
};
use crate::text::{chars_of, string_between};

verus! {

/// `m` with `acc` in front of the sequence it carries.
pub open spec fn prepend_all<A, B>(acc: Seq<A>, m: Result<(Seq<A>, B), ParseErrorModel>) -> Result<
    (Seq<A>, B),
    ParseErrorModel,
> {
    match m {
        Ok((rest, e)) => Ok((acc + rest, e)),
        Err(x) => Err(x),
    }
}

pub proof fn lemma_prepend_push<A, B>(acc: Seq<A>, a: A, m: Result<(Seq<A>, B), ParseErrorModel>)
    ensures
        prepend_all(acc, prepend_all(seq![a], m)) == prepend_all(acc.push(a), m),
{
    match m {
        Ok((rest, e)) => {
            assert(acc + (seq![a] + rest) =~= acc.push(a) + rest);
        },
        Err(_) => {},
    }
}

pub proof fn lemma_prepend_empty<A, B>(acc: Seq<A>, e: B)
    ensures
        prepend_all(acc, Ok::<(Seq<A>, B), ParseErrorModel>((Seq::empty(), e))) == Ok::<
            (Seq<A>, B),
            ParseErrorModel,
        >((acc, e)),
{
    assert(acc + Seq::<A>::empty() =~= acc);
}

/// The executable result `r` is the modelled result `m`.
pub open spec fn result_matches<T: DeepView>(
    r: Result<(T, usize), ParseError>,
    m: Result<(T::V, int), ParseErrorModel>,
) -> bool {
    match m {
        Ok((v, e)) => r is Ok && r->Ok_0.0.deep_view() == v && r->Ok_0.1 as int == e,
        Err(x) => r is Err && r->Err_0.deep_view() == x,
    }
}

/// A successful result ends after `i` and at most at `n`.
pub open spec fn ends_after<T>(r: Result<(T, usize), ParseError>, i: int, n: int) -> bool {
    r is Ok ==> i < r->Ok_0.1 <= n
}

/// A successful result ends between `i` and `n`.
pub open spec fn ends_within<T>(r: Result<(T, usize), ParseError>, i: int, n: int) -> bool {
    r is Ok ==> i <= r->Ok_0.1 <= n
}

// ---------------------------------------------------------------------------
// Attributes
// ---------------------------------------------------------------------------

pub open spec fn sp_param(s: Seq<char>, i: int) -> Result<(ParameterModel, int), ParseErrorModel> {
    match sp_ident(s, i) {
        None => Err(error_at(ErrorKindModel::IncompleteAttributeArg, s, i)),
        Some((name, e)) => match sp_symbol(s, e, '=') {
            None => Ok((ParameterModel { name, value: None }, e)),
            Some(e2) => match sp_string(s, e2) {
                None => Err(error_at(ErrorKindModel::IncompleteAttributeArg, s, e2)),
                Some((v, e3)) => Ok((ParameterModel { name, value: Some(v) }, e3)),
            },
        },
    }
}

/// Further parameters, each after a `,`.
pub open spec fn sp_params_more(s: Seq<char>, i: int) -> Result<
    (Seq<ParameterModel>, int),
    ParseErrorModel,
>
    decreases s.len() - i,
{
    match sp_symbol(s, i, ',') {
        None => Ok((Seq::empty(), i)),
        Some(e) => match sp_param(s, e) {
            Err(x) => Err(x),
            Ok((p, e2)) => if i < e2 <= s.len() {
                prepend_all(seq![p], sp_params_more(s, e2))
            } else {
                Err(error_at(ErrorKindModel::IncompleteAttributeArg, s, e2))
            },
        },
    }
}

pub open spec fn sp_attribute(s: Seq<char>, i: int) -> Result<(AttributeModel, int), ParseErrorModel> {
    match sp_path(s, i) {
        None => Err(error_at(ErrorKindModel::IncompleteAttribute, s, i)),
        Some((name, e)) => match sp_symbol(s, e, '(') {
            None => Ok((AttributeModel { name, parameters: Seq::empty() }, e)),
            Some(e2) => match sp_param(s, e2) {
                Err(x) => Err(x),
                Ok((p, e3)) => match sp_params_more(s, e3) {
                    Err(x) => Err(x),
                    Ok((rest, e4)) => match sp_symbol(s, e4, ')') {
                        None => Err(error_at(ErrorKindModel::IncompleteAttribute, s, e4)),
                        Some(e5) => Ok(
                            (AttributeModel { name, parameters: seq![p] + rest }, e5),
                        ),
                    },
                },
            },
        },
    }
}

/// Further attributes, each after a `,`.
pub open spec fn sp_attributes_more(s: Seq<char>, i: int) -> Result<
    (Seq<AttributeModel>, int),
    ParseErrorModel,
>
    decreases s.len() - i,
{
    match sp_symbol(s, i, ',') {
        None => Ok((Seq::empty(), i)),
        Some(e) => match sp_attribute(s, e) {
            Err(x) => Err(x),
            Ok((a, e2)) => if i < e2 <= s.len() {
                prepend_all(seq![a], sp_attributes_more(s, e2))
            } else {
                Err(error_at(ErrorKindModel::IncompleteAttribute, s, e2))
            },
        },
    }
}

/// An optional group `#[...]`; without one, nothing is read.
pub open spec fn sp_attributes(s: Seq<char>, i: int) -> Result<
    (Seq<AttributeModel>, int),
    ParseErrorModel,
> {
    let j = skip_ws(s, i);
    if j + 1 < s.len() && s[j] == '#' && s[j + 1] == '[' {
        match sp_attribute(s, j + 2) {
            Err(x) => Err(x),
            Ok((a, e)) => match sp_attributes_more(s, e) {
                Err(x) => Err(x),
                Ok((rest, e2)) => match sp_symbol(s, e2, ']') {
                    None => Err(error_at(ErrorKindModel::IncompleteAttribute, s, e2)),
                    Some(e3) => Ok((seq![a] + rest, e3)),
                },
            },
        }
    } else {
        Ok((Seq::empty(), i))
    }
}

fn parse_param(cs: &Vec<char>, i: usize) -> (r: Result<(Parameter, usize), ParseError>)
    requires
        i <= cs@.len(),
    ensures
        result_matches(r, sp_param(cs@, i as int)),
        ends_within(r, i as int, cs@.len() as int),
{
    let (a, e) = match read_ident(cs, i) {
        Some(x) => x,
        None => {
            return Err(error_at_exec(ParseErrorType::IncompleteAttributeArg, cs, i));
        },
    };
    let name = string_between(cs, a, e);
    match read_symbol(cs, e, '=') {
        None => Ok((Parameter { name, value: None }, e)),
        Some(e2) => match read_string(cs, e2) {
            None => Err(error_at_exec(ParseErrorType::IncompleteAttributeArg, cs, e2)),
            Some((v, e3)) => Ok((Parameter { name, value: Some(v) }, e3)),
        },
    }
}

fn parse_params_more(cs: &Vec<char>, i: usize) -> (r: Result<(Vec<Parameter>, usize), ParseError>)
    requires
        i <= cs@.len(),
    ensures
        result_matches(r, sp_params_more(cs@, i as int)),
        ends_within(r, i as int, cs@.len() as int),
{
    let mut acc: Vec<Parameter> = Vec::new();
    let mut k = i;
    loop
        invariant
            i <= k <= cs@.len(),
            sp_params_more(cs@, i as int) == prepend_all(
                acc.deep_view(),
                sp_params_more(cs@, k as int),
            ),
        decreases cs@.len() - k,
    {
        proof {
            lemma_prepend_empty(acc.deep_view(), k as int);
        }
        let e = match read_symbol(cs, k, ',') {
            None => {
                return Ok((acc, k));
            },
            Some(e) => e,
        };
        let (p, e2) = match parse_param(cs, e) {
        Ok(x) => x,
        Err(x) => {
            return Err(x);
        },
    };
        let ghost old_acc = acc.deep_view();
        let ghost pm = p.deep_view();
        acc.push(p);
        proof {
            assert(acc.deep_view() =~= old_acc.push(pm));
            lemma_prepend_push(old_acc, pm, sp_params_more(cs@, e2 as int));
        }
        k = e2;
    }
}

fn parse_attribute(cs: &Vec<char>, i: usize) -> (r: Result<(Attribute, usize), ParseError>)
    requires
        i <= cs@.len(),
    ensures
        result_matches(r, sp_attribute(cs@, i as int)),
        ends_within(r, i as int, cs@.len() as int),
{
    let (name, e) = match read_path(cs, i) {
        None => {
            return Err(error_at_exec(ParseErrorType::IncompleteAttribute, cs, i));
        },
        Some(x) => x,
    };
    let name = Namespace { components: name };
    let e2 = match read_symbol(cs, e, '(') {
        None => {
            let parameters: Vec<Parameter> = Vec::new();
            proof {
                assert(parameters.deep_view() =~= Seq::<ParameterModel>::empty());
            }
            return Ok((Attribute { name, parameters }, e));
        },
        Some(e2) => e2,
    };
    let (p, e3) = match parse_param(cs, e2) {
        Ok(x) => x,
        Err(x) => {
            return Err(x);
        },
    };
    let (rest, e4) = match parse_params_more(cs, e3) {
        Ok(x) => x,
        Err(x) => {
            return Err(x);
        },
    };
    let e5 = match read_symbol(cs, e4, ')') {
        None => {
            return Err(error_at_exec(ParseErrorType::IncompleteAttribute, cs, e4));
        },
        Some(e5) => e5,
    };
    let mut parameters: Vec<Parameter> = Vec::new();
    let ghost pm = p.deep_view();
    let ghost rm = rest.deep_view();
    parameters.push(p);
    let mut rest = rest;
    parameters.append(&mut rest);
    proof {
        assert(parameters.deep_view() =~= seq![pm] + rm);
    }
    Ok((Attribute { name, parameters }, e5))
}

fn parse_attributes_more(cs: &Vec<char>, i: usize) -> (r: Result<(Vec<Attribute>, usize), ParseError>)
    requires
        i <= cs@.len(),
    ensures
        result_matches(r, sp_attributes_more(cs@, i as int)),
        ends_within(r, i as int, cs@.len() as int),
{
    let mut acc: Vec<Attribute> = Vec::new();
    let mut k = i;
    loop
        invariant
            i <= k <= cs@.len(),
            sp_attributes_more(cs@, i as int) == prepend_all(
                acc.deep_view(),
                sp_attributes_more(cs@, k as int),
            ),
        decreases cs@.len() - k,
    {
        proof {
            lemma_prepend_empty(acc.deep_view(), k as int);
        }
        let e = match read_symbol(cs, k, ',') {
            None => {
                return Ok((acc, k));
            },
            Some(e) => e,
        };
        let (a, e2) = match parse_attribute(cs, e) {
        Ok(x) => x,
        Err(x) => {
            return Err(x);
        },
    };
        let ghost old_acc = acc.deep_view();
        let ghost am = a.deep_view();
        acc.push(a);
        proof {
            assert(acc.deep_view() =~= old_acc.push(am));
            lemma_prepend_push(old_acc, am, sp_attributes_more(cs@, e2 as int));
        }
        k = e2;
    }
}

fn parse_attributes(cs: &Vec<char>, i: usize) -> (r: Result<(Vec<Attribute>, usize), ParseError>)
    requires
        i <= cs@.len(),
    ensures
        result_matches(r, sp_attributes(cs@, i as int)),
        ends_within(r, i as int, cs@.len() as int),
{
    let j = skip_ws_at(cs, i);
    if j < cs.len() && cs.len() - j > 1 && cs[j] == '#' && cs[j + 1] == '[' {
        let (a, e) = match parse_attribute(cs, j + 2) {
        Ok(x) => x,
        Err(x) => {
            return Err(x);
        },
    };
        let (rest, e2) = match parse_attributes_more(cs, e) {
        Ok(x) => x,
        Err(x) => {
            return Err(x);
        },
    };
        let e3 = match read_symbol(cs, e2, ']') {
            None => {
                return Err(error_at_exec(ParseErrorType::IncompleteAttribute, cs, e2));
            },
            Some(e3) => e3,
        };
        let mut attrs: Vec<Attribute> = Vec::new();
        let ghost am = a.deep_view();
        let ghost rm = rest.deep_view();
        attrs.push(a);
        let mut rest = rest;
        attrs.append(&mut rest);
        proof {
            assert(attrs.deep_view() =~= seq![am] + rm);
        }
        Ok((attrs, e3))
    } else {
        let attrs: Vec<Attribute> = Vec::new();
        proof {
            assert(attrs.deep_view() =~= Seq::<AttributeModel>::empty());
        }
        Ok((attrs, i))
    }
}


// ---------------------------------------------------------------------------
// Data types and enums
// ---------------------------------------------------------------------------

pub open spec fn type_model(
    t: (Seq<Seq<char>>, bool, Option<usize>, int),
    attributes: Seq<AttributeModel>,
    comments: Seq<Seq<char>>,
) -> TypeNameModel {
    TypeNameModel { typ: t.0, is_list: t.1, count: t.2, attributes, comments }
}

pub open spec fn sp_property(s: Seq<char>, i: int) -> Result<
    ((Seq<char>, TypeNameModel), int),
    ParseErrorModel,
> {
    match sp_attributes(s, i) {
        Err(x) => Err(x),
        Ok((attrs, a)) => match sp_ident(s, a) {
            None => Err(error_at(ErrorKindModel::IncompleteProperty, s, a)),
            Some((name, n)) => match sp_symbol(s, n, ':') {
                None => Err(error_at(ErrorKindModel::MissingType(name), s, n)),
                Some(c) => match sp_type(s, c) {
                    None => Err(error_at(ErrorKindModel::MissingType(name), s, c)),
                    Some(t) => match sp_symbol(s, t.3, ',') {
                        None => Err(error_at(ErrorKindModel::IncompleteProperty, s, t.3)),
                        Some(e) => Ok(((name, type_model(t, attrs, Seq::empty())), e)),
                    },
                },
            },
        },
    }
}

/// The properties of a data type up to and including its `}`; `buf` holds the
/// comments read since the last property, which go to the next one.
pub open spec fn sp_properties(s: Seq<char>, i: int, buf: Seq<Seq<char>>) -> Result<
    (Seq<(Seq<char>, TypeNameModel)>, int),
    ParseErrorModel,
>
    decreases s.len() - i,
{
    match sp_comment(s, i) {
        Some((c, e)) => if i < e <= s.len() {
            sp_properties(s, e, buf.push(c))
        } else {
            Err(error_at(ErrorKindModel::IncompleteDatatype, s, i))
        },
        None => {
            let j = skip_ws(s, i);
            if j >= s.len() {
                Err(error_at(ErrorKindModel::IncompleteDatatype, s, j))
            } else if s[j] == '}' {
                Ok((Seq::empty(), j + 1))
            } else {
                match sp_property(s, i) {
                    Err(x) => Err(x),
                    Ok(((name, t), e)) => if i < e <= s.len() {
                        prepend_all(
                            seq![(name, TypeNameModel { comments: buf, ..t })],
                            sp_properties(s, e, Seq::empty()),
                        )
                    } else {
                        Err(error_at(ErrorKindModel::IncompleteDatatype, s, e))
                    },
                }
            }
        },
    }
}

pub open spec fn sp_variant(s: Seq<char>, i: int) -> Result<
    ((Seq<char>, EnumValueModel), int),
    ParseErrorModel,
> {
    match sp_attributes(s, i) {
        Err(x) => Err(x),
        Ok((attributes, a)) => match sp_ident(s, a) {
            None => Err(error_at(ErrorKindModel::IncompleteEnumValue, s, a)),
            Some((name, n)) => match sp_symbol(s, n, '=') {
                None => match sp_symbol(s, n, ',') {
                    None => Err(error_at(ErrorKindModel::IncompleteEnumValue, s, n)),
                    Some(e) => Ok(
                        (
                            (name, EnumValueModel { value: None, attributes, comments: Seq::empty() }),
                            e,
                        ),
                    ),
                },
                Some(q) => match sp_integer(s, q) {
                    None => Err(error_at(ErrorKindModel::IncompleteEnumValue, s, q)),
                    Some((text, v, t)) => match v {
                        None => Err(error_at(ErrorKindModel::InvalidEnumValue(text), s, q)),
                        Some(v) => match sp_symbol(s, t, ',') {
                            None => Err(error_at(ErrorKindModel::IncompleteEnumValue, s, t)),
                            Some(e) => Ok(
                                (
                                    (
                                        name,
                                        EnumValueModel {
                                            value: Some(v),
                                            attributes,
                                            comments: Seq::empty(),
                                        },
                                    ),
                                    e,
                                ),
                            ),
                        },
                    },
                },
            },
        },
    }
}

/// The variants of an enum up to and including its `}`.
pub open spec fn sp_variants(s: Seq<char>, i: int, buf: Seq<Seq<char>>) -> Result<
    (Seq<(Seq<char>, EnumValueModel)>, int),
    ParseErrorModel,
>
    decreases s.len() - i,
{
    match sp_comment(s, i) {
        Some((c, e)) => if i < e <= s.len() {
            sp_variants(s, e, buf.push(c))
        } else {
            Err(error_at(ErrorKindModel::IncompleteEnum, s, i))
        },
        None => {
            let j = skip_ws(s, i);
            if j >= s.len() {
                Err(error_at(ErrorKindModel::IncompleteEnum, s, j))
            } else if s[j] == '}' {
                Ok((Seq::empty(), j + 1))
            } else {
                match sp_variant(s, i) {
                    Err(x) => Err(x),
                    Ok(((name, v), e)) => if i < e <= s.len() {
                        prepend_all(
                            seq![(name, EnumValueModel { comments: buf, ..v })],
                            sp_variants(s, e, Seq::empty()),
                        )
                    } else {
                        Err(error_at(ErrorKindModel::IncompleteEnum, s, e))
                    },
                }
            }
        },
    }
}

/// After the keyword `data`: the rest of a data type declaration.
pub open spec fn sp_data(s: Seq<char>, i: int, attributes: Seq<AttributeModel>) -> Result<
    (ElementModel, int),
    ParseErrorModel,
> {
    match sp_ident(s, i) {
        None => Err(error_at(ErrorKindModel::IncompleteDatatype, s, i)),
        Some((name, n)) => match sp_symbol(s, n, '{') {
            None => Err(error_at(ErrorKindModel::IncompleteDatatype, s, n)),
            Some(b) => match sp_properties(s, b, Seq::empty()) {
                Err(x) => Err(x),
                Ok((properties, c)) => match sp_symbol(s, c, ';') {
                    None => Err(error_at(ErrorKindModel::IncompleteDatatype, s, c)),
                    Some(e) => Ok(
                        (ElementModel::DataType(name, DataTypeModel { properties, attributes }), e),
                    ),
                },
            },
        },
    }
}

/// After the keyword `enum`: the rest of an enum declaration.
pub open spec fn sp_enum(s: Seq<char>, i: int, attributes: Seq<AttributeModel>) -> Result<
    (ElementModel, int),
    ParseErrorModel,
> {
    match sp_ident(s, i) {
        None => Err(error_at(ErrorKindModel::IncompleteEnum, s, i)),
        Some((name, n)) => match sp_symbol(s, n, '{') {
            None => Err(error_at(ErrorKindModel::IncompleteEnum, s, n)),
            Some(b) => match sp_variants(s, b, Seq::empty()) {
                Err(x) => Err(x),
                Ok((values, c)) => match sp_symbol(s, c, ';') {
                    None => Err(error_at(ErrorKindModel::IncompleteEnum, s, c)),
                    Some(e) => Ok((ElementModel::Enum(name, EnumModel { values, attributes }), e)),
                },
            },
        },
    }
}

fn parse_property(cs: &Vec<char>, i: usize) -> (r: Result<((String, TypeName), usize), ParseError>)
    requires
        i <= cs@.len(),
    ensures
        result_matches(r, sp_property(cs@, i as int)),
        ends_after(r, i as int, cs@.len() as int),
        r is Ok ==> r->Ok_0.0.1.comments@.len() == 0,
{
    let (attributes, a) = match parse_attributes(cs, i) {
        Ok(x) => x,
        Err(x) => {
            return Err(x);
        },
    };
    let (na, n) = match read_ident(cs, a) {
        None => {
            return Err(error_at_exec(ParseErrorType::IncompleteProperty, cs, a));
        },
        Some(x) => x,
    };
    let c = match read_symbol(cs, n, ':') {
        None => {
            return Err(error_at_exec(ParseErrorType::MissingType(string_between(cs, na, n)), cs, n));
        },
        Some(c) => c,
    };
    let (typ, is_list, count, t) = match read_type(cs, c) {
        None => {
            return Err(error_at_exec(ParseErrorType::MissingType(string_between(cs, na, n)), cs, c));
        },
        Some(x) => x,
    };
    let e = match read_symbol(cs, t, ',') {
        None => {
            return Err(error_at_exec(ParseErrorType::IncompleteProperty, cs, t));
        },
        Some(e) => e,
    };
    let comments: Vec<String> = Vec::new();
    proof {
        assert(comments.deep_view() =~= Seq::<Seq<char>>::empty());
    }
    let name = string_between(cs, na, n);
    Ok(((name, TypeName { typ: Namespace { components: typ }, is_list, count, attributes, comments }), e))
}

fn parse_properties(cs: &Vec<char>, i: usize) -> (r: Result<(Vec<(String, TypeName)>, usize), ParseError>)
    requires
        i <= cs@.len(),
    ensures
        result_matches(r, sp_properties(cs@, i as int, Seq::empty())),
        ends_within(r, i as int, cs@.len() as int),
{
    let mut acc: Vec<(String, TypeName)> = Vec::new();
    let mut buf: Vec<String> = Vec::new();
    let mut k = i;
    proof {
        assert(buf.deep_view() =~= Seq::<Seq<char>>::empty());
        assert(acc.deep_view() + Seq::<(Seq<char>, TypeNameModel)>::empty() =~= acc.deep_view());
        assert(sp_properties(cs@, i as int, Seq::empty()) == prepend_all(
            acc.deep_view(),
            sp_properties(cs@, k as int, buf.deep_view()),
        )) by {
            match sp_properties(cs@, i as int, Seq::empty()) {
                Ok((rest, e)) => {
                    assert(acc.deep_view() + rest =~= rest);
                },
                Err(_) => {},
            }
        }
    }
    loop
        invariant
            i <= k <= cs@.len(),
            sp_properties(cs@, i as int, Seq::empty()) == prepend_all(
                acc.deep_view(),
                sp_properties(cs@, k as int, buf.deep_view()),
            ),
        decreases cs@.len() - k,
    {
        if let Some((c, e)) = read_comment(cs, k) {
            let ghost old_buf = buf.deep_view();
            buf.push(c);
            proof {
                assert(buf.deep_view() =~= old_buf.push(c@));
            }
            k = e;
            continue;
        }
        let j = skip_ws_at(cs, k);
        if j >= cs.len() {
            return Err(error_at_exec(ParseErrorType::IncompleteDatatype, cs, j));
        }
        if cs[j] == '}' {
            proof {
                lemma_prepend_empty(acc.deep_view(), j + 1);
            }
            return Ok((acc, j + 1));
        }
        let ((name, t), e) = match parse_property(cs, k) {
            Ok(x) => x,
            Err(x) => {
                return Err(x);
            },
        };
        let ghost old_acc = acc.deep_view();
        let ghost old_buf = buf.deep_view();
        let t = t.with_comments(&mut buf);
        let ghost entry = (name@, t.deep_view());
        proof {
            assert(t.deep_view().comments =~= old_buf);
            assert(buf.deep_view() =~= Seq::<Seq<char>>::empty());
        }
        acc.push((name, t));
        proof {
            assert(acc.deep_view() =~= old_acc.push(entry));
            lemma_prepend_push(old_acc, entry, sp_properties(cs@, e as int, Seq::empty()));
        }
        k = e;
    }
}

fn parse_variant(cs: &Vec<char>, i: usize) -> (r: Result<((String, EnumValue), usize), ParseError>)
    requires
        i <= cs@.len(),
    ensures
        result_matches(r, sp_variant(cs@, i as int)),
        ends_after(r, i as int, cs@.len() as int),
{
    let (attributes, a) = match parse_attributes(cs, i) {
        Ok(x) => x,
        Err(x) => {
            return Err(x);
        },
    };
    let (na, n) = match read_ident(cs, a) {
        None => {
            return Err(error_at_exec(ParseErrorType::IncompleteEnumValue, cs, a));
        },
        Some(x) => x,
    };
    let name = string_between(cs, na, n);
    let comments: Vec<String> = Vec::new();
    proof {
        assert(comments.deep_view() =~= Seq::<Seq<char>>::empty());
    }
    match read_symbol(cs, n, '=') {
        None => match read_symbol(cs, n, ',') {
            None => Err(error_at_exec(ParseErrorType::IncompleteEnumValue, cs, n)),
            Some(e) => Ok(((name, EnumValue { value: None, attributes, comments }), e)),
        },
        Some(q) => {
            let (text, v, t) = match read_integer(cs, q) {
                None => {
                    return Err(error_at_exec(ParseErrorType::IncompleteEnumValue, cs, q));
                },
                Some(x) => x,
            };
            let v = match v {
                None => {
                    return Err(error_at_exec(ParseErrorType::InvalidEnumValue(text), cs, q));
                },
                Some(v) => v,
            };
            match read_symbol(cs, t, ',') {
                None => Err(error_at_exec(ParseErrorType::IncompleteEnumValue, cs, t)),
                Some(e) => Ok(((name, EnumValue { value: Some(v), attributes, comments }), e)),
            }
        },
    }
}

fn parse_variants(cs: &Vec<char>, i: usize) -> (r: Result<(Vec<(String, EnumValue)>, usize), ParseError>)
    requires
        i <= cs@.len(),
    ensures
        result_matches(r, sp_variants(cs@, i as int, Seq::empty())),
        ends_within(r, i as int, cs@.len() as int),
{
    let mut acc: Vec<(String, EnumValue)> = Vec::new();
    let mut buf: Vec<String> = Vec::new();
    let mut k = i;
    proof {
        assert(buf.deep_view() =~= Seq::<Seq<char>>::empty());
        assert(sp_variants(cs@, i as int, Seq::empty()) == prepend_all(
            acc.deep_view(),
            sp_variants(cs@, k as int, buf.deep_view()),
        )) by {
            match sp_variants(cs@, i as int, Seq::empty()) {
                Ok((rest, e)) => {
                    assert(acc.deep_view() + rest =~= rest);
                },
                Err(_) => {},
            }
        }
    }
    loop
        invariant
            i <= k <= cs@.len(),
            sp_variants(cs@, i as int, Seq::empty()) == prepend_all(
                acc.deep_view(),
                sp_variants(cs@, k as int, buf.deep_view()),
            ),
        decreases cs@.len() - k,
    {
        if let Some((c, e)) = read_comment(cs, k) {
            let ghost old_buf = buf.deep_view();
            buf.push(c);
            proof {
                assert(buf.deep_view() =~= old_buf.push(c@));
            }
            k = e;
            continue;
        }
        let j = skip_ws_at(cs, k);
        if j >= cs.len() {
            return Err(error_at_exec(ParseErrorType::IncompleteEnum, cs, j));
        }
        if cs[j] == '}' {
            proof {
                lemma_prepend_empty(acc.deep_view(), j + 1);
            }
            return Ok((acc, j + 1));
        }
        let ((name, v), e) = match parse_variant(cs, k) {
            Ok(x) => x,
            Err(x) => {
                return Err(x);
            },
        };
        let ghost old_acc = acc.deep_view();
        let ghost old_buf = buf.deep_view();
        let v = v.with_comments(&mut buf);
        let ghost entry = (name@, v.deep_view());
        proof {
            assert(v.deep_view().comments =~= old_buf);
            assert(buf.deep_view() =~= Seq::<Seq<char>>::empty());
        }
        acc.push((name, v));
        proof {
            assert(acc.deep_view() =~= old_acc.push(entry));
            lemma_prepend_push(old_acc, entry, sp_variants(cs@, e as int, Seq::empty()));
        }
        k = e;
    }
}

fn parse_data(cs: &Vec<char>, i: usize, attributes: Vec<Attribute>) -> (r: Result<(AstElement, usize), ParseError>)
    requires
        i <= cs@.len(),
    ensures
        result_matches(r, sp_data(cs@, i as int, attributes.deep_view())),
        ends_after(r, i as int, cs@.len() as int),
{
    let (na, n) = match read_ident(cs, i) {
        None => {
            return Err(error_at_exec(ParseErrorType::IncompleteDatatype, cs, i));
        },
        Some(x) => x,
    };
    let b = match read_symbol(cs, n, '{') {
        None => {
            return Err(error_at_exec(ParseErrorType::IncompleteDatatype, cs, n));
        },
        Some(b) => b,
    };
    let (properties, c) = match parse_properties(cs, b) {
        Ok(x) => x,
        Err(x) => {
            return Err(x);
        },
    };
    let e = match read_symbol(cs, c, ';') {
        None => {
            return Err(error_at_exec(ParseErrorType::IncompleteDatatype, cs, c));
        },
        Some(e) => e,
    };
    Ok((AstElement::DataType(string_between(cs, na, n), DataType { properties, attributes }), e))
}

fn parse_enum(cs: &Vec<char>, i: usize, attributes: Vec<Attribute>) -> (r: Result<(AstElement, usize), ParseError>)
    requires
        i <= cs@.len(),
    ensures
        result_matches(r, sp_enum(cs@, i as int, attributes.deep_view())),
        ends_after(r, i as int, cs@.len() as int),
{
    let (na, n) = match read_ident(cs, i) {
        None => {
            return Err(error_at_exec(ParseErrorType::IncompleteEnum, cs, i));
        },
        Some(x) => x,
    };
    let b = match read_symbol(cs, n, '{') {
        None => {
            return Err(error_at_exec(ParseErrorType::IncompleteEnum, cs, n));
        },
        Some(b) => b,
    };
    let (values, c) = match parse_variants(cs, b) {
        Ok(x) => x,
        Err(x) => {
            return Err(x);
        },
    };
    let e = match read_symbol(cs, c, ';') {
        None => {
            return Err(error_at_exec(ParseErrorType::IncompleteEnum, cs, c));
        },
        Some(e) => e,
    };
    Ok((AstElement::Enum(string_between(cs, na, n), Enum { values, attributes }), e))
}

// ---------------------------------------------------------------------------
// Services
// ---------------------------------------------------------------------------

pub open spec fn sp_argument(s: Seq<char>, i: int) -> Result<
    ((Seq<char>, TypeNameModel), int),
    ParseErrorModel,
> {
    match sp_attributes(s, i) {
        Err(x) => Err(x),
        Ok((attrs, a)) => match sp_ident(s, a) {
            None => Err(error_at(ErrorKindModel::IncompleteArgumentIdent, s, a)),
            Some((name, n)) => match sp_symbol(s, n, ':') {
                None => Err(error_at(ErrorKindModel::IncompleteArgumentIdent, s, n)),
                Some(c) => match sp_type(s, c) {
                    None => Err(error_at(ErrorKindModel::IncompleteArgumentIdent, s, c)),
                    Some(t) => Ok(((name, type_model(t, attrs, Seq::empty())), t.3)),
                },
            },
        },
    }
}

/// The arguments of a function or event up to and including the `)`.
pub open spec fn sp_arguments(s: Seq<char>, i: int, kind: ErrorKindModel) -> Result<
    (Seq<(Seq<char>, TypeNameModel)>, int),
    ParseErrorModel,
>
    decreases s.len() - i,
{
    let j = skip_ws(s, i);
    if j < s.len() && s[j] == ')' {
        Ok((Seq::empty(), j + 1))
    } else {
        match sp_argument(s, i) {
            Err(x) => Err(x),
            Ok((arg, e)) => {
                let k = skip_ws(s, e);
                if k < s.len() && s[k] == ',' {
                    if i < k + 1 <= s.len() {
                        prepend_all(seq![arg], sp_arguments(s, k + 1, kind))
                    } else {
                        Err(error_at(kind, s, k))
                    }
                } else if k < s.len() && s[k] == ')' {
                    Ok((seq![arg], k + 1))
                } else {
                    Err(error_at(kind, s, k))
                }
            },
        }
    }
}

/// After `fn` or `handles`: the rest of a function.
pub open spec fn sp_function(s: Seq<char>, i: int, attributes: Seq<AttributeModel>) -> Result<
    (ServiceElementModel, int),
    ParseErrorModel,
> {
    let kind = ErrorKindModel::IncompleteCall;
    match sp_ident(s, i) {
        None => Err(error_at(kind, s, i)),
        Some((name, n)) => match sp_symbol(s, n, '(') {
            None => Err(error_at(kind, s, n)),
            Some(p) => match sp_arguments(s, p, kind) {
                Err(x) => Err(x),
                Ok((arguments, q)) => match sp_arrow(s, q) {
                    None => match sp_symbol(s, q, ';') {
                        None => Err(error_at(kind, s, q)),
                        Some(e) => Ok(
                            (
                                ServiceElementModel::Function(
                                    name,
                                    FunctionModel {
                                        arguments,
                                        return_type: None,
                                        attributes,
                                        comments: Seq::empty(),
                                    },
                                ),
                                e,
                            ),
                        ),
                    },
                    Some(r) => match sp_type(s, r) {
                        None => Err(error_at(kind, s, r)),
                        Some(t) => match sp_symbol(s, t.3, ';') {
                            None => Err(error_at(kind, s, t.3)),
                            Some(e) => Ok(
                                (
                                    ServiceElementModel::Function(
                                        name,
                                        FunctionModel {
                                            arguments,
                                            return_type: Some(
                                                type_model(t, Seq::empty(), Seq::empty()),
                                            ),
                                            attributes,
                                            comments: Seq::empty(),
                                        },
                                    ),
                                    e,
                                ),
                            ),
                        },
                    },
                },
            },
        },
    }
}

/// After `event`: the rest of an event.
pub open spec fn sp_event(s: Seq<char>, i: int, attributes: Seq<AttributeModel>) -> Result<
    (ServiceElementModel, int),
    ParseErrorModel,
> {
    let kind = ErrorKindModel::IncompleteEvent;
    match sp_ident(s, i) {
        None => Err(error_at(kind, s, i)),
        Some((name, n)) => match sp_symbol(s, n, '(') {
            None => Err(error_at(kind, s, n)),
            Some(p) => match sp_arguments(s, p, kind) {
                Err(x) => Err(x),
                Ok((arguments, q)) => match sp_symbol(s, q, ';') {
                    None => Err(error_at(kind, s, q)),
                    Some(e) => Ok(
                        (
                            ServiceElementModel::Event(
                                name,
                                EventModel { arguments, attributes, comments: Seq::empty() },
                            ),
                            e,
                        ),
                    ),
                },
            },
        },
    }
}

/// After `depends`: `on`, the path and `;`.
pub open spec fn sp_depends(s: Seq<char>, i: int, attributes: Seq<AttributeModel>) -> Result<
    (ServiceElementModel, int),
    ParseErrorModel,
> {
    let kind = ErrorKindModel::IncompleteDepends;
    match sp_ident(s, i) {
        Some((w, o)) => if w == word_on() {
            match sp_path(s, o) {
                None => Err(error_at(kind, s, o)),
                Some((name, t)) => match sp_symbol(s, t, ';') {
                    None => Err(error_at(kind, s, t)),
                    Some(e) => Ok(
                        (
                            ServiceElementModel::Dependency(
                                DependencyModel { name, attributes, comments: Seq::empty() },
                            ),
                            e,
                        ),
                    ),
                },
            }
        } else {
            Err(error_at(kind, s, i))
        },
        None => Err(error_at(kind, s, i)),
    }
}

/// The error where a declaration was expected at `a` but no keyword stands
/// there: after attributes, the name is missing; else the character is out of place.
pub open spec fn missing_keyword(s: Seq<char>, a: int, attributes: Seq<AttributeModel>) -> ParseErrorModel {
    if attributes.len() > 0 {
        error_at(ErrorKindModel::IncompleteName, s, a)
    } else {
        let j = skip_ws(s, a);
        let found = if j < s.len() {
            s.subrange(j, j + 1)
        } else {
            Seq::empty()
        };
        error_at(ErrorKindModel::UnexpectedElement(found), s, a)
    }
}

pub open spec fn sp_service_item(s: Seq<char>, i: int) -> Result<
    (ServiceElementModel, int),
    ParseErrorModel,
> {
    match sp_attributes(s, i) {
        Err(x) => Err(x),
        Ok((attrs, a)) => match sp_ident(s, a) {
            None => Err(missing_keyword(s, a, attrs)),
            Some((w, k)) => if w == word_depends() {
                sp_depends(s, k, attrs)
            } else if w == word_fn() || w == word_handles() {
                sp_function(s, k, attrs)
            } else if w == word_event() {
                sp_event(s, k, attrs)
            } else {
                Err(error_at(ErrorKindModel::UnexpectedElement(w), s, a))
            },
        },
    }
}

/// The body of a service up to and including its `}`.
pub open spec fn sp_service_items(s: Seq<char>, i: int) -> Result<
    (Seq<ServiceElementModel>, int),
    ParseErrorModel,
>
    decreases s.len() - i,
{
    match sp_comment(s, i) {
        Some((c, e)) => if i < e <= s.len() {
            prepend_all(seq![ServiceElementModel::Comment(c)], sp_service_items(s, e))
        } else {
            Err(error_at(ErrorKindModel::IncompleteService, s, i))
        },
        None => {
            let j = skip_ws(s, i);
            if j >= s.len() {
                Err(error_at(ErrorKindModel::IncompleteService, s, j))
            } else if s[j] == '}' {
                Ok((Seq::empty(), j + 1))
            } else {
                match sp_service_item(s, i) {
                    Err(x) => Err(x),
                    Ok((el, e)) => if i < e <= s.len() {
                        prepend_all(seq![el], sp_service_items(s, e))
                    } else {
                        Err(error_at(ErrorKindModel::IncompleteService, s, e))
                    },
                }
            }
        },
    }
}

/// After `service`: the rest of a service declaration.
pub open spec fn sp_service(s: Seq<char>, i: int, attributes: Seq<AttributeModel>) -> Result<
    (ElementModel, int),
    ParseErrorModel,
> {
    let kind = ErrorKindModel::IncompleteService;
    match sp_ident(s, i) {
        None => Err(error_at(kind, s, i)),
        Some((name, n)) => match sp_symbol(s, n, '{') {
            None => Err(error_at(kind, s, n)),
            Some(b) => match sp_service_items(s, b) {
                Err(x) => Err(x),
                Ok((items, c)) => match sp_symbol(s, c, ';') {
                    None => Err(error_at(kind, s, c)),
                    Some(e) => Ok((ElementModel::Service(name, items, attributes), e)),
                },
            },
        },
    }
}

/// After `import`: the path and `;`.
pub open spec fn sp_import(s: Seq<char>, i: int, attributes: Seq<AttributeModel>) -> Result<
    (ElementModel, int),
    ParseErrorModel,
> {
    match sp_path(s, i) {
        None => Err(error_at(ErrorKindModel::IncompleteImport, s, i)),
        Some((path, t)) => match sp_symbol(s, t, ';') {
            None => Err(error_at(ErrorKindModel::IncompleteImport, s, t)),
            Some(e) => Ok((ElementModel::Import(ImportModel { path, attributes }), e)),
        },
    }
}

pub open spec fn sp_element(s: Seq<char>, i: int) -> Result<(ElementModel, int), ParseErrorModel> {
    match sp_attributes(s, i) {
        Err(x) => Err(x),
        Ok((attrs, a)) => match sp_ident(s, a) {
            None => Err(missing_keyword(s, a, attrs)),
            Some((w, k)) => if w == word_import() {
                sp_import(s, k, attrs)
            } else if w == word_data() {
                sp_data(s, k, attrs)
            } else if w == word_enum() {
                sp_enum(s, k, attrs)
            } else if w == word_service() {
                sp_service(s, k, attrs)
            } else {
                Err(error_at(ErrorKindModel::UnexpectedElement(w), s, a))
            },
        },
    }
}

/// The elements of a file from position `i` to its end.
pub open spec fn sp_elements(s: Seq<char>, i: int) -> Result<(Seq<ElementModel>, int), ParseErrorModel>
    decreases s.len() - i,
{
    match sp_comment(s, i) {
        Some((c, e)) => if i < e <= s.len() {
            prepend_all(seq![ElementModel::Comment(c)], sp_elements(s, e))
        } else {
            Err(error_at(ErrorKindModel::UnexpectedElement(Seq::empty()), s, i))
        },
        None => {
            let j = skip_ws(s, i);
            if j >= s.len() {
                Ok((Seq::empty(), j))
            } else {
                match sp_element(s, i) {
                    Err(x) => Err(x),
                    Ok((el, e)) => if i < e <= s.len() {
                        prepend_all(seq![el], sp_elements(s, e))
                    } else {
                        Err(error_at(ErrorKindModel::UnexpectedElement(Seq::empty()), s, e))
                    },
                }
            }
        },
    }
}

/// What the source text `s` parses to: its elements in order, or the first error.
pub open spec fn parse_model(s: Seq<char>) -> Result<Seq<ElementModel>, ParseErrorModel> {
    match sp_elements(s, 0) {
        Ok((elements, _)) => Ok(elements),
        Err(x) => Err(x),
    }
}

/// The position of the keyword `handles` that the service item at `i`
/// starts with, if it does.
pub open spec fn item_notes(s: Seq<char>, i: int) -> Seq<usize> {
    match sp_attributes(s, i) {
        Ok((_, a)) => match sp_ident(s, a) {
            Some((w, _)) => if w == word_handles() {
                seq![skip_ws(s, a) as usize]
            } else {
                Seq::empty()
            },
            None => Seq::empty(),
        },
        Err(_) => Seq::empty(),
    }
}

/// The positions of `handles` in a service body read from `i`, as far as
/// reading goes.
pub open spec fn service_items_notes(s: Seq<char>, i: int) -> Seq<usize>
    decreases s.len() - i,
{
    match sp_comment(s, i) {
        Some((_, e)) => if i < e <= s.len() {
            service_items_notes(s, e)
        } else {
            Seq::empty()
        },
        None => {
            let j = skip_ws(s, i);
            if j >= s.len() || s[j] == '}' {
                Seq::empty()
            } else {
                item_notes(s, i) + match sp_service_item(s, i) {
                    Ok((_, e)) => if i < e <= s.len() {
                        service_items_notes(s, e)
                    } else {
                        Seq::empty()
                    },
                    Err(_) => Seq::empty(),
                }
            }
        },
    }
}

/// After `service`: the positions of `handles` in its body.
pub open spec fn service_notes(s: Seq<char>, i: int) -> Seq<usize> {
    match sp_ident(s, i) {
        Some((_, n)) => match sp_symbol(s, n, '{') {
            Some(b) => service_items_notes(s, b),
            None => Seq::empty(),
        },
        None => Seq::empty(),
    }
}

/// The positions of `handles` in the element at `i`.
pub open spec fn element_notes(s: Seq<char>, i: int) -> Seq<usize> {
    match sp_attributes(s, i) {
        Ok((_, a)) => match sp_ident(s, a) {
            Some((w, k)) => if w == word_service() {
                service_notes(s, k)
            } else {
                Seq::empty()
            },
            None => Seq::empty(),
        },
        Err(_) => Seq::empty(),
    }
}

/// The positions of `handles` in the elements read from `i`, as far as
/// reading goes.
pub open spec fn elements_notes(s: Seq<char>, i: int) -> Seq<usize>
    decreases s.len() - i,
{
    match sp_comment(s, i) {
        Some((_, e)) => if i < e <= s.len() {
            elements_notes(s, e)
        } else {
            Seq::empty()
        },
        None => {
            let j = skip_ws(s, i);
            if j >= s.len() {
                Seq::empty()
            } else {
                element_notes(s, i) + match sp_element(s, i) {
                    Ok((_, e)) => if i < e <= s.len() {
                        elements_notes(s, e)
                    } else {
                        Seq::empty()
                    },
                    Err(_) => Seq::empty(),
                }
            }
        },
    }
}

/// Every position, in order, where the parser of `s` reads the deprecated
/// keyword `handles` (up to the first error, if any).
pub open spec fn parse_notes(s: Seq<char>) -> Seq<usize> {
    elements_notes(s, 0)
}


fn parse_argument(cs: &Vec<char>, i: usize) -> (r: Result<((String, TypeName), usize), ParseError>)
    requires
        i <= cs@.len(),
    ensures
        result_matches(r, sp_argument(cs@, i as int)),
        ends_after(r, i as int, cs@.len() as int),
{
    let (attributes, a) = match parse_attributes(cs, i) {
        Ok(x) => x,
        Err(x) => {
            return Err(x);
        },
    };
    let (na, n) = match read_ident(cs, a) {
        None => {
            return Err(error_at_exec(ParseErrorType::IncompleteArgumentIdent, cs, a));
        },
        Some(x) => x,
    };
    let c = match read_symbol(cs, n, ':') {
        None => {
            return Err(error_at_exec(ParseErrorType::IncompleteArgumentIdent, cs, n));
        },
        Some(c) => c,
    };
    let (typ, is_list, count, t) = match read_type(cs, c) {
        None => {
            return Err(error_at_exec(ParseErrorType::IncompleteArgumentIdent, cs, c));
        },
        Some(x) => x,
    };
    let comments: Vec<String> = Vec::new();
    proof {
        assert(comments.deep_view() =~= Seq::<Seq<char>>::empty());
    }
    let name = string_between(cs, na, n);
    Ok(((name, TypeName { typ: Namespace { components: typ }, is_list, count, attributes, comments }), t))
}

fn parse_arguments(cs: &Vec<char>, i: usize, kind: ParseErrorType) -> (r: Result<(Vec<(String, TypeName)>, usize), ParseError>)
    requires
        i <= cs@.len(),
    ensures
        result_matches(r, sp_arguments(cs@, i as int, kind.deep_view())),
        ends_within(r, i as int, cs@.len() as int),
{
    let mut acc: Vec<(String, TypeName)> = Vec::new();
    let mut k = i;
    proof {
        assert(sp_arguments(cs@, i as int, kind.deep_view()) == prepend_all(
            acc.deep_view(),
            sp_arguments(cs@, k as int, kind.deep_view()),
        )) by {
            match sp_arguments(cs@, i as int, kind.deep_view()) {
                Ok((rest, e)) => {
                    assert(acc.deep_view() + rest =~= rest);
                },
                Err(_) => {},
            }
        }
    }
    loop
        invariant
            i <= k <= cs@.len(),
            sp_arguments(cs@, i as int, kind.deep_view()) == prepend_all(
                acc.deep_view(),
                sp_arguments(cs@, k as int, kind.deep_view()),
            ),
        decreases cs@.len() - k,
    {
        let j = skip_ws_at(cs, k);
        if j < cs.len() && cs[j] == ')' {
            proof {
                lemma_prepend_empty(acc.deep_view(), j + 1);
            }
            return Ok((acc, j + 1));
        }
        let (arg, e) = match parse_argument(cs, k) {
            Ok(x) => x,
            Err(x) => {
                return Err(x);
            },
        };
        let ghost old_acc = acc.deep_view();
        let ghost entry = arg.deep_view();
        acc.push(arg);
        proof {
            assert(acc.deep_view() =~= old_acc.push(entry));
        }
        let m = skip_ws_at(cs, e);
        if m < cs.len() && cs[m] == ',' {
            proof {
                lemma_prepend_push(old_acc, entry, sp_arguments(cs@, m + 1, kind.deep_view()));
            }
            k = m + 1;
        } else if m < cs.len() && cs[m] == ')' {
            proof {
                lemma_prepend_push(old_acc, entry, Ok((Seq::empty(), m + 1)));
                lemma_prepend_empty(acc.deep_view(), m + 1);
            }
            return Ok((acc, m + 1));
        } else {
            return Err(error_at_exec(kind, cs, m));
        }
    }
}

fn parse_function(cs: &Vec<char>, i: usize, attributes: Vec<Attribute>) -> (r: Result<(ServiceAstElement, usize), ParseError>)
    requires
        i <= cs@.len(),
    ensures
        result_matches(r, sp_function(cs@, i as int, attributes.deep_view())),
        ends_after(r, i as int, cs@.len() as int),
{
    let (na, n) = match read_ident(cs, i) {
        None => {
            return Err(error_at_exec(ParseErrorType::IncompleteCall, cs, i));
        },
        Some(x) => x,
    };
    let p = match read_symbol(cs, n, '(') {
        None => {
            return Err(error_at_exec(ParseErrorType::IncompleteCall, cs, n));
        },
        Some(p) => p,
    };
    let (arguments, q) = match parse_arguments(cs, p, ParseErrorType::IncompleteCall) {
        Ok(x) => x,
        Err(x) => {
            return Err(x);
        },
    };
    let comments: Vec<String> = Vec::new();
    proof {
        assert(comments.deep_view() =~= Seq::<Seq<char>>::empty());
    }
    let name = string_between(cs, na, n);
    match read_arrow(cs, q) {
        None => match read_symbol(cs, q, ';') {
            None => Err(error_at_exec(ParseErrorType::IncompleteCall, cs, q)),
            Some(e) => Ok(
                (
                    ServiceAstElement::Function(
                        name,
                        Function { arguments, return_type: None, attributes, comments },
                    ),
                    e,
                ),
            ),
        },
        Some(ra) => {
            let (typ, is_list, count, t) = match read_type(cs, ra) {
                None => {
                    return Err(error_at_exec(ParseErrorType::IncompleteCall, cs, ra));
                },
                Some(x) => x,
            };
            let e = match read_symbol(cs, t, ';') {
                None => {
                    return Err(error_at_exec(ParseErrorType::IncompleteCall, cs, t));
                },
                Some(e) => e,
            };
            let no_attributes: Vec<Attribute> = Vec::new();
            let no_comments: Vec<String> = Vec::new();
            proof {
                assert(no_attributes.deep_view() =~= Seq::<AttributeModel>::empty());
                assert(no_comments.deep_view() =~= Seq::<Seq<char>>::empty());
            }
            let ret = TypeName {
                typ: Namespace { components: typ },
                is_list,
                count,
                attributes: no_attributes,
                comments: no_comments,
            };
            Ok(
                (
                    ServiceAstElement::Function(
                        name,
                        Function { arguments, return_type: Some(ret), attributes, comments },
                    ),
                    e,
                ),
            )
        },
    }
}

fn parse_event(cs: &Vec<char>, i: usize, attributes: Vec<Attribute>) -> (r: Result<(ServiceAstElement, usize), ParseError>)
    requires
        i <= cs@.len(),
    ensures
        result_matches(r, sp_event(cs@, i as int, attributes.deep_view())),
        ends_after(r, i as int, cs@.len() as int),
{
    let (na, n) = match read_ident(cs, i) {
        None => {
            return Err(error_at_exec(ParseErrorType::IncompleteEvent, cs, i));
        },
        Some(x) => x,
    };
    let p = match read_symbol(cs, n, '(') {
        None => {
            return Err(error_at_exec(ParseErrorType::IncompleteEvent, cs, n));
        },
        Some(p) => p,
    };
    let (arguments, q) = match parse_arguments(cs, p, ParseErrorType::IncompleteEvent) {
        Ok(x) => x,
        Err(x) => {
            return Err(x);
        },
    };
    let e = match read_symbol(cs, q, ';') {
        None => {
            return Err(error_at_exec(ParseErrorType::IncompleteEvent, cs, q));
        },
        Some(e) => e,
    };
    let comments: Vec<String> = Vec::new();
    proof {
        assert(comments.deep_view() =~= Seq::<Seq<char>>::empty());
    }
    Ok((ServiceAstElement::Event(string_between(cs, na, n), Event { arguments, attributes, comments }), e))
}

fn parse_depends(cs: &Vec<char>, i: usize, attributes: Vec<Attribute>) -> (r: Result<(ServiceAstElement, usize), ParseError>)
    requires
        i <= cs@.len(),
    ensures
        result_matches(r, sp_depends(cs@, i as int, attributes.deep_view())),
        ends_after(r, i as int, cs@.len() as int),
{
    let word_on_v: Vec<char> = vec!['o', 'n'];
    proof {
        assert(word_on_v@ =~= word_on());
    }
    let o = match read_ident(cs, i) {
        Some((a, o)) => {
            if !word_is(cs, a, o, &word_on_v) {
                return Err(error_at_exec(ParseErrorType::IncompleteDepends, cs, i));
            }
            o
        },
        None => {
            return Err(error_at_exec(ParseErrorType::IncompleteDepends, cs, i));
        },
    };
    let (path, t) = match read_path(cs, o) {
        None => {
            return Err(error_at_exec(ParseErrorType::IncompleteDepends, cs, o));
        },
        Some(x) => x,
    };
    let e = match read_symbol(cs, t, ';') {
        None => {
            return Err(error_at_exec(ParseErrorType::IncompleteDepends, cs, t));
        },
        Some(e) => e,
    };
    let comments: Vec<String> = Vec::new();
    proof {
        assert(comments.deep_view() =~= Seq::<Seq<char>>::empty());
    }
    Ok((ServiceAstElement::Dependency(Dependency { name: Namespace { components: path }, attributes, comments }), e))
}

fn missing_keyword_exec(cs: &Vec<char>, a: usize, attributes: &Vec<Attribute>) -> (r: ParseError)
    requires
        a <= cs@.len(),
    ensures
        r.deep_view() == missing_keyword(cs@, a as int, attributes.deep_view()),
{
    if attributes.len() > 0 {
        error_at_exec(ParseErrorType::IncompleteName, cs, a)
    } else {
        let j = skip_ws_at(cs, a);
        let found = if j < cs.len() {
            string_between(cs, j, j + 1)
        } else {
            string_between(cs, j, j)
        };
        proof {
            if j >= cs@.len() {
                assert(found@ =~= Seq::<char>::empty());
            }
        }
        error_at_exec(ParseErrorType::UnexpectedElement(found), cs, a)
    }
}

fn parse_service_item(cs: &Vec<char>, i: usize, notes: &mut Vec<usize>) -> (r: Result<(ServiceAstElement, usize), ParseError>)
    requires
        i <= cs@.len(),
    ensures
        result_matches(r, sp_service_item(cs@, i as int)),
        ends_after(r, i as int, cs@.len() as int),
        final(notes)@ == old(notes)@ + item_notes(cs@, i as int),
{
    proof {
        assert(notes@ + Seq::<usize>::empty() =~= notes@);
        assert(word_depends() != word_handles()) by {
            assert(word_depends()[0] != word_handles()[0]);
        }
        assert(word_fn().len() != word_handles().len());
        assert(word_event().len() != word_handles().len());
    }
    let (attributes, a) = match parse_attributes(cs, i) {
        Ok(x) => x,
        Err(x) => {
            return Err(x);
        },
    };
    let (wa, k) = match read_ident(cs, a) {
        None => {
            return Err(missing_keyword_exec(cs, a, &attributes));
        },
        Some(x) => x,
    };
    let kw_depends: Vec<char> = vec!['d', 'e', 'p', 'e', 'n', 'd', 's'];
    let kw_fn: Vec<char> = vec!['f', 'n'];
    let kw_handles: Vec<char> = vec!['h', 'a', 'n', 'd', 'l', 'e', 's'];
    let kw_event: Vec<char> = vec!['e', 'v', 'e', 'n', 't'];
    proof {
        assert(kw_depends@ =~= word_depends());
        assert(kw_fn@ =~= word_fn());
        assert(kw_handles@ =~= word_handles());
        assert(kw_event@ =~= word_event());
    }
    if word_is(cs, wa, k, &kw_depends) {
        parse_depends(cs, k, attributes)
    } else if word_is(cs, wa, k, &kw_fn) {
        parse_function(cs, k, attributes)
    } else if word_is(cs, wa, k, &kw_handles) {
        let ghost old_notes = notes@;
        notes.push(wa);
        proof {
            assert(notes@ =~= old_notes + seq![wa]);
        }
        parse_function(cs, k, attributes)
    } else if word_is(cs, wa, k, &kw_event) {
        parse_event(cs, k, attributes)
    } else {
        Err(error_at_exec(ParseErrorType::UnexpectedElement(string_between(cs, wa, k)), cs, a))
    }
}

fn parse_service_items(cs: &Vec<char>, i: usize, notes: &mut Vec<usize>) -> (r: Result<(Vec<ServiceAstElement>, usize), ParseError>)
    requires
        i <= cs@.len(),
    ensures
        result_matches(r, sp_service_items(cs@, i as int)),
        ends_within(r, i as int, cs@.len() as int),
        final(notes)@ == old(notes)@ + service_items_notes(cs@, i as int),
{
    let mut acc: Vec<ServiceAstElement> = Vec::new();
    let mut k = i;
    let ghost start_notes = notes@;
    let ghost done: Seq<usize> = Seq::empty();
    proof {
        assert(notes@ =~= start_notes + done);
        assert(service_items_notes(cs@, i as int) =~= done + service_items_notes(cs@, k as int));
        assert(sp_service_items(cs@, i as int) == prepend_all(
            acc.deep_view(),
            sp_service_items(cs@, k as int),
        )) by {
            match sp_service_items(cs@, i as int) {
                Ok((rest, e)) => {
                    assert(acc.deep_view() + rest =~= rest);
                },
                Err(_) => {},
            }
        }
    }
    loop
        invariant
            i <= k <= cs@.len(),
            sp_service_items(cs@, i as int) == prepend_all(
                acc.deep_view(),
                sp_service_items(cs@, k as int),
            ),
            service_items_notes(cs@, i as int) == done + service_items_notes(cs@, k as int),
            notes@ == start_notes + done,
            start_notes == old(notes)@,
        decreases cs@.len() - k,
    {
        let ghost old_acc = acc.deep_view();
        if let Some((c, e)) = read_comment(cs, k) {
            let ghost entry = ServiceElementModel::Comment(c@);
            acc.push(ServiceAstElement::Comment(c));
            proof {
                assert(acc.deep_view() =~= old_acc.push(entry));
                lemma_prepend_push(old_acc, entry, sp_service_items(cs@, e as int));
            }
            k = e;
            continue;
        }
        let j = skip_ws_at(cs, k);
        proof {
            assert(done + Seq::<usize>::empty() =~= done);
        }
        if j >= cs.len() {
            return Err(error_at_exec(ParseErrorType::IncompleteService, cs, j));
        }
        if cs[j] == '}' {
            proof {
                lemma_prepend_empty(acc.deep_view(), j + 1);
            }
            return Ok((acc, j + 1));
        }
        let ghost item = item_notes(cs@, k as int);
        let (el, e) = match parse_service_item(cs, k, notes) {
            Ok(x) => x,
            Err(x) => {
                proof {
                    assert(item + Seq::<usize>::empty() =~= item);
                    assert(notes@ =~= start_notes + (done + item));
                }
                return Err(x);
            },
        };
        proof {
            assert(service_items_notes(cs@, k as int) == item + service_items_notes(cs@, e as int));
            assert(notes@ =~= start_notes + (done + item));
            assert(service_items_notes(cs@, i as int) =~= (done + item) + service_items_notes(cs@, e as int));
            done = done + item;
        }
        let ghost entry = el.deep_view();
        acc.push(el);
        proof {
            assert(acc.deep_view() =~= old_acc.push(entry));
            lemma_prepend_push(old_acc, entry, sp_service_items(cs@, e as int));
        }
        k = e;
    }
}

fn parse_service(cs: &Vec<char>, i: usize, attributes: Vec<Attribute>, notes: &mut Vec<usize>) -> (r: Result<(AstElement, usize), ParseError>)
    requires
        i <= cs@.len(),
    ensures
        result_matches(r, sp_service(cs@, i as int, attributes.deep_view())),
        ends_after(r, i as int, cs@.len() as int),
        final(notes)@ == old(notes)@ + service_notes(cs@, i as int),
{
    proof {
        assert(notes@ + Seq::<usize>::empty() =~= notes@);
    }
    let (na, n) = match read_ident(cs, i) {
        None => {
            return Err(error_at_exec(ParseErrorType::IncompleteService, cs, i));
        },
        Some(x) => x,
    };
    let b = match read_symbol(cs, n, '{') {
        None => {
            return Err(error_at_exec(ParseErrorType::IncompleteService, cs, n));
        },
        Some(b) => b,
    };
    let (items, c) = match parse_service_items(cs, b, notes) {
        Ok(x) => x,
        Err(x) => {
            return Err(x);
        },
    };
    let e = match read_symbol(cs, c, ';') {
        None => {
            return Err(error_at_exec(ParseErrorType::IncompleteService, cs, c));
        },
        Some(e) => e,
    };
    Ok((AstElement::Service(string_between(cs, na, n), items, attributes), e))
}

fn parse_import(cs: &Vec<char>, i: usize, attributes: Vec<Attribute>) -> (r: Result<(AstElement, usize), ParseError>)
    requires
        i <= cs@.len(),
    ensures
        result_matches(r, sp_import(cs@, i as int, attributes.deep_view())),
        ends_after(r, i as int, cs@.len() as int),
{
    let (path, t) = match read_path(cs, i) {
        None => {
            return Err(error_at_exec(ParseErrorType::IncompleteImport, cs, i));
        },
        Some(x) => x,
    };
    let e = match read_symbol(cs, t, ';') {
        None => {
            return Err(error_at_exec(ParseErrorType::IncompleteImport, cs, t));
        },
        Some(e) => e,
    };
    Ok((AstElement::Import(Import { path: Namespace { components: path }, attributes }), e))
}

fn parse_element(cs: &Vec<char>, i: usize, notes: &mut Vec<usize>) -> (r: Result<(AstElement, usize), ParseError>)
    requires
        i <= cs@.len(),
    ensures
        result_matches(r, sp_element(cs@, i as int)),
        ends_after(r, i as int, cs@.len() as int),
        final(notes)@ == old(notes)@ + element_notes(cs@, i as int),
{
    proof {
        assert(notes@ + Seq::<usize>::empty() =~= notes@);
        assert(word_import().len() != word_service().len());
        assert(word_data().len() != word_service().len());
        assert(word_enum().len() != word_service().len());
    }
    let (attributes, a) = match parse_attributes(cs, i) {
        Ok(x) => x,
        Err(x) => {
            return Err(x);
        },
    };
    let (wa, k) = match read_ident(cs, a) {
        None => {
            return Err(missing_keyword_exec(cs, a, &attributes));
        },
        Some(x) => x,
    };
    let kw_import: Vec<char> = vec!['i', 'm', 'p', 'o', 'r', 't'];
    let kw_data: Vec<char> = vec!['d', 'a', 't', 'a'];
    let kw_enum: Vec<char> = vec!['e', 'n', 'u', 'm'];
    let kw_service: Vec<char> = vec!['s', 'e', 'r', 'v', 'i', 'c', 'e'];
    proof {
        assert(kw_import@ =~= word_import());
        assert(kw_data@ =~= word_data());
        assert(kw_enum@ =~= word_enum());
        assert(kw_service@ =~= word_service());
    }
    if word_is(cs, wa, k, &kw_import) {
        parse_import(cs, k, attributes)
    } else if word_is(cs, wa, k, &kw_data) {
        parse_data(cs, k, attributes)
    } else if word_is(cs, wa, k, &kw_enum) {
        parse_enum(cs, k, attributes)
    } else if word_is(cs, wa, k, &kw_service) {
        parse_service(cs, k, attributes, notes)
    } else {
        Err(error_at_exec(ParseErrorType::UnexpectedElement(string_between(cs, wa, k)), cs, a))
    }
}

/// Parses `content` into its elements in document order, and records in
/// `notes` the character position of each use of the deprecated keyword
/// `handles`.
pub fn parse_raw_with_notes(content: &str, notes: &mut Vec<usize>) -> (r: Result<Vec<AstElement>, ParseError>)
    ensures
        match parse_model(content@) {
            Ok(m) => r is Ok && r->Ok_0.deep_view() == m,
            Err(x) => r is Err && r->Err_0.deep_view() == x,
        },
        final(notes)@ == old(notes)@ + parse_notes(content@),
{
    let cs = chars_of(content);
    let mut acc: Vec<AstElement> = Vec::new();
    let mut k: usize = 0;
    let ghost start_notes = notes@;
    let ghost done: Seq<usize> = Seq::empty();
    proof {
        assert(notes@ =~= start_notes + done);
        assert(elements_notes(cs@, 0) =~= done + elements_notes(cs@, k as int));
        assert(sp_elements(cs@, 0) == prepend_all(acc.deep_view(), sp_elements(cs@, k as int))) by {
            match sp_elements(cs@, 0) {
                Ok((rest, e)) => {
                    assert(acc.deep_view() + rest =~= rest);
                },
                Err(_) => {},
            }
        }
    }
    loop
        invariant
            k <= cs@.len(),
            cs@ == content@,
            sp_elements(cs@, 0) == prepend_all(acc.deep_view(), sp_elements(cs@, k as int)),
            elements_notes(cs@, 0) == done + elements_notes(cs@, k as int),
            notes@ == start_notes + done,
            start_notes == old(notes)@,
        decreases cs@.len() - k,
    {
        let ghost old_acc = acc.deep_view();
        if let Some((c, e)) = read_comment(&cs, k) {
            let ghost entry = ElementModel::Comment(c@);
            acc.push(AstElement::Comment(c));
            proof {
                assert(acc.deep_view() =~= old_acc.push(entry));
                lemma_prepend_push(old_acc, entry, sp_elements(cs@, e as int));
            }
            k = e;
            continue;
        }
        let j = skip_ws_at(&cs, k);
        proof {
            assert(done + Seq::<usize>::empty() =~= done);
        }
        if j >= cs.len() {
            proof {
                lemma_prepend_empty(acc.deep_view(), j as int);
            }
            return Ok(acc);
        }
        let ghost item = element_notes(cs@, k as int);
        let (el, e) = match parse_element(&cs, k, notes) {
            Ok(x) => x,
            Err(x) => {
                proof {
                    assert(item + Seq::<usize>::empty() =~= item);
                    assert(notes@ =~= start_notes + (done + item));
                }
                return Err(x);
            },
        };
        proof {
            assert(elements_notes(cs@, k as int) == item + elements_notes(cs@, e as int));
            assert(notes@ =~= start_notes + (done + item));
            assert(elements_notes(cs@, 0) =~= (done + item) + elements_notes(cs@, e as int));
            done = done + item;
        }
        let ghost entry = el.deep_view();
        acc.push(el);
        proof {
            assert(acc.deep_view() =~= old_acc.push(entry));
            lemma_prepend_push(old_acc, entry, sp_elements(cs@, e as int));
        }
        k = e;
    }
}

/// Parses `content` into its elements in document order.
pub fn parse_raw(content: &str) -> (r: Result<Vec<AstElement>, ParseError>)
    ensures
        match parse_model(content@) {
            Ok(m) => r is Ok && r->Ok_0.deep_view() == m,
            Err(x) => r is Err && r->Err_0.deep_view() == x,
        },
{
    let mut notes: Vec<usize> = Vec::new();
    parse_raw_with_notes(content, &mut notes)
}

} // verus!
