//! The round-trip check of the printer: rendering raw elements and parsing
//! the text again must give the same declarations, once service bodies are
//! assembled (which folds their comments into the declarations).

use vstd::prelude::*;

use crate::assemble::{assemble_service_model, raw_service_to_service};
use crate::ast::{
    AstElement, DataType, DataTypeModel, DeepCopy, DeepEq, ElementModel, Enum, EnumModel, Import,
    ImportModel, Service, ServiceModel, slices_deep_eq,
};
use crate::error::{ParseError, ParseErrorModel};
use crate::parser::{parse_model, parse_raw};
use crate::pretty::{pretty, pretty_model};

verus! {

/// A top-level element with its service, if it is one, assembled.
#[derive(Clone, Debug, PartialEq)]
pub enum ComparableAstElement {
    Comment(String),
    Import(Import),
    DataType(String, DataType),
    Enum(String, Enum),
    Service(String, Service),
}

pub enum ComparableModel {
    Comment(Seq<char>),
    Import(ImportModel),
    DataType(Seq<char>, DataTypeModel),
    Enum(Seq<char>, EnumModel),
    Service(Seq<char>, ServiceModel),
}

impl DeepView for ComparableAstElement {
    type V = ComparableModel;

    open spec fn deep_view(&self) -> ComparableModel {
        match self {
            ComparableAstElement::Comment(c) => ComparableModel::Comment(c@),
            ComparableAstElement::Import(i) => ComparableModel::Import(i.deep_view()),
            ComparableAstElement::DataType(n, d) => ComparableModel::DataType(n@, d.deep_view()),
            ComparableAstElement::Enum(n, e) => ComparableModel::Enum(n@, e.deep_view()),
            ComparableAstElement::Service(n, s) => ComparableModel::Service(n@, s.deep_view()),
        }
    }
}

impl DeepEq for ComparableAstElement {
    fn deep_eq(&self, other: &ComparableAstElement) -> (r: bool) {
        match (self, other) {
            (ComparableAstElement::Comment(a), ComparableAstElement::Comment(b)) => a.deep_eq(b),
            (ComparableAstElement::Import(a), ComparableAstElement::Import(b)) => a.deep_eq(b),
            (ComparableAstElement::DataType(n, a), ComparableAstElement::DataType(m, b)) => n.deep_eq(
                m,
            ) && a.deep_eq(b),
            (ComparableAstElement::Enum(n, a), ComparableAstElement::Enum(m, b)) => n.deep_eq(m)
                && a.deep_eq(b),
            (ComparableAstElement::Service(n, a), ComparableAstElement::Service(m, b)) => n.deep_eq(
                m,
            ) && a.deep_eq(b),
            _ => false,
        }
    }
}

pub open spec fn comparable_element(el: ElementModel) -> Result<ComparableModel, ParseErrorModel> {
    match el {
        ElementModel::Comment(c) => Ok(ComparableModel::Comment(c)),
        ElementModel::Import(i) => Ok(ComparableModel::Import(i)),
        ElementModel::DataType(n, d) => Ok(ComparableModel::DataType(n, d)),
        ElementModel::Enum(n, e) => Ok(ComparableModel::Enum(n, e)),
        ElementModel::Service(n, body, attrs) => match assemble_service_model(body, attrs) {
            Ok(s) => Ok(ComparableModel::Service(n, s)),
            Err(x) => Err(x),
        },
    }
}

/// The first `i` elements in comparable form, or the first error of
/// assembling one of their services.
pub open spec fn comparable_upto(els: Seq<ElementModel>, i: int) -> Result<
    Seq<ComparableModel>,
    ParseErrorModel,
>
    decreases i,
{
    if 0 < i <= els.len() {
        match comparable_upto(els, i - 1) {
            Err(x) => Err(x),
            Ok(prev) => match comparable_element(els[i - 1]) {
                Ok(c) => Ok(prev.push(c)),
                Err(x) => Err(x),
            },
        }
    } else {
        Ok(Seq::empty())
    }
}

pub open spec fn comparable_model(els: Seq<ElementModel>) -> Result<Seq<ComparableModel>, ParseErrorModel> {
    comparable_upto(els, els.len() as int)
}

pub proof fn lemma_comparable_error_stays(els: Seq<ElementModel>, i: int, k: int)
    requires
        0 < i <= k <= els.len(),
        comparable_upto(els, i) is Err,
    ensures
        comparable_upto(els, k) == comparable_upto(els, i),
    decreases k - i,
{
    if k > i {
        lemma_comparable_error_stays(els, i, k - 1);
    }
}

/// The elements in comparable form: each service body assembled.
pub fn to_comparable(raw: &[AstElement]) -> (r: Result<Vec<ComparableAstElement>, ParseError>)
    ensures
        match comparable_model(raw.deep_view()) {
            Ok(m) => r is Ok && r->Ok_0.deep_view() == m,
            Err(x) => r is Err && r->Err_0.deep_view() == x,
        },
{
    let ghost els = raw.deep_view();
    let mut out: Vec<ComparableAstElement> = Vec::new();
    let mut i: usize = 0;
    proof {
        assert(out.deep_view() =~= Seq::<ComparableModel>::empty());
    }
    while i < raw.len()
        invariant
            i <= raw@.len(),
            els == raw.deep_view(),
            comparable_upto(els, i as int) == Ok::<Seq<ComparableModel>, ParseErrorModel>(
                out.deep_view(),
            ),
        decreases raw@.len() - i,
    {
        let c = match &raw[i] {
            AstElement::Comment(c) => ComparableAstElement::Comment(c.deep_copy()),
            AstElement::Import(im) => ComparableAstElement::Import(im.deep_copy()),
            AstElement::DataType(n, d) => ComparableAstElement::DataType(n.deep_copy(), d.deep_copy()),
            AstElement::Enum(n, e) => ComparableAstElement::Enum(n.deep_copy(), e.deep_copy()),
            AstElement::Service(n, body, attrs) => {
                match raw_service_to_service(body.as_slice(), attrs.as_slice()) {
                    Ok(s) => ComparableAstElement::Service(n.deep_copy(), s),
                    Err(x) => {
                        proof {
                            lemma_comparable_error_stays(els, i + 1, els.len() as int);
                        }
                        return Err(x);
                    },
                }
            },
        };
        let ghost old_out = out.deep_view();
        proof {
            assert(comparable_element(els[i as int]) == Ok::<ComparableModel, ParseErrorModel>(
                c.deep_view(),
            ));
        }
        out.push(c);
        proof {
            assert(out.deep_view() =~= old_out.push(c.deep_view()));
        }
        i = i + 1;
    }
    proof {
        assert(raw@.len() == els.len());
    }
    Ok(out)
}

/// Why the round trip failed.
#[derive(Clone, Debug, PartialEq)]
pub enum RoundTripError {
    /// The input itself does not assemble (a duplicate name in a service).
    Source(ParseError),
    /// The rendered text does not parse: the printer and the grammar disagree.
    Reparse(ParseError),
    /// The rendered text parses to other declarations: both are given.
    Mismatch(Vec<ComparableAstElement>, Vec<ComparableAstElement>),
}

/// Renders `raw` and checks the text by parsing it again: the text is
/// returned only where its elements, with services assembled, equal those of
/// `raw`.
pub fn check_round_trip(raw: &[AstElement]) -> (r: Result<String, RoundTripError>)
    ensures
        match comparable_model(raw.deep_view()) {
            Err(x) => r matches Err(RoundTripError::Source(e)) && e.deep_view() == x,
            Ok(expected) => match parse_model(pretty_model(raw.deep_view())) {
                Err(x) => r matches Err(RoundTripError::Reparse(e)) && e.deep_view() == x,
                Ok(els) => match comparable_model(els) {
                    Err(x) => r matches Err(RoundTripError::Reparse(e)) && e.deep_view() == x,
                    Ok(again) => if again == expected {
                        r is Ok && r->Ok_0@ == pretty_model(raw.deep_view())
                    } else {
                        r matches Err(RoundTripError::Mismatch(a, b)) && a.deep_view() == expected
                            && b.deep_view() == again
                    },
                },
            },
        },
{
    let expected = match to_comparable(raw) {
        Ok(c) => c,
        Err(e) => {
            return Err(RoundTripError::Source(e));
        },
    };
    let text = pretty(raw);
    let reparsed = match parse_raw(text.as_str()) {
        Ok(els) => els,
        Err(e) => {
            return Err(RoundTripError::Reparse(e));
        },
    };
    let again = match to_comparable(reparsed.as_slice()) {
        Ok(c) => c,
        Err(e) => {
            return Err(RoundTripError::Reparse(e));
        },
    };
    if slices_deep_eq(expected.as_slice(), again.as_slice()) {
        Ok(text)
    } else {
        Err(RoundTripError::Mismatch(expected, again))
    }
}

} // verus!
