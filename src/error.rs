//! Errors of parsing and assembly.

use vstd::prelude::*;

use crate::lexer::{line_end, line_end_at, skip_ws, skip_ws_at};
use crate::text::string_between;

verus! {

/// The kind of declaration that a duplicate name was found among.
#[derive(Clone, Copy, Debug, PartialEq, Eq)]
pub enum DeclarationKind {
    DataType,
    Enum,
    Service,
    Function,
    Event,
}

/// What went wrong: the production that could not be completed, or a
/// semantic failure.
#[derive(Clone, Debug, PartialEq)]
pub enum ParseErrorType {
    IncompleteImport,
    IncompleteDatatype,
    IncompleteProperty,
    MissingType(String),
    IncompleteEnum,
    IncompleteEnumValue,
    InvalidEnumValue(String),
    IncompleteService,
    IncompleteDepends,
    IncompleteCall,
    IncompleteEvent,
    IncompleteArgumentIdent,
    IncompleteAttributeArg,
    IncompleteAttribute,
    IncompleteName,
    UnexpectedElement(String),
    DuplicateDeclaration(DeclarationKind, String),
    OtherError(String),
}

/// An error with the source text at which it was found (the rest of that line).
#[derive(Clone, Debug, PartialEq)]
pub struct ParseError {
    pub error_type: ParseErrorType,
    pub span: String,
}

pub enum ErrorKindModel {
    IncompleteImport,
    IncompleteDatatype,
    IncompleteProperty,
    MissingType(Seq<char>),
    IncompleteEnum,
    IncompleteEnumValue,
    InvalidEnumValue(Seq<char>),
    IncompleteService,
    IncompleteDepends,
    IncompleteCall,
    IncompleteEvent,
    IncompleteArgumentIdent,
    IncompleteAttributeArg,
    IncompleteAttribute,
    IncompleteName,
    UnexpectedElement(Seq<char>),
    DuplicateDeclaration(DeclarationKind, Seq<char>),
    OtherError(Seq<char>),
}

pub struct ParseErrorModel {
    pub kind: ErrorKindModel,
    pub span: Seq<char>,
}

impl DeepView for ParseErrorType {
    type V = ErrorKindModel;

    open spec fn deep_view(&self) -> ErrorKindModel {
        match self {
            ParseErrorType::IncompleteImport => ErrorKindModel::IncompleteImport,
            ParseErrorType::IncompleteDatatype => ErrorKindModel::IncompleteDatatype,
            ParseErrorType::IncompleteProperty => ErrorKindModel::IncompleteProperty,
            ParseErrorType::MissingType(n) => ErrorKindModel::MissingType(n@),
            ParseErrorType::IncompleteEnum => ErrorKindModel::IncompleteEnum,
            ParseErrorType::IncompleteEnumValue => ErrorKindModel::IncompleteEnumValue,
            ParseErrorType::InvalidEnumValue(v) => ErrorKindModel::InvalidEnumValue(v@),
            ParseErrorType::IncompleteService => ErrorKindModel::IncompleteService,
            ParseErrorType::IncompleteDepends => ErrorKindModel::IncompleteDepends,
            ParseErrorType::IncompleteCall => ErrorKindModel::IncompleteCall,
            ParseErrorType::IncompleteEvent => ErrorKindModel::IncompleteEvent,
            ParseErrorType::IncompleteArgumentIdent => ErrorKindModel::IncompleteArgumentIdent,
            ParseErrorType::IncompleteAttributeArg => ErrorKindModel::IncompleteAttributeArg,
            ParseErrorType::IncompleteAttribute => ErrorKindModel::IncompleteAttribute,
            ParseErrorType::IncompleteName => ErrorKindModel::IncompleteName,
            ParseErrorType::UnexpectedElement(w) => ErrorKindModel::UnexpectedElement(w@),
            ParseErrorType::DuplicateDeclaration(k, n) => ErrorKindModel::DuplicateDeclaration(
                *k,
                n@,
            ),
            ParseErrorType::OtherError(d) => ErrorKindModel::OtherError(d@),
        }
    }
}

impl DeepView for ParseError {
    type V = ParseErrorModel;

    open spec fn deep_view(&self) -> ParseErrorModel {
        ParseErrorModel { kind: self.error_type.deep_view(), span: self.span@ }
    }
}

/// The error of the given kind found at position `at`: its span is the source
/// text from the next token to the end of that line.
pub open spec fn error_at(kind: ErrorKindModel, s: Seq<char>, at: int) -> ParseErrorModel {
    let j = skip_ws(s, at);
    ParseErrorModel { kind, span: s.subrange(j, line_end(s, j)) }
}

/// The error of the given kind at position `at` of `cs`.
pub fn error_at_exec(error_type: ParseErrorType, cs: &Vec<char>, at: usize) -> (r: ParseError)
    requires
        at <= cs@.len(),
    ensures
        r.deep_view() == error_at(error_type.deep_view(), cs@, at as int),
{
    let j = skip_ws_at(cs, at);
    let e = line_end_at(cs, j);
    ParseError { error_type, span: string_between(cs, j, e) }
}

impl ParseError {
    /// An error found outside of any source text.
    pub fn new(error_type: ParseErrorType, span: String) -> (r: ParseError)
        ensures
            r.error_type == error_type,
            r.span == span,
    {
        ParseError { error_type, span }
    }
}

/// The word that names a kind of declaration in messages.
pub open spec fn kind_word(k: DeclarationKind) -> Seq<char> {
    match k {
        DeclarationKind::DataType => "datatype"@,
        DeclarationKind::Enum => "enum"@,
        DeclarationKind::Service => "service"@,
        DeclarationKind::Function => "function"@,
        DeclarationKind::Event => "event"@,
    }
}

/// The human-readable message of an error, with its span.
pub open spec fn error_message(e: ParseErrorModel) -> Seq<char> {
    match e.kind {
        ErrorKindModel::IncompleteImport => "Import incomplete. ("@ + e.span + ")"@,
        ErrorKindModel::IncompleteDatatype => "Datatype incomplete. ("@ + e.span + ")"@,
        ErrorKindModel::IncompleteProperty => "Property incomplete. ("@ + e.span + ")"@,
        ErrorKindModel::IncompleteEnum => "Incomplete enum. ("@ + e.span + ")"@,
        ErrorKindModel::IncompleteEnumValue => "Incomplete enum value. ("@ + e.span + ")"@,
        ErrorKindModel::IncompleteService => "Service incomplete. ("@ + e.span + ")"@,
        ErrorKindModel::IncompleteDepends => "Depends incomplete. ("@ + e.span + ")"@,
        ErrorKindModel::IncompleteCall => "Call incomplete. ("@ + e.span + ")"@,
        ErrorKindModel::IncompleteEvent => "Event incomplete. ("@ + e.span + ")"@,
        ErrorKindModel::IncompleteArgumentIdent => "Argument ident incomplete. ("@ + e.span + ")"@,
        ErrorKindModel::IncompleteAttributeArg => "Attribute argument incomplete. ("@ + e.span + ")"@,
        ErrorKindModel::IncompleteAttribute => "Attribute incomplete. ("@ + e.span + ")"@,
        ErrorKindModel::IncompleteName => "Name incomplete. ("@ + e.span + ")"@,
        ErrorKindModel::MissingType(n) => "Type missing after "@ + n + ". ("@ + e.span + ")"@,
        ErrorKindModel::InvalidEnumValue(v) => "Invalid enum value. "@ + v + " ("@ + e.span + ")"@,
        ErrorKindModel::UnexpectedElement(w) => "Unexpected element "@ + w + " ("@ + e.span + ")"@,
        ErrorKindModel::DuplicateDeclaration(k, n) => "Duplicate "@ + kind_word(k) + " "@ + n + "! ("@
            + e.span + ")"@,
        ErrorKindModel::OtherError(d) => "Other("@ + d + ")"@,
    }
}

impl DeclarationKind {
    /// The word that names this kind of declaration in messages.
    pub fn word(&self) -> (r: &'static str)
        ensures
            r@ == kind_word(*self),
    {
        match self {
            DeclarationKind::DataType => "datatype",
            DeclarationKind::Enum => "enum",
            DeclarationKind::Service => "service",
            DeclarationKind::Function => "function",
            DeclarationKind::Event => "event",
        }
    }
}

impl ParseError {
    /// The human-readable message of this error, with its span.
    pub fn to_string(&self) -> (r: String)
        ensures
            r@ == error_message(self.deep_view()),
    {
        let mut out = String::new();
        match &self.error_type {
            ParseErrorType::IncompleteImport => {
                out.append("Import incomplete. (");
                out.append(self.span.as_str());
                out.append(")");
            },
            ParseErrorType::IncompleteDatatype => {
                out.append("Datatype incomplete. (");
                out.append(self.span.as_str());
                out.append(")");
            },
            ParseErrorType::IncompleteProperty => {
                out.append("Property incomplete. (");
                out.append(self.span.as_str());
                out.append(")");
            },
            ParseErrorType::IncompleteEnum => {
                out.append("Incomplete enum. (");
                out.append(self.span.as_str());
                out.append(")");
            },
            ParseErrorType::IncompleteEnumValue => {
                out.append("Incomplete enum value. (");
                out.append(self.span.as_str());
                out.append(")");
            },
            ParseErrorType::IncompleteService => {
                out.append("Service incomplete. (");
                out.append(self.span.as_str());
                out.append(")");
            },
            ParseErrorType::IncompleteDepends => {
                out.append("Depends incomplete. (");
                out.append(self.span.as_str());
                out.append(")");
            },
            ParseErrorType::IncompleteCall => {
                out.append("Call incomplete. (");
                out.append(self.span.as_str());
                out.append(")");
            },
            ParseErrorType::IncompleteEvent => {
                out.append("Event incomplete. (");
                out.append(self.span.as_str());
                out.append(")");
            },
            ParseErrorType::IncompleteArgumentIdent => {
                out.append("Argument ident incomplete. (");
                out.append(self.span.as_str());
                out.append(")");
            },
            ParseErrorType::IncompleteAttributeArg => {
                out.append("Attribute argument incomplete. (");
                out.append(self.span.as_str());
                out.append(")");
            },
            ParseErrorType::IncompleteAttribute => {
                out.append("Attribute incomplete. (");
                out.append(self.span.as_str());
                out.append(")");
            },
            ParseErrorType::IncompleteName => {
                out.append("Name incomplete. (");
                out.append(self.span.as_str());
                out.append(")");
            },
            ParseErrorType::MissingType(n) => {
                out.append("Type missing after ");
                out.append(n.as_str());
                out.append(". (");
                out.append(self.span.as_str());
                out.append(")");
            },
            ParseErrorType::InvalidEnumValue(v) => {
                out.append("Invalid enum value. ");
                out.append(v.as_str());
                out.append(" (");
                out.append(self.span.as_str());
                out.append(")");
            },
            ParseErrorType::UnexpectedElement(w) => {
                out.append("Unexpected element ");
                out.append(w.as_str());
                out.append(" (");
                out.append(self.span.as_str());
                out.append(")");
            },
            ParseErrorType::DuplicateDeclaration(k, n) => {
                out.append("Duplicate ");
                out.append(k.word());
                out.append(" ");
                out.append(n.as_str());
                out.append("! (");
                out.append(self.span.as_str());
                out.append(")");
            },
            ParseErrorType::OtherError(d) => {
                out.append("Other(");
                out.append(d.as_str());
                out.append(")");
            },
        }
        proof {
            reveal_strlit("");
            assert(out@ =~= error_message(self.deep_view()));
        }
        out
    }
}

} // verus!
