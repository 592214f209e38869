//! The front end of the SSD description language: a parser from source text
//! to an order-preserving raw syntax tree, the assembly of that tree into a
//! module of uniquely named declarations, a canonical printer, and a pass that
//! rewrites type references through a mapping table.

pub mod assemble;
pub mod assembly_laws;
pub mod ast;
pub mod error;
pub mod files;
pub mod laws;
pub mod lexer;
pub mod parse_laws;
pub mod parser;
pub mod pretty;
pub mod roundtrip;
pub mod text;
pub mod typemap;

pub use assemble::{parse, raw_service_to_service, raw_to_ssd_file};
pub use ast::{
    AstElement, Attribute, DataType, Dependency, Enum, EnumValue, Event, Function, Import,
    NameTypePair, Namespace, OrderedMap, Parameter, Service, ServiceAstElement, SsdModule,
    TypeName,
};
pub use files::{namespace_for_file, parse_key_val};
pub use error::{DeclarationKind, ParseError, ParseErrorType};
pub use parser::{parse_raw, parse_raw_with_notes};
pub use pretty::{
    argument_to_string, attributes_to_string, datatype_to_string, enum_to_string,
    namespace_to_string, parameters_to_string, pretty, service_to_string,
};
pub use roundtrip::{check_round_trip, to_comparable, ComparableAstElement, RoundTripError};
pub use typemap::{canonical_mapping, update_types, TypePath};
