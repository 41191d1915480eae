//! A small mapping language for describing how response fields of an external
//! data source are projected onto fields of a schema-defined type.
//!
//! The crate parses a short textual expression list such as
//! `id: account_number, bank: {$args.bank}` into a typed abstract syntax tree
//! ([`domain::SelectionFields`]), offers a lossless order-preserving
//! interchange encoding of that tree ([`domain::SelectionFields::save`] and
//! [`domain::SelectionFields::load`]), and checks a parsed selection against
//! the field names of a target schema type ([`verify::verify`]).

pub mod codec;
pub mod domain;
pub mod parser;
pub mod verify;

pub use domain::FieldMapping;
pub use domain::MappingExpression;
pub use domain::SelectionFields;
pub use domain::TransformFn;
