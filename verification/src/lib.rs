//! Parser for a textual class-diagram markup.
//!
//! The input is a multi-line diagram description: `class Name { ... }` blocks
//! declare entities and their members, and lines containing `--` declare
//! relations between entities with cardinality tokens on each side.  The
//! parser turns such text into a table of class definitions, injecting
//! synthesized foreign-key and many-to-many attributes for the relations.
//!
//! The whole behaviour is pinned down by a line-by-line specification state
//! machine (`parser::spec_parse`); the executable parser is proved to return
//! exactly what that specification says.

pub mod cardinality;
pub mod classify;
pub mod model;
pub mod parser;
pub mod props;
pub mod table;
pub mod text;

pub use cardinality::convert_cardinality;
pub use cardinality::ManyKind;
pub use cardinality::RelationEndpoint;
pub use model::AttributeDef;
pub use model::ClassDef;
pub use model::DataType;
pub use model::FunctionDef;
pub use parser::parse_to_ast;
pub use parser::ParseError;
pub use table::ClassTable;
