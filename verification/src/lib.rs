//! A textual, tree-structured configuration language for pipelines of
//! connectable endpoints, and its bridge to a typed tree of nodes whose
//! kinds come from a registry of classes.
//!
//! The surface syntax is a bracketed node `[name key=value value ...]`.
//! [`StringyNode::read`] turns bytes into an untyped tree,
//! [`StringyNode::to_bytes`] prints a tree in canonical form,
//! [`StringyNode::build`] checks a tree against a registry and stores typed
//! nodes in an arena, and [`StringyNode::reverse`] turns a typed node back
//! into an untyped tree.
//!
//! Strings and names are byte strings: a quoted string may hold any byte,
//! and UTF-8 is asked for nowhere but in the text of a path.
//!
//! What is proved beyond the contracts of the functions stands in
//! [`roundtrip`] (printing and reading), [`builder`] (handles and the
//! arena), [`interpret`] (values and their text) and [`rebuild`] (typed
//! trees through text and back).

pub mod arena;
pub mod builder;
pub mod class;
pub mod grammar;
pub mod hex_pair;
pub mod host;
pub mod interpret;
pub mod lexeme;
pub mod number;
pub mod parser;
pub mod printer;
pub mod rebuild;
pub mod record;
pub mod reverser;
pub mod roundtrip;
pub mod surface;
pub mod value;

pub use arena::Tree;
pub use builder::{BuildError, Place};
pub use class::{ClassError, ClassRegistrar, NodeBuilder, NodeClass, ParsedNode, PropertyInfo};
pub use grammar::ParseErrorKind;
pub use host::{HostReading, HostReadings};
pub use interpret::InterpretError;
pub use lexeme::identchar;
pub use parser::ParseError;
pub use reverser::ReverseError;
pub use surface::{Ident, StringOrSubnode, StringyNode};
pub use value::{NodeId, PropertyValue, PropertyValueType};
