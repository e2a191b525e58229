//! An SVG document-object-model library.
//!
//! A parsed document is held as an arena of nodes addressed by stable
//! handles; the arena is owned by [`dom::Document`].  Element nodes carry a
//! tag name, an id string and an ordered collection of typed attributes.
//! Attributes whose value refers to another node (link attributes) keep a
//! back-reference list on the target consistent under insertion, overwrite
//! and removal.  A whitespace-normalization pass and a deterministic writer
//! complete the pipeline.

pub mod attribute;
pub mod attributes;
pub mod dom;
pub mod laws;
pub mod name;
pub mod options;
pub mod parser;
pub mod strutil;
pub mod text;
pub mod value;
pub mod writer;

pub use attribute::Attribute;
pub use attributes::Attributes;
pub use dom::{Document, Node, NodeType};
pub use name::{AttributeId, AttributeQName, ElementId, QName, TagName, ValueId};
pub use options::WriteOptions;
pub use value::{AttributeValue, Length, LengthUnit, Point, Transform, ViewBox};

use vstd::prelude::*;

verus! {

/// Recoverable failures reported by checked mutation entry points and by the
/// document parser.
#[derive(Clone, Copy, Debug, PartialEq, Eq, Structural)]
pub enum Error {
    /// A link attribute was aimed at a node whose id string is empty.
    ElementMustHaveAnId,
    /// A link attribute would point a node at itself, or at a node that
    /// already links back to it.
    ElementCrosslink,
    /// The input text is not well-formed markup.
    InvalidMarkup,
}

} // verus!
