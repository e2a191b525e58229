//! Qualified names for elements and attributes.
//!
//! A name is either a known identifier from a closed enumeration (fast to
//! compare) or an owned string for custom vocabulary, always paired with an
//! optional prefix.

use vstd::prelude::*;

verus! {

/// Known SVG attribute identifiers used by this library.
#[derive(Clone, Copy, Debug, PartialEq, Eq, Structural)]
pub enum AttributeId {
    Fill,
    FillOpacity,
    Height,
    Href,
    Opacity,
    Space,
    Stroke,
    StrokeOpacity,
    StrokeWidth,
    Unicode,
    Width,
    X,
    Y,
}

impl AttributeId {
    /// The textual form of the identifier, as it appears in markup.
    pub open spec fn spec_name(self) -> Seq<char> {
        match self {
            AttributeId::Fill => "fill"@,
            AttributeId::FillOpacity => "fill-opacity"@,
            AttributeId::Height => "height"@,
            AttributeId::Href => "href"@,
            AttributeId::Opacity => "opacity"@,
            AttributeId::Space => "space"@,
            AttributeId::Stroke => "stroke"@,
            AttributeId::StrokeOpacity => "stroke-opacity"@,
            AttributeId::StrokeWidth => "stroke-width"@,
            AttributeId::Unicode => "unicode"@,
            AttributeId::Width => "width"@,
            AttributeId::X => "x"@,
            AttributeId::Y => "y"@,
        }
    }

    /// Returns the textual form of the identifier.
    pub fn name(&self) -> (r: &'static str)
        ensures
            r@ == self.spec_name(),
    {
        match self {
            AttributeId::Fill => "fill",
            AttributeId::FillOpacity => "fill-opacity",
            AttributeId::Height => "height",
            AttributeId::Href => "href",
            AttributeId::Opacity => "opacity",
            AttributeId::Space => "space",
            AttributeId::Stroke => "stroke",
            AttributeId::StrokeOpacity => "stroke-opacity",
            AttributeId::StrokeWidth => "stroke-width",
            AttributeId::Unicode => "unicode",
            AttributeId::Width => "width",
            AttributeId::X => "x",
            AttributeId::Y => "y",
        }
    }
}

/// Known SVG element identifiers used by this library.
#[derive(Clone, Copy, Debug, PartialEq, Eq, Structural)]
pub enum ElementId {
    G,
    LinearGradient,
    Path,
    Rect,
    Svg,
    Text,
    TextPath,
    Tref,
    Tspan,
}

impl ElementId {
    /// The textual form of the identifier, as it appears in markup.
    pub open spec fn spec_name(self) -> Seq<char> {
        match self {
            ElementId::G => "g"@,
            ElementId::LinearGradient => "linearGradient"@,
            ElementId::Path => "path"@,
            ElementId::Rect => "rect"@,
            ElementId::Svg => "svg"@,
            ElementId::Text => "text"@,
            ElementId::TextPath => "textPath"@,
            ElementId::Tref => "tref"@,
            ElementId::Tspan => "tspan"@,
        }
    }

    /// Returns the textual form of the identifier.
    pub fn name(&self) -> (r: &'static str)
        ensures
            r@ == self.spec_name(),
    {
        match self {
            ElementId::G => "g",
            ElementId::LinearGradient => "linearGradient",
            ElementId::Path => "path",
            ElementId::Rect => "rect",
            ElementId::Svg => "svg",
            ElementId::Text => "text",
            ElementId::TextPath => "textPath",
            ElementId::Tref => "tref",
            ElementId::Tspan => "tspan",
        }
    }

    /// True for the SVG text-content elements, whose character data mixes
    /// with child elements and is subject to whitespace normalization as one
    /// region.
    pub open spec fn spec_is_text_container(self) -> bool {
        match self {
            ElementId::Text => true,
            ElementId::TextPath => true,
            ElementId::Tref => true,
            ElementId::Tspan => true,
            _ => false,
        }
    }

    /// Returns `true` for the SVG text-content elements.
    pub fn is_text_container(&self) -> (r: bool)
        ensures
            r == self.spec_is_text_container(),
    {
        match self {
            ElementId::Text => true,
            ElementId::TextPath => true,
            ElementId::Tref => true,
            ElementId::Tspan => true,
            _ => false,
        }
    }
}

/// Known keyword values for enumerated attribute values.
#[derive(Clone, Copy, Debug, PartialEq, Eq, Structural)]
pub enum ValueId {
    Inherit,
    NoneValue,
}

impl ValueId {
    /// The textual form of the keyword.
    pub open spec fn spec_name(self) -> Seq<char> {
        match self {
            ValueId::Inherit => "inherit"@,
            ValueId::NoneValue => "none"@,
        }
    }

    /// Returns the textual form of the keyword.
    pub fn name(&self) -> (r: &'static str)
        ensures
            r@ == self.spec_name(),
    {
        match self {
            ValueId::Inherit => "inherit",
            ValueId::NoneValue => "none",
        }
    }
}

/// A qualified name: an optional prefix paired with either a known
/// identifier or an owned custom string.
///
/// The string of a `Name` variant is never empty when the name is attached
/// to a node that requires one.
#[derive(Debug)]
pub enum QName<T> {
    /// A known identifier, with a prefix (empty string means no prefix).
    Id(String, T),
    /// A custom name, with a prefix (empty string means no prefix).
    Name(String, String),
}

/// Type alias for qualified attribute names.
pub type AttributeQName = QName<AttributeId>;

/// Type alias for qualified element (tag) names.
pub type TagName = QName<ElementId>;

impl<T: Copy> Clone for QName<T> {
    fn clone(&self) -> (r: Self)
        ensures
            r == *self,
    {
        match self {
            QName::Id(p, t) => QName::Id(p.clone(), *t),
            QName::Name(p, n) => QName::Name(p.clone(), n.clone()),
        }
    }
}

impl<T> QName<T> {
    /// The prefix characters of the name (empty means no prefix).
    pub open spec fn spec_prefix(&self) -> Seq<char> {
        match self {
            QName::Id(p, _) => p@,
            QName::Name(p, _) => p@,
        }
    }

    /// Returns the prefix of the name.
    pub fn prefix(&self) -> (r: &String)
        ensures
            r@ == self.spec_prefix(),
    {
        match self {
            QName::Id(p, _) => p,
            QName::Name(p, _) => p,
        }
    }
}

/// The identity of a qualified name: the characters of its prefix paired
/// with its resolved local part.
pub enum NameKey<T> {
    /// A known identifier under a prefix.
    Id(Seq<char>, T),
    /// A custom name under a prefix.
    Name(Seq<char>, Seq<char>),
}

/// The identity a qualified name denotes.
pub open spec fn key_of<T>(n: &QName<T>) -> NameKey<T> {
    match n {
        QName::Id(p, t) => NameKey::Id(p@, *t),
        QName::Name(p, s) => NameKey::Name(p@, s@),
    }
}

/// Two qualified names denote the same name exactly when their prefixes
/// spell the same characters and their local parts resolve to the same
/// identity: equal identifiers, or custom strings with the same characters.
pub open spec fn qname_eq<T>(a: &QName<T>, b: &QName<T>) -> bool {
    key_of(a) == key_of(b)
}

impl QName<AttributeId> {
    /// Decides whether two attribute names denote the same name.
    pub fn eq_name(&self, other: &Self) -> (r: bool)
        ensures
            r == qname_eq(self, other),
    {
        match (self, other) {
            (QName::Id(pa, ta), QName::Id(pb, tb)) => crate::strutil::str_eq(
                pa.as_str(),
                pb.as_str(),
            ) && ta == tb,
            (QName::Name(pa, na), QName::Name(pb, nb)) => crate::strutil::str_eq(
                pa.as_str(),
                pb.as_str(),
            ) && crate::strutil::str_eq(na.as_str(), nb.as_str()),
            _ => false,
        }
    }

    /// True when the name is the given known identifier under the given
    /// prefix.
    pub open spec fn spec_has_id(&self, prefix: Seq<char>, id: AttributeId) -> bool {
        match self {
            QName::Id(p, t) => p@ == prefix && *t == id,
            QName::Name(_, _) => false,
        }
    }

    /// Returns `true` if the name is the known identifier `id` under
    /// `prefix`.
    pub fn has_id(&self, prefix: &str, id: AttributeId) -> (r: bool)
        ensures
            r == self.spec_has_id(prefix@, id),
    {
        match self {
            QName::Id(p, t) => crate::strutil::str_eq(p.as_str(), prefix) && *t == id,
            QName::Name(_, _) => false,
        }
    }
}

impl QName<ElementId> {
    /// Decides whether two tag names denote the same name.
    pub fn eq_name(&self, other: &Self) -> (r: bool)
        ensures
            r == qname_eq(self, other),
    {
        match (self, other) {
            (QName::Id(pa, ta), QName::Id(pb, tb)) => crate::strutil::str_eq(
                pa.as_str(),
                pb.as_str(),
            ) && ta == tb,
            (QName::Name(pa, na), QName::Name(pb, nb)) => crate::strutil::str_eq(
                pa.as_str(),
                pb.as_str(),
            ) && crate::strutil::str_eq(na.as_str(), nb.as_str()),
            _ => false,
        }
    }
}

} // verus!
