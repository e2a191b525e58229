//! A single attribute: a qualified name, a typed value, and a visibility
//! flag.
//!
//! Invisible attributes are logically present (they take part in lookup,
//! defaulting and linking) but are skipped by the writer unless the write
//! options ask for them.

use crate::dom::Node;
use crate::name::{qname_eq, AttributeId, AttributeQName, QName};
use crate::value::{spec_link_target, value_eq, AttributeValue};
use vstd::prelude::*;

verus! {

/// Representation of one attribute.
#[derive(Debug)]
pub struct Attribute {
    /// Attribute name.
    pub name: AttributeQName,
    /// Attribute value.
    pub value: AttributeValue,
    /// Visibility: invisible attributes are kept but not written out.
    pub visible: bool,
}

/// Two attributes are the same when their names denote the same name, their
/// values are the same, and their visibility agrees.
pub open spec fn attr_eq(a: &Attribute, b: &Attribute) -> bool {
    qname_eq(&a.name, &b.name) && value_eq(&a.value, &b.value) && a.visible == b.visible
}

impl Clone for Attribute {
    fn clone(&self) -> (r: Self)
        ensures
            attr_eq(&r, self),
            r.name == self.name,
            spec_link_target(&r.value) == spec_link_target(&self.value),
            r.visible == self.visible,
    {
        Attribute { name: self.name.clone(), value: self.value.clone(), visible: self.visible }
    }
}

impl Attribute {
    /// Constructs a new visible attribute.
    pub fn new(name: AttributeQName, value: AttributeValue) -> (r: Attribute)
        ensures
            r.name == name,
            r.value == value,
            r.visible,
    {
        Attribute { name, value, visible: true }
    }

    /// Constructs a new visible attribute named by a known identifier with
    /// no prefix.
    pub fn new_id(id: AttributeId, value: AttributeValue) -> (r: Attribute)
        ensures
            r.name matches QName::Id(_, i) && i == id,
            r.name.spec_prefix() == Seq::<char>::empty(),
            r.value == value,
            r.visible,
    {
        Attribute { name: QName::Id(String::new(), id), value, visible: true }
    }

    /// Constructs a new visible node-reference attribute.  The name decides
    /// the reference form: `href` under the `xlink` prefix produces a bare
    /// link, any other name a function-call link.
    pub fn new_link(name: AttributeQName, target: Node) -> (r: Attribute)
        ensures
            r.name == name,
            r.value == (if name.spec_has_id("xlink"@, AttributeId::Href) {
                AttributeValue::Link(target)
            } else {
                AttributeValue::FuncLink(target)
            }),
            r.visible,
    {
        let value = if name.has_id("xlink", AttributeId::Href) {
            AttributeValue::Link(target)
        } else {
            AttributeValue::FuncLink(target)
        };
        Attribute { name, value, visible: true }
    }

    /// Returns the known identifier of the attribute, when it has one.
    pub fn id(&self) -> (r: Option<AttributeId>)
        ensures
            r == (match self.name {
                QName::Id(_, id) => Some(id),
                QName::Name(_, _) => None::<AttributeId>,
            }),
    {
        match &self.name {
            QName::Id(_, id) => Some(*id),
            QName::Name(_, _) => None,
        }
    }

    /// Returns `true` if the attribute's name is the known identifier `id`
    /// under `prefix`.
    pub fn has_id(&self, prefix: &str, id: AttributeId) -> (r: bool)
        ensures
            r == self.name.spec_has_id(prefix@, id),
    {
        self.name.has_id(prefix, id)
    }

    /// Returns `true` if the attribute's name is a known identifier.
    pub fn is_svg(&self) -> (r: bool)
        ensures
            r == (self.name is Id),
    {
        match &self.name {
            QName::Id(_, _) => true,
            QName::Name(_, _) => false,
        }
    }

    /// Constructs a prefix-free attribute carrying the format's default
    /// value for `id`, or nothing if the format defines no default.
    pub fn default(id: AttributeId) -> (r: Option<Attribute>)
        ensures
            r is Some <==> AttributeValue::spec_default_value(id) is Some,
            r matches Some(a) ==> {
                &&& a.name matches QName::Id(_, i) && i == id
                &&& a.name.spec_prefix() == Seq::<char>::empty()
                &&& Some(a.value) == AttributeValue::spec_default_value(id)
                &&& a.visible
            },
    {
        match AttributeValue::default_value(id) {
            Some(v) => Some(Attribute::new_id(id, v)),
            None => None,
        }
    }

    /// True when the attribute is named by a known identifier and its value
    /// is the same as the format's default for that identifier.
    pub open spec fn spec_is_default(&self) -> bool {
        match self.name {
            QName::Id(_, id) => match AttributeValue::spec_default_value(id) {
                Some(v) => value_eq(&self.value, &v),
                None => false,
            },
            QName::Name(_, _) => false,
        }
    }

    /// Returns `true` if the attribute's value equals the format-defined
    /// default for its identifier (`false` for custom names and for
    /// identifiers without a default).
    pub fn check_is_default(&self) -> (r: bool)
        ensures
            r == self.spec_is_default(),
    {
        match &self.name {
            QName::Id(_, id) => match AttributeValue::default_value(*id) {
                Some(v) => self.value.eq_value(&v),
                None => false,
            },
            QName::Name(_, _) => false,
        }
    }

    /// Returns `true` if the value is a color.
    pub fn is_color(&self) -> (r: bool)
        ensures
            r == (self.value is Color),
    {
        matches!(self.value, AttributeValue::Color(_, _, _))
    }

    /// Returns `true` if the value is a length.
    pub fn is_length(&self) -> (r: bool)
        ensures
            r == (self.value is Length),
    {
        matches!(self.value, AttributeValue::Length(_))
    }

    /// Returns `true` if the value is a length list.
    pub fn is_length_list(&self) -> (r: bool)
        ensures
            r == (self.value is LengthList),
    {
        matches!(self.value, AttributeValue::LengthList(_))
    }

    /// Returns `true` if the value is a bare node reference.
    pub fn is_link(&self) -> (r: bool)
        ensures
            r == (self.value is Link),
    {
        matches!(self.value, AttributeValue::Link(_))
    }

    /// Returns `true` if the value is a function-call node reference.
    pub fn is_func_link(&self) -> (r: bool)
        ensures
            r == (self.value is FuncLink),
    {
        matches!(self.value, AttributeValue::FuncLink(_))
    }

    /// Returns `true` if the value is a number.
    pub fn is_number(&self) -> (r: bool)
        ensures
            r == (self.value is Number),
    {
        matches!(self.value, AttributeValue::Number(_))
    }

    /// Returns `true` if the value is a number list.
    pub fn is_number_list(&self) -> (r: bool)
        ensures
            r == (self.value is NumberList),
    {
        matches!(self.value, AttributeValue::NumberList(_))
    }

    /// Returns `true` if the value is path data.
    pub fn is_path(&self) -> (r: bool)
        ensures
            r == (self.value is Path),
    {
        matches!(self.value, AttributeValue::Path(_))
    }

    /// Returns `true` if the value is a point list.
    pub fn is_points(&self) -> (r: bool)
        ensures
            r == (self.value is Points),
    {
        matches!(self.value, AttributeValue::Points(_))
    }

    /// Returns `true` if the value is a known keyword.
    pub fn is_predef(&self) -> (r: bool)
        ensures
            r == (self.value is PredefValue),
    {
        matches!(self.value, AttributeValue::PredefValue(_))
    }

    /// Returns `true` if the value is free-form text.
    pub fn is_string(&self) -> (r: bool)
        ensures
            r == (self.value is String),
    {
        matches!(self.value, AttributeValue::String(_))
    }

    /// Returns `true` if the value is a transform.
    pub fn is_transform(&self) -> (r: bool)
        ensures
            r == (self.value is Transform),
    {
        matches!(self.value, AttributeValue::Transform(_))
    }

    /// Returns `true` if the value is a view-box.
    pub fn is_viewbox(&self) -> (r: bool)
        ensures
            r == (self.value is ViewBox),
    {
        matches!(self.value, AttributeValue::ViewBox(_))
    }
}

} // verus!
