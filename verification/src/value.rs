//! Typed attribute values.
//!
//! A value is a closed tagged union with one case per value kind.  Numeric
//! quantities are held in a canonical integer form, which the writer spells
//! in decimal.  `Link` and `FuncLink` hold a handle to another tree node
//! rather than plain data; the two differ only in the textual reference form
//! the writer emits.

use crate::dom::Node;
use crate::name::ValueId;
use vstd::prelude::*;

verus! {

/// Unit suffix of a length value.
#[derive(Clone, Copy, Debug, PartialEq, Eq, Structural)]
pub enum LengthUnit {
    NoUnit,
    Em,
    Ex,
    Px,
    In,
    Cm,
    Mm,
    Pt,
    Pc,
    Percent,
}

impl LengthUnit {
    /// The textual suffix of the unit (empty for a bare number).
    pub open spec fn spec_suffix(self) -> Seq<char> {
        match self {
            LengthUnit::NoUnit => ""@,
            LengthUnit::Em => "em"@,
            LengthUnit::Ex => "ex"@,
            LengthUnit::Px => "px"@,
            LengthUnit::In => "in"@,
            LengthUnit::Cm => "cm"@,
            LengthUnit::Mm => "mm"@,
            LengthUnit::Pt => "pt"@,
            LengthUnit::Pc => "pc"@,
            LengthUnit::Percent => "%"@,
        }
    }

    /// Returns the textual suffix of the unit.
    pub fn suffix(&self) -> (r: &'static str)
        ensures
            r@ == self.spec_suffix(),
    {
        match self {
            LengthUnit::NoUnit => "",
            LengthUnit::Em => "em",
            LengthUnit::Ex => "ex",
            LengthUnit::Px => "px",
            LengthUnit::In => "in",
            LengthUnit::Cm => "cm",
            LengthUnit::Mm => "mm",
            LengthUnit::Pt => "pt",
            LengthUnit::Pc => "pc",
            LengthUnit::Percent => "%",
        }
    }
}

/// A length: a number with a unit.
#[derive(Clone, Copy, Debug, PartialEq, Eq, Structural)]
pub struct Length {
    pub num: i64,
    pub unit: LengthUnit,
}

/// A point of a `points` list.
#[derive(Clone, Copy, Debug, PartialEq, Eq, Structural)]
pub struct Point {
    pub x: i64,
    pub y: i64,
}

/// An affine transform, in matrix form.
#[derive(Clone, Copy, Debug, PartialEq, Eq, Structural)]
pub struct Transform {
    pub a: i64,
    pub b: i64,
    pub c: i64,
    pub d: i64,
    pub e: i64,
    pub f: i64,
}

/// A view-box rectangle.
#[derive(Clone, Copy, Debug, PartialEq, Eq, Structural)]
pub struct ViewBox {
    pub x: i64,
    pub y: i64,
    pub w: i64,
    pub h: i64,
}

/// The value of an attribute.
#[derive(Debug)]
pub enum AttributeValue {
    /// An RGB color.
    Color(u8, u8, u8),
    /// A single length.
    Length(Length),
    /// A list of lengths.
    LengthList(Vec<Length>),
    /// A single number.
    Number(i64),
    /// A list of numbers.
    NumberList(Vec<i64>),
    /// Path data, kept in textual form.
    Path(String),
    /// A list of points.
    Points(Vec<Point>),
    /// A known keyword value.
    PredefValue(ValueId),
    /// Free-form text.
    String(String),
    /// A transform.
    Transform(Transform),
    /// A view-box.
    ViewBox(ViewBox),
    /// A live reference to another node, written as a bare reference.
    Link(Node),
    /// A live reference to another node, written in function-call form.
    FuncLink(Node),
}

/// The node a value refers to, if it is a link value.
pub open spec fn spec_link_target(v: &AttributeValue) -> Option<Node> {
    match v {
        AttributeValue::Link(n) => Some(*n),
        AttributeValue::FuncLink(n) => Some(*n),
        _ => None,
    }
}

/// Two values are the same when they are the same kind and their contents
/// spell the same data (strings compare by their characters).
pub open spec fn value_eq(a: &AttributeValue, b: &AttributeValue) -> bool {
    match (a, b) {
        (AttributeValue::Color(r1, g1, b1), AttributeValue::Color(r2, g2, b2)) => r1 == r2 && g1
            == g2 && b1 == b2,
        (AttributeValue::Length(l1), AttributeValue::Length(l2)) => l1 == l2,
        (AttributeValue::LengthList(v1), AttributeValue::LengthList(v2)) => v1@ == v2@,
        (AttributeValue::Number(n1), AttributeValue::Number(n2)) => n1 == n2,
        (AttributeValue::NumberList(v1), AttributeValue::NumberList(v2)) => v1@ == v2@,
        (AttributeValue::Path(s1), AttributeValue::Path(s2)) => s1@ == s2@,
        (AttributeValue::Points(v1), AttributeValue::Points(v2)) => v1@ == v2@,
        (AttributeValue::PredefValue(k1), AttributeValue::PredefValue(k2)) => k1 == k2,
        (AttributeValue::String(s1), AttributeValue::String(s2)) => s1@ == s2@,
        (AttributeValue::Transform(t1), AttributeValue::Transform(t2)) => t1 == t2,
        (AttributeValue::ViewBox(v1), AttributeValue::ViewBox(v2)) => v1 == v2,
        (AttributeValue::Link(n1), AttributeValue::Link(n2)) => n1 == n2,
        (AttributeValue::FuncLink(n1), AttributeValue::FuncLink(n2)) => n1 == n2,
        _ => false,
    }
}

fn vec_eq_length(a: &Vec<Length>, b: &Vec<Length>) -> (r: bool)
    ensures
        r == (a@ == b@),
{
    if a.len() != b.len() {
        return false;
    }
    let mut i: usize = 0;
    while i < a.len()
        invariant
            a@.len() == b@.len(),
            i <= a@.len(),
            forall|j: int| 0 <= j < i ==> a@[j] == b@[j],
        decreases a@.len() - i,
    {
        if a[i] != b[i] {
            return false;
        }
        i += 1;
    }
    proof {
        assert(a@ =~= b@);
    }
    true
}

fn vec_eq_i64(a: &Vec<i64>, b: &Vec<i64>) -> (r: bool)
    ensures
        r == (a@ == b@),
{
    if a.len() != b.len() {
        return false;
    }
    let mut i: usize = 0;
    while i < a.len()
        invariant
            a@.len() == b@.len(),
            i <= a@.len(),
            forall|j: int| 0 <= j < i ==> a@[j] == b@[j],
        decreases a@.len() - i,
    {
        if a[i] != b[i] {
            return false;
        }
        i += 1;
    }
    proof {
        assert(a@ =~= b@);
    }
    true
}

fn vec_eq_point(a: &Vec<Point>, b: &Vec<Point>) -> (r: bool)
    ensures
        r == (a@ == b@),
{
    if a.len() != b.len() {
        return false;
    }
    let mut i: usize = 0;
    while i < a.len()
        invariant
            a@.len() == b@.len(),
            i <= a@.len(),
            forall|j: int| 0 <= j < i ==> a@[j] == b@[j],
        decreases a@.len() - i,
    {
        if a[i] != b[i] {
            return false;
        }
        i += 1;
    }
    proof {
        assert(a@ =~= b@);
    }
    true
}

fn clone_vec_length(a: &Vec<Length>) -> (r: Vec<Length>)
    ensures
        r@ == a@,
{
    let mut r: Vec<Length> = Vec::new();
    let mut i: usize = 0;
    while i < a.len()
        invariant
            i <= a@.len(),
            r@ =~= a@.subrange(0, i as int),
        decreases a@.len() - i,
    {
        r.push(a[i]);
        i += 1;
    }
    proof {
        assert(r@ =~= a@);
    }
    r
}

fn clone_vec_i64(a: &Vec<i64>) -> (r: Vec<i64>)
    ensures
        r@ == a@,
{
    let mut r: Vec<i64> = Vec::new();
    let mut i: usize = 0;
    while i < a.len()
        invariant
            i <= a@.len(),
            r@ =~= a@.subrange(0, i as int),
        decreases a@.len() - i,
    {
        r.push(a[i]);
        i += 1;
    }
    proof {
        assert(r@ =~= a@);
    }
    r
}

fn clone_vec_point(a: &Vec<Point>) -> (r: Vec<Point>)
    ensures
        r@ == a@,
{
    let mut r: Vec<Point> = Vec::new();
    let mut i: usize = 0;
    while i < a.len()
        invariant
            i <= a@.len(),
            r@ =~= a@.subrange(0, i as int),
        decreases a@.len() - i,
    {
        r.push(a[i]);
        i += 1;
    }
    proof {
        assert(r@ =~= a@);
    }
    r
}

impl Clone for AttributeValue {
    fn clone(&self) -> (r: Self)
        ensures
            value_eq(&r, self),
            spec_link_target(&r) == spec_link_target(self),
    {
        match self {
            AttributeValue::Color(r, g, b) => AttributeValue::Color(*r, *g, *b),
            AttributeValue::Length(l) => AttributeValue::Length(*l),
            AttributeValue::LengthList(v) => AttributeValue::LengthList(clone_vec_length(v)),
            AttributeValue::Number(n) => AttributeValue::Number(*n),
            AttributeValue::NumberList(v) => AttributeValue::NumberList(clone_vec_i64(v)),
            AttributeValue::Path(s) => AttributeValue::Path(s.clone()),
            AttributeValue::Points(v) => AttributeValue::Points(clone_vec_point(v)),
            AttributeValue::PredefValue(k) => AttributeValue::PredefValue(*k),
            AttributeValue::String(s) => AttributeValue::String(s.clone()),
            AttributeValue::Transform(t) => AttributeValue::Transform(*t),
            AttributeValue::ViewBox(v) => AttributeValue::ViewBox(*v),
            AttributeValue::Link(n) => AttributeValue::Link(*n),
            AttributeValue::FuncLink(n) => AttributeValue::FuncLink(*n),
        }
    }
}

impl AttributeValue {
    /// Decides whether two values are the same kind with the same contents.
    pub fn eq_value(&self, other: &Self) -> (r: bool)
        ensures
            r == value_eq(self, other),
    {
        match (self, other) {
            (AttributeValue::Color(r1, g1, b1), AttributeValue::Color(r2, g2, b2)) => r1 == r2
                && g1 == g2 && b1 == b2,
            (AttributeValue::Length(l1), AttributeValue::Length(l2)) => l1 == l2,
            (AttributeValue::LengthList(v1), AttributeValue::LengthList(v2)) => vec_eq_length(
                v1,
                v2,
            ),
            (AttributeValue::Number(n1), AttributeValue::Number(n2)) => n1 == n2,
            (AttributeValue::NumberList(v1), AttributeValue::NumberList(v2)) => vec_eq_i64(v1, v2),
            (AttributeValue::Path(s1), AttributeValue::Path(s2)) => crate::strutil::str_eq(
                s1.as_str(),
                s2.as_str(),
            ),
            (AttributeValue::Points(v1), AttributeValue::Points(v2)) => vec_eq_point(v1, v2),
            (AttributeValue::PredefValue(k1), AttributeValue::PredefValue(k2)) => k1 == k2,
            (AttributeValue::String(s1), AttributeValue::String(s2)) => crate::strutil::str_eq(
                s1.as_str(),
                s2.as_str(),
            ),
            (AttributeValue::Transform(t1), AttributeValue::Transform(t2)) => t1 == t2,
            (AttributeValue::ViewBox(v1), AttributeValue::ViewBox(v2)) => v1 == v2,
            (AttributeValue::Link(n1), AttributeValue::Link(n2)) => n1 == n2,
            (AttributeValue::FuncLink(n1), AttributeValue::FuncLink(n2)) => n1 == n2,
            _ => false,
        }
    }

    /// Returns the node a link or function-link value refers to.
    pub fn link_target(&self) -> (r: Option<Node>)
        ensures
            r == spec_link_target(self),
    {
        match self {
            AttributeValue::Link(n) => Some(*n),
            AttributeValue::FuncLink(n) => Some(*n),
            _ => None,
        }
    }

    /// The format-defined default value for a known attribute identifier,
    /// when the format defines one.
    pub open spec fn spec_default_value(id: crate::name::AttributeId) -> Option<AttributeValue> {
        match id {
            crate::name::AttributeId::Fill => Some(AttributeValue::Color(0, 0, 0)),
            crate::name::AttributeId::FillOpacity => Some(AttributeValue::Number(1)),
            crate::name::AttributeId::Opacity => Some(AttributeValue::Number(1)),
            crate::name::AttributeId::Stroke => Some(
                AttributeValue::PredefValue(ValueId::NoneValue),
            ),
            crate::name::AttributeId::StrokeOpacity => Some(AttributeValue::Number(1)),
            crate::name::AttributeId::StrokeWidth => Some(AttributeValue::Number(1)),
            crate::name::AttributeId::X => Some(AttributeValue::Number(0)),
            crate::name::AttributeId::Y => Some(AttributeValue::Number(0)),
            _ => None,
        }
    }

    /// Returns the format-defined default value for `id`, if any.
    pub fn default_value(id: crate::name::AttributeId) -> (r: Option<AttributeValue>)
        ensures
            r == Self::spec_default_value(id),
    {
        match id {
            crate::name::AttributeId::Fill => Some(AttributeValue::Color(0, 0, 0)),
            crate::name::AttributeId::FillOpacity => Some(AttributeValue::Number(1)),
            crate::name::AttributeId::Opacity => Some(AttributeValue::Number(1)),
            crate::name::AttributeId::Stroke => Some(
                AttributeValue::PredefValue(ValueId::NoneValue),
            ),
            crate::name::AttributeId::StrokeOpacity => Some(AttributeValue::Number(1)),
            crate::name::AttributeId::StrokeWidth => Some(AttributeValue::Number(1)),
            crate::name::AttributeId::X => Some(AttributeValue::Number(0)),
            crate::name::AttributeId::Y => Some(AttributeValue::Number(0)),
            _ => None,
        }
    }
}

} // verus!
