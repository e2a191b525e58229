//! The writer: serializes attributes, nodes and documents to markup text.
//!
//! Attribute serialization is specified exactly, down to the escaping rules;
//! the tree serializer composes it with a fixed four-space indentation
//! scheme, writing an element inline when it is a text-content element or
//! has a text child, and in self-closing form when it has no children.

use crate::attribute::Attribute;
use crate::dom::{Document, Node, NodeType};
use crate::name::QName;
use crate::options::WriteOptions;
use crate::strutil::{
    push_chars, push_dec_i64, push_hex2, push_hex_u32, push_str, spec_dec_i64, spec_hex, spec_hex2,
};
use crate::value::{AttributeValue, Length, Point};
use vstd::prelude::*;

verus! {

/// The escape of one character of element text: the fixed minimal entity
/// set.
pub open spec fn spec_esc_text_char(c: char) -> Seq<char> {
    if c == '&' {
        "&amp;"@
    } else if c == '<' {
        "&lt;"@
    } else if c == '>' {
        "&gt;"@
    } else {
        seq![c]
    }
}

/// The escape of the first `i` characters of element text.
pub open spec fn spec_escape_text_upto(s: Seq<char>, i: int) -> Seq<char>
    decreases i,
{
    if i <= 0 {
        Seq::empty()
    } else {
        spec_escape_text_upto(s, i - 1) + spec_esc_text_char(s[i - 1])
    }
}

/// The escape of element text.
pub open spec fn spec_escape_text(s: Seq<char>) -> Seq<char> {
    spec_escape_text_upto(s, s.len() as int)
}

/// Appends the escaped form of element text.
pub fn push_escaped_text(out: &mut Vec<char>, s: &Vec<char>)
    ensures
        final(out)@ == old(out)@ + spec_escape_text(s@),
{
    let mut i: usize = 0;
    while i < s.len()
        invariant
            i <= s@.len(),
            out@ == old(out)@ + spec_escape_text_upto(s@, i as int),
        decreases s@.len() - i,
    {
        let c = s[i];
        if c == '&' {
            push_str(out, "&amp;");
        } else if c == '<' {
            push_str(out, "&lt;");
        } else if c == '>' {
            push_str(out, "&gt;");
        } else {
            out.push(c);
            proof {
                assert(out@ =~= old(out)@ + spec_escape_text_upto(s@, i + 1));
            }
        }
        i += 1;
    }
}

/// The escape of one character of an attribute value under the given quote
/// character.
pub open spec fn spec_esc_attr_char(c: char, q: char) -> Seq<char> {
    if c == '&' {
        "&amp;"@
    } else if c == '<' {
        "&lt;"@
    } else if c == '>' {
        "&gt;"@
    } else if c == q && q == '\'' {
        "&apos;"@
    } else if c == q {
        "&quot;"@
    } else {
        seq![c]
    }
}

/// The escape of the first `i` characters of an attribute value.
pub open spec fn spec_escape_attr_upto(s: Seq<char>, q: char, i: int) -> Seq<char>
    decreases i,
{
    if i <= 0 {
        Seq::empty()
    } else {
        spec_escape_attr_upto(s, q, i - 1) + spec_esc_attr_char(s[i - 1], q)
    }
}

/// The escape of an attribute value.
pub open spec fn spec_escape_attr(s: Seq<char>, q: char) -> Seq<char> {
    spec_escape_attr_upto(s, q, s.len() as int)
}

/// Appends the escaped form of an attribute value.
pub fn push_escaped_attr(out: &mut Vec<char>, s: &Vec<char>, q: char)
    ensures
        final(out)@ == old(out)@ + spec_escape_attr(s@, q),
{
    let mut i: usize = 0;
    while i < s.len()
        invariant
            i <= s@.len(),
            out@ == old(out)@ + spec_escape_attr_upto(s@, q, i as int),
        decreases s@.len() - i,
    {
        let c = s[i];
        if c == '&' {
            push_str(out, "&amp;");
        } else if c == '<' {
            push_str(out, "&lt;");
        } else if c == '>' {
            push_str(out, "&gt;");
        } else if c == q && q == '\'' {
            push_str(out, "&apos;");
        } else if c == q {
            push_str(out, "&quot;");
        } else {
            out.push(c);
            proof {
                assert(out@ =~= old(out)@ + spec_escape_attr_upto(s@, q, i + 1));
            }
        }
        i += 1;
    }
}

/// The numeric character reference for one character.
pub open spec fn spec_ncr(c: char) -> Seq<char> {
    "&#x"@ + spec_hex((c as u32) as nat) + ";"@
}

/// The references for the first `i` characters.
pub open spec fn spec_ncr_upto(s: Seq<char>, i: int) -> Seq<char>
    decreases i,
{
    if i <= 0 {
        Seq::empty()
    } else {
        spec_ncr_upto(s, i - 1) + spec_ncr(s[i - 1])
    }
}

/// The escape of a `unicode` attribute value: raw text that already begins
/// with an entity reference passes through unchanged; any other text is
/// emitted as numeric character references.
pub open spec fn spec_unicode_escape(s: Seq<char>) -> Seq<char> {
    if s.len() >= 2 && s[0] == '&' && s[1] == '#' {
        s
    } else {
        spec_ncr_upto(s, s.len() as int)
    }
}

/// Appends the escaped form of a `unicode` attribute value.
pub fn push_unicode_escape(out: &mut Vec<char>, s: &Vec<char>)
    ensures
        final(out)@ == old(out)@ + spec_unicode_escape(s@),
{
    if s.len() >= 2 {
        if s[0] == '&' && s[1] == '#' {
            push_chars(out, s);
            return ;
        }
    }
    let mut i: usize = 0;
    while i < s.len()
        invariant
            i <= s@.len(),
            out@ == old(out)@ + spec_ncr_upto(s@, i as int),
        decreases s@.len() - i,
    {
        push_str(out, "&#x");
        push_hex_u32(out, s[i] as u32);
        push_str(out, ";");
        proof {
            assert(out@ =~= old(out)@ + spec_ncr_upto(s@, i + 1));
        }
        i += 1;
    }
}

/// The textual encoding of a length: the number, then the unit suffix.
pub open spec fn spec_encode_length(l: Length) -> Seq<char> {
    spec_dec_i64(l.num as int) + l.unit.spec_suffix()
}

/// The encoding of the first `i` lengths, space separated.
pub open spec fn spec_encode_lengths_upto(s: Seq<Length>, i: int) -> Seq<char>
    decreases i,
{
    if i <= 0 {
        Seq::empty()
    } else if i == 1 {
        spec_encode_length(s[0])
    } else {
        spec_encode_lengths_upto(s, i - 1) + seq![' '] + spec_encode_length(s[i - 1])
    }
}

/// The encoding of the first `i` numbers, space separated.
pub open spec fn spec_encode_numbers_upto(s: Seq<i64>, i: int) -> Seq<char>
    decreases i,
{
    if i <= 0 {
        Seq::empty()
    } else if i == 1 {
        spec_dec_i64(s[0] as int)
    } else {
        spec_encode_numbers_upto(s, i - 1) + seq![' '] + spec_dec_i64(s[i - 1] as int)
    }
}

/// The encoding of one point: the coordinates joined by a comma.
pub open spec fn spec_encode_point(p: Point) -> Seq<char> {
    spec_dec_i64(p.x as int) + seq![','] + spec_dec_i64(p.y as int)
}

/// The encoding of the first `i` points, space separated.
pub open spec fn spec_encode_points_upto(s: Seq<Point>, i: int) -> Seq<char>
    decreases i,
{
    if i <= 0 {
        Seq::empty()
    } else if i == 1 {
        spec_encode_point(s[0])
    } else {
        spec_encode_points_upto(s, i - 1) + seq![' '] + spec_encode_point(s[i - 1])
    }
}

/// The textual encoding of an attribute value.  Colors spell as six hex
/// digits, numbers in canonical decimal form, lists space separated, a bare
/// link as `#id`, a function link as `url(#id)`.
pub open spec fn spec_encode_value(d: Document, v: AttributeValue) -> Seq<char> {
    match v {
        AttributeValue::Color(r, g, b) => seq!['#'] + spec_hex2(r) + spec_hex2(g) + spec_hex2(b),
        AttributeValue::Length(l) => spec_encode_length(l),
        AttributeValue::LengthList(ls) => spec_encode_lengths_upto(ls@, ls@.len() as int),
        AttributeValue::Number(n) => spec_dec_i64(n as int),
        AttributeValue::NumberList(ns) => spec_encode_numbers_upto(ns@, ns@.len() as int),
        AttributeValue::Path(s) => s@,
        AttributeValue::Points(ps) => spec_encode_points_upto(ps@, ps@.len() as int),
        AttributeValue::PredefValue(k) => k.spec_name(),
        AttributeValue::String(s) => s@,
        AttributeValue::Transform(t) => "matrix("@ + spec_dec_i64(t.a as int) + seq![' ']
            + spec_dec_i64(t.b as int) + seq![' '] + spec_dec_i64(t.c as int) + seq![' ']
            + spec_dec_i64(t.d as int) + seq![' '] + spec_dec_i64(t.e as int) + seq![' ']
            + spec_dec_i64(t.f as int) + seq![')'],
        AttributeValue::ViewBox(vb) => spec_dec_i64(vb.x as int) + seq![' '] + spec_dec_i64(
            vb.y as int,
        ) + seq![' '] + spec_dec_i64(vb.w as int) + seq![' '] + spec_dec_i64(vb.h as int),
        AttributeValue::Link(t) => seq!['#'] + d.rec(t).id@,
        AttributeValue::FuncLink(t) => "url(#"@ + d.rec(t).id@ + seq![')'],
    }
}

/// Appends the textual encoding of an attribute value.
#[verifier::rlimit(50)]
pub fn push_value(doc: &Document, out: &mut Vec<char>, v: &AttributeValue)
    requires
        match crate::value::spec_link_target(v) {
            Some(t) => doc.spec_valid(t),
            None => true,
        },
    ensures
        final(out)@ == old(out)@ + spec_encode_value(*doc, *v),
{
    match v {
        AttributeValue::Color(r, g, b) => {
            out.push('#');
            push_hex2(out, *r);
            push_hex2(out, *g);
            push_hex2(out, *b);
            proof {
                assert(out@ =~= old(out)@ + spec_encode_value(*doc, *v));
            }
        },
        AttributeValue::Length(l) => {
            push_dec_i64(out, l.num);
            push_str(out, l.unit.suffix());
        },
        AttributeValue::LengthList(ls) => {
            let mut i: usize = 0;
            while i < ls.len()
                invariant
                    i <= ls@.len(),
                    out@ == old(out)@ + spec_encode_lengths_upto(ls@, i as int),
                decreases ls@.len() - i,
            {
                if i > 0 {
                    out.push(' ');
                }
                push_dec_i64(out, ls[i].num);
                push_str(out, ls[i].unit.suffix());
                proof {
                    assert(out@ =~= old(out)@ + spec_encode_lengths_upto(ls@, i + 1));
                }
                i += 1;
            }
        },
        AttributeValue::Number(n) => {
            push_dec_i64(out, *n);
        },
        AttributeValue::NumberList(ns) => {
            let mut i: usize = 0;
            while i < ns.len()
                invariant
                    i <= ns@.len(),
                    out@ == old(out)@ + spec_encode_numbers_upto(ns@, i as int),
                decreases ns@.len() - i,
            {
                if i > 0 {
                    out.push(' ');
                }
                push_dec_i64(out, ns[i]);
                proof {
                    assert(out@ =~= old(out)@ + spec_encode_numbers_upto(ns@, i + 1));
                }
                i += 1;
            }
        },
        AttributeValue::Path(s) => {
            push_str(out, s.as_str());
        },
        AttributeValue::Points(ps) => {
            let mut i: usize = 0;
            while i < ps.len()
                invariant
                    i <= ps@.len(),
                    out@ == old(out)@ + spec_encode_points_upto(ps@, i as int),
                decreases ps@.len() - i,
            {
                if i > 0 {
                    out.push(' ');
                }
                push_dec_i64(out, ps[i].x);
                out.push(',');
                push_dec_i64(out, ps[i].y);
                proof {
                    assert(out@ =~= old(out)@ + spec_encode_points_upto(ps@, i + 1));
                }
                i += 1;
            }
        },
        AttributeValue::PredefValue(k) => {
            push_str(out, k.name());
        },
        AttributeValue::Transform(t) => {
            push_str(out, "matrix(");
            push_dec_i64(out, t.a);
            out.push(' ');
            push_dec_i64(out, t.b);
            out.push(' ');
            push_dec_i64(out, t.c);
            out.push(' ');
            push_dec_i64(out, t.d);
            out.push(' ');
            push_dec_i64(out, t.e);
            out.push(' ');
            push_dec_i64(out, t.f);
            out.push(')');
            proof {
                assert(out@ =~= old(out)@ + spec_encode_value(*doc, *v));
            }
        },
        AttributeValue::String(s) => {
            push_str(out, s.as_str());
        },
        AttributeValue::ViewBox(vb) => {
            push_dec_i64(out, vb.x);
            out.push(' ');
            push_dec_i64(out, vb.y);
            out.push(' ');
            push_dec_i64(out, vb.w);
            out.push(' ');
            push_dec_i64(out, vb.h);
            proof {
                assert(out@ =~= old(out)@ + spec_encode_value(*doc, *v));
            }
        },
        AttributeValue::Link(t) => {
            out.push('#');
            push_str(out, t.id(doc));
            proof {
                assert(out@ =~= old(out)@ + spec_encode_value(*doc, *v));
            }
        },
        AttributeValue::FuncLink(t) => {
            push_str(out, "url(#");
            push_str(out, t.id(doc));
            out.push(')');
            proof {
                assert(out@ =~= old(out)@ + spec_encode_value(*doc, *v));
            }
        },
    }
}

/// The name part of an attribute: `prefix:` when the prefix is not empty,
/// then the local name.
pub open spec fn spec_attr_name(a: Attribute) -> Seq<char> {
    let prefix = a.name.spec_prefix();
    let local = match a.name {
        QName::Id(_, id) => id.spec_name(),
        QName::Name(_, n) => n@,
    };
    if prefix.len() > 0 {
        prefix + seq![':'] + local
    } else {
        local
    }
}

/// The serialized form of one attribute: name, `=`, opening quote, escaped
/// value, closing quote.  The `unicode` attribute takes its dedicated escape
/// path; every other value kind is encoded and escaped for the quote
/// character the options select.
pub open spec fn spec_write_attr(d: Document, a: Attribute, opt: WriteOptions) -> Seq<char> {
    let q = opt.spec_quote();
    spec_attr_name(a) + seq!['='] + seq![q] + (match a.value {
        AttributeValue::String(s) => {
            if a.name.spec_has_id(""@, crate::name::AttributeId::Unicode) {
                spec_unicode_escape(s@)
            } else {
                spec_escape_attr(s@, q)
            }
        },
        _ => spec_escape_attr(spec_encode_value(d, a.value), q),
    }) + seq![q]
}

/// Appends the serialized form of one attribute.
pub fn push_attribute(doc: &Document, out: &mut Vec<char>, a: &Attribute, opt: &WriteOptions)
    requires
        match crate::value::spec_link_target(&a.value) {
            Some(t) => doc.spec_valid(t),
            None => true,
        },
    ensures
        final(out)@ == old(out)@ + spec_write_attr(*doc, *a, *opt),
{
    let q = opt.quote();
    match &a.name {
        QName::Id(p, id) => {
            if p.as_str().unicode_len() > 0 {
                push_str(out, p.as_str());
                out.push(':');
            }
            push_str(out, id.name());
        },
        QName::Name(p, n) => {
            if p.as_str().unicode_len() > 0 {
                push_str(out, p.as_str());
                out.push(':');
            }
            push_str(out, n.as_str());
        },
    }
    proof {
        assert(out@ =~= old(out)@ + spec_attr_name(*a));
    }
    out.push('=');
    out.push(q);
    let is_unicode = a.has_id("", crate::name::AttributeId::Unicode);
    match &a.value {
        AttributeValue::String(s) => {
            let chars = crate::strutil::str_chars(s.as_str());
            if is_unicode {
                push_unicode_escape(out, &chars);
            } else {
                push_escaped_attr(out, &chars, q);
            }
        },
        _ => {
            let mut enc: Vec<char> = Vec::new();
            push_value(doc, &mut enc, &a.value);
            push_escaped_attr(out, &enc, q);
        },
    }
    out.push(q);
    proof {
        assert(out@ =~= old(out)@ + spec_write_attr(*doc, *a, *opt));
    }
}

/// Returns the serialized form of one attribute as a string.
pub fn attribute_to_string(doc: &Document, a: &Attribute, opt: &WriteOptions) -> (r: String)
    requires
        match crate::value::spec_link_target(&a.value) {
            Some(t) => doc.spec_valid(t),
            None => true,
        },
    ensures
        r@ == spec_write_attr(*doc, *a, *opt),
{
    let mut out: Vec<char> = Vec::new();
    push_attribute(doc, &mut out, a, opt);
    crate::strutil::chars_to_string(&out)
}

/// The textual spelling of a tag name: `prefix:` when the prefix is not
/// empty, then the local name.
pub open spec fn spec_tag_text(t: crate::name::TagName) -> Seq<char> {
    let prefix = t.spec_prefix();
    let local = match t {
        QName::Id(_, id) => id.spec_name(),
        QName::Name(_, n) => n@,
    };
    if prefix.len() > 0 {
        prefix + seq![':'] + local
    } else {
        local
    }
}

/// Appends the spelling of a tag name.
pub fn push_tag_name(out: &mut Vec<char>, t: &crate::name::TagName)
    ensures
        final(out)@ == old(out)@ + spec_tag_text(*t),
{
    match t {
        QName::Id(p, id) => {
            if p.as_str().unicode_len() > 0 {
                push_str(out, p.as_str());
                out.push(':');
            }
            push_str(out, id.name());
        },
        QName::Name(p, name) => {
            if p.as_str().unicode_len() > 0 {
                push_str(out, p.as_str());
                out.push(':');
            }
            push_str(out, name.as_str());
        },
    }
    proof {
        assert(out@ =~= old(out)@ + spec_tag_text(*t));
    }
}

/// `depth` levels of four-space indentation.
pub open spec fn spec_indent(depth: nat) -> Seq<char>
    decreases depth,
{
    if depth == 0 {
        Seq::empty()
    } else {
        "    "@ + spec_indent((depth - 1) as nat)
    }
}

/// Appends `depth` levels of four-space indentation.
fn push_indent(out: &mut Vec<char>, depth: usize)
    ensures
        final(out)@ == old(out)@ + spec_indent(depth as nat),
    decreases depth,
{
    if depth > 0 {
        push_str(out, "    ");
        push_indent(out, depth - 1);
        proof {
            assert(out@ =~= old(out)@ + spec_indent(depth as nat));
        }
    } else {
        proof {
            assert(out@ =~= old(out)@ + spec_indent(depth as nat));
        }
    }
}

/// The attribute section of an opening tag, over the first `i` attributes:
/// a space and the serialized attribute for each one the options select.
pub open spec fn spec_attrs_upto(
    d: Document,
    attrs: Seq<Attribute>,
    opt: WriteOptions,
    i: int,
) -> Seq<char>
    decreases i,
{
    if i <= 0 {
        Seq::empty()
    } else {
        spec_attrs_upto(d, attrs, opt, i - 1) + (if attrs[i - 1].visible
            || opt.write_hidden_attributes {
            seq![' '] + spec_write_attr(d, attrs[i - 1], opt)
        } else {
            Seq::empty()
        })
    }
}

/// An element's opening tag up to (not including) its closing angle:
/// `<name`, the id attribute when the id is not empty, then the attributes
/// the options select, in insertion order.
pub open spec fn spec_open_tag(d: Document, n: Node, opt: WriteOptions) -> Seq<char>
    recommends
        d.spec_valid(n),
{
    let r = d.rec(n);
    let q = opt.spec_quote();
    let id_part = if r.id@.len() > 0 {
        " id="@ + seq![q] + spec_escape_attr(r.id@, q) + seq![q]
    } else {
        Seq::empty()
    };
    seq!['<'] + spec_tag_text(r.tag_name) + id_part + spec_attrs_upto(
        d,
        r.attributes@,
        opt,
        r.attributes@.len() as int,
    )
}

/// Appends an element's opening tag up to (not including) its closing angle.
fn push_open_tag(doc: &Document, out: &mut Vec<char>, n: Node, opt: &WriteOptions)
    requires
        doc.wf(),
        doc.spec_valid(n),
    ensures
        final(out)@ == old(out)@ + spec_open_tag(*doc, n, *opt),
{
    out.push('<');
    push_tag_name(out, n.tag_name(doc));
    if n.has_id(doc) {
        push_str(out, " id=");
        let q = opt.quote();
        out.push(q);
        let idchars = crate::strutil::str_chars(n.id(doc));
        push_escaped_attr(out, &idchars, q);
        out.push(q);
    }
    let ghost base = out@;
    let attrs = n.attributes(doc);
    let count = attrs.len();
    let mut i: usize = 0;
    while i < count
        invariant
            doc.wf(),
            doc.spec_valid(n),
            count == doc.rec(n).attributes@.len(),
            attrs == doc.rec(n).attributes,
            i <= count,
            out@ == base + spec_attrs_upto(*doc, doc.rec(n).attributes@, *opt, i as int),
        decreases count - i,
    {
        let a = n.attributes(doc).get_index(i);
        if a.visible || opt.write_hidden_attributes {
            out.push(' ');
            proof {
                assert(doc.rec_handles_wf(doc.nodes@[n.spec_idx()]));
            }
            push_attribute(doc, out, a, opt);
        }
        proof {
            assert(out@ =~= base + spec_attrs_upto(*doc, doc.rec(n).attributes@, *opt, i + 1));
        }
        i += 1;
    }
    proof {
        assert(out@ =~= old(out)@ + spec_open_tag(*doc, n, *opt));
    }
}

/// True when some direct child is a text node.
pub open spec fn spec_has_text_child(d: Document, n: Node) -> bool {
    exists|i: int|
        0 <= i < crate::dom::spec_children(d, n).len() && (#[trigger] crate::dom::spec_children(
            d,
            n,
        )[i]).spec_idx() < d.nodes@.len() && d.rec(crate::dom::spec_children(d, n)[i]).node_type
            == NodeType::Text
}

/// Returns `true` when some direct child is a text node.
fn has_text_child(doc: &Document, n: Node) -> (r: bool)
    requires
        doc.wf(),
        doc.spec_valid(n),
    ensures
        r == spec_has_text_child(*doc, n),
{
    let kids = n.children(doc);
    let mut i: usize = 0;
    while i < kids.len()
        invariant
            doc.wf(),
            kids@ == crate::dom::spec_children(*doc, n),
            forall|j: int| 0 <= j < kids@.len() ==> doc.spec_valid(#[trigger] kids@[j]),
            i <= kids@.len(),
            forall|j: int|
                0 <= j < i ==> doc.rec(#[trigger] kids@[j]).node_type != NodeType::Text,
        decreases kids@.len() - i,
    {
        if kids[i].node_type(doc) == NodeType::Text {
            return true;
        }
        i += 1;
    }
    false
}

/// True when the element is serialized inline: it is an SVG text-content
/// element, it has a text child, or it sits inside an inline element.
pub open spec fn spec_write_inline(d: Document, n: Node, inline: bool) -> bool {
    let tag_inline = match d.rec(n).tag_name {
        QName::Id(_, id) => id.spec_is_text_container(),
        QName::Name(_, _) => false,
    };
    inline || tag_inline || spec_has_text_child(d, n)
}

/// The serialized form of one node.  An element with no children takes the
/// self-closing form; an inline element carries its whole subtree on one
/// line; any other element puts each child on its own indented line.  The
/// recursion is cut off by `fuel`; a fuel of the arena size covers every
/// well-formed tree.
pub open spec fn spec_write_node(
    d: Document,
    n: Node,
    depth: nat,
    inline: bool,
    opt: WriteOptions,
    fuel: nat,
) -> Seq<char>
    decreases fuel, 0nat,
{
    if fuel == 0 {
        Seq::empty()
    } else {
        let r = d.rec(n);
        match r.node_type {
            NodeType::Element => {
                let kids = crate::dom::spec_children(d, n);
                if kids.len() == 0 {
                    spec_open_tag(d, n, opt) + "/>"@
                } else {
                    let wi = spec_write_inline(d, n, inline);
                    spec_open_tag(d, n, opt) + seq!['>'] + spec_write_kids(
                        d,
                        kids,
                        depth,
                        wi,
                        opt,
                        (fuel - 1) as nat,
                    ) + (if !wi {
                        seq!['\n'] + spec_indent(depth)
                    } else {
                        Seq::empty()
                    }) + "</"@ + spec_tag_text(r.tag_name) + seq!['>']
                }
            },
            NodeType::Text => spec_escape_text(r.text@),
            NodeType::Comment => "<!--"@ + r.text@ + "-->"@,
            NodeType::Cdata => "<![CDATA["@ + r.text@ + "]]>"@,
            NodeType::Declaration => "<?xml "@ + r.text@ + "?>"@,
            NodeType::Root => Seq::empty(),
        }
    }
}

/// The serialized children of an element: inline children follow each other
/// directly; otherwise each stands on its own indented line.
pub open spec fn spec_write_kids(
    d: Document,
    kids: Seq<Node>,
    depth: nat,
    wi: bool,
    opt: WriteOptions,
    fuel: nat,
) -> Seq<char>
    decreases fuel, kids.len() + 1,
{
    if kids.len() == 0 {
        Seq::empty()
    } else {
        spec_write_kids(d, kids.drop_last(), depth, wi, opt, fuel) + (if wi {
            spec_write_node_in(d, kids.last(), depth, true, opt, fuel)
        } else {
            seq!['\n'] + spec_indent((depth + 1) as nat) + spec_write_node_in(
                d,
                kids.last(),
                (depth + 1) as nat,
                false,
                opt,
                fuel,
            )
        })
    }
}

/// `spec_write_node`, guarded for use inside `spec_write_kids`: an
/// out-of-range handle contributes nothing.
pub open spec fn spec_write_node_in(
    d: Document,
    n: Node,
    depth: nat,
    inline: bool,
    opt: WriteOptions,
    fuel: nat,
) -> Seq<char>
    decreases fuel, 1nat,
{
    if n.spec_idx() < d.nodes@.len() {
        spec_write_node(d, n, depth, inline, opt, fuel)
    } else {
        Seq::empty()
    }
}

/// Serializes one node.
#[verifier::rlimit(100)]
fn push_node(
    doc: &Document,
    out: &mut Vec<char>,
    n: Node,
    depth: usize,
    inline: bool,
    opt: &WriteOptions,
    fuel: usize,
)
    requires
        doc.wf(),
        doc.spec_valid(n),
        depth + fuel <= usize::MAX,
    ensures
        final(out)@ == old(out)@ + spec_write_node(
            *doc,
            n,
            depth as nat,
            inline,
            *opt,
            fuel as nat,
        ),
    decreases fuel,
{
    if fuel == 0 {
        proof {
            assert(out@ =~= old(out)@ + spec_write_node(
                *doc,
                n,
                depth as nat,
                inline,
                *opt,
                fuel as nat,
            ));
        }
        return ;
    }
    match n.node_type(doc) {
        NodeType::Element => {
            let kids = n.children(doc);
            push_open_tag(doc, out, n, opt);
            if kids.len() == 0 {
                push_str(out, "/>");
                proof {
                    assert(out@ =~= old(out)@ + spec_write_node(
                        *doc,
                        n,
                        depth as nat,
                        inline,
                        *opt,
                        fuel as nat,
                    ));
                }
                return ;
            }
            out.push('>');
            let tag_inline = match n.tag_id(doc) {
                Some(id) => id.is_text_container(),
                None => false,
            };
            let write_inline = inline || tag_inline || has_text_child(doc, n);
            proof {
                assert(write_inline == spec_write_inline(*doc, n, inline));
            }
            let ghost base = out@;
            let mut i: usize = 0;
            while i < kids.len()
                invariant
                    doc.wf(),
                    doc.spec_valid(n),
                    kids@ == crate::dom::spec_children(*doc, n),
                    forall|j: int| 0 <= j < kids@.len() ==> doc.spec_valid(#[trigger] kids@[j]),
                    i <= kids@.len(),
                    fuel >= 1,
                    depth + fuel <= usize::MAX,
                    write_inline == spec_write_inline(*doc, n, inline),
                    out@ == base + spec_write_kids(
                        *doc,
                        kids@.subrange(0, i as int),
                        depth as nat,
                        write_inline,
                        *opt,
                        (fuel - 1) as nat,
                    ),
                decreases kids@.len() - i,
            {
                proof {
                    assert(doc.spec_valid(kids@[i as int]));
                }
                if write_inline {
                    push_node(doc, out, kids[i], depth, true, opt, fuel - 1);
                } else {
                    out.push('\n');
                    push_indent(out, depth + 1);
                    push_node(doc, out, kids[i], depth + 1, false, opt, fuel - 1);
                }
                proof {
                    assert(kids@.subrange(0, i + 1).drop_last() =~= kids@.subrange(0, i as int));
                    assert(kids@.subrange(0, i + 1).last() == kids@[i as int]);
                    assert(spec_write_node_in(
                        *doc,
                        kids@[i as int],
                        (if write_inline {
                            depth as nat
                        } else {
                            (depth + 1) as nat
                        }),
                        write_inline,
                        *opt,
                        (fuel - 1) as nat,
                    ) == spec_write_node(
                        *doc,
                        kids@[i as int],
                        (if write_inline {
                            depth as nat
                        } else {
                            (depth + 1) as nat
                        }),
                        write_inline,
                        *opt,
                        (fuel - 1) as nat,
                    ));
                    assert(out@ =~= base + spec_write_kids(
                        *doc,
                        kids@.subrange(0, i + 1),
                        depth as nat,
                        write_inline,
                        *opt,
                        (fuel - 1) as nat,
                    ));
                }
                i += 1;
            }
            proof {
                assert(kids@.subrange(0, kids@.len() as int) =~= kids@);
            }
            if !write_inline {
                out.push('\n');
                push_indent(out, depth);
            }
            push_str(out, "</");
            push_tag_name(out, n.tag_name(doc));
            out.push('>');
            proof {
                assert(out@ =~= old(out)@ + spec_write_node(
                    *doc,
                    n,
                    depth as nat,
                    inline,
                    *opt,
                    fuel as nat,
                ));
            }
        },
        NodeType::Text => {
            let chars = crate::strutil::str_chars(n.text(doc));
            push_escaped_text(out, &chars);
        },
        NodeType::Comment => {
            push_str(out, "<!--");
            push_str(out, n.text(doc));
            push_str(out, "-->");
            proof {
                assert(out@ =~= old(out)@ + spec_write_node(
                    *doc,
                    n,
                    depth as nat,
                    inline,
                    *opt,
                    fuel as nat,
                ));
            }
        },
        NodeType::Cdata => {
            push_str(out, "<![CDATA[");
            push_str(out, n.text(doc));
            push_str(out, "]]>");
            proof {
                assert(out@ =~= old(out)@ + spec_write_node(
                    *doc,
                    n,
                    depth as nat,
                    inline,
                    *opt,
                    fuel as nat,
                ));
            }
        },
        NodeType::Declaration => {
            push_str(out, "<?xml ");
            push_str(out, n.text(doc));
            push_str(out, "?>");
            proof {
                assert(out@ =~= old(out)@ + spec_write_node(
                    *doc,
                    n,
                    depth as nat,
                    inline,
                    *opt,
                    fuel as nat,
                ));
            }
        },
        NodeType::Root => {},
    }
}

/// The serialized document: the top-level nodes in order, each followed by a
/// newline, over the first `i` of them.
pub open spec fn spec_write_doc_upto(d: Document, tops: Seq<Node>, opt: WriteOptions, i: int) -> Seq<
    char,
>
    decreases i,
{
    if i <= 0 {
        Seq::empty()
    } else {
        spec_write_doc_upto(d, tops, opt, i - 1) + spec_write_node_in(
            d,
            tops[i - 1],
            0,
            false,
            opt,
            d.nodes@.len() as nat,
        ) + seq!['\n']
    }
}

/// The serialized form of a whole document under the given options.
pub open spec fn spec_write_doc(d: Document, opt: WriteOptions) -> Seq<char> {
    let tops = crate::dom::spec_children(d, crate::dom::handle(0));
    spec_write_doc_upto(d, tops, opt, tops.len() as int)
}

impl Document {
    /// Serializes the document under the given options: every top-level node
    /// in order, each followed by a newline.
    pub fn to_string_with_opt(&self, opt: &WriteOptions) -> (r: String)
        requires
            self.wf(),
        ensures
            r@ == spec_write_doc(*self, *opt),
    {
        let mut out: Vec<char> = Vec::new();
        let root = self.root();
        let kids = root.children(self);
        let fuel = self.nodes.len();
        let mut i: usize = 0;
        while i < kids.len()
            invariant
                self.wf(),
                kids@ == crate::dom::spec_children(*self, crate::dom::handle(0)),
                forall|j: int| 0 <= j < kids@.len() ==> self.spec_valid(#[trigger] kids@[j]),
                i <= kids@.len(),
                fuel == self.nodes@.len(),
                out@ == spec_write_doc_upto(*self, kids@, *opt, i as int),
            decreases kids@.len() - i,
        {
            proof {
                assert(self.spec_valid(kids@[i as int]));
            }
            push_node(self, &mut out, kids[i], 0, false, opt, fuel);
            out.push('\n');
            proof {
                assert(out@ =~= spec_write_doc_upto(*self, kids@, *opt, i + 1));
            }
            i += 1;
        }
        crate::strutil::chars_to_string(&out)
    }

    /// Serializes the document under the default options.
    pub fn to_text(&self) -> (r: String)
        requires
            self.wf(),
        ensures
            r@ == spec_write_doc(*self, WriteOptions { use_single_quote: false, write_hidden_attributes: false }),
    {
        let opt = WriteOptions::default();
        self.to_string_with_opt(&opt)
    }
}

} // verus!
