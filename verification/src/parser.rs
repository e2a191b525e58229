//! The document parser: a small markup reader feeding the tree builder.
//!
//! It recognizes elements with attributes (single or double quoted),
//! character data with the fixed entity set, and comments.  Line endings are
//! normalized first; the finished tree runs through the
//! whitespace-normalization pass before it is returned.  A partially built
//! tree is never exposed: any malformed input yields an error.

use crate::attribute::Attribute;
use crate::dom::{Document, Node, NodeType};
use crate::name::{AttributeId, ElementId, QName};
use crate::strutil::{chars_to_string, is_space, str_chars, str_eq};
use crate::value::AttributeValue;
use crate::Error;
use vstd::prelude::*;

verus! {

/// Replaces each carriage-return (and carriage-return line-feed pair) by a
/// line feed.
fn norm_newlines(s: &Vec<char>) -> (r: Vec<char>)
    ensures
        s@.len() == 0 ==> r@.len() == 0,
{
    let mut out: Vec<char> = Vec::new();
    let mut i: usize = 0;
    while i < s.len()
        invariant
            i <= s@.len(),
            i == 0 ==> out@.len() == 0,
        decreases s@.len() - i,
    {
        if s[i] == '\r' {
            out.push('\n');
            if i + 1 < s.len() {
                if s[i + 1] == '\n' {
                    i += 1;
                }
            }
        } else {
            out.push(s[i]);
        }
        i += 1;
    }
    out
}

/// True for a character that may appear in a tag or attribute name.
fn is_name_char(c: char) -> bool {
    let u = c as u32;
    (u >= 97 && u <= 122) || (u >= 65 && u <= 90) || (u >= 48 && u <= 57) || c == '-' || c == '_'
        || c == '.'
}

/// Decides whether two character vectors spell the same text.
fn chars_eq(a: &Vec<char>, b: &Vec<char>) -> (r: bool)
    ensures
        r == (a@ == b@),
{
    if a.len() != b.len() {
        return false;
    }
    let mut i: usize = 0;
    while i < a.len()
        invariant
            a@.len() == b@.len(),
            i <= a@.len(),
            forall|j: int| 0 <= j < i ==> a@[j] == b@[j],
        decreases a@.len() - i,
    {
        if a[i] != b[i] {
            return false;
        }
        i += 1;
    }
    proof {
        assert(a@ =~= b@);
    }
    true
}

/// The known element identifier a tag name spells, if any.
fn element_id_from_name(name: &String) -> (r: Option<ElementId>)
    ensures
        r matches Some(id) ==> name@ == id.spec_name(),
{
    if str_eq(name.as_str(), "g") {
        Some(ElementId::G)
    } else if str_eq(name.as_str(), "linearGradient") {
        Some(ElementId::LinearGradient)
    } else if str_eq(name.as_str(), "path") {
        Some(ElementId::Path)
    } else if str_eq(name.as_str(), "rect") {
        Some(ElementId::Rect)
    } else if str_eq(name.as_str(), "svg") {
        Some(ElementId::Svg)
    } else if str_eq(name.as_str(), "text") {
        Some(ElementId::Text)
    } else if str_eq(name.as_str(), "textPath") {
        Some(ElementId::TextPath)
    } else if str_eq(name.as_str(), "tref") {
        Some(ElementId::Tref)
    } else if str_eq(name.as_str(), "tspan") {
        Some(ElementId::Tspan)
    } else {
        None
    }
}

/// The known attribute identifier a local name spells, if any.
fn attribute_id_from_name(name: &String) -> (r: Option<AttributeId>)
    ensures
        r matches Some(id) ==> name@ == id.spec_name(),
{
    if str_eq(name.as_str(), "fill") {
        Some(AttributeId::Fill)
    } else if str_eq(name.as_str(), "fill-opacity") {
        Some(AttributeId::FillOpacity)
    } else if str_eq(name.as_str(), "height") {
        Some(AttributeId::Height)
    } else if str_eq(name.as_str(), "href") {
        Some(AttributeId::Href)
    } else if str_eq(name.as_str(), "opacity") {
        Some(AttributeId::Opacity)
    } else if str_eq(name.as_str(), "space") {
        Some(AttributeId::Space)
    } else if str_eq(name.as_str(), "stroke") {
        Some(AttributeId::Stroke)
    } else if str_eq(name.as_str(), "stroke-opacity") {
        Some(AttributeId::StrokeOpacity)
    } else if str_eq(name.as_str(), "stroke-width") {
        Some(AttributeId::StrokeWidth)
    } else if str_eq(name.as_str(), "unicode") {
        Some(AttributeId::Unicode)
    } else if str_eq(name.as_str(), "width") {
        Some(AttributeId::Width)
    } else if str_eq(name.as_str(), "x") {
        Some(AttributeId::X)
    } else if str_eq(name.as_str(), "y") {
        Some(AttributeId::Y)
    } else {
        None
    }
}

/// Replaces the fixed entity references by their characters.  An `&` that
/// does not open a known reference is malformed input.
fn decode_entities(s: &Vec<char>) -> (r: Result<Vec<char>, Error>) {
    let mut out: Vec<char> = Vec::new();
    let mut i: usize = 0;
    while i < s.len()
        invariant
            i <= s@.len(),
        decreases s@.len() - i,
    {
        if s[i] == '&' {
            let mut name: Vec<char> = Vec::new();
            let mut j = i + 1;
            let mut closed = false;
            while j < s.len() && name.len() < 8 && !closed
                invariant
                    i < j,
                    j <= s@.len(),
                decreases s@.len() - j,
            {
                if s[j] == ';' {
                    closed = true;
                } else {
                    name.push(s[j]);
                }
                j += 1;
            }
            if !closed {
                return Err(Error::InvalidMarkup);
            }
            let ent = chars_to_string(&name);
            if str_eq(ent.as_str(), "amp") {
                out.push('&');
            } else if str_eq(ent.as_str(), "lt") {
                out.push('<');
            } else if str_eq(ent.as_str(), "gt") {
                out.push('>');
            } else if str_eq(ent.as_str(), "quot") {
                out.push('"');
            } else if str_eq(ent.as_str(), "apos") {
                out.push('\'');
            } else {
                return Err(Error::InvalidMarkup);
            }
            i = j;
        } else {
            out.push(s[i]);
            i += 1;
        }
    }
    Ok(out)
}

/// Skips whitespace, returning the next interesting position.
fn skip_ws(s: &Vec<char>, i: usize) -> (r: usize)
    requires
        i <= s@.len(),
    ensures
        i <= r <= s@.len(),
{
    let mut j = i;
    while j < s.len()
        invariant
            i <= j <= s@.len(),
        decreases s@.len() - j,
    {
        if !is_space(s[j]) {
            return j;
        }
        j += 1;
    }
    j
}

/// Reads a possibly prefixed name starting at `i`: returns the position
/// after it, the prefix (empty when absent) and the local part.
fn parse_qname(s: &Vec<char>, i: usize) -> (r: Result<(usize, String, String), Error>)
    requires
        i <= s@.len(),
    ensures
        r matches Ok(t) ==> i < t.0 <= s@.len() && t.2@.len() > 0,
{
    let mut j = i;
    let mut first: Vec<char> = Vec::new();
    while j < s.len()
        invariant
            i <= j <= s@.len(),
            j - i >= first@.len(),
        decreases s@.len() - j,
    {
        if is_name_char(s[j]) {
            first.push(s[j]);
            j += 1;
        } else {
            break ;
        }
    }
    if first.len() == 0 {
        return Err(Error::InvalidMarkup);
    }
    if j < s.len() && s[j] == ':' {
        let mut second: Vec<char> = Vec::new();
        let mut k = j + 1;
        while k < s.len()
            invariant
                j < k <= s@.len(),
            decreases s@.len() - k,
        {
            if is_name_char(s[k]) {
                second.push(s[k]);
                k += 1;
            } else {
                break ;
            }
        }
        if second.len() == 0 {
            return Err(Error::InvalidMarkup);
        }
        Ok((k, chars_to_string(&first), chars_to_string(&second)))
    } else {
        Ok((j, String::new(), chars_to_string(&first)))
    }
}

/// The serialized spelling of a tag name, used to match a closing tag.
fn tag_name_chars(doc: &Document, n: Node) -> (r: Vec<char>)
    requires
        doc.wf(),
        doc.spec_valid(n),
{
    let mut out: Vec<char> = Vec::new();
    match n.tag_name(doc) {
        QName::Id(p, id) => {
            if p.as_str().unicode_len() > 0 {
                crate::strutil::push_str(&mut out, p.as_str());
                out.push(':');
            }
            crate::strutil::push_str(&mut out, id.name());
        },
        QName::Name(p, name) => {
            if p.as_str().unicode_len() > 0 {
                crate::strutil::push_str(&mut out, p.as_str());
                out.push(':');
            }
            crate::strutil::push_str(&mut out, name.as_str());
        },
    }
    out
}

impl Document {
    /// Parses a document from markup text.  The returned document is
    /// well-formed and already normalized; malformed input yields
    /// `InvalidMarkup` and no partial tree.
    #[verifier::loop_isolation(false)]
    pub fn from_str(text: &str) -> (r: Result<Document, Error>)
        ensures
            r matches Ok(d) ==> d.wf(),
            // success is owed at least on the empty document
            text@.len() == 0 ==> (r matches Ok(d) && d.n_nodes() == 1),
    {
        let raw = str_chars(text);
        let s = norm_newlines(&raw);
        let len = s.len();
        let mut doc = Document::new();
        let root = doc.root();
        let mut stack: Vec<Node> = Vec::new();
        let mut i: usize = 0;
        while i < len
            invariant
                len == s@.len(),
                doc.wf(),
                len == 0 ==> doc.n_nodes() == 1 && stack@.len() == 0,
                forall|j: int|
                    0 <= j < stack@.len() ==> doc.spec_valid(#[trigger] stack@[j]) && doc.rec(
                        stack@[j],
                    ).node_type == NodeType::Element && stack@[j].spec_idx() != 0,
            decreases len - i,
        {
            if s[i] == '<' {
                if i + 1 < len && s[i + 1] == '/' {
                    // closing tag
                    let (j, prefix, local) = match parse_qname(&s, i + 2) {
                        Ok(t) => t,
                        Err(e) => {
                            return Err(e);
                        },
                    };
                    let j2 = skip_ws(&s, j);
                    if j2 >= len {
                        return Err(Error::InvalidMarkup);
                    }
                    if s[j2] != '>' {
                        return Err(Error::InvalidMarkup);
                    }
                    let top = match stack.pop() {
                        Some(t) => t,
                        None => {
                            return Err(Error::InvalidMarkup);
                        },
                    };
                    let mut expect: Vec<char> = Vec::new();
                    if prefix.as_str().unicode_len() > 0 {
                        crate::strutil::push_str(&mut expect, prefix.as_str());
                        expect.push(':');
                    }
                    crate::strutil::push_str(&mut expect, local.as_str());
                    let actual = tag_name_chars(&doc, top);
                    if !chars_eq(&expect, &actual) {
                        return Err(Error::InvalidMarkup);
                    }
                    i = j2 + 1;
                } else if len - i > 3 && s[i + 1] == '!' && s[i + 2] == '-' && s[i + 3] == '-' {
                    // comment
                    let mut j = i + 4;
                    let mut text_chars: Vec<char> = Vec::new();
                    let mut closed = false;
                    while j < len && len - j > 2 && !closed
                        invariant
                            i + 4 <= j,
                            j <= len,
                            closed ==> j + 2 < len,
                        decreases len - j,
                    {
                        if s[j] == '-' && s[j + 1] == '-' && s[j + 2] == '>' {
                            closed = true;
                            break ;
                        }
                        text_chars.push(s[j]);
                        j += 1;
                    }
                    if !closed {
                        return Err(Error::InvalidMarkup);
                    }
                    let txt = chars_to_string(&text_chars);
                    let c = doc.create_node(NodeType::Comment, txt.as_str());
                    let parent = if stack.len() > 0 {
                        stack[stack.len() - 1]
                    } else {
                        root
                    };
                    if c == parent {
                        return Err(Error::InvalidMarkup);
                    }
                    parent.append(&mut doc, c);
                    i = j + 3;
                } else {
                    // opening tag
                    let (j, prefix, local) = match parse_qname(&s, i + 1) {
                        Ok(t) => t,
                        Err(e) => {
                            return Err(e);
                        },
                    };
                    let has_prefix = prefix.as_str().unicode_len() > 0;
                    let n = if !has_prefix {
                        match element_id_from_name(&local) {
                            Some(eid) => doc.create_element(eid),
                            None => doc.create_element_named(local),
                        }
                    } else {
                        proof {
                            reveal_strlit("x");
                        }
                        let n = doc.create_element_named(String::from_str("x"));
                        n.set_tag_name(&mut doc, QName::Name(prefix, local));
                        n
                    };
                    // attributes
                    let mut k = skip_ws(&s, j);
                    let mut self_closing = false;
                    let mut closed = false;
                    while k < len && !closed
                        invariant
                            len == s@.len(),
                            i < k <= len,
                            doc.wf(),
                            doc.spec_valid(n),
                            doc.rec(n).node_type == NodeType::Element,
                            n.spec_idx() != 0,
                            forall|j2: int|
                                0 <= j2 < stack@.len() ==> doc.spec_valid(#[trigger] stack@[j2])
                                    && doc.rec(stack@[j2]).node_type == NodeType::Element
                                    && stack@[j2].spec_idx() != 0,
                        decreases len - k,
                    {
                        if s[k] == '>' {
                            k += 1;
                            closed = true;
                        } else if s[k] == '/' {
                            if k + 1 < len && s[k + 1] == '>' {
                                self_closing = true;
                                closed = true;
                                k += 2;
                            } else {
                                return Err(Error::InvalidMarkup);
                            }
                        } else {
                            // one attribute
                            let (k1, aprefix, alocal) = match parse_qname(&s, k) {
                                Ok(t) => t,
                                Err(e) => {
                                    return Err(e);
                                },
                            };
                            let k2 = skip_ws(&s, k1);
                            if k2 >= len {
                                return Err(Error::InvalidMarkup);
                            }
                            if s[k2] != '=' {
                                return Err(Error::InvalidMarkup);
                            }
                            let k3 = skip_ws(&s, k2 + 1);
                            if k3 >= len {
                                return Err(Error::InvalidMarkup);
                            }
                            let q = s[k3];
                            if q != '"' && q != '\'' {
                                return Err(Error::InvalidMarkup);
                            }
                            let mut k4 = k3 + 1;
                            let mut vchars: Vec<char> = Vec::new();
                            let mut vclosed = false;
                            while k4 < len && !vclosed
                                invariant
                                    k3 < k4 <= len,
                                decreases len - k4,
                            {
                                if s[k4] == q {
                                    vclosed = true;
                                } else {
                                    vchars.push(s[k4]);
                                }
                                k4 += 1;
                            }
                            if !vclosed {
                                return Err(Error::InvalidMarkup);
                            }
                            let decoded = match decode_entities(&vchars) {
                                Ok(d) => d,
                                Err(e) => {
                                    return Err(e);
                                },
                            };
                            let vstring = chars_to_string(&decoded);
                            let ap_empty = aprefix.as_str().unicode_len() == 0;
                            if ap_empty && str_eq(alocal.as_str(), "id") {
                                n.set_id(&mut doc, vstring.as_str());
                            } else {
                                let qname = match attribute_id_from_name(&alocal) {
                                    Some(aid) => QName::Id(aprefix, aid),
                                    None => QName::Name(aprefix, alocal),
                                };
                                let attr = Attribute::new(
                                    qname,
                                    AttributeValue::String(vstring),
                                );
                                n.set_attribute(&mut doc, attr);
                            }
                            k = skip_ws(&s, k4);
                        }
                    }
                    if !closed {
                        return Err(Error::InvalidMarkup);
                    }
                    let parent = if stack.len() > 0 {
                        stack[stack.len() - 1]
                    } else {
                        root
                    };
                    if n == parent {
                        return Err(Error::InvalidMarkup);
                    }
                    parent.append(&mut doc, n);
                    if !self_closing {
                        stack.push(n);
                    }
                    i = k;
                }
            } else {
                // character data up to the next tag
                let mut tchars: Vec<char> = Vec::new();
                tchars.push(s[i]);
                let mut j = i + 1;
                while j < len
                    invariant
                        i < j <= len,
                    decreases len - j,
                {
                    if s[j] == '<' {
                        break ;
                    }
                    tchars.push(s[j]);
                    j += 1;
                }
                let decoded = match decode_entities(&tchars) {
                    Ok(d) => d,
                    Err(e) => {
                        return Err(e);
                    },
                };
                let tstring = chars_to_string(&decoded);
                let t = doc.create_node(NodeType::Text, tstring.as_str());
                let parent = if stack.len() > 0 {
                    stack[stack.len() - 1]
                } else {
                    root
                };
                if t == parent {
                    return Err(Error::InvalidMarkup);
                }
                parent.append(&mut doc, t);
                i = j;
            }
        }
        if stack.len() > 0 {
            return Err(Error::InvalidMarkup);
        }
        doc.normalize_text();
        Ok(doc)
    }
}

} // verus!
