//! The node tree.
//!
//! Nodes live in an arena owned by [`Document`] and are addressed by copyable
//! [`Node`] handles.  Each node holds its type, tag name, id, attributes,
//! free text, back-reference list and tree links.
//!
//! The load-bearing invariant is [`Document::links_wf`]: for any nodes `a`
//! and `b`, the number of times `a` occurs in `b`'s back-reference list
//! equals the number of attributes of `a` whose value links to `b`.  Every
//! mutation entry point preserves it.

use crate::attribute::Attribute;
use crate::attributes::{find_attr, find_key, names_unique, Attributes};
use crate::name::{key_of, qname_eq, AttributeId, AttributeQName, ElementId, NameKey, QName, TagName};
use crate::value::{spec_link_target, AttributeValue};
use crate::Error;
use vstd::prelude::*;

verus! {

/// The kind of a node; fixed at creation.
#[derive(Clone, Copy, Debug, PartialEq, Eq, Structural)]
pub enum NodeType {
    Root,
    Element,
    Declaration,
    Comment,
    Cdata,
    Text,
}

/// A handle to a node of a [`Document`].  Handles are stable: they survive
/// every mutation of the document they belong to.
#[derive(Clone, Copy, Debug, PartialEq, Eq, Hash, Structural)]
pub struct Node {
    /// Position of the node's record in the document arena.
    pub idx: usize,
}

impl Node {
    /// The arena position the handle denotes.
    pub open spec fn spec_idx(self) -> int {
        self.idx as int
    }
}

/// The handle for arena position `i`.
pub open spec fn handle(i: int) -> Node {
    Node { idx: i as usize }
}

/// Distinct arena positions have distinct handles.
pub proof fn lemma_handle_inj(d: Document, a: int, b: int)
    requires
        0 <= a < d.n_nodes(),
        0 <= b < d.n_nodes(),
        a != b,
    ensures
        handle(a) != handle(b),
{
    assert(d.nodes@.len() == vstd::std_specs::vec::spec_vec_len(&d.nodes));
}

/// The stored state of one node.
#[derive(Debug)]
pub struct NodeRec {
    /// The node's kind; never changes after creation.
    pub node_type: NodeType,
    /// Tag name; meaningful only for element nodes.
    pub tag_name: TagName,
    /// Id string; meaningful only for element nodes, empty means "no id".
    pub id: String,
    /// The node's attributes.
    pub attributes: Attributes,
    /// Free text; meaningful only for non-element nodes.
    pub text: String,
    /// The nodes that hold a link attribute pointing at this node.
    pub linked_nodes: Vec<Node>,
    /// Tree link: the parent, if attached.
    pub parent: Option<Node>,
    /// Tree link: the first child.
    pub first_child: Option<Node>,
    /// Tree link: the last child.
    pub last_child: Option<Node>,
    /// Tree link: the previous sibling.
    pub prev_sibling: Option<Node>,
    /// Tree link: the next sibling.
    pub next_sibling: Option<Node>,
}

/// True when the attribute's value links to `t`.
pub open spec fn links_to(a: Attribute, t: Node) -> bool {
    spec_link_target(&a.value) == Some(t)
}

/// How many attributes of `s` link to `t`.
pub open spec fn link_count(s: Seq<Attribute>, t: Node) -> int
    decreases s.len(),
{
    if s.len() == 0 {
        0
    } else {
        link_count(s.drop_last(), t) + if links_to(s.last(), t) {
            1int
        } else {
            0int
        }
    }
}

/// How many entries of `s` are `x`.
pub open spec fn occ_count(s: Seq<Node>, x: Node) -> int
    decreases s.len(),
{
    if s.len() == 0 {
        0
    } else {
        occ_count(s.drop_last(), x) + if s.last() == x {
            1int
        } else {
            0int
        }
    }
}

pub proof fn lemma_occ_nonneg(s: Seq<Node>, x: Node)
    ensures
        occ_count(s, x) >= 0,
    decreases s.len(),
{
    if s.len() > 0 {
        lemma_occ_nonneg(s.drop_last(), x);
    }
}

pub proof fn lemma_occ_push(s: Seq<Node>, y: Node, x: Node)
    ensures
        occ_count(s.push(y), x) == occ_count(s, x) + if y == x {
            1int
        } else {
            0int
        },
{
    assert(s.push(y).drop_last() =~= s);
}

pub proof fn lemma_occ_remove(s: Seq<Node>, i: int, x: Node)
    requires
        0 <= i < s.len(),
    ensures
        occ_count(s.remove(i), x) == occ_count(s, x) - if s[i] == x {
            1int
        } else {
            0int
        },
    decreases s.len(),
{
    if i == s.len() - 1 {
        assert(s.remove(i) =~= s.drop_last());
    } else {
        lemma_occ_remove(s.drop_last(), i, x);
        assert(s.remove(i).drop_last() =~= s.drop_last().remove(i));
        assert(s.remove(i).last() == s.last());
    }
}

pub proof fn lemma_occ_zero(s: Seq<Node>, x: Node)
    requires
        forall|j: int| 0 <= j < s.len() ==> s[j] != x,
    ensures
        occ_count(s, x) == 0,
    decreases s.len(),
{
    if s.len() > 0 {
        lemma_occ_zero(s.drop_last(), x);
    }
}

pub proof fn lemma_occ_at(s: Seq<Node>, j: int, x: Node)
    requires
        0 <= j < s.len(),
        s[j] == x,
    ensures
        occ_count(s, x) >= 1,
    decreases s.len(),
{
    lemma_occ_nonneg(s.drop_last(), x);
    if j < s.len() - 1 {
        lemma_occ_at(s.drop_last(), j, x);
    }
}

pub proof fn lemma_lc_nonneg(s: Seq<Attribute>, t: Node)
    ensures
        link_count(s, t) >= 0,
    decreases s.len(),
{
    if s.len() > 0 {
        lemma_lc_nonneg(s.drop_last(), t);
    }
}

pub proof fn lemma_lc_push(s: Seq<Attribute>, a: Attribute, t: Node)
    ensures
        link_count(s.push(a), t) == link_count(s, t) + if links_to(a, t) {
            1int
        } else {
            0int
        },
{
    assert(s.push(a).drop_last() =~= s);
}

pub proof fn lemma_lc_remove(s: Seq<Attribute>, i: int, t: Node)
    requires
        0 <= i < s.len(),
    ensures
        link_count(s.remove(i), t) == link_count(s, t) - if links_to(s[i], t) {
            1int
        } else {
            0int
        },
    decreases s.len(),
{
    if i == s.len() - 1 {
        assert(s.remove(i) =~= s.drop_last());
    } else {
        lemma_lc_remove(s.drop_last(), i, t);
        assert(s.remove(i).drop_last() =~= s.drop_last().remove(i));
        assert(s.remove(i).last() == s.last());
    }
}

pub proof fn lemma_lc_zero(s: Seq<Attribute>, t: Node)
    requires
        forall|j: int| 0 <= j < s.len() ==> !links_to(s[j], t),
    ensures
        link_count(s, t) == 0,
    decreases s.len(),
{
    if s.len() > 0 {
        lemma_lc_zero(s.drop_last(), t);
    }
}

pub proof fn lemma_lc_at(s: Seq<Attribute>, j: int, t: Node)
    requires
        0 <= j < s.len(),
        links_to(s[j], t),
    ensures
        link_count(s, t) >= 1,
    decreases s.len(),
{
    lemma_lc_nonneg(s.drop_last(), t);
    if j < s.len() - 1 {
        lemma_lc_at(s.drop_last(), j, t);
    }
}

/// The owning container of a node tree.  Nodes are created only through it
/// and live as long as the document.
#[derive(Debug)]
pub struct Document {
    /// The node arena; position 0 is the root.
    pub nodes: Vec<NodeRec>,
}

impl Document {
    /// The number of node records in the arena.
    pub open spec fn n_nodes(self) -> int {
        self.nodes@.len() as int
    }

    /// True when the handle denotes a record of this document.
    pub open spec fn spec_valid(self, n: Node) -> bool {
        n.spec_idx() < self.nodes@.len()
    }

    /// The record the handle denotes.
    pub open spec fn rec(self, n: Node) -> NodeRec {
        self.nodes@[n.spec_idx()]
    }

    /// True when the optional handle, if present, denotes a record.
    pub open spec fn opt_valid(self, o: Option<Node>) -> bool {
        match o {
            Some(n) => self.spec_valid(n),
            None => true,
        }
    }

    /// Every handle stored in the record stays inside the arena.
    pub open spec fn rec_handles_wf(self, r: NodeRec) -> bool {
        &&& forall|j: int|
            0 <= j < r.linked_nodes@.len() ==> (#[trigger] r.linked_nodes@[j]).spec_idx()
                < self.n_nodes()
        &&& forall|j: int|
            0 <= j < r.attributes@.len() ==> match spec_link_target(
                &(#[trigger] r.attributes@[j]).value,
            ) {
                Some(t) => t.spec_idx() < self.n_nodes(),
                None => true,
            }
        &&& self.opt_valid(r.parent)
        &&& self.opt_valid(r.first_child)
        &&& self.opt_valid(r.last_child)
        &&& self.opt_valid(r.prev_sibling)
        &&& self.opt_valid(r.next_sibling)
    }

    /// Every record's handles stay inside the arena.
    pub open spec fn handles_wf(self) -> bool {
        forall|i: int| 0 <= i < self.n_nodes() ==> self.rec_handles_wf(#[trigger] self.nodes@[i])
    }

    /// Every record's attribute names are unique.
    pub open spec fn names_wf(self) -> bool {
        forall|i: int| 0 <= i < self.n_nodes() ==> names_unique((#[trigger] self.nodes@[i]).attributes@)
    }

    /// The back-reference lists are exhaustive and current: for any `a` and
    /// `b`, `a` occurs in `b`'s back-reference list exactly as many times as
    /// `a` holds a link attribute pointing at `b`.
    pub open spec fn links_wf(self) -> bool {
        forall|a: int, b: int|
            0 <= a < self.n_nodes() && 0 <= b < self.n_nodes() ==> #[trigger] occ_count(
                self.nodes@[b].linked_nodes@,
                handle(a),
            ) == link_count(self.nodes@[a].attributes@, handle(b))
    }

    /// The arena holds a root record at position 0; the root has no parent.
    pub open spec fn root_wf(self) -> bool {
        &&& self.n_nodes() >= 1
        &&& self.nodes@[0].node_type == NodeType::Root
        &&& self.nodes@[0].parent is None
    }

    /// Document well-formedness: established by the constructors and
    /// preserved by every mutation entry point.
    pub open spec fn wf(self) -> bool {
        &&& self.handles_wf()
        &&& self.names_wf()
        &&& self.links_wf()
        &&& self.root_wf()
    }

    /// Constructs an empty document: a lone root node.
    pub fn new() -> (r: Document)
        ensures
            r.wf(),
            r.n_nodes() == 1,
            r.nodes@[0].node_type == NodeType::Root,
            r.nodes@[0].attributes@.len() == 0,
            r.nodes@[0].linked_nodes@.len() == 0,
            r.nodes@[0].text@.len() == 0,
            r.nodes@[0].first_child is None,
    {
        let rec = NodeRec {
            node_type: NodeType::Root,
            tag_name: QName::Name(String::new(), String::new()),
            id: String::new(),
            attributes: Attributes::new(),
            text: String::new(),
            linked_nodes: Vec::new(),
            parent: None,
            first_child: None,
            last_child: None,
            prev_sibling: None,
            next_sibling: None,
        };
        let mut nodes: Vec<NodeRec> = Vec::new();
        nodes.push(rec);
        let doc = Document { nodes };
        proof {
            assert forall|a: int, b: int|
                0 <= a < doc.n_nodes() && 0 <= b < doc.n_nodes() implies #[trigger] occ_count(
                doc.nodes@[b].linked_nodes@,
                handle(a),
            ) == link_count(doc.nodes@[a].attributes@, handle(b)) by {
                assert(doc.nodes@[b].linked_nodes@.len() == 0);
                assert(doc.nodes@[a].attributes@.len() == 0);
            }
        }
        doc
    }

    /// Returns the handle of the root node.
    pub fn root(&self) -> (r: Node)
        requires
            self.wf(),
        ensures
            r == handle(0),
            self.spec_valid(r),
            self.rec(r).node_type == NodeType::Root,
    {
        Node { idx: 0 }
    }

    /// Appends a fresh, detached record to the arena and returns its handle.
    fn push_rec(&mut self, node_type: NodeType, tag_name: TagName, text: String) -> (n: Node)
        requires
            old(self).wf(),
        ensures
            final(self).wf(),
            final(self).n_nodes() == old(self).n_nodes() + 1,
            n == handle(old(self).n_nodes()),
            final(self).spec_valid(n),
            forall|i: int|
                0 <= i < old(self).n_nodes() ==> final(self).nodes@[i] == old(self).nodes@[i],
            final(self).rec(n).node_type == node_type,
            final(self).rec(n).tag_name == tag_name,
            final(self).rec(n).id@ == Seq::<char>::empty(),
            final(self).rec(n).attributes@ == Seq::<Attribute>::empty(),
            final(self).rec(n).text == text,
            final(self).rec(n).linked_nodes@ == Seq::<Node>::empty(),
            final(self).rec(n).parent is None,
            final(self).rec(n).first_child is None,
            final(self).rec(n).last_child is None,
            final(self).rec(n).prev_sibling is None,
            final(self).rec(n).next_sibling is None,
    {
        let idx = self.nodes.len();
        let rec = NodeRec {
            node_type,
            tag_name,
            id: String::new(),
            attributes: Attributes::new(),
            text,
            linked_nodes: Vec::new(),
            parent: None,
            first_child: None,
            last_child: None,
            prev_sibling: None,
            next_sibling: None,
        };
        let ghost old_doc = *self;
        self.nodes.push(rec);
        let n = Node { idx };
        proof {
            let new_n = self.n_nodes();
            assert forall|i: int| 0 <= i < new_n implies self.rec_handles_wf(
                #[trigger] self.nodes@[i],
            ) by {
                if i < new_n - 1 {
                    assert(old_doc.rec_handles_wf(old_doc.nodes@[i]));
                    assert(self.nodes@[i] == old_doc.nodes@[i]);
                }
            }
            assert forall|a: int, b: int| 0 <= a < new_n && 0 <= b < new_n implies #[trigger] occ_count(
                self.nodes@[b].linked_nodes@,
                handle(a),
            ) == link_count(self.nodes@[a].attributes@, handle(b)) by {
                let old_n = old_doc.n_nodes();
                if a < old_n && b < old_n {
                    assert(occ_count(old_doc.nodes@[b].linked_nodes@, handle(a)) == link_count(
                        old_doc.nodes@[a].attributes@,
                        handle(b),
                    ));
                } else if a == old_n && b < old_n {
                    // no stored handle can reach the fresh slot yet
                    assert(old_doc.rec_handles_wf(old_doc.nodes@[b]));
                    assert forall|j: int|
                        0 <= j < self.nodes@[b].linked_nodes@.len() implies self.nodes@[b].linked_nodes@[j]
                        != handle(a) by {
                        assert(old_doc.nodes@[b].linked_nodes@[j].spec_idx() < old_n);
                    }
                    lemma_occ_zero(self.nodes@[b].linked_nodes@, handle(a));
                } else if a < old_n && b == old_n {
                    assert(old_doc.rec_handles_wf(old_doc.nodes@[a]));
                    assert forall|j: int|
                        0 <= j < self.nodes@[a].attributes@.len() implies !links_to(
                        self.nodes@[a].attributes@[j],
                        handle(b),
                    ) by {
                        assert(old_doc.rec_handles_wf(old_doc.nodes@[a]));
                        assert(match spec_link_target(&old_doc.nodes@[a].attributes@[j].value) {
                            Some(t) => t.spec_idx() < old_n,
                            None => true,
                        });
                    }
                    lemma_lc_zero(self.nodes@[a].attributes@, handle(b));
                } else {
                    assert(self.nodes@[b].linked_nodes@.len() == 0);
                    assert(self.nodes@[a].attributes@.len() == 0);
                }
            }
        }
        n
    }

    /// Creates a detached element node with a known tag name.
    pub fn create_element(&mut self, tag: ElementId) -> (n: Node)
        requires
            old(self).wf(),
        ensures
            final(self).wf(),
            final(self).n_nodes() == old(self).n_nodes() + 1,
            n == handle(old(self).n_nodes()),
            final(self).spec_valid(n),
            forall|i: int|
                0 <= i < old(self).n_nodes() ==> final(self).nodes@[i] == old(self).nodes@[i],
            final(self).rec(n).node_type == NodeType::Element,
            key_of(&final(self).rec(n).tag_name) == NameKey::<ElementId>::Id(
                Seq::<char>::empty(),
                tag,
            ),
            final(self).rec(n).id@ == Seq::<char>::empty(),
            final(self).rec(n).attributes@ == Seq::<Attribute>::empty(),
            final(self).rec(n).text@ == Seq::<char>::empty(),
            final(self).rec(n).linked_nodes@ == Seq::<Node>::empty(),
            final(self).rec(n).parent is None,
            final(self).rec(n).first_child is None,
            final(self).rec(n).last_child is None,
    {
        self.push_rec(NodeType::Element, QName::Id(String::new(), tag), String::new())
    }

    /// Creates a detached element node with a custom tag name, which must
    /// not be empty.
    pub fn create_element_named(&mut self, tag: String) -> (n: Node)
        requires
            old(self).wf(),
            tag@.len() > 0,
        ensures
            final(self).wf(),
            final(self).n_nodes() == old(self).n_nodes() + 1,
            n == handle(old(self).n_nodes()),
            final(self).spec_valid(n),
            forall|i: int|
                0 <= i < old(self).n_nodes() ==> final(self).nodes@[i] == old(self).nodes@[i],
            final(self).rec(n).node_type == NodeType::Element,
            key_of(&final(self).rec(n).tag_name) == NameKey::<ElementId>::Name(
                Seq::<char>::empty(),
                tag@,
            ),
            final(self).rec(n).id@ == Seq::<char>::empty(),
            final(self).rec(n).attributes@ == Seq::<Attribute>::empty(),
            final(self).rec(n).linked_nodes@ == Seq::<Node>::empty(),
            final(self).rec(n).parent is None,
            final(self).rec(n).first_child is None,
    {
        self.push_rec(NodeType::Element, QName::Name(String::new(), tag), String::new())
    }

    /// Creates a detached non-element node carrying `text`.
    pub fn create_node(&mut self, node_type: NodeType, text: &str) -> (n: Node)
        requires
            old(self).wf(),
            node_type != NodeType::Element,
        ensures
            final(self).wf(),
            final(self).n_nodes() == old(self).n_nodes() + 1,
            n == handle(old(self).n_nodes()),
            final(self).spec_valid(n),
            forall|i: int|
                0 <= i < old(self).n_nodes() ==> final(self).nodes@[i] == old(self).nodes@[i],
            final(self).rec(n).node_type == node_type,
            final(self).rec(n).text@ == text@,
            final(self).rec(n).attributes@ == Seq::<Attribute>::empty(),
            final(self).rec(n).linked_nodes@ == Seq::<Node>::empty(),
            final(self).rec(n).parent is None,
            final(self).rec(n).first_child is None,
    {
        self.push_rec(node_type, QName::Name(String::new(), String::new()), String::from_str(text))
    }
}

impl Node {
    /// Returns the node's type.
    pub fn node_type(self, doc: &Document) -> (r: NodeType)
        requires
            doc.spec_valid(self),
        ensures
            r == doc.rec(self).node_type,
    {
        doc.nodes[self.idx].node_type
    }

    /// Returns the node's text data.  Element nodes carry no text.
    pub fn text<'a>(self, doc: &'a Document) -> (r: &'a str)
        requires
            doc.spec_valid(self),
        ensures
            r@ == doc.rec(self).text@,
    {
        doc.nodes[self.idx].text.as_str()
    }

    /// Returns mutable access to the node's text data.  Element nodes carry
    /// no text.
    pub fn text_mut<'a>(self, doc: &'a mut Document) -> (r: &'a mut String)
        requires
            old(doc).wf(),
            old(doc).spec_valid(self),
            old(doc).rec(self).node_type != NodeType::Element,
        ensures
            *r == old(doc).rec(self).text,
            final(doc).nodes@ == old(doc).nodes@.update(
                self.spec_idx(),
                NodeRec { text: *final(r), ..old(doc).rec(self) },
            ),
            final(doc).wf(),
    {
        &mut doc.nodes[self.idx].text
    }

    /// Returns the node's id string (empty means "no id").
    pub fn id<'a>(self, doc: &'a Document) -> (r: &'a str)
        requires
            doc.spec_valid(self),
        ensures
            r@ == doc.rec(self).id@,
    {
        doc.nodes[self.idx].id.as_str()
    }

    /// Returns `true` if the node has a non-empty id.
    pub fn has_id(self, doc: &Document) -> (r: bool)
        requires
            doc.spec_valid(self),
        ensures
            r == (doc.rec(self).id@.len() > 0),
    {
        self.id(doc).unicode_len() > 0
    }

    /// Returns the node's tag name.  Meaningful only for element nodes.
    pub fn tag_name<'a>(self, doc: &'a Document) -> (r: &'a TagName)
        requires
            doc.spec_valid(self),
        ensures
            *r == doc.rec(self).tag_name,
    {
        &doc.nodes[self.idx].tag_name
    }

    /// Returns the known tag identifier of an SVG element node.
    pub fn tag_id(self, doc: &Document) -> (r: Option<ElementId>)
        requires
            doc.spec_valid(self),
        ensures
            r == (match doc.rec(self).tag_name {
                QName::Id(_, id) => Some(id),
                QName::Name(_, _) => None::<ElementId>,
            }),
    {
        match &doc.nodes[self.idx].tag_name {
            QName::Id(_, id) => Some(*id),
            QName::Name(_, _) => None,
        }
    }

    /// Returns `true` if the node has the same tag name as supplied.
    pub fn is_tag_name(self, doc: &Document, tag_name: &TagName) -> (r: bool)
        requires
            doc.spec_valid(self),
        ensures
            r == qname_eq(&doc.rec(self).tag_name, tag_name),
    {
        doc.nodes[self.idx].tag_name.eq_name(tag_name)
    }

    /// Returns `true` if the node is an element with a known SVG tag name.
    pub fn is_svg_element(self, doc: &Document) -> (r: bool)
        requires
            doc.spec_valid(self),
        ensures
            r == (doc.rec(self).node_type == NodeType::Element && doc.rec(self).tag_name is Id),
    {
        if self.node_type(doc) != NodeType::Element {
            return false;
        }
        match &doc.nodes[self.idx].tag_name {
            QName::Id(_, _) => true,
            QName::Name(_, _) => false,
        }
    }

    /// Returns `true` if the node has a parent other than the document root.
    pub fn has_parent(self, doc: &Document) -> (r: bool)
        requires
            doc.wf(),
            doc.spec_valid(self),
        ensures
            r == (match doc.rec(self).parent {
                Some(p) => doc.rec(p).node_type != NodeType::Root,
                None => false,
            }),
    {
        proof {
            assert(doc.rec_handles_wf(doc.nodes@[self.spec_idx()]));
        }
        match doc.nodes[self.idx].parent {
            Some(p) => p.node_type(doc) != NodeType::Root,
            None => false,
        }
    }

    /// Returns a reference to the node's attributes.
    pub fn attributes<'a>(self, doc: &'a Document) -> (r: &'a Attributes)
        requires
            doc.spec_valid(self),
        ensures
            *r == doc.rec(self).attributes,
    {
        &doc.nodes[self.idx].attributes
    }

    /// Returns the nodes that hold a link attribute pointing at this node.
    pub fn linked_nodes<'a>(self, doc: &'a Document) -> (r: &'a Vec<Node>)
        requires
            doc.spec_valid(self),
        ensures
            r@ == doc.rec(self).linked_nodes@,
    {
        &doc.nodes[self.idx].linked_nodes
    }

    /// Returns `true` if any node links to this node: `false` means the node
    /// can be deleted without leaving a dangling reference elsewhere.
    pub fn is_used(self, doc: &Document) -> (r: bool)
        requires
            doc.spec_valid(self),
        ensures
            r == (doc.rec(self).linked_nodes@.len() > 0),
    {
        self.linked_nodes(doc).len() > 0
    }

    /// Returns the number of nodes that link to this node.
    pub fn uses_count(self, doc: &Document) -> (r: usize)
        requires
            doc.spec_valid(self),
        ensures
            r == doc.rec(self).linked_nodes@.len(),
    {
        self.linked_nodes(doc).len()
    }
}

/// The link-relevant projection of one node: its attributes and its
/// back-reference list.
#[verifier::ext_equal]
pub struct LinkState {
    /// The node's attributes.
    pub attrs: Seq<Attribute>,
    /// The node's back-reference list.
    pub linked: Seq<Node>,
}

/// The first index of `x` in `s`, if any.
pub open spec fn find_node(s: Seq<Node>, x: Node) -> Option<int>
    decreases s.len(),
{
    if s.len() == 0 {
        None
    } else if s[0] == x {
        Some(0int)
    } else {
        match find_node(s.drop_first(), x) {
            Some(i) => Some(i + 1),
            None => None,
        }
    }
}

/// What `find_node` returns: the first occurrence, or nothing.
pub proof fn lemma_find_node_props(s: Seq<Node>, x: Node)
    ensures
        match find_node(s, x) {
            Some(i) => 0 <= i < s.len() && s[i] == x && (forall|j: int| 0 <= j < i ==> s[j] != x),
            None => forall|j: int| 0 <= j < s.len() ==> s[j] != x,
        },
    decreases s.len(),
{
    if s.len() == 0 {
    } else if s[0] == x {
    } else {
        lemma_find_node_props(s.drop_first(), x);
        assert forall|j: int| 1 <= j < s.len() implies s.drop_first()[j - 1] == s[j] by {}
    }
}

/// The sequence with the first occurrence of `x` removed, when present.
pub open spec fn remove_first(s: Seq<Node>, x: Node) -> Seq<Node> {
    match find_node(s, x) {
        Some(i) => s.remove(i),
        None => s,
    }
}

/// The projection after removing node `n`'s attribute of the given name: if
/// the attribute exists and was a link, the first occurrence of `n` leaves
/// the target's back-reference list; then the attribute leaves `n`'s list.
pub open spec fn spec_remove_attr(
    d: Seq<LinkState>,
    n: int,
    key: NameKey<AttributeId>,
) -> Seq<LinkState>
    recommends
        0 <= n < d.len(),
{
    match find_key(d[n].attrs, key) {
        None => d,
        Some(i) => {
            let d1 = match spec_link_target(&d[n].attrs[i].value) {
                Some(t) => d.update(
                    t.spec_idx(),
                    LinkState {
                        attrs: d[t.spec_idx()].attrs,
                        linked: remove_first(d[t.spec_idx()].linked, handle(n)),
                    },
                ),
                None => d,
            };
            d1.update(n, LinkState { attrs: d1[n].attrs.remove(i), linked: d1[n].linked })
        },
    }
}

/// The projection after appending an attribute to node `n`.
pub open spec fn spec_append_attr(d: Seq<LinkState>, n: int, a: Attribute) -> Seq<LinkState>
    recommends
        0 <= n < d.len(),
{
    d.update(n, LinkState { attrs: d[n].attrs.push(a), linked: d[n].linked })
}

/// The projection after recording that node `n` links to node `t`.
pub open spec fn spec_push_link(d: Seq<LinkState>, t: int, n: int) -> Seq<LinkState>
    recommends
        0 <= t < d.len(),
{
    d.update(t, LinkState { attrs: d[t].attrs, linked: d[t].linked.push(handle(n)) })
}

/// The visible attribute that a link request with the given name stores: the
/// name decides between the bare and the function-call reference form.
pub open spec fn spec_link_attr(name: AttributeQName, t: Node) -> Attribute {
    Attribute {
        name,
        value: if name.spec_has_id("xlink"@, AttributeId::Href) {
            AttributeValue::Link(t)
        } else {
            AttributeValue::FuncLink(t)
        },
        visible: true,
    }
}

impl Document {
    /// The link-relevant projection of the whole arena.
    pub open spec fn proj(self) -> Seq<LinkState> {
        Seq::new(
            self.nodes@.len(),
            |i: int|
                LinkState {
                    attrs: self.nodes@[i].attributes@,
                    linked: self.nodes@[i].linked_nodes@,
                },
        )
    }

    /// All fields other than attributes and back-references agree, node by
    /// node.
    pub open spec fn same_shape(self, other: Document) -> bool {
        &&& other.nodes@.len() == self.nodes@.len()
        &&& forall|i: int|
            0 <= i < self.nodes@.len() ==> {
                let r1 = #[trigger] self.nodes@[i];
                let r2 = other.nodes@[i];
                &&& r2.node_type == r1.node_type
                &&& r2.tag_name == r1.tag_name
                &&& r2.id == r1.id
                &&& r2.text == r1.text
                &&& r2.parent == r1.parent
                &&& r2.first_child == r1.first_child
                &&& r2.last_child == r1.last_child
                &&& r2.prev_sibling == r1.prev_sibling
                &&& r2.next_sibling == r1.next_sibling
            }
    }
}


/// Returns the position of the first occurrence of `x` in `v`, if any.
fn find_node_index(v: &Vec<Node>, x: Node) -> (r: Option<usize>)
    ensures
        match r {
            Some(i) => find_node(v@, x) == Some(i as int),
            None => find_node(v@, x) is None,
        },
{
    let mut i: usize = 0;
    while i < v.len()
        invariant
            i <= v@.len(),
            forall|j: int| 0 <= j < i ==> v@[j] != x,
        decreases v@.len() - i,
    {
        if v[i] == x {
            proof {
                lemma_find_node_props(v@, x);
                match find_node(v@, x) {
                    Some(m) => {
                        if m < i {
                            assert(v@[m] != x);
                        }
                        if m > i {
                            assert(v@[i as int] == x && v@[i as int] != x);
                        }
                    },
                    None => {
                        assert(v@[i as int] != x);
                    },
                }
            }
            return Some(i);
        }
        i += 1;
    }
    proof {
        lemma_find_node_props(v@, x);
        if let Some(m) = find_node(v@, x) {
            assert(v@[m] != x);
        }
    }
    None
}

impl Node {
    /// Removes the node's attribute with the given name, if present.  A link
    /// attribute is unlinked first: the node's entry leaves the target's
    /// back-reference list (the entry is guaranteed present by the document
    /// invariant).
    pub fn remove_attribute(self, doc: &mut Document, name: &AttributeQName)
        requires
            old(doc).wf(),
            old(doc).spec_valid(self),
        ensures
            final(doc).wf(),
            old(doc).same_shape(*final(doc)),
            final(doc).proj() =~~= spec_remove_attr(
                old(doc).proj(),
                self.spec_idx(),
                key_of(name),
            ),
    {
        let ghost d0 = *doc;
        let ghost n = self.spec_idx();
        let ghost key = key_of(name);
        proof {
            assert(d0.proj()[n].attrs == d0.nodes@[n].attributes@);
        }
        let i_opt = doc.nodes[self.idx].attributes.find_index(name);
        let i = match i_opt {
            Some(i) => i,
            None => {
                proof {
                    assert(doc.proj() =~~= spec_remove_attr(d0.proj(), n, key));
                }
                return ;
            },
        };
        proof {
            crate::attributes::lemma_find_key_props(d0.nodes@[n].attributes@, key);
            assert(d0.rec_handles_wf(d0.nodes@[n]));
        }
        let tgt = doc.nodes[self.idx].attributes.get_index(i).value.link_target();
        if let Some(t) = tgt {
            // the invariant guarantees an entry for this node in the target's
            // back-reference list
            proof {
                lemma_lc_at(d0.nodes@[n].attributes@, i as int, t);
                assert(occ_count(d0.nodes@[t.spec_idx()].linked_nodes@, handle(n)) == link_count(
                    d0.nodes@[n].attributes@,
                    handle(t.spec_idx()),
                ));
                assert(handle(t.spec_idx()) == t);
                assert(handle(n) == self);
            }
            let k_opt = find_node_index(&doc.nodes[t.idx].linked_nodes, self);
            let k = match k_opt {
                Some(k) => k,
                None => {
                    proof {
                        lemma_find_node_props(d0.nodes@[t.spec_idx()].linked_nodes@, self);
                        lemma_occ_zero(d0.nodes@[t.spec_idx()].linked_nodes@, self);
                        assert(false);
                    }
                    0
                },
            };
            proof {
                lemma_find_node_props(d0.nodes@[t.spec_idx()].linked_nodes@, self);
            }
            doc.nodes[t.idx].linked_nodes.remove(k);
            let ghost d1 = *doc;
            doc.nodes[self.idx].attributes.remove_at(i);
            proof {
                self.lemma_remove_link_attr_wf(d0, d1, *doc, i as int, k as int, t);
                assert(doc.proj() =~~= spec_remove_attr(d0.proj(), n, key));
            }
        } else {
            doc.nodes[self.idx].attributes.remove_at(i);
            proof {
                // an attribute without a link value changes no count
                assert forall|a: int, b: int|
                    0 <= a < doc.n_nodes() && 0 <= b < doc.n_nodes() implies #[trigger] occ_count(
                    doc.nodes@[b].linked_nodes@,
                    handle(a),
                ) == link_count(doc.nodes@[a].attributes@, handle(b)) by {
                    assert(occ_count(d0.nodes@[b].linked_nodes@, handle(a)) == link_count(
                        d0.nodes@[a].attributes@,
                        handle(b),
                    ));
                    if a == n {
                        lemma_lc_remove(d0.nodes@[n].attributes@, i as int, handle(b));
                        assert(!links_to(d0.nodes@[n].attributes@[i as int], handle(b)));
                    }
                }
                assert forall|j: int| 0 <= j < doc.n_nodes() implies doc.rec_handles_wf(
                    #[trigger] doc.nodes@[j],
                ) by {
                    assert(d0.rec_handles_wf(d0.nodes@[j]));
                    if j == n {
                        assert forall|m: int|
                            0 <= m < doc.nodes@[n].attributes@.len() implies match spec_link_target(
                            &(#[trigger] doc.nodes@[n].attributes@[m]).value,
                        ) {
                            Some(u) => u.spec_idx() < doc.n_nodes(),
                            None => true,
                        } by {
                            if m < i as int {
                                assert(doc.nodes@[n].attributes@[m] == d0.nodes@[n].attributes@[m]);
                            } else {
                                assert(doc.nodes@[n].attributes@[m] == d0.nodes@[n].attributes@[m
                                    + 1]);
                            }
                        }
                    }
                }
                assert(doc.proj() =~~= spec_remove_attr(d0.proj(), n, key));
            }
        }
    }

    /// The bookkeeping facts behind removing link attribute `i` of this node
    /// (targeting `t`) together with entry `k` of `t`'s back-reference list.
    proof fn lemma_remove_link_attr_wf(
        self,
        d0: Document,
        d1: Document,
        d2: Document,
        i: int,
        k: int,
        t: Node,
    )
        requires
            d0.wf(),
            d0.spec_valid(self),
            d0.spec_valid(t),
            0 <= i < d0.rec(self).attributes@.len(),
            links_to(d0.rec(self).attributes@[i], t),
            0 <= k < d0.rec(t).linked_nodes@.len(),
            d0.rec(t).linked_nodes@[k] == self,
            d1.nodes@.len() == d0.nodes@.len(),
            forall|j: int|
                0 <= j < d0.nodes@.len() && j != t.spec_idx() ==> d1.nodes@[j] == d0.nodes@[j],
            d1.nodes@[t.spec_idx()].linked_nodes@ == d0.rec(t).linked_nodes@.remove(k),
            d1.nodes@[t.spec_idx()].attributes == d0.nodes@[t.spec_idx()].attributes,
            d1.nodes@[t.spec_idx()].node_type == d0.nodes@[t.spec_idx()].node_type,
            d1.nodes@[t.spec_idx()].tag_name == d0.nodes@[t.spec_idx()].tag_name,
            d1.nodes@[t.spec_idx()].id == d0.nodes@[t.spec_idx()].id,
            d1.nodes@[t.spec_idx()].text == d0.nodes@[t.spec_idx()].text,
            d1.nodes@[t.spec_idx()].parent == d0.nodes@[t.spec_idx()].parent,
            d1.nodes@[t.spec_idx()].first_child == d0.nodes@[t.spec_idx()].first_child,
            d1.nodes@[t.spec_idx()].last_child == d0.nodes@[t.spec_idx()].last_child,
            d1.nodes@[t.spec_idx()].prev_sibling == d0.nodes@[t.spec_idx()].prev_sibling,
            d1.nodes@[t.spec_idx()].next_sibling == d0.nodes@[t.spec_idx()].next_sibling,
            d2.nodes@.len() == d1.nodes@.len(),
            forall|j: int|
                0 <= j < d1.nodes@.len() && j != self.spec_idx() ==> d2.nodes@[j] == d1.nodes@[j],
            d2.nodes@[self.spec_idx()].attributes@ == d1.nodes@[self.spec_idx()].attributes@.remove(
                i,
            ),
            names_unique(d2.nodes@[self.spec_idx()].attributes@),
            d2.nodes@[self.spec_idx()].linked_nodes == d1.nodes@[self.spec_idx()].linked_nodes,
            d2.nodes@[self.spec_idx()].node_type == d1.nodes@[self.spec_idx()].node_type,
            d2.nodes@[self.spec_idx()].tag_name == d1.nodes@[self.spec_idx()].tag_name,
            d2.nodes@[self.spec_idx()].id == d1.nodes@[self.spec_idx()].id,
            d2.nodes@[self.spec_idx()].text == d1.nodes@[self.spec_idx()].text,
            d2.nodes@[self.spec_idx()].parent == d1.nodes@[self.spec_idx()].parent,
            d2.nodes@[self.spec_idx()].first_child == d1.nodes@[self.spec_idx()].first_child,
            d2.nodes@[self.spec_idx()].last_child == d1.nodes@[self.spec_idx()].last_child,
            d2.nodes@[self.spec_idx()].prev_sibling == d1.nodes@[self.spec_idx()].prev_sibling,
            d2.nodes@[self.spec_idx()].next_sibling == d1.nodes@[self.spec_idx()].next_sibling,
        ensures
            d2.wf(),
    {
        let n = self.spec_idx();
        let ti = t.spec_idx();
        let nn = d2.n_nodes();
        assert(nn == d0.n_nodes());
        assert(handle(n) == self);
        assert(handle(ti) == t);
        assert forall|a: int, b: int| 0 <= a < nn && 0 <= b < nn implies #[trigger] occ_count(
            d2.nodes@[b].linked_nodes@,
            handle(a),
        ) == link_count(d2.nodes@[a].attributes@, handle(b)) by {
            assert(occ_count(d0.nodes@[b].linked_nodes@, handle(a)) == link_count(
                d0.nodes@[a].attributes@,
                handle(b),
            ));
            // the back-reference side
            if b == ti {
                assert(d2.nodes@[b].linked_nodes@ == d0.nodes@[ti].linked_nodes@.remove(k));
                lemma_occ_remove(d0.nodes@[ti].linked_nodes@, k, handle(a));
                if a == n {
                    assert(d0.nodes@[ti].linked_nodes@[k] == handle(a));
                } else {
                    lemma_handle_inj(d0, a, n);
                    assert(d0.nodes@[ti].linked_nodes@[k] != handle(a));
                }
            } else {
                assert(d2.nodes@[b].linked_nodes@ == d0.nodes@[b].linked_nodes@);
            }
            // the attribute side
            if a == n {
                assert(d2.nodes@[a].attributes@ == d0.nodes@[n].attributes@.remove(i));
                lemma_lc_remove(d0.nodes@[n].attributes@, i, handle(b));
                if b == ti {
                    assert(links_to(d0.nodes@[n].attributes@[i], handle(b)));
                } else {
                    lemma_handle_inj(d0, b, ti);
                    assert(!links_to(d0.nodes@[n].attributes@[i], handle(b)));
                }
            } else {
                assert(d2.nodes@[a].attributes@ == d0.nodes@[a].attributes@);
            }
        }
        assert forall|j: int| 0 <= j < nn implies d2.rec_handles_wf(#[trigger] d2.nodes@[j]) by {
            assert(d0.rec_handles_wf(d0.nodes@[j]));
            if j == ti {
                assert forall|m: int|
                    0 <= m < d2.nodes@[ti].linked_nodes@.len() implies (
                #[trigger] d2.nodes@[ti].linked_nodes@[m]).spec_idx() < nn by {
                    if m < k {
                        assert(d2.nodes@[ti].linked_nodes@[m] == d0.nodes@[ti].linked_nodes@[m]);
                    } else {
                        assert(d2.nodes@[ti].linked_nodes@[m] == d0.nodes@[ti].linked_nodes@[m
                            + 1]);
                    }
                }
            }
            if j == n {
                assert forall|m: int|
                    0 <= m < d2.nodes@[n].attributes@.len() implies match spec_link_target(
                    &(#[trigger] d2.nodes@[n].attributes@[m]).value,
                ) {
                    Some(u) => u.spec_idx() < nn,
                    None => true,
                } by {
                    if m < i {
                        assert(d2.nodes@[n].attributes@[m] == d0.nodes@[n].attributes@[m]);
                    } else {
                        assert(d2.nodes@[n].attributes@[m] == d0.nodes@[n].attributes@[m + 1]);
                    }
                }
            }
        }
        assert forall|j: int| 0 <= j < nn implies names_unique(
            (#[trigger] d2.nodes@[j]).attributes@,
        ) by {
            assert(names_unique(d0.nodes@[j].attributes@));
            if j != n {
                assert(d2.nodes@[j].attributes@ == d0.nodes@[j].attributes@);
            }
        }
    }
}

/// After removing the only attribute with a name, that name is absent.
proof fn lemma_removed_name_absent(s: Seq<Attribute>, key: NameKey<AttributeId>, i: int)
    requires
        names_unique(s),
        find_key(s, key) == Some(i),
    ensures
        find_key(s.remove(i), key) is None,
{
    crate::attributes::lemma_find_key_props(s, key);
    let s2 = s.remove(i);
    assert forall|j: int| 0 <= j < s2.len() implies key_of(&s2[j].name) != key by {
        if j < i {
            assert(s2[j] == s[j]);
        } else {
            assert(s2[j] == s[j + 1]);
            assert(key_of(&s[i].name) == key);
        }
    }
    crate::attributes::lemma_find_key_props(s2, key);
    if let Some(m) = find_key(s2, key) {
        assert(key_of(&s2[m].name) != key);
    }
}

impl Node {
    /// The bookkeeping facts behind appending an attribute without a link
    /// value to this node.
    proof fn lemma_append_plain_wf(self, dm: Document, d1: Document, la: Attribute)
        requires
            dm.wf(),
            dm.spec_valid(self),
            spec_link_target(&la.value) is None,
            d1.nodes@.len() == dm.nodes@.len(),
            forall|j: int|
                0 <= j < dm.nodes@.len() && j != self.spec_idx() ==> d1.nodes@[j] == dm.nodes@[j],
            d1.nodes@[self.spec_idx()].attributes@ == dm.nodes@[self.spec_idx()].attributes@.push(
                la,
            ),
            names_unique(d1.nodes@[self.spec_idx()].attributes@),
            d1.nodes@[self.spec_idx()].linked_nodes == dm.nodes@[self.spec_idx()].linked_nodes,
            d1.nodes@[self.spec_idx()].node_type == dm.nodes@[self.spec_idx()].node_type,
            d1.nodes@[self.spec_idx()].tag_name == dm.nodes@[self.spec_idx()].tag_name,
            d1.nodes@[self.spec_idx()].id == dm.nodes@[self.spec_idx()].id,
            d1.nodes@[self.spec_idx()].text == dm.nodes@[self.spec_idx()].text,
            d1.nodes@[self.spec_idx()].parent == dm.nodes@[self.spec_idx()].parent,
            d1.nodes@[self.spec_idx()].first_child == dm.nodes@[self.spec_idx()].first_child,
            d1.nodes@[self.spec_idx()].last_child == dm.nodes@[self.spec_idx()].last_child,
            d1.nodes@[self.spec_idx()].prev_sibling == dm.nodes@[self.spec_idx()].prev_sibling,
            d1.nodes@[self.spec_idx()].next_sibling == dm.nodes@[self.spec_idx()].next_sibling,
        ensures
            d1.wf(),
    {
        let n = self.spec_idx();
        let nn = d1.n_nodes();
        assert forall|a: int, b: int| 0 <= a < nn && 0 <= b < nn implies #[trigger] occ_count(
            d1.nodes@[b].linked_nodes@,
            handle(a),
        ) == link_count(d1.nodes@[a].attributes@, handle(b)) by {
            assert(occ_count(dm.nodes@[b].linked_nodes@, handle(a)) == link_count(
                dm.nodes@[a].attributes@,
                handle(b),
            ));
            assert(d1.nodes@[b].linked_nodes@ == dm.nodes@[b].linked_nodes@);
            if a == n {
                lemma_lc_push(dm.nodes@[n].attributes@, la, handle(b));
                assert(!links_to(la, handle(b)));
            } else {
                assert(d1.nodes@[a].attributes@ == dm.nodes@[a].attributes@);
            }
        }
        assert forall|j: int| 0 <= j < nn implies d1.rec_handles_wf(#[trigger] d1.nodes@[j]) by {
            assert(dm.rec_handles_wf(dm.nodes@[j]));
            if j == n {
                assert forall|m: int|
                    0 <= m < d1.nodes@[n].attributes@.len() implies match spec_link_target(
                    &(#[trigger] d1.nodes@[n].attributes@[m]).value,
                ) {
                    Some(u) => u.spec_idx() < nn,
                    None => true,
                } by {
                    if m < d1.nodes@[n].attributes@.len() - 1 {
                        assert(d1.nodes@[n].attributes@[m] == dm.nodes@[n].attributes@[m]);
                    } else {
                        assert(d1.nodes@[n].attributes@[m] == la);
                    }
                }
            }
        }
        assert forall|j: int| 0 <= j < nn implies names_unique(
            (#[trigger] d1.nodes@[j]).attributes@,
        ) by {
            assert(names_unique(dm.nodes@[j].attributes@));
            if j != n {
                assert(d1.nodes@[j].attributes@ == dm.nodes@[j].attributes@);
            }
        }
    }

    /// The bookkeeping facts behind appending a link attribute targeting `t`
    /// to this node and recording this node in `t`'s back-reference list.
    proof fn lemma_append_link_wf(
        self,
        dm: Document,
        d1: Document,
        d2: Document,
        la: Attribute,
        t: Node,
    )
        requires
            dm.wf(),
            dm.spec_valid(self),
            dm.spec_valid(t),
            spec_link_target(&la.value) == Some(t),
            d1.nodes@.len() == dm.nodes@.len(),
            forall|j: int|
                0 <= j < dm.nodes@.len() && j != self.spec_idx() ==> d1.nodes@[j] == dm.nodes@[j],
            d1.nodes@[self.spec_idx()].attributes@ == dm.nodes@[self.spec_idx()].attributes@.push(
                la,
            ),
            names_unique(d1.nodes@[self.spec_idx()].attributes@),
            d1.nodes@[self.spec_idx()].linked_nodes == dm.nodes@[self.spec_idx()].linked_nodes,
            d1.nodes@[self.spec_idx()].node_type == dm.nodes@[self.spec_idx()].node_type,
            d1.nodes@[self.spec_idx()].tag_name == dm.nodes@[self.spec_idx()].tag_name,
            d1.nodes@[self.spec_idx()].id == dm.nodes@[self.spec_idx()].id,
            d1.nodes@[self.spec_idx()].text == dm.nodes@[self.spec_idx()].text,
            d1.nodes@[self.spec_idx()].parent == dm.nodes@[self.spec_idx()].parent,
            d1.nodes@[self.spec_idx()].first_child == dm.nodes@[self.spec_idx()].first_child,
            d1.nodes@[self.spec_idx()].last_child == dm.nodes@[self.spec_idx()].last_child,
            d1.nodes@[self.spec_idx()].prev_sibling == dm.nodes@[self.spec_idx()].prev_sibling,
            d1.nodes@[self.spec_idx()].next_sibling == dm.nodes@[self.spec_idx()].next_sibling,
            d2.nodes@.len() == d1.nodes@.len(),
            forall|j: int|
                0 <= j < d1.nodes@.len() && j != t.spec_idx() ==> d2.nodes@[j] == d1.nodes@[j],
            d2.nodes@[t.spec_idx()].linked_nodes@ == d1.nodes@[t.spec_idx()].linked_nodes@.push(
                self,
            ),
            d2.nodes@[t.spec_idx()].attributes == d1.nodes@[t.spec_idx()].attributes,
            d2.nodes@[t.spec_idx()].node_type == d1.nodes@[t.spec_idx()].node_type,
            d2.nodes@[t.spec_idx()].tag_name == d1.nodes@[t.spec_idx()].tag_name,
            d2.nodes@[t.spec_idx()].id == d1.nodes@[t.spec_idx()].id,
            d2.nodes@[t.spec_idx()].text == d1.nodes@[t.spec_idx()].text,
            d2.nodes@[t.spec_idx()].parent == d1.nodes@[t.spec_idx()].parent,
            d2.nodes@[t.spec_idx()].first_child == d1.nodes@[t.spec_idx()].first_child,
            d2.nodes@[t.spec_idx()].last_child == d1.nodes@[t.spec_idx()].last_child,
            d2.nodes@[t.spec_idx()].prev_sibling == d1.nodes@[t.spec_idx()].prev_sibling,
            d2.nodes@[t.spec_idx()].next_sibling == d1.nodes@[t.spec_idx()].next_sibling,
        ensures
            d2.wf(),
    {
        let n = self.spec_idx();
        let ti = t.spec_idx();
        let nn = d2.n_nodes();
        assert(handle(n) == self);
        assert(handle(ti) == t);
        assert forall|a: int, b: int| 0 <= a < nn && 0 <= b < nn implies #[trigger] occ_count(
            d2.nodes@[b].linked_nodes@,
            handle(a),
        ) == link_count(d2.nodes@[a].attributes@, handle(b)) by {
            assert(occ_count(dm.nodes@[b].linked_nodes@, handle(a)) == link_count(
                dm.nodes@[a].attributes@,
                handle(b),
            ));
            if b == ti {
                assert(d2.nodes@[b].linked_nodes@ == dm.nodes@[ti].linked_nodes@.push(self));
                lemma_occ_push(dm.nodes@[ti].linked_nodes@, self, handle(a));
                if a != n {
                    lemma_handle_inj(dm, a, n);
                }
            } else {
                assert(d2.nodes@[b].linked_nodes@ == dm.nodes@[b].linked_nodes@);
            }
            if a == n {
                assert(d2.nodes@[a].attributes@ == dm.nodes@[n].attributes@.push(la));
                lemma_lc_push(dm.nodes@[n].attributes@, la, handle(b));
                if b != ti {
                    lemma_handle_inj(dm, b, ti);
                    assert(!links_to(la, handle(b)));
                }
            } else {
                assert(d2.nodes@[a].attributes@ == dm.nodes@[a].attributes@);
            }
        }
        assert forall|j: int| 0 <= j < nn implies d2.rec_handles_wf(#[trigger] d2.nodes@[j]) by {
            assert(dm.rec_handles_wf(dm.nodes@[j]));
            if j == n {
                assert forall|m: int|
                    0 <= m < d2.nodes@[n].attributes@.len() implies match spec_link_target(
                    &(#[trigger] d2.nodes@[n].attributes@[m]).value,
                ) {
                    Some(u) => u.spec_idx() < nn,
                    None => true,
                } by {
                    if m < dm.nodes@[n].attributes@.len() {
                        assert(d2.nodes@[n].attributes@[m] == dm.nodes@[n].attributes@[m]);
                    } else {
                        assert(d2.nodes@[n].attributes@[m] == la);
                    }
                }
            }
            if j == ti {
                assert forall|m: int|
                    0 <= m < d2.nodes@[ti].linked_nodes@.len() implies (
                #[trigger] d2.nodes@[ti].linked_nodes@[m]).spec_idx() < nn by {
                    if m < dm.nodes@[ti].linked_nodes@.len() {
                        assert(d2.nodes@[ti].linked_nodes@[m] == dm.nodes@[ti].linked_nodes@[m]);
                    } else {
                        assert(d2.nodes@[ti].linked_nodes@[m] == self);
                    }
                }
            }
        }
        assert forall|j: int| 0 <= j < nn implies names_unique(
            (#[trigger] d2.nodes@[j]).attributes@,
        ) by {
            assert(names_unique(dm.nodes@[j].attributes@));
            if j != n {
                assert(d2.nodes@[j].attributes@ == dm.nodes@[j].attributes@);
            }
        }
    }

    /// Stores an attribute without a link value: a present attribute of the
    /// same name is removed first, then the candidate is appended.
    fn set_simple_attribute(self, doc: &mut Document, attr: Attribute)
        requires
            old(doc).wf(),
            old(doc).spec_valid(self),
            spec_link_target(&attr.value) is None,
        ensures
            final(doc).wf(),
            old(doc).same_shape(*final(doc)),
            final(doc).proj() =~~= spec_append_attr(
                spec_remove_attr(old(doc).proj(), self.spec_idx(), key_of(&attr.name)),
                self.spec_idx(),
                attr,
            ),
    {
        let ghost d0 = *doc;
        let ghost n = self.spec_idx();
        let ghost key = key_of(&attr.name);
        self.remove_attribute(doc, &attr.name);
        let ghost dm = *doc;
        proof {
            assert(dm.proj() =~~= spec_remove_attr(d0.proj(), n, key));
            match find_key(d0.nodes@[n].attributes@, key) {
                Some(i) => {
                    crate::attributes::lemma_find_key_props(d0.nodes@[n].attributes@, key);
                    lemma_removed_name_absent(d0.nodes@[n].attributes@, key, i);
                    assert(dm.proj()[n].attrs == dm.nodes@[n].attributes@);
                },
                None => {},
            }
            assert(find_key(dm.nodes@[n].attributes@, key) is None);
        }
        doc.nodes[self.idx].attributes.insert_new(attr);
        proof {
            self.lemma_append_plain_wf(dm, *doc, attr);
            assert(doc.proj() =~~= spec_append_attr(dm.proj(), n, attr));
        }
    }

    /// Stores a link attribute: rejects a target without an id, a target
    /// that is this node itself, and a target that already links back to
    /// this node; otherwise removes any present attribute of the same name
    /// (unlinking it), stores the reference chosen by the name, and appends
    /// this node to the target's back-reference list.
    fn set_link_attribute(self, doc: &mut Document, name: AttributeQName, target: Node) -> (r:
        Result<(), Error>)
        requires
            old(doc).wf(),
            old(doc).spec_valid(self),
            old(doc).spec_valid(target),
        ensures
            final(doc).wf(),
            old(doc).rec(target).id@.len() == 0 ==> r == Err::<(), Error>(
                Error::ElementMustHaveAnId,
            ) && *final(doc) == *old(doc),
            old(doc).rec(target).id@.len() > 0 && (target == self || occ_count(
                old(doc).rec(self).linked_nodes@,
                target,
            ) > 0) ==> r == Err::<(), Error>(Error::ElementCrosslink) && *final(doc) == *old(doc),
            old(doc).rec(target).id@.len() > 0 && target != self && occ_count(
                old(doc).rec(self).linked_nodes@,
                target,
            ) == 0 ==> r == Ok::<(), Error>(()) && old(doc).same_shape(*final(doc)) && (final(doc).proj() =~~= spec_push_link(
                spec_append_attr(
                    spec_remove_attr(old(doc).proj(), self.spec_idx(), key_of(&name)),
                    self.spec_idx(),
                    spec_link_attr(name, target),
                ),
                target.spec_idx(),
                self.spec_idx(),
            )),
    {
        let ghost d0 = *doc;
        let ghost n = self.spec_idx();
        let ghost key = key_of(&name);
        if !target.has_id(doc) {
            return Err(Error::ElementMustHaveAnId);
        }
        if target == self {
            return Err(Error::ElementCrosslink);
        }
        match find_node_index(&doc.nodes[self.idx].linked_nodes, target) {
            Some(k) => {
                proof {
                    lemma_find_node_props(d0.nodes@[n].linked_nodes@, target);
                    lemma_occ_at(d0.nodes@[n].linked_nodes@, k as int, target);
                }
                return Err(Error::ElementCrosslink);
            },
            None => {
                proof {
                    lemma_find_node_props(d0.nodes@[n].linked_nodes@, target);
                    lemma_occ_zero(d0.nodes@[n].linked_nodes@, target);
                }
            },
        }
        self.remove_attribute(doc, &name);
        let ghost dm = *doc;
        proof {
            assert(dm.proj() =~~= spec_remove_attr(d0.proj(), n, key));
            match find_key(d0.nodes@[n].attributes@, key) {
                Some(i) => {
                    crate::attributes::lemma_find_key_props(d0.nodes@[n].attributes@, key);
                    lemma_removed_name_absent(d0.nodes@[n].attributes@, key, i);
                    assert(dm.proj()[n].attrs == dm.nodes@[n].attributes@);
                },
                None => {},
            }
            assert(find_key(dm.nodes@[n].attributes@, key) is None);
        }
        let la = Attribute::new_link(name, target);
        doc.nodes[self.idx].attributes.insert_new(la);
        let ghost d1 = *doc;
        doc.nodes[target.idx].linked_nodes.push(self);
        proof {
            self.lemma_append_link_wf(dm, d1, *doc, la, target);
            assert(doc.proj() =~~= spec_push_link(
                spec_append_attr(dm.proj(), n, la),
                target.spec_idx(),
                n,
            ));
        }
        Ok(())
    }

    /// Checked attribute insertion: a link value takes the link path, which
    /// runs the link-graph rules and maintains the back-references; any
    /// other value takes the simple path.  A present attribute of the same
    /// name is always removed first, so overwriting a link attribute never
    /// leaves a stale back-reference.
    pub fn set_attribute_checked(self, doc: &mut Document, attr: Attribute) -> (r: Result<
        (),
        Error,
    >)
        requires
            old(doc).wf(),
            old(doc).spec_valid(self),
            old(doc).rec(self).node_type == NodeType::Element,
            match spec_link_target(&attr.value) {
                Some(t) => old(doc).spec_valid(t),
                None => true,
            },
        ensures
            final(doc).wf(),
            match spec_link_target(&attr.value) {
                None => r == Ok::<(), Error>(()) && old(doc).same_shape(*final(doc)) && (final(doc).proj() =~~= spec_append_attr(
                    spec_remove_attr(old(doc).proj(), self.spec_idx(), key_of(&attr.name)),
                    self.spec_idx(),
                    attr,
                )),
                Some(t) => {
                    if old(doc).rec(t).id@.len() == 0 {
                        r == Err::<(), Error>(Error::ElementMustHaveAnId) && *final(doc) == *old(
                            doc,
                        )
                    } else if t == self || occ_count(old(doc).rec(self).linked_nodes@, t) > 0 {
                        r == Err::<(), Error>(Error::ElementCrosslink) && *final(doc) == *old(doc)
                    } else {
                        r == Ok::<(), Error>(()) && old(doc).same_shape(*final(doc)) && (final(doc).proj() =~~= spec_push_link(
                            spec_append_attr(
                                spec_remove_attr(
                                    old(doc).proj(),
                                    self.spec_idx(),
                                    key_of(&attr.name),
                                ),
                                self.spec_idx(),
                                spec_link_attr(attr.name, t),
                            ),
                            t.spec_idx(),
                            self.spec_idx(),
                        ))
                    }
                },
            },
    {
        let is_link = match &attr.value {
            AttributeValue::Link(_) => true,
            AttributeValue::FuncLink(_) => true,
            _ => false,
        };
        if is_link {
            let Attribute { name, value, visible: _ } = attr;
            let t = match value.link_target() {
                Some(t) => t,
                None => {
                    proof {
                        assert(false);
                    }
                    Node { idx: 0 }
                },
            };
            proof {
                lemma_occ_nonneg(doc.rec(self).linked_nodes@, t);
            }
            self.set_link_attribute(doc, name, t)
        } else {
            self.set_simple_attribute(doc, attr);
            Ok(())
        }
    }
}

impl Document {
    /// Attributes and back-references agree, node by node.
    pub open spec fn same_links(self, other: Document) -> bool {
        &&& other.nodes@.len() == self.nodes@.len()
        &&& forall|i: int|
            0 <= i < self.nodes@.len() ==> (#[trigger] other.nodes@[i]).attributes
                == self.nodes@[i].attributes && other.nodes@[i].linked_nodes
                == self.nodes@[i].linked_nodes
    }
}

/// Well-formedness carries over to a document with the same link state, the
/// same node types, and in-range tree links.
proof fn lemma_wf_same_links(d1: Document, d2: Document)
    requires
        d1.wf(),
        d2.nodes@.len() == d1.nodes@.len(),
        forall|i: int|
            0 <= i < d1.nodes@.len() ==> (#[trigger] d2.nodes@[i]).attributes == d1.nodes@[i].attributes
                && d2.nodes@[i].linked_nodes == d1.nodes@[i].linked_nodes
                && d2.nodes@[i].node_type == d1.nodes@[i].node_type,
        forall|i: int|
            0 <= i < d2.nodes@.len() ==> {
                let r = #[trigger] d2.nodes@[i];
                &&& d2.opt_valid(r.parent)
                &&& d2.opt_valid(r.first_child)
                &&& d2.opt_valid(r.last_child)
                &&& d2.opt_valid(r.prev_sibling)
                &&& d2.opt_valid(r.next_sibling)
            },
        d2.nodes@[0].parent is None,
    ensures
        d2.wf(),
{
    let nn = d2.n_nodes();
    assert forall|a: int, b: int| 0 <= a < nn && 0 <= b < nn implies #[trigger] occ_count(
        d2.nodes@[b].linked_nodes@,
        handle(a),
    ) == link_count(d2.nodes@[a].attributes@, handle(b)) by {
        assert(occ_count(d1.nodes@[b].linked_nodes@, handle(a)) == link_count(
            d1.nodes@[a].attributes@,
            handle(b),
        ));
    }
    assert forall|j: int| 0 <= j < nn implies d2.rec_handles_wf(#[trigger] d2.nodes@[j]) by {
        assert(d1.rec_handles_wf(d1.nodes@[j]));
        assert(d2.nodes@[j].linked_nodes@ == d1.nodes@[j].linked_nodes@);
        assert(d2.nodes@[j].attributes@ == d1.nodes@[j].attributes@);
    }
    assert forall|j: int| 0 <= j < nn implies names_unique(
        (#[trigger] d2.nodes@[j]).attributes@,
    ) by {
        assert(names_unique(d1.nodes@[j].attributes@));
    }
}

impl Node {
    /// Sets the node's text data.  Element nodes carry no text.
    pub fn set_text(self, doc: &mut Document, text: &str)
        requires
            old(doc).wf(),
            old(doc).spec_valid(self),
            old(doc).rec(self).node_type != NodeType::Element,
        ensures
            final(doc).wf(),
            final(doc).same_links(*old(doc)),
            final(doc).nodes@.len() == old(doc).nodes@.len(),
            final(doc).rec(self).text@ == text@,
            forall|i: int|
                0 <= i < old(doc).nodes@.len() && i != self.spec_idx() ==> final(doc).nodes@[i]
                    == old(doc).nodes@[i],
            final(doc).rec(self) == (NodeRec {
                text: final(doc).rec(self).text,
                ..old(doc).rec(self)
            }),
    {
        let ghost d0 = *doc;
        doc.nodes[self.idx].text = String::from_str(text);
        proof {
            lemma_wf_same_links(d0, *doc);
        }
    }

    /// Sets the node's id string.  Only element nodes carry an id.
    pub fn set_id(self, doc: &mut Document, id: &str)
        requires
            old(doc).wf(),
            old(doc).spec_valid(self),
            old(doc).rec(self).node_type == NodeType::Element,
        ensures
            final(doc).wf(),
            final(doc).same_links(*old(doc)),
            final(doc).nodes@.len() == old(doc).nodes@.len(),
            final(doc).rec(self).id@ == id@,
            forall|i: int|
                0 <= i < old(doc).nodes@.len() && i != self.spec_idx() ==> final(doc).nodes@[i]
                    == old(doc).nodes@[i],
            final(doc).rec(self) == (NodeRec {
                id: final(doc).rec(self).id,
                ..old(doc).rec(self)
            }),
    {
        let ghost d0 = *doc;
        doc.nodes[self.idx].id = String::from_str(id);
        proof {
            lemma_wf_same_links(d0, *doc);
        }
    }

    /// Sets the node's tag name.  Only element nodes carry a tag name; a
    /// custom tag name must not be empty.
    pub fn set_tag_name(self, doc: &mut Document, tag_name: TagName)
        requires
            old(doc).wf(),
            old(doc).spec_valid(self),
            old(doc).rec(self).node_type == NodeType::Element,
            tag_name matches QName::Name(_, s) ==> s@.len() > 0,
        ensures
            final(doc).wf(),
            final(doc).same_links(*old(doc)),
            final(doc).nodes@.len() == old(doc).nodes@.len(),
            final(doc).rec(self).tag_name == tag_name,
            forall|i: int|
                0 <= i < old(doc).nodes@.len() && i != self.spec_idx() ==> final(doc).nodes@[i]
                    == old(doc).nodes@[i],
            final(doc).rec(self) == (NodeRec { tag_name, ..old(doc).rec(self) }),
    {
        let ghost d0 = *doc;
        doc.nodes[self.idx].tag_name = tag_name;
        proof {
            lemma_wf_same_links(d0, *doc);
        }
    }

    /// Returns `true` if the node has an attribute named by the prefix-free
    /// known identifier `id`.
    pub fn has_attribute(self, doc: &Document, id: AttributeId) -> (r: bool)
        requires
            doc.spec_valid(self),
        ensures
            r == (find_key(
                doc.rec(self).attributes@,
                NameKey::Id(Seq::<char>::empty(), id),
            ) is Some),
    {
        self.attributes(doc).contains(id)
    }

    /// Returns `true` if the node has an attribute with the given name.
    pub fn has_attribute_name(self, doc: &Document, name: &AttributeQName) -> (r: bool)
        requires
            doc.spec_valid(self),
        ensures
            r == (find_attr(doc.rec(self).attributes@, *name) is Some),
    {
        self.attributes(doc).contains_name(name)
    }

    /// Returns `true` if the node has a visible attribute named by the
    /// prefix-free known identifier `id`.
    pub fn has_visible_attribute(self, doc: &Document, id: AttributeId) -> (r: bool)
        requires
            doc.spec_valid(self),
        ensures
            r == (match find_key(doc.rec(self).attributes@, NameKey::Id(Seq::<char>::empty(), id)) {
                Some(i) => doc.rec(self).attributes@[i].visible,
                None => false,
            }),
    {
        match self.attributes(doc).get(id) {
            Some(a) => a.visible,
            None => false,
        }
    }

    /// Returns `true` if the node has an attribute named by any of the given
    /// prefix-free known identifiers.
    pub fn has_attributes(self, doc: &Document, ids: &Vec<AttributeId>) -> (r: bool)
        requires
            doc.spec_valid(self),
        ensures
            r == (exists|k: int|
                0 <= k < ids@.len() && find_key(
                    doc.rec(self).attributes@,
                    NameKey::Id(Seq::<char>::empty(), ids@[k]),
                ) is Some),
    {
        let mut k: usize = 0;
        while k < ids.len()
            invariant
                doc.spec_valid(self),
                k <= ids@.len(),
                forall|j: int|
                    0 <= j < k ==> !(find_key(
                        doc.rec(self).attributes@,
                        NameKey::Id(Seq::<char>::empty(), ids@[j]),
                    ) is Some),
            decreases ids@.len() - k,
        {
            if self.has_attribute(doc, ids[k]) {
                return true;
            }
            k += 1;
        }
        false
    }

    /// Stores an attribute, as `set_attribute_checked` does, on inputs where
    /// that cannot fail: a link value must aim at a distinct node that has an
    /// id and does not already link back.
    pub fn set_attribute(self, doc: &mut Document, attr: Attribute)
        requires
            old(doc).wf(),
            old(doc).spec_valid(self),
            old(doc).rec(self).node_type == NodeType::Element,
            match spec_link_target(&attr.value) {
                Some(t) => old(doc).spec_valid(t) && old(doc).rec(t).id@.len() > 0 && t != self
                    && occ_count(old(doc).rec(self).linked_nodes@, t) == 0,
                None => true,
            },
        ensures
            final(doc).wf(),
            old(doc).same_shape(*final(doc)),
            match spec_link_target(&attr.value) {
                None => final(doc).proj() =~~= spec_append_attr(
                    spec_remove_attr(old(doc).proj(), self.spec_idx(), key_of(&attr.name)),
                    self.spec_idx(),
                    attr,
                ),
                Some(t) => final(doc).proj() =~~= spec_push_link(
                    spec_append_attr(
                        spec_remove_attr(old(doc).proj(), self.spec_idx(), key_of(&attr.name)),
                        self.spec_idx(),
                        spec_link_attr(attr.name, t),
                    ),
                    t.spec_idx(),
                    self.spec_idx(),
                ),
            },
    {
        let r = self.set_attribute_checked(doc, attr);
        match r {
            Ok(()) => {},
            Err(_) => {
                proof {
                    assert(false);
                }
            },
        }
    }

    /// Stores the attribute built from `name` and a copy of `value`, unless
    /// an attribute with that name is already present.
    pub fn set_attribute_if_none(
        self,
        doc: &mut Document,
        name: &AttributeQName,
        value: &AttributeValue,
    )
        requires
            old(doc).wf(),
            old(doc).spec_valid(self),
            old(doc).rec(self).node_type == NodeType::Element,
            match spec_link_target(value) {
                Some(t) => old(doc).spec_valid(t) && old(doc).rec(t).id@.len() > 0 && t != self
                    && occ_count(old(doc).rec(self).linked_nodes@, t) == 0,
                None => true,
            },
        ensures
            final(doc).wf(),
            old(doc).same_shape(*final(doc)),
            find_attr(old(doc).rec(self).attributes@, *name) is Some ==> *final(doc) == *old(doc),
            find_attr(old(doc).rec(self).attributes@, *name) is None ==> match spec_link_target(
                value,
            ) {
                None => exists|a: Attribute|
                    a.name == *name && crate::value::value_eq(&a.value, value) && a.visible && (
                    final(doc).proj() =~~= spec_append_attr(old(doc).proj(), self.spec_idx(), a)),
                Some(t) => final(doc).proj() =~~= spec_push_link(
                    spec_append_attr(
                        old(doc).proj(),
                        self.spec_idx(),
                        spec_link_attr(*name, t),
                    ),
                    t.spec_idx(),
                    self.spec_idx(),
                ),
            },
    {
        let ghost d0 = *doc;
        let ghost n = self.spec_idx();
        if self.has_attribute_name(doc, name) {
            return ;
        }
        proof {
            assert(find_key(d0.nodes@[n].attributes@, key_of(name)) is None);
            assert(d0.proj()[n].attrs == d0.nodes@[n].attributes@);
        }
        let attr = Attribute::new(name.clone(), value.clone());
        let ghost built = attr;
        self.set_attribute(doc, attr);
        proof {
            match spec_link_target(value) {
                None => {
                    assert(spec_remove_attr(d0.proj(), n, key_of(&built.name)) =~~= d0.proj());
                    assert(final(doc).proj() =~~= spec_append_attr(d0.proj(), n, built));
                    assert(built.name == *name && crate::value::value_eq(&built.value, value)
                        && built.visible);
                },
                Some(t) => {
                    assert(spec_remove_attr(d0.proj(), n, key_of(&built.name)) =~~= d0.proj());
                    assert(spec_link_attr(built.name, t) == spec_link_attr(*name, t));
                },
            }
        }
    }
}

impl Node {
    /// Unhooks the node from its parent and siblings, stitching the
    /// navigational links of the neighbours so none dangles.
    pub(crate) fn detach(self, doc: &mut Document)
        requires
            old(doc).wf(),
            old(doc).spec_valid(self),
            self.spec_idx() != 0,
        ensures
            final(doc).wf(),
            old(doc).same_links(*final(doc)),
            final(doc).nodes@.len() == old(doc).nodes@.len(),
            final(doc).rec(self).parent is None,
            forall|i: int|
                0 <= i < old(doc).nodes@.len() ==> {
                    let r1 = #[trigger] old(doc).nodes@[i];
                    let r2 = final(doc).nodes@[i];
                    r2.node_type == r1.node_type && r2.tag_name == r1.tag_name && r2.id == r1.id
                        && r2.text == r1.text
                },
            forall|i: int|
                0 <= i < old(doc).nodes@.len() && i != self.spec_idx() ==> (#[trigger] final(doc).nodes@[i]).parent == old(doc).nodes@[i].parent,
    {
        let ghost d0 = *doc;
        proof {
            assert(d0.rec_handles_wf(d0.nodes@[self.spec_idx()]));
        }
        let parent = doc.nodes[self.idx].parent;
        let prev = doc.nodes[self.idx].prev_sibling;
        let next = doc.nodes[self.idx].next_sibling;
        match prev {
            Some(p) => {
                doc.nodes[p.idx].next_sibling = next;
            },
            None => {
                if let Some(par) = parent {
                    doc.nodes[par.idx].first_child = next;
                }
            },
        }
        match next {
            Some(nx) => {
                doc.nodes[nx.idx].prev_sibling = prev;
            },
            None => {
                if let Some(par) = parent {
                    doc.nodes[par.idx].last_child = prev;
                }
            },
        }
        doc.nodes[self.idx].parent = None;
        doc.nodes[self.idx].prev_sibling = None;
        doc.nodes[self.idx].next_sibling = None;
        proof {
            assert forall|i: int| 0 <= i < doc.nodes@.len() implies {
                let r = #[trigger] doc.nodes@[i];
                &&& doc.opt_valid(r.parent)
                &&& doc.opt_valid(r.first_child)
                &&& doc.opt_valid(r.last_child)
                &&& doc.opt_valid(r.prev_sibling)
                &&& doc.opt_valid(r.next_sibling)
            } by {
                assert(d0.rec_handles_wf(d0.nodes@[i]));
                if let Some(p) = prev {
                    assert(d0.rec_handles_wf(d0.nodes@[p.spec_idx()]));
                }
                if let Some(nx) = next {
                    assert(d0.rec_handles_wf(d0.nodes@[nx.spec_idx()]));
                }
                if let Some(par) = parent {
                    assert(d0.rec_handles_wf(d0.nodes@[par.spec_idx()]));
                }
            }
            lemma_wf_same_links(d0, *doc);
        }
    }

    /// Appends `child` as this node's last child, detaching it from any
    /// previous position first.
    pub fn append(self, doc: &mut Document, child: Node)
        requires
            old(doc).wf(),
            old(doc).spec_valid(self),
            old(doc).spec_valid(child),
            child.spec_idx() != 0,
            child != self,
        ensures
            final(doc).wf(),
            old(doc).same_links(*final(doc)),
            final(doc).nodes@.len() == old(doc).nodes@.len(),
            final(doc).rec(child).parent == Some(self),
            final(doc).rec(self).last_child == Some(child),
            forall|i: int|
                0 <= i < old(doc).nodes@.len() ==> {
                    let r1 = #[trigger] old(doc).nodes@[i];
                    let r2 = final(doc).nodes@[i];
                    r2.node_type == r1.node_type && r2.tag_name == r1.tag_name && r2.id == r1.id
                        && r2.text == r1.text
                },
    {
        child.detach(doc);
        let ghost d1 = *doc;
        let old_last = doc.nodes[self.idx].last_child;
        match old_last {
            Some(lc) => {
                proof {
                    assert(d1.rec_handles_wf(d1.nodes@[self.spec_idx()]));
                }
                doc.nodes[lc.idx].next_sibling = Some(child);
                doc.nodes[child.idx].prev_sibling = Some(lc);
            },
            None => {
                doc.nodes[self.idx].first_child = Some(child);
            },
        }
        doc.nodes[self.idx].last_child = Some(child);
        doc.nodes[child.idx].parent = Some(self);
        proof {
            assert forall|i: int| 0 <= i < doc.nodes@.len() implies {
                let r = #[trigger] doc.nodes@[i];
                &&& doc.opt_valid(r.parent)
                &&& doc.opt_valid(r.first_child)
                &&& doc.opt_valid(r.last_child)
                &&& doc.opt_valid(r.prev_sibling)
                &&& doc.opt_valid(r.next_sibling)
            } by {
                assert(d1.rec_handles_wf(d1.nodes@[i]));
            }
            assert(doc.nodes@[0].parent is None);
            lemma_wf_same_links(d1, *doc);
        }
    }

    /// Returns this node's first child, if any.
    pub fn first_child(self, doc: &Document) -> (r: Option<Node>)
        requires
            doc.spec_valid(self),
        ensures
            r == doc.rec(self).first_child,
    {
        doc.nodes[self.idx].first_child
    }

    /// Returns this node's next sibling, if any.
    pub fn next_sibling(self, doc: &Document) -> (r: Option<Node>)
        requires
            doc.spec_valid(self),
        ensures
            r == doc.rec(self).next_sibling,
    {
        doc.nodes[self.idx].next_sibling
    }

    /// Returns this node's parent, if attached.
    pub fn parent(self, doc: &Document) -> (r: Option<Node>)
        requires
            doc.spec_valid(self),
        ensures
            r == doc.rec(self).parent,
    {
        doc.nodes[self.idx].parent
    }

    /// Returns this node's children, in order.  The walk is bounded by the
    /// arena size, which covers every well-formed tree.
    pub fn children(self, doc: &Document) -> (r: Vec<Node>)
        requires
            doc.wf(),
            doc.spec_valid(self),
        ensures
            r@ == spec_children(*doc, self),
            forall|i: int| 0 <= i < r@.len() ==> doc.spec_valid(#[trigger] r@[i]),
    {
        let mut out: Vec<Node> = Vec::new();
        let mut cur = self.first_child(doc);
        let mut fuel = doc.nodes.len();
        proof {
            assert(doc.rec_handles_wf(doc.nodes@[self.spec_idx()]));
        }
        while fuel > 0
            invariant
                doc.wf(),
                doc.opt_valid(cur),
                forall|i: int| 0 <= i < out@.len() ==> doc.spec_valid(#[trigger] out@[i]),
                spec_children(*doc, self) == out@ + spec_child_chain(*doc, cur, fuel as nat),
            decreases fuel,
        {
            match cur {
                Some(c) => {
                    out.push(c);
                    proof {
                        assert(doc.rec_handles_wf(doc.nodes@[c.spec_idx()]));
                        assert(out@ + spec_child_chain(*doc, doc.rec(c).next_sibling, (fuel
                            - 1) as nat) =~= out@.drop_last() + spec_child_chain(
                            *doc,
                            Some(c),
                            fuel as nat,
                        ));
                    }
                    cur = c.next_sibling(doc);
                },
                None => {
                    proof {
                        assert(spec_children(*doc, self) =~= out@);
                    }
                    return out;
                },
            }
            fuel -= 1;
        }
        proof {
            assert(spec_children(*doc, self) =~= out@);
        }
        out
    }

    /// Collects this node's subtree in document order.
    fn collect_subtree(self, doc: &Document, out: &mut Vec<Node>, fuel: usize)
        requires
            doc.wf(),
            doc.spec_valid(self),
        ensures
            final(out)@ == old(out)@ + spec_subtree(*doc, self, fuel as nat),
        decreases fuel,
    {
        out.push(self);
        if fuel == 0 {
            proof {
                assert(out@ =~= old(out)@ + spec_subtree(*doc, self, fuel as nat));
            }
            return ;
        }
        let kids = self.children(doc);
        let mut k: usize = 0;
        while k < kids.len()
            invariant
                doc.wf(),
                doc.spec_valid(self),
                fuel >= 1,
                kids@ == spec_children(*doc, self),
                forall|i: int| 0 <= i < kids@.len() ==> doc.spec_valid(#[trigger] kids@[i]),
                k <= kids@.len(),
                out@ == old(out)@ + seq![self] + spec_forest(
                    *doc,
                    kids@.subrange(0, k as int),
                    (fuel - 1) as nat,
                ),
            decreases kids@.len() - k,
        {
            proof {
                assert(doc.spec_valid(kids@[k as int]));
            }
            kids[k].collect_subtree(doc, out, fuel - 1);
            proof {
                assert(spec_subtree_in(*doc, kids@[k as int], (fuel - 1) as nat) == spec_subtree(
                    *doc,
                    kids@[k as int],
                    (fuel - 1) as nat,
                ));
                assert(kids@.subrange(0, k + 1).drop_last() =~= kids@.subrange(0, k as int));
                assert(kids@.subrange(0, k + 1).last() == kids@[k as int]);
                assert(out@ =~= old(out)@ + seq![self] + spec_forest(
                    *doc,
                    kids@.subrange(0, k + 1),
                    (fuel - 1) as nat,
                ));
            }
            k += 1;
        }
        proof {
            assert(kids@.subrange(0, kids@.len() as int) =~= kids@);
            assert(out@ =~= old(out)@ + spec_subtree(*doc, self, fuel as nat));
        }
    }

    /// Returns this node and its descendants in document order: depth first,
    /// children in order.  The walk's depth is bounded by the arena size,
    /// which covers every well-formed tree.
    pub fn descendants(self, doc: &Document) -> (r: Vec<Node>)
        requires
            doc.wf(),
            doc.spec_valid(self),
        ensures
            r@ == spec_subtree(*doc, self, doc.nodes@.len() as nat),
            r@.len() >= 1,
            r@[0] == self,
            forall|i: int| 0 <= i < r@.len() ==> doc.spec_valid(#[trigger] r@[i]),
    {
        let mut out: Vec<Node> = Vec::new();
        let fuel = doc.nodes.len();
        self.collect_subtree(doc, &mut out, fuel);
        proof {
            lemma_subtree_valid(*doc, self, fuel as nat);
        }
        out
    }
}

/// The sibling chain starting at `cur`, cut off by `fuel` (every well-formed
/// tree fits in a fuel of the arena size).
pub open spec fn spec_child_chain(d: Document, cur: Option<Node>, fuel: nat) -> Seq<Node>
    decreases fuel,
{
    if fuel == 0 {
        Seq::empty()
    } else {
        match cur {
            None => Seq::empty(),
            Some(c) => if c.spec_idx() < d.nodes@.len() {
                seq![c] + spec_child_chain(d, d.rec(c).next_sibling, (fuel - 1) as nat)
            } else {
                Seq::empty()
            },
        }
    }
}

/// A node's children, in order: the sibling chain from its first child.
pub open spec fn spec_children(d: Document, n: Node) -> Seq<Node>
    recommends
        d.spec_valid(n),
{
    spec_child_chain(d, d.rec(n).first_child, d.nodes@.len() as nat)
}

/// A node's subtree in document order: the node, then its children's
/// subtrees left to right, descending at most `fuel` levels.
pub open spec fn spec_subtree(d: Document, n: Node, fuel: nat) -> Seq<Node>
    decreases fuel, 0nat,
{
    if fuel == 0 {
        seq![n]
    } else {
        seq![n] + spec_forest(d, spec_children(d, n), (fuel - 1) as nat)
    }
}

/// The concatenated subtrees of a list of roots.
pub open spec fn spec_forest(d: Document, roots: Seq<Node>, fuel: nat) -> Seq<Node>
    decreases fuel, roots.len() + 1,
{
    if roots.len() == 0 {
        Seq::empty()
    } else {
        spec_forest(d, roots.drop_last(), fuel) + spec_subtree_in(d, roots.last(), fuel)
    }
}

/// `spec_subtree`, guarded for use inside `spec_forest`: an out-of-range
/// root contributes itself alone.
pub open spec fn spec_subtree_in(d: Document, n: Node, fuel: nat) -> Seq<Node>
    decreases fuel, 1nat,
{
    if n.spec_idx() < d.nodes@.len() {
        spec_subtree(d, n, fuel)
    } else {
        seq![n]
    }
}

/// Every handle of a subtree listing is in range.
proof fn lemma_subtree_valid(d: Document, n: Node, fuel: nat)
    requires
        d.wf(),
        d.spec_valid(n),
    ensures
        spec_subtree(d, n, fuel).len() >= 1,
        spec_subtree(d, n, fuel)[0] == n,
        forall|i: int|
            0 <= i < spec_subtree(d, n, fuel).len() ==> d.spec_valid(
                #[trigger] spec_subtree(d, n, fuel)[i],
            ),
    decreases fuel, 0nat,
{
    if fuel > 0 {
        lemma_chain_valid(d, d.rec(n).first_child, d.nodes@.len() as nat);
        lemma_forest_valid(d, spec_children(d, n), (fuel - 1) as nat);
        assert(spec_subtree(d, n, fuel)[0] == n);
        assert forall|i: int| 0 <= i < spec_subtree(d, n, fuel).len() implies d.spec_valid(
            #[trigger] spec_subtree(d, n, fuel)[i],
        ) by {
            if i >= 1 {
                assert(spec_subtree(d, n, fuel)[i] == spec_forest(
                    d,
                    spec_children(d, n),
                    (fuel - 1) as nat,
                )[i - 1]);
            }
        }
    } else {
        assert(spec_subtree(d, n, fuel) =~= seq![n]);
    }
}

/// Every handle of a forest listing of in-range roots is in range.
proof fn lemma_forest_valid(d: Document, roots: Seq<Node>, fuel: nat)
    requires
        d.wf(),
        forall|i: int| 0 <= i < roots.len() ==> d.spec_valid(#[trigger] roots[i]),
    ensures
        forall|i: int|
            0 <= i < spec_forest(d, roots, fuel).len() ==> d.spec_valid(
                #[trigger] spec_forest(d, roots, fuel)[i],
            ),
    decreases fuel, roots.len() + 1,
{
    if roots.len() > 0 {
        lemma_forest_valid(d, roots.drop_last(), fuel);
        lemma_subtree_valid(d, roots.last(), fuel);
        let pre = spec_forest(d, roots.drop_last(), fuel);
        let tail = spec_subtree_in(d, roots.last(), fuel);
        assert(tail == spec_subtree(d, roots.last(), fuel));
        assert forall|i: int| 0 <= i < spec_forest(d, roots, fuel).len() implies d.spec_valid(
            #[trigger] spec_forest(d, roots, fuel)[i],
        ) by {
            if i < pre.len() {
                assert(spec_forest(d, roots, fuel)[i] == pre[i]);
            } else {
                assert(spec_forest(d, roots, fuel)[i] == tail[i - pre.len()]);
            }
        }
    }
}

/// Every handle of a sibling chain is in range.
proof fn lemma_chain_valid(d: Document, cur: Option<Node>, fuel: nat)
    requires
        d.wf(),
    ensures
        forall|i: int|
            0 <= i < spec_child_chain(d, cur, fuel).len() ==> d.spec_valid(
                #[trigger] spec_child_chain(d, cur, fuel)[i],
            ),
    decreases fuel,
{
    if fuel > 0 {
        if let Some(c) = cur {
            if c.spec_idx() < d.nodes@.len() {
                lemma_chain_valid(d, d.rec(c).next_sibling, (fuel - 1) as nat);
                let rest = spec_child_chain(d, d.rec(c).next_sibling, (fuel - 1) as nat);
                assert forall|i: int|
                    0 <= i < spec_child_chain(d, cur, fuel).len() implies d.spec_valid(
                    #[trigger] spec_child_chain(d, cur, fuel)[i],
                ) by {
                    if i >= 1 {
                        assert(spec_child_chain(d, cur, fuel)[i] == rest[i - 1]);
                    }
                }
            }
        }
    }
}

/// With unique names, an attribute is found exactly at its own position.
proof fn lemma_find_key_unique(s: Seq<Attribute>, i: int)
    requires
        names_unique(s),
        0 <= i < s.len(),
    ensures
        find_key(s, key_of(&s[i].name)) == Some(i),
{
    let key = key_of(&s[i].name);
    crate::attributes::lemma_find_key_props(s, key);
    match find_key(s, key) {
        Some(m) => {
            if m != i {
                assert(key_of(&s[m].name) == key_of(&s[i].name));
            }
        },
        None => {
            assert(key_of(&s[i].name) != key);
        },
    }
}

/// Returns the position of some attribute holding a link value, if any.
fn find_link_index(attrs: &Attributes) -> (r: Option<usize>)
    ensures
        match r {
            Some(i) => i < attrs@.len() && spec_link_target(&attrs@[i as int].value) is Some,
            None => forall|j: int|
                0 <= j < attrs@.len() ==> spec_link_target(&attrs@[j].value) is None,
        },
{
    let mut i: usize = 0;
    while i < attrs.len()
        invariant
            i <= attrs@.len(),
            forall|j: int| 0 <= j < i ==> spec_link_target(&attrs@[j].value) is None,
        decreases attrs@.len() - i,
    {
        if let Some(_) = attrs.get_index(i).value.link_target() {
            return Some(i);
        }
        i += 1;
    }
    None
}

/// Returns the position of some attribute linking to `t`, if any.
fn find_link_to_index(attrs: &Attributes, t: Node) -> (r: Option<usize>)
    ensures
        match r {
            Some(i) => i < attrs@.len() && links_to(attrs@[i as int], t),
            None => forall|j: int| 0 <= j < attrs@.len() ==> !links_to(attrs@[j], t),
        },
{
    let mut i: usize = 0;
    while i < attrs.len()
        invariant
            i <= attrs@.len(),
            forall|j: int| 0 <= j < i ==> !links_to(attrs@[j], t),
        decreases attrs@.len() - i,
    {
        if let Some(u) = attrs.get_index(i).value.link_target() {
            if u == t {
                return Some(i);
            }
        }
        i += 1;
    }
    None
}


impl Node {
    /// Removes every link attribute this node holds, unlinking each from its
    /// target.
    #[verifier::loop_isolation(false)]
    fn strip_out_links(self, doc: &mut Document)
        requires
            old(doc).wf(),
            old(doc).spec_valid(self),
        ensures
            final(doc).wf(),
            old(doc).same_shape(*final(doc)),
            forall|b: int|
                0 <= b < final(doc).n_nodes() ==> link_count(
                    final(doc).rec(self).attributes@,
                    #[trigger] handle(b),
                ) == 0,
            forall|x: int|
                0 <= x < final(doc).n_nodes() && x != self.spec_idx() ==> (#[trigger] final(doc).nodes@[x]).attributes@ == old(doc).nodes@[x].attributes@,
            forall|x: int, y: int|
                #![trigger occ_count(final(doc).nodes@[x].linked_nodes@, handle(y))]
                0 <= x < final(doc).n_nodes() && 0 <= y < final(doc).n_nodes() && y
                    != self.spec_idx() ==> occ_count(
                    final(doc).nodes@[x].linked_nodes@,
                    handle(y),
                ) == occ_count(old(doc).nodes@[x].linked_nodes@, handle(y)),
            forall|x: int|
                0 <= x < final(doc).n_nodes() ==> (#[trigger] final(doc).nodes@[x]).linked_nodes@.len()
                    <= old(doc).nodes@[x].linked_nodes@.len(),
            (forall|b: int|
                0 <= b < old(doc).n_nodes() ==> link_count(
                    old(doc).rec(self).attributes@,
                    #[trigger] handle(b),
                ) == 0) ==> final(doc).nodes@[self.spec_idx()].attributes@
                == old(doc).nodes@[self.spec_idx()].attributes@,
    {
        let ghost d0 = *doc;
        let ghost n = self.spec_idx();
        loop
            invariant
                doc.wf(),
                doc.spec_valid(self),
                d0.same_shape(*doc),
                forall|x: int|
                    0 <= x < doc.n_nodes() && x != n ==> (#[trigger] doc.nodes@[x]).attributes@
                        == d0.nodes@[x].attributes@,
                (forall|b: int|
                    0 <= b < d0.n_nodes() ==> link_count(
                        d0.rec(self).attributes@,
                        #[trigger] handle(b),
                    ) == 0) ==> doc.nodes@[n].attributes@ == d0.nodes@[n].attributes@,
                forall|x: int, y: int|
                    #![trigger occ_count(doc.nodes@[x].linked_nodes@, handle(y))]
                    0 <= x < doc.n_nodes() && 0 <= y < doc.n_nodes() && y != n ==> occ_count(
                        doc.nodes@[x].linked_nodes@,
                        handle(y),
                    ) == occ_count(d0.nodes@[x].linked_nodes@, handle(y)),
                forall|x: int|
                    0 <= x < doc.n_nodes() ==> (#[trigger] doc.nodes@[x]).linked_nodes@.len()
                        <= d0.nodes@[x].linked_nodes@.len(),
            decreases doc.nodes@[n].attributes@.len(),
        {
            let ghost dpre = *doc;
            let i = match find_link_index(&doc.nodes[self.idx].attributes) {
                Some(i) => i,
                None => {
                    proof {
                        assert forall|b: int| 0 <= b < doc.n_nodes() implies link_count(
                            doc.rec(self).attributes@,
                            #[trigger] handle(b),
                        ) == 0 by {
                            lemma_lc_zero(doc.rec(self).attributes@, handle(b));
                        }
                    }
                    return ;
                },
            };
            let name = doc.nodes[self.idx].attributes.get_index(i).name.clone();
            proof {
                assert(names_unique(dpre.nodes@[n].attributes@));
                lemma_find_key_unique(dpre.nodes@[n].attributes@, i as int);
                // this node still holds a link attribute, so it did not start
                // without any
                if forall|b: int|
                    0 <= b < d0.n_nodes() ==> link_count(
                        d0.rec(self).attributes@,
                        #[trigger] handle(b),
                    ) == 0 {
                    let t0 = spec_link_target(&dpre.nodes@[n].attributes@[i as int].value)->Some_0;
                    assert(dpre.rec_handles_wf(dpre.nodes@[n]));
                    lemma_lc_at(dpre.nodes@[n].attributes@, i as int, t0);
                    assert(link_count(d0.rec(self).attributes@, handle(t0.spec_idx())) == 0);
                    assert(handle(t0.spec_idx()) == t0);
                    assert(false);
                }
            }
            self.remove_attribute(doc, &name);
            proof {
                let key = key_of(&name);
                assert(doc.proj() == spec_remove_attr(dpre.proj(), n, key));
                assert(dpre.proj()[n].attrs == dpre.nodes@[n].attributes@);
                assert(find_key(dpre.proj()[n].attrs, key) == Some(i as int));
                let tgt = spec_link_target(&dpre.nodes@[n].attributes@[i as int].value);
                assert(doc.proj()[n].attrs == doc.nodes@[n].attributes@);
                assert(doc.nodes@[n].attributes@.len() < dpre.nodes@[n].attributes@.len());
                assert forall|x: int|
                    0 <= x < doc.n_nodes() && x != n implies (
                #[trigger] doc.nodes@[x]).attributes@ == d0.nodes@[x].attributes@ by {
                    assert(doc.proj()[x].attrs == doc.nodes@[x].attributes@);
                    assert(dpre.proj()[x].attrs == dpre.nodes@[x].attributes@);
                }
                assert forall|x: int, y: int|
                    0 <= x < doc.n_nodes() && 0 <= y < doc.n_nodes() && y != n implies occ_count(
                    doc.nodes@[x].linked_nodes@,
                    handle(y),
                ) == occ_count(d0.nodes@[x].linked_nodes@, handle(y)) by {
                    assert(occ_count(dpre.nodes@[x].linked_nodes@, handle(y)) == occ_count(
                        d0.nodes@[x].linked_nodes@,
                        handle(y),
                    ));
                    assert(doc.proj()[x].linked == doc.nodes@[x].linked_nodes@);
                    assert(dpre.proj()[x].linked == dpre.nodes@[x].linked_nodes@);
                    if tgt matches Some(t) && x == t.spec_idx() {
                        match find_node(dpre.nodes@[x].linked_nodes@, handle(n)) {
                            Some(m) => {
                                lemma_find_node_props(dpre.nodes@[x].linked_nodes@, handle(n));
                                assert(doc.nodes@[x].linked_nodes@
                                    == dpre.nodes@[x].linked_nodes@.remove(m));
                                lemma_occ_remove(dpre.nodes@[x].linked_nodes@, m, handle(y));
                                lemma_handle_inj(*doc, y, n);
                            },
                            None => {
                                assert(doc.nodes@[x].linked_nodes@
                                    == dpre.nodes@[x].linked_nodes@);
                            },
                        }
                    } else {
                        assert(doc.nodes@[x].linked_nodes@ == dpre.nodes@[x].linked_nodes@);
                    }
                }
                assert forall|x: int| 0 <= x < doc.n_nodes() implies (
                #[trigger] doc.nodes@[x]).linked_nodes@.len() <= d0.nodes@[x].linked_nodes@.len() by {
                    assert(doc.proj()[x].linked == doc.nodes@[x].linked_nodes@);
                    assert(dpre.proj()[x].linked == dpre.nodes@[x].linked_nodes@);
                    if tgt matches Some(t) && x == t.spec_idx() {
                        match find_node(dpre.nodes@[x].linked_nodes@, handle(n)) {
                            Some(m) => {
                                lemma_find_node_props(dpre.nodes@[x].linked_nodes@, handle(n));
                                assert(doc.nodes@[x].linked_nodes@
                                    == dpre.nodes@[x].linked_nodes@.remove(m));
                            },
                            None => {
                                assert(doc.nodes@[x].linked_nodes@
                                    == dpre.nodes@[x].linked_nodes@);
                            },
                        }
                    } else {
                        assert(doc.nodes@[x].linked_nodes@ == dpre.nodes@[x].linked_nodes@);
                    }
                }
            }
        }
    }

    /// Removes every link attribute held by other nodes that points at this
    /// node, draining its back-reference list.
    #[verifier::loop_isolation(false)]
    fn strip_in_links(self, doc: &mut Document)
        requires
            old(doc).wf(),
            old(doc).spec_valid(self),
            forall|b: int|
                0 <= b < old(doc).n_nodes() ==> link_count(
                    old(doc).rec(self).attributes@,
                    #[trigger] handle(b),
                ) == 0,
        ensures
            final(doc).wf(),
            old(doc).same_shape(*final(doc)),
            final(doc).rec(self).linked_nodes@.len() == 0,
            final(doc).rec(self).attributes@ == old(doc).rec(self).attributes@,
            forall|x: int, b: int|
                #![trigger link_count(final(doc).nodes@[x].attributes@, handle(b))]
                0 <= x < final(doc).n_nodes() && 0 <= b < final(doc).n_nodes() && b
                    != self.spec_idx() ==> link_count(
                    final(doc).nodes@[x].attributes@,
                    handle(b),
                ) == link_count(old(doc).nodes@[x].attributes@, handle(b)),
            forall|x: int|
                0 <= x < final(doc).n_nodes() && x != self.spec_idx() ==> (#[trigger] final(doc).nodes@[x]).linked_nodes@ == old(doc).nodes@[x].linked_nodes@,
            forall|x: int|
                0 <= x < final(doc).n_nodes() ==> (#[trigger] final(doc).nodes@[x]).linked_nodes@.len()
                    <= old(doc).nodes@[x].linked_nodes@.len(),
            forall|x: int|
                0 <= x < final(doc).n_nodes() && link_count(
                    old(doc).nodes@[x].attributes@,
                    handle(self.spec_idx()),
                ) == 0 ==> (#[trigger] final(doc).nodes@[x]).attributes@
                    == old(doc).nodes@[x].attributes@,
    {
        let ghost d0 = *doc;
        let ghost n = self.spec_idx();
        loop
            invariant
                doc.wf(),
                doc.spec_valid(self),
                d0.same_shape(*doc),
                doc.nodes@[n].attributes@ == d0.nodes@[n].attributes@,
                forall|x: int|
                    0 <= x < doc.n_nodes() && link_count(d0.nodes@[x].attributes@, handle(n)) == 0
                        ==> (#[trigger] doc.nodes@[x]).attributes@ == d0.nodes@[x].attributes@,
                forall|b: int|
                    0 <= b < doc.n_nodes() ==> link_count(
                        doc.rec(self).attributes@,
                        #[trigger] handle(b),
                    ) == 0,
                forall|x: int, b: int|
                    #![trigger link_count(doc.nodes@[x].attributes@, handle(b))]
                    0 <= x < doc.n_nodes() && 0 <= b < doc.n_nodes() && b != n ==> link_count(
                        doc.nodes@[x].attributes@,
                        handle(b),
                    ) == link_count(d0.nodes@[x].attributes@, handle(b)),
                forall|x: int|
                    0 <= x < doc.n_nodes() && x != n ==> (#[trigger] doc.nodes@[x]).linked_nodes@
                        == d0.nodes@[x].linked_nodes@,
                doc.nodes@[n].linked_nodes@.len() <= d0.nodes@[n].linked_nodes@.len(),
            decreases doc.nodes@[n].linked_nodes@.len(),
        {
            let ghost dpre = *doc;
            let llen = doc.nodes[self.idx].linked_nodes.len();
            if llen == 0 {
                return ;
            }
            let l = doc.nodes[self.idx].linked_nodes[llen - 1];
            proof {
                assert(doc.rec_handles_wf(doc.nodes@[n]));
                lemma_occ_at(doc.nodes@[n].linked_nodes@, llen - 1 as int, l);
                // this node holds no link attributes, so it cannot occur in
                // its own back-reference list
                if l == self {
                    assert(occ_count(doc.nodes@[n].linked_nodes@, handle(n)) == link_count(
                        doc.nodes@[n].attributes@,
                        handle(n),
                    ));
                }
                assert(l != self);
                assert(occ_count(doc.nodes@[n].linked_nodes@, handle(l.spec_idx())) == link_count(
                    doc.nodes@[l.spec_idx()].attributes@,
                    handle(n),
                ));
                assert(handle(l.spec_idx()) == l);
                assert(handle(n) == self);
                if forall|j: int|
                    0 <= j < doc.nodes@[l.spec_idx()].attributes@.len() ==> !links_to(
                        doc.nodes@[l.spec_idx()].attributes@[j],
                        self,
                    ) {
                    lemma_lc_zero(doc.nodes@[l.spec_idx()].attributes@, self);
                }
            }
            let j = match find_link_to_index(&doc.nodes[l.idx].attributes, self) {
                Some(j) => j,
                None => {
                    proof {
                        assert(false);
                    }
                    return ;
                },
            };
            let name = doc.nodes[l.idx].attributes.get_index(j).name.clone();
            proof {
                assert(names_unique(dpre.nodes@[l.spec_idx()].attributes@));
                lemma_find_key_unique(dpre.nodes@[l.spec_idx()].attributes@, j as int);
                // the chosen linker did hold a link here at entry
                lemma_lc_at(dpre.nodes@[l.spec_idx()].attributes@, j as int, self);
                lemma_lc_nonneg(d0.nodes@[l.spec_idx()].attributes@, handle(n));
                assert(link_count(d0.nodes@[l.spec_idx()].attributes@, handle(n)) != 0);
            }
            l.remove_attribute(doc, &name);
            proof {
                let li = l.spec_idx();
                let key = key_of(&name);
                assert(doc.proj() == spec_remove_attr(dpre.proj(), li, key));
                assert(dpre.proj()[li].attrs == dpre.nodes@[li].attributes@);
                assert(find_key(dpre.proj()[li].attrs, key) == Some(j as int));
                assert(spec_link_target(&dpre.nodes@[li].attributes@[j as int].value) == Some(
                    self,
                ));
                // the back-reference list of this node loses one entry
                assert(doc.proj()[n].linked == doc.nodes@[n].linked_nodes@);
                assert(dpre.proj()[n].linked == dpre.nodes@[n].linked_nodes@);
                lemma_find_node_props(dpre.nodes@[n].linked_nodes@, handle(li));
                match find_node(dpre.nodes@[n].linked_nodes@, handle(li)) {
                    Some(m) => {
                        assert(doc.nodes@[n].linked_nodes@ == dpre.nodes@[n].linked_nodes@.remove(
                            m,
                        ));
                    },
                    None => {
                        lemma_occ_zero(dpre.nodes@[n].linked_nodes@, handle(li));
                        assert(occ_count(dpre.nodes@[n].linked_nodes@, l) >= 1);
                        assert(false);
                    },
                }
                assert(doc.nodes@[n].attributes@ == dpre.nodes@[n].attributes@);
                assert forall|x: int, b: int|
                    0 <= x < doc.n_nodes() && 0 <= b < doc.n_nodes() && b != n implies link_count(
                    doc.nodes@[x].attributes@,
                    handle(b),
                ) == link_count(d0.nodes@[x].attributes@, handle(b)) by {
                    assert(link_count(dpre.nodes@[x].attributes@, handle(b)) == link_count(
                        d0.nodes@[x].attributes@,
                        handle(b),
                    ));
                    assert(doc.proj()[x].attrs == doc.nodes@[x].attributes@);
                    assert(dpre.proj()[x].attrs == dpre.nodes@[x].attributes@);
                    if x == li {
                        assert(doc.nodes@[x].attributes@ == dpre.nodes@[x].attributes@.remove(
                            j as int,
                        ));
                        lemma_lc_remove(dpre.nodes@[x].attributes@, j as int, handle(b));
                        lemma_handle_inj(*doc, b, n);
                    } else {
                        assert(doc.nodes@[x].attributes@ == dpre.nodes@[x].attributes@);
                    }
                }
                assert forall|x: int|
                    0 <= x < doc.n_nodes() && x != n implies (
                #[trigger] doc.nodes@[x]).linked_nodes@ == d0.nodes@[x].linked_nodes@ by {
                    assert(doc.proj()[x].linked == doc.nodes@[x].linked_nodes@);
                    assert(dpre.proj()[x].linked == dpre.nodes@[x].linked_nodes@);
                }
                assert forall|b: int| 0 <= b < doc.n_nodes() implies link_count(
                    doc.rec(self).attributes@,
                    #[trigger] handle(b),
                ) == 0 by {
                    assert(link_count(dpre.nodes@[n].attributes@, handle(b)) == 0);
                }
                assert forall|x: int|
                    0 <= x < doc.n_nodes() && link_count(
                        d0.nodes@[x].attributes@,
                        handle(n),
                    ) == 0 implies (#[trigger] doc.nodes@[x]).attributes@
                    == d0.nodes@[x].attributes@ by {
                    assert(x != li);
                    assert(doc.proj()[x].attrs == doc.nodes@[x].attributes@);
                    assert(dpre.proj()[x].attrs == dpre.nodes@[x].attributes@);
                    assert(doc.nodes@[x].attributes@ == dpre.nodes@[x].attributes@);
                }
            }
        }
    }
}

impl Document {
    /// Removes a node (and its subtree) from the tree: severs its tree
    /// links, removes every link attribute held by nodes of the subtree, and
    /// removes every link attribute of other nodes that points into the
    /// subtree.  Returns the handles of the subtree's nodes; their records
    /// stay in the arena but are detached and unlinked.
    #[verifier::loop_isolation(false)]
    pub fn remove_node(&mut self, n: Node) -> (removed: Vec<Node>)
        requires
            old(self).wf(),
            old(self).spec_valid(n),
            n.spec_idx() != 0,
        ensures
            final(self).wf(),
            final(self).nodes@.len() == old(self).nodes@.len(),
            forall|i: int|
                0 <= i < old(self).nodes@.len() ==> {
                    let r1 = #[trigger] old(self).nodes@[i];
                    let r2 = final(self).nodes@[i];
                    r2.node_type == r1.node_type && r2.tag_name == r1.tag_name && r2.id == r1.id
                        && r2.text == r1.text
                },
            final(self).rec(n).parent is None,
            removed@.len() >= 1,
            removed@[0] == n,
            forall|k: int| 0 <= k < removed@.len() ==> final(self).spec_valid(#[trigger] removed@[k]),
            // no node of the subtree holds a link attribute any more
            forall|k: int, b: int|
                #![trigger link_count(final(self).rec(removed@[k]).attributes@, handle(b))]
                0 <= k < removed@.len() && 0 <= b < final(self).n_nodes() ==> link_count(
                    final(self).rec(removed@[k]).attributes@,
                    handle(b),
                ) == 0,
            // nothing links to a node of the subtree any more
            forall|k: int| 0 <= k < removed@.len() ==> final(self).rec(
                #[trigger] removed@[k],
            ).linked_nodes@.len() == 0,
            forall|x: int, k: int|
                #![trigger occ_count(final(self).nodes@[x].linked_nodes@, removed@[k])]
                0 <= x < final(self).n_nodes() && 0 <= k < removed@.len() ==> occ_count(
                    final(self).nodes@[x].linked_nodes@,
                    removed@[k],
                ) == 0,
            // outside the subtree, link counts are untouched
            forall|x: int, y: int|
                #![trigger link_count(final(self).nodes@[x].attributes@, handle(y))]
                0 <= x < final(self).n_nodes() && 0 <= y < final(self).n_nodes()
                    && !removed@.contains(handle(x)) && !removed@.contains(handle(y))
                    ==> link_count(final(self).nodes@[x].attributes@, handle(y)) == link_count(
                    old(self).nodes@[x].attributes@,
                    handle(y),
                ),
            // back-reference lists lose only entries of removed nodes
            forall|x: int, y: int|
                #![trigger occ_count(final(self).nodes@[x].linked_nodes@, handle(y))]
                0 <= x < final(self).n_nodes() && 0 <= y < final(self).n_nodes()
                    && !removed@.contains(handle(x)) && !removed@.contains(handle(y))
                    ==> occ_count(final(self).nodes@[x].linked_nodes@, handle(y)) == occ_count(
                    old(self).nodes@[x].linked_nodes@,
                    handle(y),
                ),
            // a node with no link into the subtree keeps its attributes
            forall|x: int|
                0 <= x < final(self).n_nodes() && !removed@.contains(handle(x)) && (forall|m: int|
                    0 <= m < removed@.len() ==> link_count(
                        old(self).nodes@[x].attributes@,
                        #[trigger] removed@[m],
                    ) == 0) ==> (#[trigger] final(self).nodes@[x]).attributes@ == old(
                    self,
                ).nodes@[x].attributes@,
    {
        let removed = n.descendants(self);
        n.detach(self);
        let ghost dd = *self;
        let mut k: usize = 0;
        while k < removed.len()
            invariant
                self.wf(),
                dd.same_shape(*self),
                self.rec(n).parent is None,
                k <= removed@.len(),
                forall|m: int, b: int|
                    #![trigger link_count(self.rec(removed@[m]).attributes@, handle(b))]
                    0 <= m < k && 0 <= b < self.n_nodes() ==> link_count(
                        self.rec(removed@[m]).attributes@,
                        handle(b),
                    ) == 0,
                forall|m: int| 0 <= m < k ==> self.rec(#[trigger] removed@[m]).linked_nodes@.len()
                    == 0,
                forall|x: int, y: int|
                    #![trigger link_count(self.nodes@[x].attributes@, handle(y))]
                    0 <= x < self.n_nodes() && 0 <= y < self.n_nodes() && !removed@.subrange(
                        0,
                        k as int,
                    ).contains(handle(x)) && !removed@.subrange(0, k as int).contains(handle(y))
                        ==> link_count(self.nodes@[x].attributes@, handle(y)) == link_count(
                        dd.nodes@[x].attributes@,
                        handle(y),
                    ),
                forall|x: int, y: int|
                    #![trigger occ_count(self.nodes@[x].linked_nodes@, handle(y))]
                    0 <= x < self.n_nodes() && 0 <= y < self.n_nodes() && !removed@.subrange(
                        0,
                        k as int,
                    ).contains(handle(x)) && !removed@.subrange(0, k as int).contains(handle(y))
                        ==> occ_count(self.nodes@[x].linked_nodes@, handle(y)) == occ_count(
                        dd.nodes@[x].linked_nodes@,
                        handle(y),
                    ),
                forall|x: int|
                    0 <= x < self.n_nodes() && !removed@.contains(handle(x)) && (forall|m: int|
                        0 <= m < removed@.len() ==> link_count(
                            dd.nodes@[x].attributes@,
                            #[trigger] removed@[m],
                        ) == 0) ==> (#[trigger] self.nodes@[x]).attributes@
                        == dd.nodes@[x].attributes@,
            decreases removed@.len() - k,
        {
            let ghost dpre = *self;
            let d = removed[k];
            d.strip_out_links(self);
            let ghost dmid = *self;
            d.strip_in_links(self);
            proof {
                let di = d.spec_idx();
                assert forall|m: int, b: int|
                    0 <= m < k + 1 && 0 <= b < self.n_nodes() implies link_count(
                    self.rec(removed@[m]).attributes@,
                    handle(b),
                ) == 0 by {
                    let r = removed@[m];
                    let ri = r.spec_idx();
                    if m < k {
                        if b != di {
                            // counts to other targets were preserved twice
                            if ri != di {
                                assert(dmid.nodes@[ri].attributes@
                                    == dpre.nodes@[ri].attributes@);
                            } else {
                                assert(link_count(dmid.rec(d).attributes@, handle(b)) == 0);
                            }
                            assert(link_count(self.nodes@[ri].attributes@, handle(b))
                                == link_count(dmid.nodes@[ri].attributes@, handle(b)));
                        } else {
                            // this node's list was drained, so the invariant
                            // forces a zero count
                            assert(occ_count(self.nodes@[di].linked_nodes@, handle(ri))
                                == link_count(self.nodes@[ri].attributes@, handle(di)));
                            assert(self.nodes@[di].linked_nodes@.len() == 0);
                            assert(handle(di) == d);
                        }
                    } else {
                        assert(r == d);
                        if b != di {
                            assert(link_count(self.nodes@[di].attributes@, handle(b))
                                == link_count(dmid.nodes@[di].attributes@, handle(b)));
                            assert(link_count(dmid.rec(d).attributes@, handle(b)) == 0);
                        } else {
                            assert(occ_count(self.nodes@[di].linked_nodes@, handle(di))
                                == link_count(self.nodes@[di].attributes@, handle(di)));
                            assert(self.nodes@[di].linked_nodes@.len() == 0);
                        }
                    }
                }
                assert forall|m: int| 0 <= m < k + 1 implies self.rec(
                    #[trigger] removed@[m],
                ).linked_nodes@.len() == 0 by {
                    let r = removed@[m];
                    let ri = r.spec_idx();
                    if m < k && ri != di {
                        assert(self.nodes@[ri].linked_nodes@ == dmid.nodes@[ri].linked_nodes@);
                        assert(dmid.nodes@[ri].linked_nodes@.len()
                            <= dpre.nodes@[ri].linked_nodes@.len());
                    }
                }
                // frame clauses for pairs outside the prefix stripped so far
                assert forall|x: int, y: int|
                    0 <= x < self.n_nodes() && 0 <= y < self.n_nodes() && !removed@.subrange(
                        0,
                        k + 1,
                    ).contains(handle(x)) && !removed@.subrange(0, k + 1).contains(handle(y))
                        implies link_count(self.nodes@[x].attributes@, handle(y)) == link_count(
                    dd.nodes@[x].attributes@,
                    handle(y),
                ) by {
                    assert(removed@.subrange(0, k + 1)[k as int] == d);
                    assert(handle(x) != d && handle(y) != d);
                    assert(x != di && y != di);
                    assert forall|m: int| 0 <= m < k implies removed@.subrange(0, k as int)[m]
                        == removed@.subrange(0, k + 1)[m] by {}
                    assert(!removed@.subrange(0, k as int).contains(handle(x)));
                    assert(!removed@.subrange(0, k as int).contains(handle(y)));
                    assert(dmid.nodes@[x].attributes@ == dpre.nodes@[x].attributes@);
                    assert(link_count(self.nodes@[x].attributes@, handle(y)) == link_count(
                        dmid.nodes@[x].attributes@,
                        handle(y),
                    ));
                }
                assert forall|x: int, y: int|
                    0 <= x < self.n_nodes() && 0 <= y < self.n_nodes() && !removed@.subrange(
                        0,
                        k + 1,
                    ).contains(handle(x)) && !removed@.subrange(0, k + 1).contains(handle(y))
                        implies occ_count(self.nodes@[x].linked_nodes@, handle(y)) == occ_count(
                    dd.nodes@[x].linked_nodes@,
                    handle(y),
                ) by {
                    assert(removed@.subrange(0, k + 1)[k as int] == d);
                    assert(handle(x) != d && handle(y) != d);
                    assert(x != di && y != di);
                    assert forall|m: int| 0 <= m < k implies removed@.subrange(0, k as int)[m]
                        == removed@.subrange(0, k + 1)[m] by {}
                    assert(!removed@.subrange(0, k as int).contains(handle(x)));
                    assert(!removed@.subrange(0, k as int).contains(handle(y)));
                    assert(occ_count(dmid.nodes@[x].linked_nodes@, handle(y)) == occ_count(
                        dpre.nodes@[x].linked_nodes@,
                        handle(y),
                    ));
                    assert(self.nodes@[x].linked_nodes@ == dmid.nodes@[x].linked_nodes@);
                }
                assert forall|x: int|
                    0 <= x < self.n_nodes() && !removed@.contains(handle(x)) && (forall|m: int|
                        0 <= m < removed@.len() ==> link_count(
                            dd.nodes@[x].attributes@,
                            #[trigger] removed@[m],
                        ) == 0) implies (#[trigger] self.nodes@[x]).attributes@
                    == dd.nodes@[x].attributes@ by {
                    assert(removed@[k as int] == d);
                    assert(handle(x) != d);
                    assert(x != di);
                    assert(dmid.nodes@[x].attributes@ == dpre.nodes@[x].attributes@);
                    assert(link_count(dd.nodes@[x].attributes@, d) == 0);
                    assert(handle(di) == d);
                    assert(link_count(dmid.nodes@[x].attributes@, handle(di)) == 0);
                }
            }
            k += 1;
        }
        proof {
            assert(removed@.subrange(0, removed@.len() as int) =~= removed@);
            assert forall|x: int, k2: int|
                0 <= x < self.n_nodes() && 0 <= k2 < removed@.len() implies occ_count(
                self.nodes@[x].linked_nodes@,
                removed@[k2],
            ) == 0 by {
                let r = removed@[k2];
                assert(handle(r.spec_idx()) == r);
                assert(occ_count(self.nodes@[x].linked_nodes@, handle(r.spec_idx())) == link_count(
                    self.nodes@[r.spec_idx()].attributes@,
                    handle(x),
                ));
                assert(link_count(self.rec(r).attributes@, handle(x)) == 0);
            }
        }
        removed
    }
}

} // verus!
