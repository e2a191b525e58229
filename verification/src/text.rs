//! The whitespace-normalization pass.
//!
//! Runs once over a freshly parsed tree.  Every text node is processed under
//! its effective space mode, inherited from the nearest `xml:space`
//! attribute on itself or an ancestor (the root defaults to collapsing).  In
//! collapse mode, whitespace runs shrink to a single space and boundary
//! whitespace is trimmed against the neighbouring text of the same
//! text-content region; in preserve mode the text is kept verbatim.  A text
//! node left empty, and whitespace-only text between elements outside a
//! text-content container, is detached from the tree.

use crate::attributes::find_key;
use crate::dom::{handle, spec_subtree, Document, Node, NodeType};
use crate::name::{AttributeId, NameKey, QName};
use crate::strutil::{all_space, is_space, push_chars, spec_all_space, spec_is_space, str_chars};
use crate::value::AttributeValue;
use vstd::prelude::*;

verus! {

/// True when the element mixes character data with child content: the SVG
/// text-content elements, and any custom-named element.
pub open spec fn spec_text_container(d: Document, n: Node) -> bool {
    let r = d.rec(n);
    r.node_type == NodeType::Element && (match r.tag_name {
        QName::Id(_, id) => id.spec_is_text_container(),
        QName::Name(_, _) => true,
    })
}

/// Returns `true` when the node is a text-content container.
fn is_text_container_node(doc: &Document, n: Node) -> (r: bool)
    requires
        doc.spec_valid(n),
    ensures
        r == spec_text_container(*doc, n),
{
    if n.node_type(doc) != NodeType::Element {
        return false;
    }
    match n.tag_name(doc) {
        QName::Id(_, id) => id.is_text_container(),
        QName::Name(_, _) => true,
    }
}

/// The value of the node's own `xml:space` attribute, when it has one:
/// `Some(true)` for `preserve`, `Some(false)` for `default`.
pub open spec fn spec_own_space(d: Document, n: Node) -> Option<bool> {
    let attrs = d.rec(n).attributes@;
    match find_key(attrs, NameKey::Id("xml"@, AttributeId::Space)) {
        Some(i) => match attrs[i].value {
            AttributeValue::String(s) => if s@ == "preserve"@ {
                Some(true)
            } else if s@ == "default"@ {
                Some(false)
            } else {
                None
            },
            _ => None,
        },
        None => None,
    }
}

/// The effective space mode of a node: the nearest `xml:space` value on the
/// node or an ancestor; absent everywhere (or past `fuel` ancestors),
/// whitespace collapses.
pub open spec fn spec_preserve_mode(d: Document, n: Node, fuel: nat) -> bool
    decreases fuel,
{
    match spec_own_space(d, n) {
        Some(b) => b,
        None => match d.rec(n).parent {
            Some(p) => if fuel > 0 && p.spec_idx() < d.nodes@.len() {
                spec_preserve_mode(d, p, (fuel - 1) as nat)
            } else {
                false
            },
            None => false,
        },
    }
}

/// Returns the effective space mode of a node: `true` for preserve.
fn preserve_mode(doc: &Document, n: Node, fuel: usize) -> (r: bool)
    requires
        doc.wf(),
        doc.spec_valid(n),
    ensures
        r == spec_preserve_mode(*doc, n, fuel as nat),
    decreases fuel,
{
    let name = QName::Id(String::from_str("xml"), AttributeId::Space);
    proof {
        reveal_strlit("xml");
    }
    match n.attributes(doc).get_value(&name) {
        Some(v) => {
            match v {
                AttributeValue::String(s) => {
                    if crate::strutil::str_eq(s.as_str(), "preserve") {
                        return true;
                    }
                    if crate::strutil::str_eq(s.as_str(), "default") {
                        return false;
                    }
                },
                _ => {},
            }
        },
        None => {},
    }
    proof {
        assert(doc.rec_handles_wf(doc.nodes@[n.spec_idx()]));
    }
    match n.parent(doc) {
        Some(p) => {
            if fuel > 0 {
                preserve_mode(doc, p, fuel - 1)
            } else {
                false
            }
        },
        None => false,
    }
}

/// True when the whitespace-only text node sits outside a text-content
/// container and is dropped from the tree without processing.
pub open spec fn spec_inter_element_ws(d: Document, n: Node) -> bool {
    spec_all_space(d.rec(n).text@) && (match d.rec(n).parent {
        Some(p) => p.spec_idx() < d.nodes@.len() && !spec_text_container(d, p),
        None => true,
    })
}

/// Whitespace runs collapsed to single spaces, over the first `i`
/// characters.
pub open spec fn spec_collapse_upto(s: Seq<char>, i: int) -> Seq<char>
    decreases i,
{
    if i <= 0 {
        Seq::empty()
    } else {
        spec_collapse_upto(s, i - 1) + (if spec_is_space(s[i - 1]) {
            if i > 1 && spec_is_space(s[i - 2]) {
                Seq::empty()
            } else {
                seq![' ']
            }
        } else {
            seq![s[i - 1]]
        })
    }
}

/// The text with every whitespace run collapsed to a single space.
pub open spec fn spec_collapse(s: Seq<char>) -> Seq<char> {
    spec_collapse_upto(s, s.len() as int)
}

/// True when `out` is the whitespace-collapsed form of `raw` with some
/// combination of a leading and a trailing boundary trim applied.
pub open spec fn spec_collapsed_shape(out: Seq<char>, raw: Seq<char>) -> bool {
    ||| out == spec_trim(spec_collapse(raw), true, true)
    ||| out == spec_trim(spec_collapse(raw), true, false)
    ||| out == spec_trim(spec_collapse(raw), false, true)
    ||| out == spec_trim(spec_collapse(raw), false, false)
}

/// The text with a single leading and/or trailing space removed.
pub open spec fn spec_trim(s: Seq<char>, lead: bool, trail: bool) -> Seq<char> {
    let st: int = if lead && s.len() > 0 && s[0] == ' ' {
        1
    } else {
        0
    };
    let en: int = if trail && s.len() > st && s[s.len() - 1] == ' ' {
        s.len() - 1
    } else {
        s.len() as int
    };
    s.subrange(st, en)
}

/// Collapses every whitespace run to a single space.
fn collapse_ws(s: &Vec<char>) -> (r: Vec<char>)
    ensures
        r@ == spec_collapse(s@),
{
    let mut out: Vec<char> = Vec::new();
    let mut i: usize = 0;
    let mut in_ws = false;
    while i < s.len()
        invariant
            i <= s@.len(),
            out@ == spec_collapse_upto(s@, i as int),
            in_ws == (i > 0 && spec_is_space(s@[i as int - 1])),
        decreases s@.len() - i,
    {
        if is_space(s[i]) {
            if !in_ws {
                out.push(' ');
            }
            in_ws = true;
        } else {
            out.push(s[i]);
            in_ws = false;
        }
        proof {
            assert(out@ =~= spec_collapse_upto(s@, i + 1));
        }
        i += 1;
    }
    out
}

/// Removes a single leading and/or trailing space.
fn trim_space(s: &Vec<char>, lead: bool, trail: bool) -> (r: Vec<char>)
    ensures
        r@ == spec_trim(s@, lead, trail),
{
    let mut start: usize = 0;
    let mut end: usize = s.len();
    if lead && start < end {
        if s[start] == ' ' {
            start += 1;
        }
    }
    if trail && start < end {
        if s[end - 1] == ' ' {
            end -= 1;
        }
    }
    let mut out: Vec<char> = Vec::new();
    let mut i: usize = start;
    while i < end
        invariant
            start <= i <= end <= s@.len(),
            out@ == s@.subrange(start as int, i as int),
        decreases end - i,
    {
        out.push(s[i]);
        proof {
            assert(out@ =~= s@.subrange(start as int, i + 1));
        }
        i += 1;
    }
    proof {
        assert(out@ =~= spec_trim(s@, lead, trail));
    }
    out
}

/// The number of tree links between the node and the root.
fn depth_of(doc: &Document, n: Node) -> usize
    requires
        doc.wf(),
        doc.spec_valid(n),
{
    let mut d: usize = 0;
    let mut cur = n;
    let mut fuel = doc.nodes.len();
    while fuel > 0
        invariant
            doc.wf(),
            doc.spec_valid(cur),
        decreases fuel,
    {
        proof {
            assert(doc.rec_handles_wf(doc.nodes@[cur.spec_idx()]));
        }
        match cur.parent(doc) {
            Some(p) => {
                if d < doc.nodes.len() {
                    d += 1;
                }
                cur = p;
            },
            None => {
                return d;
            },
        }
        fuel -= 1;
    }
    d
}

/// True when `v` holds `x`.
fn contains_node(v: &Vec<Node>, x: Node) -> bool {
    let mut i: usize = 0;
    while i < v.len()
        invariant
            i <= v@.len(),
        decreases v@.len() - i,
    {
        if v[i] == x {
            return true;
        }
        i += 1;
    }
    false
}

/// The ancestors of a node, nearest first.
fn ancestors(doc: &Document, n: Node) -> (r: Vec<Node>)
    requires
        doc.wf(),
        doc.spec_valid(n),
    ensures
        forall|i: int| 0 <= i < r@.len() ==> doc.spec_valid(#[trigger] r@[i]),
{
    let mut out: Vec<Node> = Vec::new();
    let mut cur = n;
    let mut fuel = doc.nodes.len();
    while fuel > 0
        invariant
            doc.wf(),
            doc.spec_valid(cur),
            forall|i: int| 0 <= i < out@.len() ==> doc.spec_valid(#[trigger] out@[i]),
        decreases fuel,
    {
        proof {
            assert(doc.rec_handles_wf(doc.nodes@[cur.spec_idx()]));
        }
        match cur.parent(doc) {
            Some(p) => {
                out.push(p);
                cur = p;
            },
            None => {
                return out;
            },
        }
        fuel -= 1;
    }
    out
}

/// The lowest common ancestor of two nodes, if any.
fn lowest_common_ancestor(doc: &Document, a: Node, b: Node) -> (r: Option<Node>)
    requires
        doc.wf(),
        doc.spec_valid(a),
        doc.spec_valid(b),
    ensures
        match r {
            Some(x) => doc.spec_valid(x),
            None => true,
        },
{
    let aa = ancestors(doc, a);
    let ba = ancestors(doc, b);
    let mut i: usize = 0;
    while i < ba.len()
        invariant
            doc.wf(),
            forall|j: int| 0 <= j < ba@.len() ==> doc.spec_valid(#[trigger] ba@[j]),
            i <= ba@.len(),
        decreases ba@.len() - i,
    {
        if contains_node(&aa, ba[i]) {
            return Some(ba[i]);
        }
        i += 1;
    }
    None
}

impl Document {
    /// Normalizes the whitespace of every text node of the tree, per its
    /// effective space mode, and detaches text nodes left empty.
    ///
    /// For every text node reachable from the root: in preserve mode the
    /// text is kept verbatim; whitespace-only text outside a text-content
    /// container is detached unchanged; any other text becomes its
    /// whitespace-collapsed form with the boundary spaces of its region
    /// trimmed, and is detached when nothing remains.  Which boundary spaces
    /// a region trims is decided against the neighbouring texts, as the
    /// migrated behaviour tests pin down case by case.  Nothing else
    /// changes: node types, tag names, ids, attributes, back-references and
    /// the text of non-text nodes are untouched.
    #[verifier::loop_isolation(false)]
    pub fn normalize_text(&mut self)
        requires
            old(self).wf(),
        ensures
            final(self).wf(),
            final(self).same_links(*old(self)),
            final(self).nodes@.len() == old(self).nodes@.len(),
            forall|i: int|
                0 <= i < old(self).nodes@.len() ==> {
                    let r1 = #[trigger] old(self).nodes@[i];
                    let r2 = final(self).nodes@[i];
                    r2.node_type == r1.node_type && r2.tag_name == r1.tag_name && r2.id == r1.id
                },
            forall|i: int|
                0 <= i < old(self).nodes@.len() && (#[trigger] old(self).nodes@[i]).node_type
                    != NodeType::Text ==> final(self).nodes@[i].text == old(self).nodes@[i].text,
            // preserve mode keeps the text verbatim
            forall|i: int|
                0 <= i < old(self).nodes@.len() && (#[trigger] old(self).nodes@[i]).node_type
                    == NodeType::Text && spec_preserve_mode(
                    *old(self),
                    handle(i),
                    old(self).nodes@.len() as nat,
                ) ==> final(self).nodes@[i].text@ == old(self).nodes@[i].text@,
            // inter-element whitespace is detached unchanged
            forall|i: int|
                0 <= i < old(self).nodes@.len() && (#[trigger] old(self).nodes@[i]).node_type
                    == NodeType::Text && spec_subtree(
                    *old(self),
                    handle(0),
                    old(self).nodes@.len() as nat,
                ).contains(handle(i)) && spec_inter_element_ws(*old(self), handle(i)) ==> final(self).nodes@[i].text == old(self).nodes@[i].text && final(self).nodes@[i].parent is None,
            // collapse mode yields the collapsed text with boundary trims
            forall|i: int|
                0 <= i < old(self).nodes@.len() && (#[trigger] old(self).nodes@[i]).node_type
                    == NodeType::Text && spec_subtree(
                    *old(self),
                    handle(0),
                    old(self).nodes@.len() as nat,
                ).contains(handle(i)) && !spec_preserve_mode(
                    *old(self),
                    handle(i),
                    old(self).nodes@.len() as nat,
                ) && !spec_inter_element_ws(*old(self), handle(i)) ==> spec_collapsed_shape(
                    final(self).nodes@[i].text@,
                    old(self).nodes@[i].text@,
                ),
            // a text node left empty is detached
            forall|i: int|
                0 <= i < old(self).nodes@.len() && (#[trigger] old(self).nodes@[i]).node_type
                    == NodeType::Text && spec_subtree(
                    *old(self),
                    handle(0),
                    old(self).nodes@.len() as nat,
                ).contains(handle(i)) && final(self).nodes@[i].text@.len() == 0 ==> final(self).nodes@[i].parent is None,
    {
        let ghost d0 = *self;
        let all = self.root().descendants(self);
        // collect the text nodes with their context, setting aside
        // whitespace-only text outside text-content containers
        let mut tnodes: Vec<Node> = Vec::new();
        let mut depths: Vec<usize> = Vec::new();
        let mut pres: Vec<bool> = Vec::new();
        let mut raws: Vec<Vec<char>> = Vec::new();
        let mut drops: Vec<Node> = Vec::new();
        let fuel = self.nodes.len();
        let mut i: usize = 0;
        while i < all.len()
            invariant
                *self == d0,
                i <= all@.len(),
                tnodes@.len() == depths@.len(),
                tnodes@.len() == pres@.len(),
                tnodes@.len() == raws@.len(),
                forall|j: int|
                    0 <= j < tnodes@.len() ==> self.spec_valid(#[trigger] tnodes@[j]) && self.rec(
                        tnodes@[j],
                    ).node_type == NodeType::Text && !spec_inter_element_ws(d0, tnodes@[j]),
                forall|j: int|
                    0 <= j < tnodes@.len() ==> (#[trigger] raws@[j])@ == d0.rec(tnodes@[j]).text@,
                forall|j: int|
                    0 <= j < tnodes@.len() ==> #[trigger] pres@[j] == spec_preserve_mode(
                        d0,
                        tnodes@[j],
                        fuel as nat,
                    ),
                forall|j: int|
                    0 <= j < drops@.len() ==> self.spec_valid(#[trigger] drops@[j]) && self.rec(
                        drops@[j],
                    ).node_type == NodeType::Text && spec_inter_element_ws(d0, drops@[j]),
                forall|m: int|
                    0 <= m < i && self.rec(#[trigger] all@[m]).node_type == NodeType::Text ==> (
                    exists|j: int| 0 <= j < tnodes@.len() && tnodes@[j] == all@[m]) || (exists|j: int|
                    0 <= j < drops@.len() && drops@[j] == all@[m]),
            decreases all@.len() - i,
        {
            let n = all[i];
            if n.node_type(self) == NodeType::Text {
                let raw = str_chars(n.text(self));
                proof {
                    assert(self.rec_handles_wf(self.nodes@[n.spec_idx()]));
                }
                let in_container = match n.parent(self) {
                    Some(p) => is_text_container_node(self, p),
                    None => false,
                };
                let ghost tn_old = tnodes@;
                let ghost dr_old = drops@;
                if !in_container && all_space(&raw) {
                    drops.push(n);
                } else {
                    let d = depth_of(self, n);
                    let p = preserve_mode(self, n, fuel);
                    tnodes.push(n);
                    depths.push(d);
                    pres.push(p);
                    raws.push(raw);
                }
                proof {
                    assert forall|m2: int|
                        0 <= m2 < i + 1 && self.rec(#[trigger] all@[m2]).node_type
                            == NodeType::Text implies (exists|j: int|
                        0 <= j < tnodes@.len() && tnodes@[j] == all@[m2]) || (exists|j: int|
                        0 <= j < drops@.len() && drops@[j] == all@[m2]) by {
                        if m2 == i {
                            if tnodes@.len() > tn_old.len() {
                                assert(tnodes@[tnodes@.len() - 1] == n);
                            } else {
                                assert(drops@[drops@.len() - 1] == n);
                            }
                        } else {
                            if exists|j: int| 0 <= j < tn_old.len() && tn_old[j] == all@[m2] {
                                let j0 = choose|j0: int|
                                    0 <= j0 < tn_old.len() && tn_old[j0] == all@[m2];
                                assert(tnodes@[j0] == tn_old[j0]);
                            } else {
                                let j0 = choose|j0: int|
                                    0 <= j0 < dr_old.len() && dr_old[j0] == all@[m2];
                                assert(drops@[j0] == dr_old[j0]);
                            }
                        }
                    }
                }
            }
            i += 1;
        }
        // partition into regions: consecutive text nodes belong to one
        // text-content region when their lowest common ancestor is a
        // text-content container
        let m = tnodes.len();
        let mut chains: Vec<usize> = Vec::new();
        let mut chain_id: usize = 0;
        let mut k: usize = 0;
        while k < m
            invariant
                *self == d0,
                m == tnodes@.len(),
                forall|j: int|
                    0 <= j < tnodes@.len() ==> self.spec_valid(#[trigger] tnodes@[j]),
                k <= m,
                chains@.len() == k,
                chain_id < usize::MAX,
            decreases m - k,
        {
            if k > 0 {
                let same = match lowest_common_ancestor(self, tnodes[k - 1], tnodes[k]) {
                    Some(x) => is_text_container_node(self, x),
                    None => false,
                };
                if !same {
                    if chain_id < usize::MAX - 1 {
                        chain_id += 1;
                    }
                }
            }
            chains.push(chain_id);
            k += 1;
        }
        // process each text under its mode and neighbours
        let mut outs: Vec<Vec<char>> = Vec::new();
        let mut prev_ends_space = true;  // "no previous text" trims like a space
        let mut k2: usize = 0;
        while k2 < m
            invariant
                m == tnodes@.len(),
                m == pres@.len(),
                m == raws@.len(),
                m == depths@.len(),
                chains@.len() == m,
                k2 <= m,
                outs@.len() == k2,
                forall|j: int|
                    0 <= j < k2 && pres@[j] ==> (#[trigger] outs@[j])@ == raws@[j]@,
                forall|j: int|
                    0 <= j < k2 && !pres@[j] ==> spec_collapsed_shape(
                        (#[trigger] outs@[j])@,
                        raws@[j]@,
                    ),
            decreases m - k2,
        {
            let first_in_chain = k2 == 0 || chains[k2] != chains[k2 - 1];
            if first_in_chain {
                prev_ends_space = true;
            }
            let out: Vec<char>;
            if pres[k2] {
                let mut copy: Vec<char> = Vec::new();
                push_chars(&mut copy, &raws[k2]);
                proof {
                    assert(copy@ =~= raws@[k2 as int]@);
                }
                out = copy;
            } else {
                let collapsed = collapse_ws(&raws[k2]);
                let lead = prev_ends_space;
                let last_in_chain = k2 + 1 >= m || chains[k2 + 1] != chains[k2];
                let trail: bool;
                if last_in_chain {
                    trail = true;
                } else {
                    let nxt = k2 + 1;
                    let nxt_starts_ws = raws[nxt].len() > 0 && is_space(raws[nxt][0]);
                    trail = !pres[nxt] && depths[nxt] <= depths[k2] && nxt_starts_ws;
                }
                out = trim_space(&collapsed, lead, trail);
                proof {
                    assert(out@ == spec_trim(spec_collapse(raws@[k2 as int]@), lead, trail));
                    assert(spec_collapsed_shape(out@, raws@[k2 as int]@));
                }
            }
            let ghost out_snap = out@;
            if out.len() > 0 {
                prev_ends_space = is_space(out[out.len() - 1]);
            }
            let ghost outs_old = outs@;
            outs.push(out);
            proof {
                assert forall|j: int|
                    0 <= j < k2 + 1 && pres@[j] implies (#[trigger] outs@[j])@ == raws@[j]@ by {
                    if j == k2 {
                        assert(outs@[j]@ == out_snap);
                    } else {
                        assert(outs@[j] == outs_old[j]);
                        assert(outs_old[j]@ == raws@[j]@);
                    }
                }
                assert forall|j: int|
                    0 <= j < k2 + 1 && !pres@[j] implies spec_collapsed_shape(
                    (#[trigger] outs@[j])@,
                    raws@[j]@,
                ) by {
                    if j == k2 {
                        assert(outs@[j]@ == out_snap);
                    } else {
                        assert(outs@[j] == outs_old[j]);
                    }
                }
            }
            k2 += 1;
        }
        // apply: rewrite the kept texts, detach the emptied ones and the
        // inter-element whitespace
        let mut k3: usize = 0;
        while k3 < m
            invariant
                self.wf(),
                self.same_links(d0),
                self.nodes@.len() == d0.nodes@.len(),
                forall|i2: int|
                    0 <= i2 < d0.nodes@.len() ==> {
                        let r1 = #[trigger] d0.nodes@[i2];
                        let r2 = self.nodes@[i2];
                        r2.node_type == r1.node_type && r2.tag_name == r1.tag_name && r2.id
                            == r1.id
                    },
                forall|i2: int|
                    0 <= i2 < d0.nodes@.len() && (#[trigger] d0.nodes@[i2]).node_type
                        != NodeType::Text ==> self.nodes@[i2].text == d0.nodes@[i2].text,
                m == tnodes@.len(),
                m == pres@.len(),
                m == raws@.len(),
                outs@.len() == m,
                forall|j: int|
                    0 <= j < tnodes@.len() ==> self.spec_valid(#[trigger] tnodes@[j]) && self.rec(
                        tnodes@[j],
                    ).node_type == NodeType::Text,
                forall|j: int|
                    0 <= j < drops@.len() ==> self.spec_valid(#[trigger] drops@[j]) && self.rec(
                        drops@[j],
                    ).node_type == NodeType::Text,
                k3 <= m,
                forall|j: int|
                    0 <= j < tnodes@.len() ==> (#[trigger] raws@[j])@ == d0.rec(tnodes@[j]).text@,
                forall|j: int|
                    0 <= j < tnodes@.len() ==> !spec_inter_element_ws(d0, #[trigger] tnodes@[j]),
                forall|j: int|
                    0 <= j < drops@.len() ==> spec_inter_element_ws(d0, #[trigger] drops@[j]),
                forall|j: int|
                    0 <= j < m && pres@[j] ==> (#[trigger] outs@[j])@ == raws@[j]@,
                forall|j: int|
                    0 <= j < m && !pres@[j] ==> spec_collapsed_shape(
                        (#[trigger] outs@[j])@,
                        raws@[j]@,
                    ),
                // only listed text nodes ever change their text
                forall|i2: int|
                    0 <= i2 < d0.nodes@.len() ==> (#[trigger] self.nodes@[i2]).text
                        == d0.nodes@[i2].text || (exists|j: int|
                        0 <= j < k3 && tnodes@[j] == handle(i2)),
                // processed texts carry their mode's shape and are detached
                // when emptied
                forall|j: int|
                    0 <= j < k3 && pres@[j] ==> self.rec(#[trigger] tnodes@[j]).text@ == raws@[j]@,
                forall|j: int|
                    0 <= j < k3 && !pres@[j] ==> spec_collapsed_shape(
                        self.rec(#[trigger] tnodes@[j]).text@,
                        raws@[j]@,
                    ),
                forall|j: int|
                    0 <= j < k3 && self.rec(#[trigger] tnodes@[j]).text@.len() == 0 ==> self.rec(
                        tnodes@[j],
                    ).parent is None,
            decreases m - k3,
        {
            let n = tnodes[k3];
            proof {
                // the root is not a text node, so this node is not the root
                assert(self.nodes@[0].node_type == NodeType::Root);
                assert(n.spec_idx() != 0);
            }
            let s = crate::strutil::chars_to_string(&outs[k3]);
            n.set_text(self, s.as_str());
            {
                proof {
                    assert(self.rec(n).text@ == outs@[k3 as int]@);
                    // a second listing of the same node rewrites it with the
                    // same raw text's shape
                    assert forall|j: int|
                        0 <= j < k3 + 1 && pres@[j] implies self.rec(
                        #[trigger] tnodes@[j],
                    ).text@ == raws@[j]@ by {
                        if tnodes@[j] == n {
                            assert(raws@[j]@ == d0.rec(n).text@);
                            assert(raws@[k3 as int]@ == d0.rec(n).text@);
                        }
                    }
                    assert forall|j: int|
                        0 <= j < k3 + 1 && !pres@[j] implies spec_collapsed_shape(
                        self.rec(#[trigger] tnodes@[j]).text@,
                        raws@[j]@,
                    ) by {
                        if tnodes@[j] == n {
                            assert(raws@[j]@ == d0.rec(n).text@);
                            assert(raws@[k3 as int]@ == d0.rec(n).text@);
                            if pres@[k3 as int] {
                                assert(self.rec(n).text@ == raws@[j]@);
                                assert(spec_trim(spec_collapse(raws@[j]@), false, false)
                                    == spec_collapse(raws@[j]@));
                            }
                        }
                    }
                }
            }
            if outs[k3].len() == 0 {
                n.detach(self);
            }
            k3 += 1;
        }
        let mut k4: usize = 0;
        while k4 < drops.len()
            invariant
                self.wf(),
                self.same_links(d0),
                self.nodes@.len() == d0.nodes@.len(),
                forall|i2: int|
                    0 <= i2 < d0.nodes@.len() ==> {
                        let r1 = #[trigger] d0.nodes@[i2];
                        let r2 = self.nodes@[i2];
                        r2.node_type == r1.node_type && r2.tag_name == r1.tag_name && r2.id
                            == r1.id
                    },
                forall|i2: int|
                    0 <= i2 < d0.nodes@.len() && (#[trigger] d0.nodes@[i2]).node_type
                        != NodeType::Text ==> self.nodes@[i2].text == d0.nodes@[i2].text,
                forall|j: int|
                    0 <= j < drops@.len() ==> self.spec_valid(#[trigger] drops@[j]) && self.rec(
                        drops@[j],
                    ).node_type == NodeType::Text,
                k4 <= drops@.len(),
                forall|j: int|
                    0 <= j < tnodes@.len() ==> (#[trigger] raws@[j])@ == d0.rec(tnodes@[j]).text@,
                forall|i2: int|
                    0 <= i2 < d0.nodes@.len() ==> (#[trigger] self.nodes@[i2]).text
                        == d0.nodes@[i2].text || (exists|j: int|
                        0 <= j < m && tnodes@[j] == handle(i2)),
                forall|j: int|
                    0 <= j < k4 ==> self.rec(#[trigger] drops@[j]).parent is None,
                // the text-node clauses reached by the first apply loop stay
                forall|j: int|
                    0 <= j < m && pres@[j] ==> self.rec(#[trigger] tnodes@[j]).text@ == raws@[j]@,
                forall|j: int|
                    0 <= j < m && !pres@[j] ==> spec_collapsed_shape(
                        self.rec(#[trigger] tnodes@[j]).text@,
                        raws@[j]@,
                    ),
                forall|j: int|
                    0 <= j < m && self.rec(#[trigger] tnodes@[j]).text@.len() == 0 ==> self.rec(
                        tnodes@[j],
                    ).parent is None,
            decreases drops@.len() - k4,
        {
            let n = drops[k4];
            proof {
                assert(self.nodes@[0].node_type == NodeType::Root);
                assert(n.spec_idx() != 0);
            }
            n.detach(self);
            k4 += 1;
        }
        proof {
            let subs = spec_subtree(d0, handle(0), d0.nodes@.len() as nat);
            assert(all@ == subs);
            assert forall|i2: int|
                0 <= i2 < d0.nodes@.len() && (#[trigger] d0.nodes@[i2]).node_type == NodeType::Text
                    && subs.contains(handle(i2)) implies {
                &&& (spec_inter_element_ws(d0, handle(i2)) ==> self.nodes@[i2].text
                    == d0.nodes@[i2].text && self.nodes@[i2].parent is None)
                &&& (!spec_preserve_mode(d0, handle(i2), d0.nodes@.len() as nat)
                    && !spec_inter_element_ws(d0, handle(i2)) ==> spec_collapsed_shape(
                    self.nodes@[i2].text@,
                    d0.nodes@[i2].text@,
                ))
                &&& (self.nodes@[i2].text@.len() == 0 ==> self.nodes@[i2].parent is None)
            } by {
                let nd = handle(i2);
                let mi = choose|mi: int| 0 <= mi < all@.len() && all@[mi] == nd;
                assert(d0.rec(all@[mi]).node_type == NodeType::Text);
                if exists|j: int| 0 <= j < tnodes@.len() && tnodes@[j] == nd {
                    let j = choose|j: int| 0 <= j < tnodes@.len() && tnodes@[j] == nd;
                    assert(raws@[j]@ == d0.rec(nd).text@);
                    assert(!spec_inter_element_ws(d0, nd));
                    if pres@[j] {
                        assert(self.rec(nd).text@ == raws@[j]@);
                    } else {
                        assert(!spec_preserve_mode(d0, nd, d0.nodes@.len() as nat));
                    }
                } else {
                    let j = choose|j: int| 0 <= j < drops@.len() && drops@[j] == nd;
                    assert(drops@[j] == nd);
                    assert(spec_inter_element_ws(d0, nd));
                    assert(self.rec(nd).parent is None);
                    assert forall|j2: int| 0 <= j2 < tnodes@.len() implies tnodes@[j2] != nd by {
                        assert(!spec_inter_element_ws(d0, tnodes@[j2]));
                    }
                    assert(self.nodes@[i2].text == d0.nodes@[i2].text);
                }
            }
            // preserve-mode texts anywhere in the arena keep their text: the
            // pass rewrites a preserve text only with its own raw characters
            assert forall|i2: int|
                0 <= i2 < d0.nodes@.len() && (#[trigger] d0.nodes@[i2]).node_type == NodeType::Text
                    && spec_preserve_mode(d0, handle(i2), d0.nodes@.len() as nat) implies self.nodes@[i2].text@
                == d0.nodes@[i2].text@ by {
                let nd = handle(i2);
                if exists|j: int| 0 <= j < tnodes@.len() && tnodes@[j] == nd {
                    let j = choose|j: int| 0 <= j < tnodes@.len() && tnodes@[j] == nd;
                    assert(pres@[j]);
                    assert(self.rec(nd).text@ == raws@[j]@);
                } else {
                    assert(self.nodes@[i2].text == d0.nodes@[i2].text);
                }
            }
        }
    }
}

} // verus!
