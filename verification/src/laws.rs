//! Library-wide laws, stated and proved once over the specification layer.

use crate::attribute::Attribute;
use crate::attributes::find_key;
use crate::dom::{
    handle, link_count, links_to, occ_count, spec_remove_attr, Document, LinkState, Node,
};
use crate::name::{AttributeId, NameKey, QName};
use crate::value::{value_eq, AttributeValue};
use vstd::prelude::*;

verus! {

/// Link invariant: in a well-formed document, `b`'s back-reference list
/// holds `a` exactly when some attribute of `a` currently links to `b`, and
/// this holds after any sequence of mutations because every mutation entry
/// point preserves well-formedness.
pub proof fn lemma_link_invariant(doc: Document, a: Node, b: Node)
    requires
        doc.wf(),
        doc.spec_valid(a),
        doc.spec_valid(b),
    ensures
        doc.rec(b).linked_nodes@.contains(a) <==> exists|j: int|
            0 <= j < doc.rec(a).attributes@.len() && links_to(
                #[trigger] doc.rec(a).attributes@[j],
                b,
            ),
{
    let la = doc.rec(b).linked_nodes@;
    let ats = doc.rec(a).attributes@;
    assert(handle(a.spec_idx()) == a);
    assert(handle(b.spec_idx()) == b);
    assert(occ_count(doc.nodes@[b.spec_idx()].linked_nodes@, handle(a.spec_idx())) == link_count(
        doc.nodes@[a.spec_idx()].attributes@,
        handle(b.spec_idx()),
    ));
    if la.contains(a) {
        let i = choose|i: int| 0 <= i < la.len() && la[i] == a;
        crate::dom::lemma_occ_at(la, i, a);
        if forall|j: int| 0 <= j < ats.len() ==> !links_to(#[trigger] ats[j], b) {
            crate::dom::lemma_lc_zero(ats, b);
        }
    }
    if exists|j: int| 0 <= j < ats.len() && links_to(#[trigger] ats[j], b) {
        let j = choose|j: int| 0 <= j < ats.len() && links_to(#[trigger] ats[j], b);
        crate::dom::lemma_lc_at(ats, j, b);
        if forall|i: int| 0 <= i < la.len() ==> la[i] != a {
            crate::dom::lemma_occ_zero(la, a);
        }
        assert(la.contains(a));
    }
}

/// Unlink on overwrite: removing (or overwriting) node `n`'s attribute of a
/// given name, when that attribute links to `t`, removes `n` from `t`'s
/// back-reference list exactly once; no other back-reference list changes.
pub proof fn lemma_unlink_on_overwrite(
    d: Seq<LinkState>,
    n: int,
    key: NameKey<AttributeId>,
    i: int,
    t: Node,
)
    requires
        0 <= n < d.len(),
        0 <= t.spec_idx() < d.len(),
        find_key(d[n].attrs, key) == Some(i),
        links_to(d[n].attrs[i], t),
        occ_count(d[t.spec_idx()].linked, handle(n)) >= 1,
    ensures
        occ_count(spec_remove_attr(d, n, key)[t.spec_idx()].linked, handle(n)) == occ_count(
            d[t.spec_idx()].linked,
            handle(n),
        ) - 1,
        forall|x: int|
            0 <= x < d.len() && x != t.spec_idx() ==> spec_remove_attr(d, n, key)[x].linked == d[x].linked,
{
    crate::attributes::lemma_find_key_props(d[n].attrs, key);
    let ti = t.spec_idx();
    let lst = d[ti].linked;
    crate::dom::lemma_find_node_props(lst, handle(n));
    match crate::dom::find_node(lst, handle(n)) {
        Some(m) => {
            crate::dom::lemma_occ_remove(lst, m, handle(n));
        },
        None => {
            crate::dom::lemma_occ_zero(lst, handle(n));
        },
    }
}

/// Every value is the same as itself.
pub proof fn lemma_value_eq_refl(v: AttributeValue)
    ensures
        value_eq(&v, &v),
{
    match v {
        AttributeValue::Color(_, _, _) => {},
        AttributeValue::Length(_) => {},
        AttributeValue::LengthList(_) => {},
        AttributeValue::Number(_) => {},
        AttributeValue::NumberList(_) => {},
        AttributeValue::Path(_) => {},
        AttributeValue::Points(_) => {},
        AttributeValue::PredefValue(_) => {},
        AttributeValue::String(_) => {},
        AttributeValue::Transform(_) => {},
        AttributeValue::ViewBox(_) => {},
        AttributeValue::Link(_) => {},
        AttributeValue::FuncLink(_) => {},
    }
}

/// Default-value idempotence: an attribute built by `Attribute::default` for
/// an identifier with a defined default always reports that it holds the
/// default value.
pub proof fn lemma_default_is_default(a: Attribute, id: AttributeId)
    requires
        a.name matches QName::Id(_, i) && i == id,
        Some(a.value) == AttributeValue::spec_default_value(id),
    ensures
        a.spec_is_default(),
{
    lemma_value_eq_refl(a.value);
}

} // verus!
