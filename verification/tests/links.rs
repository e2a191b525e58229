use svgdom::{
    Attribute, AttributeId as AId, AttributeValue, Document, ElementId as EId, Error, QName,
};

fn xlink_href() -> QName<AId> {
    QName::Id(String::from("xlink"), AId::Href)
}

// Creating a link attribute records the back-reference; removing the linking
// node clears it.
#[test]
fn link_scenario() {
    let mut doc = Document::new();
    let gradient = doc.create_element(EId::LinearGradient);
    let rect = doc.create_element(EId::Rect);
    doc.root().append(&mut doc, gradient);
    doc.root().append(&mut doc, rect);

    gradient.set_id(&mut doc, "lg1");
    rect.set_id(&mut doc, "rect1");

    let r = rect.set_attribute_checked(&mut doc, Attribute::new_link(xlink_href(), gradient));
    assert_eq!(r, Ok(()));

    assert_eq!(gradient.is_used(&doc), true);
    assert_eq!(gradient.uses_count(&doc), 1);
    assert_eq!(gradient.linked_nodes(&doc)[0], rect);

    doc.remove_node(rect);
    assert_eq!(gradient.is_used(&doc), false);
    assert_eq!(gradient.uses_count(&doc), 0);
}

// A link aimed at a node without an id is rejected.
#[test]
fn link_needs_id() {
    let mut doc = Document::new();
    let gradient = doc.create_element(EId::LinearGradient);
    let rect = doc.create_element(EId::Rect);
    rect.set_id(&mut doc, "rect1");

    let r = rect.set_attribute_checked(&mut doc, Attribute::new_link(xlink_href(), gradient));
    assert_eq!(r, Err(Error::ElementMustHaveAnId));
    assert_eq!(rect.attributes(&doc).len(), 0);
}

// A node may not link to itself.
#[test]
fn no_self_link() {
    let mut doc = Document::new();
    let rect = doc.create_element(EId::Rect);
    rect.set_id(&mut doc, "rect1");

    let r = rect.set_attribute_checked(&mut doc, Attribute::new_link(xlink_href(), rect));
    assert_eq!(r, Err(Error::ElementCrosslink));
    assert_eq!(rect.attributes(&doc).len(), 0);
    assert_eq!(rect.is_used(&doc), false);
}

// If b already links to a, making a link to b is rejected.
#[test]
fn no_mutual_link() {
    let mut doc = Document::new();
    let a = doc.create_element(EId::LinearGradient);
    let b = doc.create_element(EId::Rect);
    a.set_id(&mut doc, "a");
    b.set_id(&mut doc, "b");

    assert_eq!(b.set_attribute_checked(&mut doc, Attribute::new_link(xlink_href(), a)), Ok(()));
    let r = a.set_attribute_checked(&mut doc, Attribute::new_link(xlink_href(), b));
    assert_eq!(r, Err(Error::ElementCrosslink));
    assert_eq!(a.uses_count(&doc), 1);
    assert_eq!(b.uses_count(&doc), 0);
}

// Overwriting a link attribute with a plain value removes the back-reference
// exactly once.
#[test]
fn unlink_on_overwrite() {
    let mut doc = Document::new();
    let gradient = doc.create_element(EId::LinearGradient);
    let rect = doc.create_element(EId::Rect);
    gradient.set_id(&mut doc, "lg1");
    rect.set_id(&mut doc, "rect1");

    assert_eq!(
        rect.set_attribute_checked(&mut doc, Attribute::new_link(xlink_href(), gradient)),
        Ok(())
    );
    assert_eq!(gradient.uses_count(&doc), 1);

    let plain = Attribute::new(xlink_href(), AttributeValue::String(String::from("#lg1")));
    assert_eq!(rect.set_attribute_checked(&mut doc, plain), Ok(()));
    assert_eq!(gradient.uses_count(&doc), 0);
    assert_eq!(rect.attributes(&doc).len(), 1);
}

// A name other than xlink:href stores a function-call reference.
#[test]
fn func_link_by_name() {
    let mut doc = Document::new();
    let gradient = doc.create_element(EId::LinearGradient);
    let rect = doc.create_element(EId::Rect);
    gradient.set_id(&mut doc, "lg1");
    rect.set_id(&mut doc, "rect1");

    let fill = QName::Id(String::new(), AId::Fill);
    assert_eq!(
        rect.set_attribute_checked(&mut doc, Attribute::new_link(fill, gradient)),
        Ok(())
    );
    let a = rect.attributes(&doc).get_index(0);
    assert!(a.is_func_link());
    assert!(!a.is_link());

    // and the bare form for xlink:href
    assert_eq!(
        rect.set_attribute_checked(&mut doc, Attribute::new_link(xlink_href(), gradient)),
        Ok(())
    );
    assert_eq!(gradient.uses_count(&doc), 2);
    let b = rect.attributes(&doc).get_index(1);
    assert!(b.is_link());
}

// Removing a link attribute unlinks it.
#[test]
fn remove_attribute_unlinks() {
    let mut doc = Document::new();
    let gradient = doc.create_element(EId::LinearGradient);
    let rect = doc.create_element(EId::Rect);
    gradient.set_id(&mut doc, "lg1");
    rect.set_id(&mut doc, "rect1");

    let name = xlink_href();
    assert_eq!(
        rect.set_attribute_checked(&mut doc, Attribute::new_link(name.clone(), gradient)),
        Ok(())
    );
    assert_eq!(gradient.uses_count(&doc), 1);
    rect.remove_attribute(&mut doc, &name);
    assert_eq!(gradient.uses_count(&doc), 0);
    assert_eq!(rect.attributes(&doc).len(), 0);
}

// The raw collection keeps insertion order; replacing by name keeps the
// original position.  Node-level insertion removes first (to unlink), so an
// overwritten attribute moves to the end.
#[test]
fn attribute_order() {
    let mut attrs = svgdom::Attributes::new();
    attrs.insert(Attribute::new_id(AId::X, AttributeValue::Number(1)));
    attrs.insert(Attribute::new_id(AId::Y, AttributeValue::Number(2)));
    attrs.insert(Attribute::new_id(AId::X, AttributeValue::Number(9)));
    assert_eq!(attrs.len(), 2);
    assert_eq!(attrs.get_index(0).id(), Some(AId::X));
    assert!(attrs.get_index(0).value.eq_value(&AttributeValue::Number(9)));
    assert_eq!(attrs.get_index(1).id(), Some(AId::Y));

    let mut doc = Document::new();
    let rect = doc.create_element(EId::Rect);
    rect.set_attribute(&mut doc, Attribute::new_id(AId::X, AttributeValue::Number(1)));
    rect.set_attribute(&mut doc, Attribute::new_id(AId::Y, AttributeValue::Number(2)));
    rect.set_attribute(&mut doc, Attribute::new_id(AId::X, AttributeValue::Number(9)));
    let nattrs = rect.attributes(&doc);
    assert_eq!(nattrs.len(), 2);
    assert_eq!(nattrs.get_index(0).id(), Some(AId::Y));
    assert_eq!(nattrs.get_index(1).id(), Some(AId::X));
    assert!(nattrs.get_index(1).value.eq_value(&AttributeValue::Number(9)));
}

#[test]
fn set_attribute_if_none_keeps_present() {
    let mut doc = Document::new();
    let rect = doc.create_element(EId::Rect);
    let name = QName::Id(String::new(), AId::X);
    rect.set_attribute(&mut doc, Attribute::new_id(AId::X, AttributeValue::Number(1)));
    rect.set_attribute_if_none(&mut doc, &name, &AttributeValue::Number(7));
    assert!(rect
        .attributes(&doc)
        .get(AId::X)
        .unwrap()
        .value
        .eq_value(&AttributeValue::Number(1)));

    let name_y = QName::Id(String::new(), AId::Y);
    rect.set_attribute_if_none(&mut doc, &name_y, &AttributeValue::Number(7));
    assert!(rect
        .attributes(&doc)
        .get(AId::Y)
        .unwrap()
        .value
        .eq_value(&AttributeValue::Number(7)));
}
