use svgdom::writer::attribute_to_string;
use svgdom::{
    Attribute, AttributeId as AId, AttributeValue, Document, ElementId as EId, Error, Length,
    LengthUnit, Point, QName, ViewBox, WriteOptions,
};

// Every identifier with a defined default reports that default as current.
#[test]
fn default_is_default() {
    let with_defaults = [
        AId::Fill,
        AId::FillOpacity,
        AId::Opacity,
        AId::Stroke,
        AId::StrokeOpacity,
        AId::StrokeWidth,
        AId::X,
        AId::Y,
    ];
    for id in with_defaults {
        let a = Attribute::default(id).unwrap();
        assert!(a.check_is_default());
    }
    assert!(Attribute::default(AId::Href).is_none());
    assert!(Attribute::default(AId::Space).is_none());
}

#[test]
fn non_default_value() {
    let a = Attribute::new_id(AId::Opacity, AttributeValue::Number(0));
    assert!(!a.check_is_default());
    let b = Attribute::new(
        QName::Name(String::new(), String::from("custom")),
        AttributeValue::Number(1),
    );
    assert!(!b.check_is_default());
}

#[test]
fn attribute_queries() {
    let a = Attribute::new_id(AId::StrokeWidth, AttributeValue::Number(3));
    assert_eq!(a.id(), Some(AId::StrokeWidth));
    assert!(a.is_svg());
    assert!(a.is_number());
    assert!(!a.is_color());
    assert!(a.has_id("", AId::StrokeWidth));
    assert!(!a.has_id("xlink", AId::StrokeWidth));
    assert!(a.visible);

    let c = Attribute::new(
        QName::Name(String::new(), String::from("data-x")),
        AttributeValue::String(String::from("1")),
    );
    assert_eq!(c.id(), None);
    assert!(!c.is_svg());
    assert!(c.is_string());
}

#[test]
fn encode_scalar_values() {
    let doc = Document::new();
    let opt = WriteOptions::default();

    let color = Attribute::new_id(AId::Fill, AttributeValue::Color(255, 0, 16));
    assert_eq!(attribute_to_string(&doc, &color, &opt), "fill=\"#ff0010\"");

    let num = Attribute::new_id(AId::X, AttributeValue::Number(-42));
    assert_eq!(attribute_to_string(&doc, &num, &opt), "x=\"-42\"");

    let len = Attribute::new_id(
        AId::Width,
        AttributeValue::Length(Length { num: 5, unit: LengthUnit::Percent }),
    );
    assert_eq!(attribute_to_string(&doc, &len, &opt), "width=\"5%\"");

    let nums = Attribute::new_id(AId::X, AttributeValue::NumberList(vec![1, 2, 30]));
    assert_eq!(attribute_to_string(&doc, &nums, &opt), "x=\"1 2 30\"");

    let pts = Attribute::new(
        QName::Name(String::new(), String::from("points")),
        AttributeValue::Points(vec![Point { x: 1, y: 2 }, Point { x: 3, y: 4 }]),
    );
    assert_eq!(attribute_to_string(&doc, &pts, &opt), "points=\"1,2 3,4\"");

    let vb = Attribute::new(
        QName::Name(String::new(), String::from("viewBox")),
        AttributeValue::ViewBox(ViewBox { x: 0, y: 0, w: 100, h: 50 }),
    );
    assert_eq!(attribute_to_string(&doc, &vb, &opt), "viewBox=\"0 0 100 50\"");
}

#[test]
fn encode_link_values() {
    let mut doc = Document::new();
    let gradient = doc.create_element(EId::LinearGradient);
    let rect = doc.create_element(EId::Rect);
    gradient.set_id(&mut doc, "lg1");
    rect.set_id(&mut doc, "rect1");
    let href = QName::Id(String::from("xlink"), AId::Href);
    rect.set_attribute(&mut doc, Attribute::new_link(href, gradient));
    let fill = QName::Id(String::new(), AId::Fill);
    rect.set_attribute(&mut doc, Attribute::new_link(fill, gradient));

    let opt = WriteOptions::default();
    let a = attribute_to_string(&doc, rect.attributes(&doc).get_index(0), &opt);
    assert_eq!(a, "xlink:href=\"#lg1\"");
    let b = attribute_to_string(&doc, rect.attributes(&doc).get_index(1), &opt);
    assert_eq!(b, "fill=\"url(#lg1)\"");
}

#[test]
fn quote_choice_and_escaping() {
    let doc = Document::new();
    let mut opt = WriteOptions::default();
    let a = Attribute::new(
        QName::Name(String::new(), String::from("title")),
        AttributeValue::String(String::from("a<b&c\"d'e")),
    );
    assert_eq!(attribute_to_string(&doc, &a, &opt), "title=\"a&lt;b&amp;c&quot;d'e\"");
    opt.use_single_quote = true;
    assert_eq!(attribute_to_string(&doc, &a, &opt), "title='a&lt;b&amp;c\"d&apos;e'");
}

// The unicode attribute takes the dedicated escape path.
#[test]
fn unicode_attribute_escape() {
    let doc = Document::new();
    let opt = WriteOptions::default();
    let a = Attribute::new_id(AId::Unicode, AttributeValue::String(String::from("ab")));
    assert_eq!(attribute_to_string(&doc, &a, &opt), "unicode=\"&#x61;&#x62;\"");

    // raw text already holding an entity reference passes through
    let b = Attribute::new_id(AId::Unicode, AttributeValue::String(String::from("&#x2014;")));
    assert_eq!(attribute_to_string(&doc, &b, &opt), "unicode=\"&#x2014;\"");
}

// Hidden attributes are skipped unless the options ask for them.
#[test]
fn hidden_attributes() {
    let mut doc = Document::new();
    let rect = doc.create_element(EId::Rect);
    doc.root().append(&mut doc, rect);
    let mut a = Attribute::new_id(AId::X, AttributeValue::Number(1));
    a.visible = false;
    rect.set_attribute(&mut doc, a);

    assert_eq!(doc.to_text(), "<rect/>\n");
    let mut opt = WriteOptions::default();
    opt.write_hidden_attributes = true;
    assert_eq!(doc.to_string_with_opt(&opt), "<rect x=\"1\"/>\n");
}

// Parsing and re-serializing is stable under repeated round trips.
#[test]
fn round_trip_stable() {
    let input = "<svg>
    <text id='t1' xml:space='preserve'> A &amp; B </text>
    <rect id='r1' fill='none' custom='1'/>
</svg>
";
    let once = Document::from_str(input).unwrap().to_text();
    let twice = Document::from_str(&once).unwrap().to_text();
    let thrice = Document::from_str(&twice).unwrap().to_text();
    assert_eq!(twice, thrice);
    assert_eq!(once, twice);
}

#[test]
fn malformed_markup() {
    assert_eq!(Document::from_str("<svg>").err(), Some(Error::InvalidMarkup));
    assert_eq!(Document::from_str("<svg></rect>").err(), Some(Error::InvalidMarkup));
    assert_eq!(Document::from_str("<svg x=1></svg>").err(), Some(Error::InvalidMarkup));
    assert_eq!(Document::from_str("text &unknown; text").err(), Some(Error::InvalidMarkup));
}

#[test]
fn node_queries() {
    let mut doc = Document::new();
    let svg = doc.create_element(EId::Svg);
    let rect = doc.create_element(EId::Rect);
    doc.root().append(&mut doc, svg);
    svg.append(&mut doc, rect);

    assert!(!svg.has_parent(&doc));
    assert!(rect.has_parent(&doc));
    assert!(svg.is_svg_element(&doc));
    assert_eq!(rect.tag_id(&doc), Some(EId::Rect));
    assert!(!rect.has_id(&doc));
    rect.set_id(&mut doc, "r");
    assert!(rect.has_id(&doc));
    assert_eq!(rect.id(&doc), "r");

    rect.set_attribute(&mut doc, Attribute::new_id(AId::X, AttributeValue::Number(1)));
    assert!(rect.has_attribute(&doc, AId::X));
    assert!(rect.has_visible_attribute(&doc, AId::X));
    assert!(!rect.has_attribute(&doc, AId::Y));
    assert!(rect.has_attributes(&doc, &vec![AId::Y, AId::X]));
    assert!(!rect.has_attributes(&doc, &vec![AId::Y, AId::Fill]));
}
