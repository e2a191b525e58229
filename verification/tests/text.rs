use svgdom::{Document, ElementId as EId, NodeType, WriteOptions};

fn descendant_text(doc: &Document) -> String {
    let mut out = String::new();
    for n in doc.root().descendants(doc) {
        out.push_str(n.text(doc));
    }
    out
}

fn resave(input: &str, expected: &str) {
    let doc = Document::from_str(input).unwrap();
    let mut opt = WriteOptions::default();
    opt.use_single_quote = true;
    assert_eq!(doc.to_string_with_opt(&opt), expected);
}

#[test]
fn text_content_1() {
    let doc = Document::from_str(
        "<svg>
    <text>
        A <tspan>
            <tspan>
                link
                inside tspan
            </tspan> for testing
        </tspan>
    </text>
</svg>
",
    )
    .unwrap();

    let text = descendant_text(&doc);
    assert_eq!(text, "A link inside tspan for testing");
}

#[test]
fn text_content_2() {
    let doc = Document::from_str(
        "<svg>
    <text>
        <tspan>Text1</tspan>
        <tspan>Text2</tspan>
        <tspan>Text3</tspan>
    </text>
</svg>
",
    )
    .unwrap();

    let text = descendant_text(&doc);
    assert_eq!(text, "Text1 Text2 Text3");
}

#[test]
fn text_content_3() {
    let doc = Document::from_str(
        "<svg>
    <text>
      Not

      <tspan>
        all characters

        <tspan>
          in

          <tspan>
            the
          </tspan>
        </tspan>

        <tspan>
          text
        </tspan>

        have a
      </tspan>

      <tspan>
        specified
      </tspan>

      rotation
    </text>
</svg>
",
    )
    .unwrap();

    let text = descendant_text(&doc);
    assert_eq!(text, "Not all characters in the text have a specified rotation");
}

#[test]
fn text_content_4() {
    let doc = Document::from_str(
        "<svg>
    <text>
        Text
        <tspan xml:space='preserve'>  Text  </tspan>
        Text
    </text>
</svg>
",
    )
    .unwrap();

    let text = descendant_text(&doc);
    assert_eq!(text, "Text   Text  Text");
}

// Manually created text.
#[test]
fn text_1() {
    let mut doc = Document::new();

    let svg = doc.create_element(EId::Svg);
    let text = doc.create_node(NodeType::Text, "text");

    doc.root().append(&mut doc, svg);
    svg.append(&mut doc, text);

    assert_eq!(doc.to_text(), "<svg>text</svg>\n");
}

// Text inside non-svg element.
#[test]
fn text_2() {
    resave(
        "<svg>
    <p>
        text
    </p>
</svg>
",
        "<svg>
    <p>text</p>
</svg>
",
    );
}

// Text inside svg element.
#[test]
fn text_3() {
    resave(
        "<svg>
    <text>
        text
    </text>
</svg>
",
        "<svg>
    <text>text</text>
</svg>
",
    );
}

// Multiline text.
#[test]
fn text_4() {
    resave(
        "<svg>
    <text>
        Line 1
        Line 2
        Line 3
    </text>
</svg>
",
        "<svg>
    <text>Line 1 Line 2 Line 3</text>
</svg>
",
    );
}

// Multiline text with 'preserve'.
#[test]
fn text_5() {
    resave(
        "<svg>
    <text xml:space='preserve'>
        Line 1
        Line 2
        Line 3
    </text>
</svg>
",
        "<svg>
    <text xml:space='preserve'>
        Line 1
        Line 2
        Line 3
    </text>
</svg>
",
    );
}

// Test trimming.
#[test]
fn text_6() {
    resave(
        "<svg>
    <text></text>
    <text> </text>
    <text>  </text>
    <text> \t \n \r </text>
    <text> \t  text \t  text  t \t\n  </text>
    <text xml:space='preserve'> \t \n text \t  text  t \t \r\n\r\n</text>
</svg>
",
        "<svg>
    <text/>
    <text/>
    <text/>
    <text/>
    <text>text text t</text>
    <text xml:space='preserve'> \t \n text \t  text  t \t \n\n</text>
</svg>
",
    );
}

// Escape.
#[test]
fn text_7() {
    resave(
        "<svg>
    <text>&amp;&lt;&gt;</text>
    <nontext>&amp;&lt;&gt;</nontext>
</svg>
",
        "<svg>
    <text>&amp;&lt;&gt;</text>
    <nontext>&amp;&lt;&gt;</nontext>
</svg>
",
    );
}

#[test]
fn text_8() {
    resave(
        "<svg>
    <text>Text</text>
    <rect/>
</svg>
",
        "<svg>
    <text>Text</text>
    <rect/>
</svg>
",
    );
}

// Text with children elements; spaces will be trimmed, but not all.
#[test]
fn text_tspan_1() {
    resave(
        "<svg>
    <text>
      Some \t <tspan>  complex  </tspan>  text \t
    </text>
</svg>
",
        "<svg>
    <text>Some <tspan>complex</tspan> text</text>
</svg>
",
    );
}

// Text with tspan but without spaces.
#[test]
fn text_tspan_2() {
    resave(
        "<svg>
    <text><tspan>Text</tspan></text>
</svg>
",
        "<svg>
    <text><tspan>Text</tspan></text>
</svg>
",
    );
}

// Text with tspan with new lines.
#[test]
fn text_tspan_3() {
    resave(
        "<svg>
    <text>
        <tspan>Text</tspan>
        <tspan>Text</tspan>
        <tspan>Text</tspan>
    </text>
</svg>
",
        "<svg>
    <text><tspan>Text</tspan> <tspan>Text</tspan> <tspan>Text</tspan></text>
</svg>
",
    );
}

// Text with spaces inside a tspan.
#[test]
fn text_tspan_4() {
    resave(
        "<svg>
    <text>Some<tspan> long </tspan>text</text>
</svg>
",
        "<svg>
    <text>Some<tspan> long </tspan>text</text>
</svg>
",
    );
}

// Text with spaces outside a tspan.
#[test]
fn text_tspan_5() {
    resave(
        "<svg>
    <text>Some <tspan>long</tspan> text</text>
</svg>
",
        "<svg>
    <text>Some <tspan>long</tspan> text</text>
</svg>
",
    );
}

// Nested tspan.
#[test]
fn text_tspan_6() {
    resave(
        "<svg>
    <text>  Some  <tspan>  not  <tspan>  very  </tspan>  long  </tspan>  text  </text>
</svg>
",
        "<svg>
    <text>Some <tspan>not <tspan>very</tspan> long</tspan> text</text>
</svg>
",
    );
}

// Empty tspan.
#[test]
fn text_tspan_7() {
    resave(
        "<svg>
    <text><tspan><tspan></tspan></tspan></text>
    <text> <tspan> <tspan> </tspan> </tspan> </text>
</svg>
",
        "<svg>
    <text><tspan><tspan/></tspan></text>
    <text><tspan><tspan/></tspan></text>
</svg>
",
    );
}

#[test]
fn text_tspan_8() {
    resave(
        "<svg>
    <text>
        <tspan>Te</tspan><tspan>x</tspan>t
    </text>
</svg>",
        "<svg>
    <text><tspan>Te</tspan><tspan>x</tspan>t</text>
</svg>
",
    );
}

#[test]
fn text_tspan_9() {
    resave(
        "<svg>
    <text>
        text <tspan>
            <tspan>
                text
            </tspan> text
        </tspan>
    </text>
</svg>",
        "<svg>
    <text>text <tspan><tspan>text</tspan> text</tspan></text>
</svg>
",
    );
}

#[test]
fn text_tspan_10() {
    resave(
        "<svg>
    <text>
      Not

      <tspan>
        all characters

        <tspan>
          in

          <tspan>
            the
          </tspan>
        </tspan>

        <tspan>
          text
        </tspan>

        have a
      </tspan>

      <tspan>
        specified
      </tspan>

      rotation
    </text>
</svg>",
        "<svg>
    <text>Not <tspan>all characters <tspan>in <tspan>the</tspan></tspan> <tspan>text</tspan> \
         have a</tspan> <tspan>specified</tspan> rotation</text>
</svg>
",
    );
}

// Test xml:space.
#[test]
fn text_space_preserve_1() {
    resave(
        "<svg>
    <text xml:space='preserve'> Text
    </text>
</svg>
",
        "<svg>
    <text xml:space='preserve'> Text
    </text>
</svg>
",
    );
}

// Test xml:space inheritance.
#[test]
fn text_space_preserve_2() {
    resave(
        "<svg xml:space='preserve'>
    <text> Text
    </text>
</svg>
",
        "<svg xml:space='preserve'>
    <text> Text
    </text>
</svg>
",
    );
}

// Test mixed xml:space.
#[test]
fn text_space_preserve_3() {
    resave(
        "<svg>
    <text xml:space='preserve'>  Text  <tspan xml:space='default'>  Text  </tspan>  Text  </text>
</svg>
",
        "<svg>
    <text xml:space='preserve'>  Text  <tspan xml:space='default'>Text </tspan>  Text  </text>
</svg>
",
    );
}

#[test]
fn text_space_preserve_4() {
    resave(
        "<svg>
    <text>
        Text
        <tspan xml:space='preserve'>  Text  </tspan>
        Text
    </text>
</svg>
",
        "<svg>
    <text>Text <tspan xml:space='preserve'>  Text  </tspan>Text</text>
</svg>
",
    );
}

#[test]
fn text_space_preserve_5() {
    resave(
        "<svg>
    <text>
        Text<tspan xml:space='preserve'>  Text  </tspan>Text
    </text>
</svg>
",
        "<svg>
    <text>Text<tspan xml:space='preserve'>  Text  </tspan>Text</text>
</svg>
",
    );
}

#[test]
fn text_space_preserve_6() {
    resave(
        "<svg>
    <text xml:space='preserve'><tspan>Text</tspan></text>
</svg>
",
        "<svg>
    <text xml:space='preserve'><tspan>Text</tspan></text>
</svg>
",
    );
}

// Test xml:space propagation.
#[test]
fn text_space_preserve_7() {
    resave(
        "<svg>
    <text id='text1' xml:space='preserve'>  Text  </text>
    <text id='text2'>  Text  </text>
</svg>
",
        "<svg>
    <text id='text1' xml:space='preserve'>  Text  </text>
    <text id='text2'>Text</text>
</svg>
",
    );
}

// An element whose only text trims away serializes in self-closing form.
#[test]
fn empty_after_trim() {
    let doc = Document::from_str("<text> </text>").unwrap();
    assert_eq!(doc.to_text(), "<text/>\n");
}

// Collapse mode across a mixed text region.
#[test]
fn collapse_mode_literal() {
    let doc = Document::from_str("<svg><text>\n  A <tspan>\n    link\n  </tspan> text\n</text></svg>").unwrap();
    assert_eq!(descendant_text(&doc), "A link text");
}
