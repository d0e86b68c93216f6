use lac_to_lbrn2::xml_builder::{escape, XmlBuilder};

// --- escape() ---

#[test]
fn escape_empty_string() {
    assert_eq!(escape(""), "");
}

#[test]
fn escape_no_special_chars_unchanged() {
    assert_eq!(escape("hello world"), "hello world");
}

#[test]
fn escape_ampersand() {
    assert_eq!(escape("a&b"), "a&amp;b");
}

#[test]
fn escape_double_quote() {
    assert_eq!(escape(r#"a"b"#), "a&quot;b");
}

#[test]
fn escape_less_than() {
    assert_eq!(escape("a<b"), "a&lt;b");
}

#[test]
fn escape_greater_than() {
    assert_eq!(escape("a>b"), "a&gt;b");
}

#[test]
fn escape_all_special_chars_combined() {
    assert_eq!(escape(r#"&<>""#), "&amp;&lt;&gt;&quot;");
}

#[test]
fn escape_already_escaped_ampersand_is_double_escaped() {
    // The function always escapes & — it does not detect prior escaping.
    assert_eq!(escape("&amp;"), "&amp;amp;");
}

#[test]
fn escape_injection_attempt_neutralised() {
    // Input: "><script>alert(1)</script>
    assert_eq!(
        escape(r#""><script>alert(1)</script>"#),
        "&quot;&gt;&lt;script&gt;alert(1)&lt;/script&gt;"
    );
}

// --- XmlBuilder ---

#[test]
fn leaf_attribute_values_are_escaped() {
    let mut xml = XmlBuilder::new();
    xml.leaf("Foo", &[("val", "a<b&c")]);
    assert!(xml.to_xml().contains("a&lt;b&amp;c"));
}

#[test]
fn inline_text_content_is_escaped() {
    let mut xml = XmlBuilder::new();
    xml.open("Root", &[]);
    xml.inline("T", "x & y");
    xml.close("Root");
    assert!(xml.to_xml().contains("x &amp; y"));
}

#[test]
fn open_close_produces_matching_tags() {
    let mut xml = XmlBuilder::new();
    xml.open("Outer", &[]);
    xml.close("Outer");
    let out = xml.to_xml();
    assert!(out.contains("<Outer>"));
    assert!(out.contains("</Outer>"));
}

#[test]
fn nesting_increases_indentation() {
    let mut xml = XmlBuilder::new();
    xml.open("A", &[]);
    xml.open("B", &[]);
    xml.leaf("C", &[]);
    xml.close("B");
    xml.close("A");
    let out = xml.to_xml();
    // C is at depth 2 → 8 spaces
    assert!(out.contains("        <C"));
}

#[test]
fn default_equals_new() {
    let a = XmlBuilder::new();
    let b = XmlBuilder::default();
    assert_eq!(a.to_xml(), b.to_xml());
}

#[test]
fn to_xml_ends_with_newline() {
    let xml = XmlBuilder::new();
    assert!(xml.to_xml().ends_with('\n'));
}

#[test]
fn new_document_is_only_the_declaration() {
    let xml = XmlBuilder::new();
    assert_eq!(xml.to_xml(), "<?xml version=\"1.0\" encoding=\"UTF-8\"?>\n");
}

#[test]
fn whole_document_exact_text() {
    let mut xml = XmlBuilder::new();
    xml.open("A", &[("k", "v\"")]);
    xml.inline("T", "<x>");
    xml.leaf("L", &[("a", "1"), ("b", "2")]);
    xml.close("A");
    assert_eq!(
        xml.to_xml(),
        "<?xml version=\"1.0\" encoding=\"UTF-8\"?>\n<A k=\"v&quot;\">\n    <T>&lt;x&gt;</T>\n    <L a=\"1\" b=\"2\"/>\n</A>\n"
    );
}

#[test]
fn attribute_keys_are_written_as_given() {
    let mut xml = XmlBuilder::new();
    xml.leaf("E", &[("a&b", "c")]);
    assert!(xml.to_xml().contains("<E a&b=\"c\"/>"));
}

#[test]
fn escape_keeps_non_ascii_text() {
    assert_eq!(escape("é<ü"), "é&lt;ü");
}

#[test]
fn every_write_adds_exactly_one_line() {
    let mut xml = XmlBuilder::new();
    assert_eq!(xml.to_xml().lines().count(), 1);
    xml.open("A", &[("k", "v")]);
    assert_eq!(xml.to_xml().lines().count(), 2);
    xml.leaf("B", &[]);
    assert_eq!(xml.to_xml().lines().count(), 3);
    xml.inline("C", "line\ntext");
    assert_eq!(xml.to_xml().matches('\n').count(), 5);
    xml.close("A");
    let out = xml.to_xml();
    assert!(out.ends_with("    <C>line\ntext</C>\n</A>\n"));
    assert!(out.starts_with("<?xml version=\"1.0\" encoding=\"UTF-8\"?>\n<A k=\"v\">\n    <B/>\n"));
}
