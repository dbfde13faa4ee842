//! RelaxNG and XML Schema validation.

use rusty_xml::{default_parse_options, xml_read_memory, xml_schema_validate_compiled, XsdContent, XsdElement};

#[test]
fn m6_relaxng_tutor() {
    let rng = br#"<element name="addressBook" xmlns="http://relaxng.org/ns/structure/1.0">
  <zeroOrMore>
    <element name="card">
      <attribute name="name"><text/></attribute>
      <attribute name="email"><text/></attribute>
    </element>
  </zeroOrMore>
</element>"#;
    let xml = br#"<addressBook><card name="John Smith" email="js@example.com"/></addressBook>"#;
    let doc = xml_read_memory(xml, None, None, default_parse_options()).unwrap();
    rusty_xml::xml_relaxng_validate_doc(rng, &doc).expect("rng valid");
}

#[test]
fn m6_xsd_sequence() {
    let xsd = br#"<xs:schema xmlns:xs="http://www.w3.org/2001/XMLSchema">
  <xs:element name="doc">
    <xs:complexType>
      <xs:sequence>
        <xs:element name="a" minOccurs="1" maxOccurs="1"/>
      </xs:sequence>
    </xs:complexType>
  </xs:element>
  <xs:element name="a"/>
</xs:schema>"#;
    let doc = xml_read_memory(b"<doc><a/></doc>", None, None, default_parse_options()).unwrap();
    rusty_xml::xml_schema_validate_doc(xsd, &doc).expect("xsd valid");
}

#[test]
fn relaxng_malformed_and_cyclic_schemas_are_errors_not_crashes() {
    let doc = xml_read_memory(b"<r><a k=\"1\">t</a></r>", None, None, default_parse_options()).unwrap();
    const NS: &str = "http://relaxng.org/ns/structure/1.0";
    for bad in [
        "<grammar><start/></grammar>".to_string(),
        format!("<grammar xmlns=\"{NS}\"><define name=\"a\"><ref name=\"a\"/></define><start><ref name=\"a\"/></start></grammar>"),
        format!("<grammar xmlns=\"{NS}\"><define name=\"a\"><ref name=\"b\"/></define><define name=\"b\"><ref name=\"a\"/></define><start><ref name=\"a\"/></start></grammar>"),
        format!("<grammar xmlns=\"{NS}\"><define name=\"a\"><choice><ref name=\"a\"/></choice></define><start><ref name=\"a\"/></start></grammar>"),
    ] {
        // Reaching this line at all is the test: it must return, not abort.
        let _ = rusty_xml::xml_relaxng_validate_doc(bad.as_bytes(), &doc);
    }

    // Recursion through an element consumes input, so it terminates and is legal.
    let ok = format!(
        "<grammar xmlns=\"{NS}\"><start><ref name=\"r\"/></start>\
         <define name=\"r\"><element name=\"r\"><zeroOrMore><ref name=\"r\"/></zeroOrMore></element></define></grammar>"
    );
    let nested = xml_read_memory(b"<r><r/></r>", None, None, default_parse_options()).unwrap();
    let res = rusty_xml::xml_relaxng_validate_doc(ok.as_bytes(), &nested);
    assert!(
        res.is_ok(),
        "a grammar recursing through an element must still validate: {res:?}"
    );
}

#[test]
fn relaxng_rejects_a_missing_attribute() {
    let rng = br#"<element name="card" xmlns="http://relaxng.org/ns/structure/1.0">
  <attribute name="name"><text/></attribute>
</element>"#;
    let doc = xml_read_memory(b"<card/>", None, None, default_parse_options()).unwrap();
    assert!(rusty_xml::xml_relaxng_validate_doc(rng, &doc).is_err());
    let doc = xml_read_memory(b"<card name=\"x\" extra=\"y\"/>", None, None, default_parse_options()).unwrap();
    assert!(rusty_xml::xml_relaxng_validate_doc(rng, &doc).is_err());
}

#[test]
fn xsd_occurrence_bounds_are_enforced() {
    let xsd = br#"<xs:schema xmlns:xs="http://www.w3.org/2001/XMLSchema">
  <xs:element name="doc">
    <xs:complexType>
      <xs:sequence>
        <xs:element name="a" minOccurs="2" maxOccurs="3"/>
      </xs:sequence>
      <xs:attribute name="v" use="required"/>
    </xs:complexType>
  </xs:element>
</xs:schema>"#;
    let ok = xml_read_memory(b"<doc v=\"1\"><a/><a/></doc>", None, None, default_parse_options()).unwrap();
    assert!(rusty_xml::xml_schema_validate_doc(xsd, &ok).is_ok());
    let few = xml_read_memory(b"<doc v=\"1\"><a/></doc>", None, None, default_parse_options()).unwrap();
    assert!(rusty_xml::xml_schema_validate_doc(xsd, &few).is_err());
    let many = xml_read_memory(b"<doc v=\"1\"><a/><a/><a/><a/></doc>", None, None, default_parse_options()).unwrap();
    assert!(rusty_xml::xml_schema_validate_doc(xsd, &many).is_err());
    let no_attr = xml_read_memory(b"<doc><a/><a/></doc>", None, None, default_parse_options()).unwrap();
    assert!(rusty_xml::xml_schema_validate_doc(xsd, &no_attr).is_err());
}

#[test]
fn occurrence_numbers_read_like_u32_from_str() {
    assert_eq!(rusty_xml::parse_u32("0"), Some(0));
    assert_eq!(rusty_xml::parse_u32("+17"), Some(17));
    assert_eq!(rusty_xml::parse_u32("4294967295"), Some(u32::MAX));
    assert_eq!(rusty_xml::parse_u32("4294967296"), None);
    assert_eq!(rusty_xml::parse_u32(""), None);
    assert_eq!(rusty_xml::parse_u32("+"), None);
    assert_eq!(rusty_xml::parse_u32("-1"), None);
    assert_eq!(rusty_xml::parse_u32(" 1"), None);
}

#[test]
fn compiled_declarations_check_a_sequence_run_by_run() {
    let leaf = |n: &str, min: u32, max: u32| XsdElement {
        name: n.to_string(),
        min,
        max,
        attrs: Vec::new(),
        content: XsdContent::Text,
    };
    let root = XsdElement {
        name: "r".to_string(),
        min: 1,
        max: 1,
        attrs: Vec::new(),
        content: XsdContent::Sequence(vec![leaf("a", 1, 2), leaf("b", 0, 1)]),
    };
    let decls = vec![root];
    let ok = rusty_xml::xml_read_memory(b"<r><a/><a/><b/></r>", None, None, rusty_xml::default_parse_options()).unwrap();
    assert!(xml_schema_validate_compiled(&decls, &ok).is_ok());
    let three = rusty_xml::xml_read_memory(b"<r><a/><a/><a/></r>", None, None, rusty_xml::default_parse_options()).unwrap();
    assert!(xml_schema_validate_compiled(&decls, &three).is_err());
    let none = rusty_xml::xml_read_memory(b"<r><b/></r>", None, None, rusty_xml::default_parse_options()).unwrap();
    assert!(xml_schema_validate_compiled(&decls, &none).is_err());
    let other = rusty_xml::xml_read_memory(b"<s/>", None, None, rusty_xml::default_parse_options()).unwrap();
    assert!(xml_schema_validate_compiled(&decls, &other).is_err());
}
