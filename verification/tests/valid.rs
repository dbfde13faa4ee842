//! DTD validation: content models, declarations, and attribute values.

use rusty_xml::{default_parse_options, xml_read_memory, xml_save_doc};

#[test]
fn m5_dtd_internal() {
    let xml = b"<!DOCTYPE a [ <!ELEMENT a (#PCDATA)> ]><a>x</a>";
    let doc = xml_read_memory(xml, None, None, default_parse_options()).unwrap();
    rusty_xml::xml_validate_document(&doc).expect("valid");
}

#[test]
fn a_malformed_content_model_terminates() {
    for model in [
        "(a & b)?", "(a b)", "(&)", "((((", "(a|", "(a,,b)", "(", "()",
        "(#PCDATA|a)*", "(a,b,c)+", "(a**)", "(|)", "(a|)", "(~)",
    ] {
        let src = format!("<!DOCTYPE doc [\n<!ELEMENT doc {model}>\n]>\n<doc></doc>");
        // Either verdict is fine. Returning at all is the point.
        if let Ok(doc) = xml_read_memory(src.as_bytes(), None, None, default_parse_options()) {
            let _ = rusty_xml::xml_validate_document(&doc);
        }
    }
}

#[test]
fn valid_documents_that_used_to_be_rejected() {
    let opts = default_parse_options();

    // The DTD's own name parser was ASCII-only, so a non-ASCII element name in
    // a declaration came back empty and the document was refused -- while the
    // document body accepted the very same name.
    let thai = "<!DOCTYPE \u{0e40}\u{0e08} [<!ELEMENT \u{0e40}\u{0e08} (#PCDATA)>]>\
                <\u{0e40}\u{0e08}>x</\u{0e40}\u{0e08}>";
    assert!(
        xml_read_memory(thai.as_bytes(), None, None, opts).is_ok(),
        "non-ASCII name rejected in the DTD"
    );

    // An apostrophe inside a comment in the internal subset is not a quote.
    // It opened one that never closed, so the scan ate the rest of the file.
    let apos = "<!DOCTYPE d [\n<!--NOTE: XML doesn't say-->\n<!ELEMENT d EMPTY>\n]>\n<d/>";
    assert!(
        xml_read_memory(apos.as_bytes(), None, None, opts).is_ok(),
        "apostrophe in a DTD comment swallowed the document"
    );

    // An ATTLIST declares a QName. Looking it up with xmlGetProp semantics
    // (unprefixed only) meant every prefixed declared attribute looked absent,
    // so a #REQUIRED one was reported missing from a document that had it.
    let lang = "<!DOCTYPE b [<!ELEMENT b ANY><!ATTLIST b xml:lang CDATA #REQUIRED>]>\
                <b xml:lang=\"en\">t</b>";
    let doc = xml_read_memory(lang.as_bytes(), None, None, opts).unwrap();
    assert!(
        rusty_xml::xml_validate_document(&doc).is_ok(),
        "a present prefixed attribute was reported missing"
    );
}

#[test]
fn entity_replacement_that_is_markup_becomes_markup() {
    let opts = default_parse_options();
    let text_of = |d: &rusty_xml::XmlDoc| -> String {
        String::from_utf8(xml_save_doc(d, 0)).unwrap()
    };

    // Markup written directly.
    let d = xml_read_memory(
        b"<!DOCTYPE d [<!ENTITY e \"<b>x</b>\">]><d>&e;</d>",
        None, None, opts,
    ).unwrap();
    assert!(text_of(&d).contains("<d><b>x</b></d>"), "not spliced: {}", text_of(&d));

    // Markup arriving by character reference -- expanded at declaration time,
    // so it IS markup.
    let d = xml_read_memory(
        b"<!DOCTYPE d [<!ELEMENT d (foo)><!ELEMENT foo EMPTY><!ENTITY e \"&#60;foo/>\">]><d>&e;</d>",
        None, None, opts,
    ).unwrap();
    assert!(text_of(&d).contains("<foo/>"), "charref markup not spliced: {}", text_of(&d));
    assert!(rusty_xml::xml_validate_document(&d).is_ok(), "validation should see the element");

    // A predefined reference is bypassed and stays a character.
    let d = xml_read_memory(
        b"<!DOCTYPE d [<!ENTITY e \"&lt;AB&gt;\">]><d>&e;</d>",
        None, None, opts,
    ).unwrap();
    let out = text_of(&d);
    assert!(out.contains("&lt;AB&gt;"), "predefined ref treated as markup: {out}");
    assert!(!out.contains("<AB>"), "predefined ref treated as markup: {out}");

    // Replacement text has to be well formed in its own right.
    for bad in [
        &b"<!DOCTYPE d [<!ENTITY e \"<foo a='&#38;'></foo>\">]><d>&e;</d>"[..],
        &b"<!DOCTYPE d [<!ENTITY e \"<foo></bar>\">]><d>&e;</d>"[..],
        &b"<!DOCTYPE d [<!ENTITY e \"<foo>\">]><d>&e;</d>"[..],
    ] {
        assert!(
            xml_read_memory(bad, None, None, opts).is_err(),
            "accepted a malformed replacement: {}",
            String::from_utf8_lossy(bad)
        );
    }
}

#[test]
fn validity_constraints_on_declarations() {
    let opts = default_parse_options();
    let invalid = |src: &str| {
        let d = xml_read_memory(src.as_bytes(), None, None, opts)
            .unwrap_or_else(|e| panic!("should parse: {src}\n{e:?}"));
        assert!(
            rusty_xml::xml_validate_document(&d).is_err(),
            "should be invalid: {src}"
        );
    };
    // Unique Element Type Declaration.
    invalid("<!DOCTYPE r [<!ELEMENT r ANY><!ELEMENT e EMPTY><!ELEMENT e EMPTY>]><r/>");
    // ID Attribute Default: an ID cannot carry a default value.
    invalid("<!DOCTYPE r [<!ELEMENT r ANY><!ATTLIST r id ID \"x23\">]><r/>");
    // No Duplicate Types in a mixed content model.
    invalid("<!DOCTYPE r [<!ELEMENT r (#PCDATA|a|a)*><!ELEMENT a EMPTY>]><r/>");
    // No Duplicate Tokens in an enumeration.
    invalid("<!DOCTYPE r [<!ELEMENT r ANY><!ATTLIST r b (one|one) #IMPLIED>]><r/>");
    // Attribute Value Type: the attribute has to be declared.
    invalid("<!DOCTYPE r [<!ELEMENT r EMPTY>]><r xml:space='preserve'/>");
    // A CDATA section is character data even when it is empty, so it breaks an
    // element-only content model.
    invalid("<!DOCTYPE r [<!ELEMENT r (a+)><!ELEMENT a EMPTY>]><r><a/><![CDATA[]]></r>");

    // And the well-formed equivalents must still validate.
    let good = "<!DOCTYPE r [<!ELEMENT r (a+)><!ELEMENT a EMPTY>\
                <!ATTLIST r id ID #IMPLIED><!ATTLIST a k (one|two) \"one\">]>\
                <r id=\"x\"><a/><a k=\"two\"/></r>";
    let d = xml_read_memory(good.as_bytes(), None, None, opts).unwrap();
    rusty_xml::xml_validate_document(&d).expect("should be valid");
}

#[test]
fn notations_must_be_declared() {
    let opts = default_parse_options();
    let invalid = |src: &str| {
        let d = xml_read_memory(src.as_bytes(), None, None, opts)
            .unwrap_or_else(|e| panic!("should parse: {src}\n{e:?}"));
        assert!(rusty_xml::xml_validate_document(&d).is_err(), "should be invalid: {src}");
    };
    invalid("<!DOCTYPE p [<!ELEMENT p EMPTY><!ENTITY b SYSTEM \"u\" NDATA Missing>]><p/>");
    invalid("<!DOCTYPE p [<!ELEMENT p EMPTY><!ATTLIST p a NOTATION (nope) #IMPLIED>]><p/>");

    // Not an EMPTY element: a NOTATION attribute on one of those is its own
    // violation, and would mask the thing under test.
    let good = "<!DOCTYPE p [<!ELEMENT p (#PCDATA)><!NOTATION n SYSTEM \"u\">\
                <!ENTITY b SYSTEM \"u\" NDATA n><!ATTLIST p a NOTATION (n) #IMPLIED>]>\
                <p a=\"n\">x</p>";
    let d = xml_read_memory(good.as_bytes(), None, None, opts).unwrap();
    rusty_xml::xml_validate_document(&d).expect("should be valid");
}

#[test]
fn declarations_are_matched_by_qname() {
    let src = b"<!DOCTYPE xml:foo [<!ELEMENT xml:foo EMPTY>]><xml:foo/>";
    let d = xml_read_memory(src, None, None, default_parse_options()).unwrap();
    rusty_xml::xml_validate_document(&d).expect("declared element reported undeclared");
}

#[test]
fn tokenized_attribute_values_are_normalized() {
    let src = b"<!DOCTYPE r [<!ELEMENT r EMPTY>\
                <!ATTLIST r id ID #IMPLIED><!ATTLIST r n NMTOKENS #IMPLIED>\
                <!ATTLIST r c CDATA #IMPLIED>]>\
                <r id=\"  x  y  \" n=\"  a\tb\nc  \" c=\"  keep  me  \"/>";
    let doc = xml_read_memory(src, None, None, default_parse_options()).unwrap();
    let out = String::from_utf8(xml_save_doc(&doc, 0)).unwrap();
    assert!(out.contains("id=\"x y\""), "ID not normalized:\n{out}");
    assert!(out.contains("n=\"a b c\""), "NMTOKENS not normalized:\n{out}");
    // CDATA is left exactly as the parser produced it.
    assert!(out.contains("c=\"  keep  me  \""), "CDATA was normalized:\n{out}");
}