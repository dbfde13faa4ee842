//! Writing a parsed document and parsing it again, and the bound on
//! attributes added by DTD defaulting.

use rusty_xml::{
    default_parse_options, xml_read_memory, xml_save_doc, xml_sax_parse_memory, SaxEvent, SaxRecorder,
    XML_PARSE_DTDATTR,
};

fn sax_events_of(xml: &[u8]) -> SaxRecorder {
    let mut rec = SaxRecorder::new();
    xml_sax_parse_memory(xml, default_parse_options(), &mut rec).expect("well-formed");
    rec
}

fn core_events(rec: &SaxRecorder) -> Vec<SaxEvent> {
    rec.events
        .iter()
        .filter(|e| !matches!(e, SaxEvent::SetDocumentLocator | SaxEvent::StartDocument | SaxEvent::EndDocument))
        .cloned()
        .collect()
}

#[test]
fn roundtrip_parse_write_parse_event_exact() {
    let fixtures: &[&[u8]] = &[
        b"<a/>",
        b"<a>x</a>",
        b"<a><!--c--></a>",
        b"<a><?pi data?></a>",
        b"<a><![CDATA[x]]></a>",
        b"<a>&lt;&amp;</a>",
        br#"<n:e xmlns:n="http://example.com/n"/>"#,
        b"<a><b/></a>",
        b"<a b=\"c\">z</a>",
    ];
    for xml in fixtures {
        let first = sax_events_of(xml);
        let doc = xml_read_memory(xml, None, None, default_parse_options()).unwrap();
        let written = xml_save_doc(&doc, 0);
        let second = sax_events_of(&written);
        assert_eq!(core_events(&first), core_events(&second), "round-trip events for {:?}", std::str::from_utf8(xml));
    }
}

#[test]
fn attlist_default_amplification_is_bounded() {
    let opts = default_parse_options() | XML_PARSE_DTDATTR;
    let decls: String = (0..200).map(|i| format!("<!ATTLIST e a{i} CDATA \"d\">\n")).collect();
    let body: String = (0..2000).map(|_| "<e/>".to_string()).collect();
    let bomb = format!("<!DOCTYPE r [<!ELEMENT e ANY>\n{decls}]><r>{body}</r>");
    assert!(
        xml_read_memory(bomb.as_bytes(), None, None, opts).is_err(),
        "a 13 KB document must not be allowed to expand to 400k attributes"
    );
    let decls: String = (0..5).map(|i| format!("<!ATTLIST e a{i} CDATA \"d{i}\">\n")).collect();
    let body: String = (0..4000).map(|i| format!("<e id=\"{i}\">t</e>")).collect();
    let ok = format!("<!DOCTYPE r [<!ELEMENT e ANY>\n{decls}]><r>{body}</r>");
    assert!(
        xml_read_memory(ok.as_bytes(), None, None, opts).is_ok(),
        "the bound must not reject a document the C oracle accepts"
    );
}

#[test]
fn a_lone_empty_element_is_a_document() {
    let doc = xml_read_memory(b"<Abc/>", None, None, default_parse_options()).unwrap();
    let r = doc.xml_doc_get_root_element().unwrap();
    assert_eq!(r.index(), 1);
    assert_eq!(doc.name(r), "Abc");
    let mut ctxt = rusty_xml::xml_create_push_parser_ctxt(b"<a", None, None, default_parse_options());
    let d = rusty_xml::xml_parse_chunk(&mut ctxt, b"/>", 1).unwrap().unwrap();
    assert_eq!(d.name(d.xml_doc_get_root_element().unwrap()), "a");
    assert!(rusty_xml::html_read_memory(b"", None, None, 0).is_ok());
}

#[test]
fn character_data_with_references_is_one_text_node() {
    let doc = xml_read_memory(b"<Abc>x &#65; &#x42;\ty</Abc>", None, None, default_parse_options()).unwrap();
    let r = doc.xml_doc_get_root_element().unwrap();
    assert_eq!(doc.name(r), "Abc");
    let t = doc.first_child(r).unwrap();
    assert_eq!(t.index(), 2);
    assert_eq!(doc.content(t), "x A B\ty");
    assert!(doc.next_sibling(t).is_none());
}

#[test]
fn a_bare_root_is_valid_under_an_empty_dtd() {
    let doc = xml_read_memory(b"<r/>", None, None, default_parse_options()).unwrap();
    assert!(rusty_xml::xml_validate_dtd(&doc, &rusty_xml::XmlDtd::new()).is_ok());
    let doc = xml_read_memory(b"<!DOCTYPE r []><r/>", None, None, default_parse_options()).unwrap();
    assert!(rusty_xml::xml_validate_document(&doc).is_ok());
    let empty = rusty_xml::XmlDoc::xml_new_doc(None);
    assert_eq!(rusty_xml::xml_c14n_1_0(&empty).unwrap(), Vec::<u8>::new());
}
