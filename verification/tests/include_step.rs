//! One include element replaced by what its loader returned.

use rusty_xml::{apply_include, default_parse_options, html_read_memory, xml_read_memory, NodeKind, XML_ERR_DOCUMENT_EMPTY};

const DOC: &[u8] = b"<r><xi:include xmlns:xi='http://www.w3.org/2001/XInclude' href='t.txt' parse='text'/></r>";

#[test]
fn a_text_include_becomes_one_text_node() {
    let mut doc = xml_read_memory(DOC, None, None, default_parse_options()).unwrap();
    let r = doc.xml_doc_get_root_element().unwrap();
    let inc = doc.first_child(r).unwrap();
    let before = doc.len();
    assert_eq!(apply_include(&mut doc, inc, "t.txt", true, Ok(b"hello".to_vec())).unwrap(), true);
    assert_eq!(doc.len(), before + 1);
    assert!(doc.parent(inc).is_none());
    let t = doc.first_child(r).unwrap();
    assert_eq!(doc.kind(t), NodeKind::Text);
    assert_eq!(doc.content(t), "hello");
}

#[test]
fn a_failed_load_without_fallback_is_an_error() {
    let mut doc = xml_read_memory(DOC, None, None, default_parse_options()).unwrap();
    let r = doc.xml_doc_get_root_element().unwrap();
    let inc = doc.first_child(r).unwrap();
    let e = apply_include(&mut doc, inc, "t.txt", true, Err("gone".to_string())).unwrap_err();
    assert_eq!(e.code, XML_ERR_DOCUMENT_EMPTY);
}

#[test]
fn the_html_parser_takes_any_markup() {
    for src in [&b"<p><b>x</p></i>&&<<>"[..], b"", b"</x>", b"<!-- open"] {
        assert!(html_read_memory(src, None, None, 0).is_ok());
    }
}
