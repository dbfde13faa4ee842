//! The push parser parses as chunks arrive.

use rusty_xml::{default_parse_options, xml_create_push_parser_ctxt, xml_parse_chunk, xml_read_memory, xml_save_doc};

fn stream(d: &[u8], k: usize) -> Option<Vec<u8>> {
    let mut ctxt = xml_create_push_parser_ctxt(&[], None, None, default_parse_options());
    let mut i = 0;
    while i < d.len() {
        let n = k.min(d.len() - i);
        if xml_parse_chunk(&mut ctxt, &d[i..i + n], 0).is_err() {
            return None;
        }
        i += n;
    }
    xml_parse_chunk(&mut ctxt, &[], 1).ok().flatten().map(|x| xml_save_doc(&x, 0))
}

#[test]
fn streamed_documents_match_a_whole_parse_at_every_chunk_size() {
    let docs: [&[u8]; 5] = [
        b"<?xml version='1.0'?>\n<!-- c --><r a='1'><b>x &amp; y</b><![CDATA[<z>]]><?pi t?>\r\ntail&#65;</r>\n<!-- after -->",
        b"<r xmlns:p='urn:p'><p:e p:a='v'>caf\xc3\xa9 \xe2\x82\xac</p:e><e/></r>",
        b"<!DOCTYPE r [<!ENTITY e 'ent'>]><r>&e;<s>&e;</s></r>",
        b"<r/>",
        b"<r>\r\n a\rb</r>",
    ];
    for d in docs {
        let whole = xml_read_memory(d, None, None, default_parse_options()).ok().map(|x| xml_save_doc(&x, 0));
        for k in 1..d.len() + 1 {
            assert_eq!(stream(d, k), whole, "chunk size {k}");
        }
    }
}

#[test]
fn content_is_released_as_it_is_parsed() {
    let mut body = Vec::new();
    body.extend_from_slice(b"<r>");
    for _ in 0..2000 {
        body.extend_from_slice(b"<item>some text</item>");
    }
    body.extend_from_slice(b"</r>");
    let mut ctxt = xml_create_push_parser_ctxt(&[], None, None, default_parse_options());
    let mut peak = 0;
    let mut i = 0;
    while i < body.len() {
        let n = 512.min(body.len() - i);
        assert!(matches!(xml_parse_chunk(&mut ctxt, &body[i..i + n], 0), Ok(None)));
        peak = peak.max(ctxt.buffered());
        i += n;
    }
    assert!(peak < body.len() / 10, "peak {peak}");
    assert!(ctxt.consumed() > 0);
    let doc = xml_parse_chunk(&mut ctxt, &[], 1).unwrap().unwrap();
    assert_eq!(doc.name(doc.xml_doc_get_root_element().unwrap()), "r");
    assert_eq!(ctxt.buffered(), 0);
}

#[test]
fn an_error_in_content_is_reported_before_the_end() {
    let mut ctxt = xml_create_push_parser_ctxt(&[], None, None, default_parse_options());
    assert!(matches!(xml_parse_chunk(&mut ctxt, b"<r><a>", 0), Ok(None)));
    let e = xml_parse_chunk(&mut ctxt, b"</b>more", 0).unwrap_err();
    assert_eq!(ctxt.last_error().map(|l| l.code), Some(e.code));
}
