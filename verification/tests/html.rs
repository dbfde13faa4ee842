//! The HTML parser: implied elements, nesting, entities, and serialization.

use rusty_xml::{default_parse_options, xml_save_doc};

#[test]
fn m6_html_implied() {
    let doc = rusty_xml::html_read_memory(b"<p>hi</p>", None, None, 0).unwrap();
    let root = doc.xml_doc_get_root_element().unwrap();
    assert_eq!(doc.name(root), "html");
}

#[test]
fn html_multibyte_where_an_attribute_name_should_be_does_not_panic() {
    let opts = default_parse_options();
    for case in [
        &b"<r\xdd\xb7/>"[..],                       // U+0777 where a name must start
        &b"<r \xdd\xb7 a=\"1\"/>"[..],              // ... between attributes
        &b"<r\xe6\x97\xa5/>"[..],                   // 3-byte
        &b"<r\xf0\x9f\x98\x80/>"[..],               // 4-byte
        &b"<a:r xmlns:a=\"u\"\xdb\xae<a:c/></a:r>"[..],
        &b"<rs&##65;&#x42\xdd\xb7&l"[..],
    ] {
        // Must not panic. Accepting or rejecting is both fine; crashing is not.
        let _ = rusty_xml::html_read_memory(case, None, None, opts);
    }
}

#[test]
fn html_elements_actually_nest() {
    let depth_of = |doc: &rusty_xml::XmlDoc| -> usize {
        fn walk(d: &rusty_xml::XmlDoc, id: rusty_xml::NodeId) -> usize {
            let mut best = 0;
            let mut c = d.first_child(id);
            while let Some(x) = c {
                best = best.max(walk(d, x));
                c = d.next_sibling(x);
            }
            best + 1
        }
        walk(doc, rusty_xml::NodeId::document())
    };
    let h = format!("<html><body>{}deep{}</body></html>", "<div>".repeat(50), "</div>".repeat(50));
    let doc = rusty_xml::html_read_memory(h.as_bytes(), None, None, 0).expect("parses");
    assert!(depth_of(&doc) >= 53, "elements did not nest: depth {}", depth_of(&doc));

    // And the text must be reachable underneath, not stranded at the top.
    let out = String::from_utf8_lossy(&xml_save_doc(&doc, 0)).to_string();
    assert!(out.contains("<div><div>"), "no nesting in the output: {}", &out[..out.len().min(200)]);
    assert!(out.matches("<div>").count() == 50 && out.matches("</div>").count() == 50);
}

#[test]
fn html_serializes_as_html() {
    let save = |src: &str| -> String {
        let d = rusty_xml::html_read_memory(src.as_bytes(), None, None, 0).expect("parses");
        String::from_utf8(xml_save_doc(&d, 0)).unwrap()
    };

    // No doctype in the source: C supplies HTML 4.0 Transitional.
    let out = save("<html><body><p>x</p></body></html>");
    assert!(out.starts_with("<!DOCTYPE html PUBLIC \"-//W3C//DTD HTML 4.0 Transitional//EN\""));
    assert!(!out.contains("<?xml"), "XML declaration in HTML output:\n{out}");

    // A doctype that was there is kept.
    assert!(save("<!DOCTYPE html><html><body>x</body></html>").starts_with("<!DOCTYPE html>"));

    // Void elements take no end tag and no slash; everything else takes one.
    let out = save("<html><body><br><img src=x><el k=v></el></body></html>");
    assert!(out.contains("<br>"), "void element not minimized:\n{out}");
    assert!(!out.contains("<br/>") && !out.contains("</br>"), "br closed:\n{out}");
    assert!(out.contains("<img src=\"x\">"), "img not minimized:\n{out}");
    assert!(out.contains("<el k=\"v\"></el>"), "empty element self-closed:\n{out}");

    // Control characters are legal in HTML and C writes them verbatim.
    assert!(save("<html><body>a\u{8}b</body></html>").contains("a\u{8}b"));
}

#[test]
fn html_round_trip_is_stable() {
    let cases = [
        "<html><body><br>after<p>x</p></body></html>",
        "<html><body><div><span>a</span>b<img src=i>c</div></body></html>",
        "<!DOCTYPE html><html><body><ul><li>1<li>2</ul></body></html>",
        "<html><body><table><tr><td><div>x</div></td></tr></table></body></html>",
        "<html><body>a\u{8}b\u{1}c</body></html>",
        "<html><body><hr><meta charset=utf-8><input value=v></body></html>",
    ];
    for src in cases {
        let d1 = rusty_xml::html_read_memory(src.as_bytes(), None, None, 0).expect("parses");
        let once = xml_save_doc(&d1, 0);
        let d2 = rusty_xml::html_read_memory(&once, None, None, 0).expect("reparses");
        let twice = xml_save_doc(&d2, 0);
        assert_eq!(
            String::from_utf8_lossy(&once),
            String::from_utf8_lossy(&twice),
            "round trip moved the tree for {src}"
        );
    }
}

#[test]
fn a_malformed_doctype_does_not_panic() {
    for src in [
        "<!\u{1F600}",
        "<!DOCTYP\u{e9}",
        "<!DOCTYPE\u{1F600}>",
        "<!DOCTYPE html PUBLIC \"\u{1F600}",
        "<!DOCTYPE html SYSTEM '",
        "<!D",
        "<!",
        "<!DOCTYPE",
    ] {
        let _ = rusty_xml::html_read_memory(src.as_bytes(), None, None, 0);
    }
}

#[test]
fn a_block_element_closes_an_open_paragraph() {
    let save = |src: &str| -> String {
        let d = rusty_xml::html_read_memory(src.as_bytes(), None, None, 0).expect("parses");
        String::from_utf8(xml_save_doc(&d, 0)).unwrap()
    };
    let out = save("<html><body><div><p>one<p>two<div>three</body></html>");
    assert!(
        out.contains("<p>one</p><p>two</p><div>three</div>"),
        "paragraph not closed by the block element:\n{out}"
    );
    // Inline elements do NOT close it.
    let out = save("<html><body><p>a<span>b</span>c</p></body></html>");
    assert!(out.contains("<p>a<span>b</span>c</p>"), "inline closed a p:\n{out}");
    // Nor does a block element close anything other than a paragraph.
    let out = save("<html><body><div>a<div>b</div></div></body></html>");
    assert!(out.contains("<div>a<div>b</div></div>"), "div closed a div:\n{out}");
}

#[test]
fn html_named_and_numeric_entities_are_decoded() {
    let opts = default_parse_options();
    let doc = rusty_xml::html_read_memory(
        b"<html><body><p>caf&eacute; &mdash; don&rsquo;t &nbsp; &copy; AT&T &#65;&#x42; &unknown; &amp</p></body></html>",
        None,
        None,
        opts,
    )
    .unwrap();
    let mut text = String::new();
    for i in 0..doc.len() {
        let id = rusty_xml::NodeId(i as u32);
        if doc.kind(id) == rusty_xml::NodeKind::Text {
            text.push_str(&doc.node(id).content);
        }
    }
    assert!(text.contains("caf\u{e9}"), "eacute must decode: {text:?}");
    assert!(text.contains('\u{2014}'), "mdash must decode: {text:?}");
    assert!(text.contains('\u{2019}'), "rsquo must decode: {text:?}");
    assert!(text.contains('\u{a0}'), "nbsp must decode: {text:?}");
    assert!(text.contains('\u{a9}'), "copy must decode: {text:?}");
    assert!(text.contains("AB"), "numeric refs must decode: {text:?}");
    // A bare ampersand is not a reference and must survive as written.
    assert!(text.contains("AT&T"), "bare & must survive: {text:?}");
    // An unknown name is left alone, as a browser leaves it.
    assert!(text.contains("&unknown;"), "unknown name must survive: {text:?}");
    // HTML allows a named reference with no semicolon.
    assert!(text.trim_end().ends_with('&'), "`&amp` without `;` decodes: {text:?}");

    // Attribute values go through the same path.
    let doc = rusty_xml::html_read_memory(
        b"<html><body><a title=\"caf&eacute;\" href=x?a=1&amp;b=2>t</a></body></html>",
        None,
        None,
        opts,
    )
    .unwrap();
    let mut attrs = String::new();
    for i in 0..doc.len() {
        let id = rusty_xml::NodeId(i as u32);
        if doc.kind(id) == rusty_xml::NodeKind::Attribute {
            attrs.push_str(&doc.node(id).content);
        }
    }
    assert!(attrs.contains("caf\u{e9}"), "attribute entities decode: {attrs:?}");
    assert!(attrs.contains("a=1&b=2"), "attribute &amp; decodes: {attrs:?}");
}
