//! XInclude through a caller loader, and catalog resolution.

use rusty_xml::{default_parse_options, xml_read_memory, XmlCatalog};

#[test]
fn m5_xinclude() {
    let mut doc = xml_read_memory(
        br#"<r xmlns:xi="http://www.w3.org/2001/XInclude"><xi:include href="frag.xml"/></r>"#,
        None,
        None,
        default_parse_options() | rusty_xml::XML_PARSE_DTDATTR,
    )
    .unwrap();
    rusty_xml::xml_xinclude_process(&mut doc, |uri| {
        assert_eq!(uri, "frag.xml");
        Ok(b"<frag>ok</frag>".to_vec())
    })
    .unwrap();
    let root = doc.xml_doc_get_root_element().unwrap();
    let child = doc.first_child(root).unwrap();
    assert_eq!(doc.name(child), "frag");
}

#[test]
fn xinclude_text_and_fallback() {
    let mut doc = xml_read_memory(
        br#"<r xmlns:xi="http://www.w3.org/2001/XInclude"><xi:include href="t.txt" parse="text"/><xi:include href="gone.xml"><xi:fallback><b>fb</b></xi:fallback></xi:include></r>"#,
        None,
        None,
        default_parse_options(),
    )
    .unwrap();
    let n = rusty_xml::xml_xinclude_process(&mut doc, |uri| {
        if uri == "t.txt" {
            Ok(b"plain & text".to_vec())
        } else {
            Err("not found".to_string())
        }
    })
    .unwrap();
    assert_eq!(n, 2);
    let out = String::from_utf8(rusty_xml::xml_save_doc(&doc, 0)).unwrap();
    assert!(out.contains(">plain &amp; text<b>fb</b></r>"), "{out}");
}

#[test]
fn xinclude_failure_without_fallback_is_an_error() {
    let mut doc = xml_read_memory(
        br#"<r xmlns:xi="http://www.w3.org/2001/XInclude"><xi:include href="gone.xml"/></r>"#,
        None,
        None,
        default_parse_options(),
    )
    .unwrap();
    assert!(rusty_xml::xml_xinclude_process(&mut doc, |_| Err("no".to_string())).is_err());
}

#[test]
fn catalog_entries_resolve() {
    let src = br#"<catalog xmlns="urn:oasis:names:tc:entity:xmlns:xml:catalog">
  <public publicId="-//FOO" uri="foo.dtd"/>
  <system systemId="http://x/a.dtd" uri="a.dtd"/>
  <rewriteSystem systemIdStartString="http://r/" rewritePrefix="local/"/>
  <uri name="urn:x" uri="http://example.com/x"/>
  <rewriteURI uriStartString="urn:y:" rewritePrefix="/abs/"/>
</catalog>"#;
    let doc = xml_read_memory(src, None, None, default_parse_options()).unwrap();
    let cat = rusty_xml::xml_catalog_from_doc(&doc, "/etc/cat");
    assert_eq!(cat.xml_catalog_resolve(Some("-//FOO"), None).as_deref(), Some("/etc/cat/foo.dtd"));
    assert_eq!(cat.xml_catalog_resolve(None, Some("http://x/a.dtd")).as_deref(), Some("/etc/cat/a.dtd"));
    assert_eq!(cat.xml_catalog_resolve(Some("-//BAR"), Some("http://r/b/c.dtd")).as_deref(), Some("/etc/cat/local/b/c.dtd"));
    assert_eq!(cat.xml_catalog_resolve(Some("-//BAR"), None), None);
    assert_eq!(cat.xml_catalog_resolve_uri("urn:x").as_deref(), Some("http://example.com/x"));
    assert_eq!(cat.xml_catalog_resolve_uri("urn:y:z").as_deref(), Some("/abs/z"));
    assert_eq!(cat.xml_catalog_resolve_uri("urn:q"), None);
}

#[test]
fn a_later_catalog_entry_overrides_an_earlier_one() {
    let mut cat = XmlCatalog::new();
    cat.system.push(("s".to_string(), "one".to_string()));
    cat.system.push(("s".to_string(), "two".to_string()));
    assert_eq!(cat.xml_catalog_resolve(None, Some("s")).as_deref(), Some("two"));
}
