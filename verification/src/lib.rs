//! Well-formed XML parsing, an arena document tree, serialization and
//! validation, with the logic verified by Verus.

pub mod chvalid;
pub mod error;
pub mod util;
pub mod enc_tables;
pub mod encoding;
pub mod sax;
pub mod tree;
pub mod dtd;
pub mod parse;
pub mod writer;
pub mod reader;
pub mod valid;
pub mod c14n;
pub mod html;
pub mod xinclude;
pub mod catalog;
pub mod xpath;
pub mod axes;
pub mod rng;
pub mod xsd;

pub use chvalid::{
    xml_char_in_range, xml_is_char, xml_is_blank, xml_is_base_char, xml_is_digit, xml_is_combining, xml_is_extender, xml_is_ideographic, xml_is_letter, xml_is_pubid_char, xml_is_name_start_char, xml_is_name_char,
};
pub use error::{
    XML_ERR_OK, XML_ERR_INTERNAL_ERROR, XML_ERR_NO_MEMORY, XML_ERR_DOCUMENT_START, XML_ERR_DOCUMENT_EMPTY, XML_ERR_DOCUMENT_END, XML_ERR_INVALID_HEX_CHARREF, XML_ERR_INVALID_DEC_CHARREF, XML_ERR_INVALID_CHARREF, XML_ERR_INVALID_CHAR, XML_ERR_ENTITYREF_NO_NAME, XML_ERR_ENTITYREF_SEMICOL_MISSING, XML_ERR_UNDECLARED_ENTITY, XML_ERR_UNSUPPORTED_ENCODING, XML_ERR_LT_IN_ATTRIBUTE, XML_ERR_ATTRIBUTE_NOT_STARTED, XML_ERR_ATTRIBUTE_WITHOUT_VALUE, XML_ERR_ATTRIBUTE_REDEFINED, XML_ERR_LITERAL_NOT_FINISHED, XML_ERR_COMMENT_NOT_FINISHED, XML_ERR_PI_NOT_FINISHED, XML_ERR_XMLDECL_NOT_FINISHED, XML_ERR_MISPLACED_CDATA_END, XML_ERR_CDATA_NOT_FINISHED, XML_ERR_RESERVED_XML_NAME, XML_ERR_SPACE_REQUIRED, XML_ERR_NAME_REQUIRED, XML_ERR_GT_REQUIRED, XML_ERR_LT_REQUIRED, XML_ERR_EQUAL_REQUIRED, XML_ERR_TAG_NAME_MISMATCH, XML_ERR_TAG_NOT_FINISHED, XML_ERR_ENCODING_NAME, XML_ERR_HYPHEN_IN_COMMENT, XML_ERR_EXTRA_CONTENT, XML_WAR_NS_URI_RELATIVE, XML_NS_ERR_XML_NAMESPACE, XML_NS_ERR_UNDEFINED_NAMESPACE, XML_NS_ERR_QNAME, XML_NS_ERR_ATTRIBUTE_REDEFINED, XmlError,
};
pub use encoding::{
    XmlCharEncoding, xml_parse_char_encoding, xml_get_char_encoding_name, xml_detect_char_encoding, xml_convert_to_utf8,
};
pub use sax::{
    SaxAttr, SaxEvent, event_to_xmllint_debug, SaxHandler, NullSax, SaxRecorder, xml_sax2_init_default_sax_handler, xml_sax_version,
};
pub use tree::{
    NodeKind, ElementDecl, AttrDefault, AttrDecl, XmlDtd, NodeId, Node, XmlDoc, NodeIter, xml_free_doc,
};
pub use dtd::{
    is_pubid_char, parse_dtd_subset, parse_external_subset, xml_parse_dtd, merge_dtd,
};
pub use parse::{
    XML_PARSE_RECOVER, XML_PARSE_NOENT, XML_PARSE_DTDLOAD, XML_PARSE_DTDATTR, XML_PARSE_DTDVALID, XML_PARSE_NOERROR, XML_PARSE_NOWARNING, XML_PARSE_PEDANTIC, XML_PARSE_NOBLANKS, XML_PARSE_SAX1, XML_PARSE_XINCLUDE, XML_PARSE_NONET, XML_PARSE_NODICT, XML_PARSE_NSCLEAN, XML_PARSE_NOCDATA, XML_PARSE_NOXINCNODE, XML_PARSE_COMPACT, XML_PARSE_OLD10, XML_PARSE_NOBASEFIX, XML_PARSE_HUGE, XML_PARSE_OLDSAX, XML_PARSE_IGNORE_ENC, XML_PARSE_BIG_LINES, XML_PARSE_NO_XXE, XML_PARSE_UNZIP, XML_PARSE_NO_SYS_CATALOG, XML_PARSE_CATALOG_PI, XML_PARSE_SKIP_IDS, XML_PARSE_NO_TREE, MAX_DEPTH, MAX_DEPTH_HUGE, MAX_NAME, MAX_TEXT, MAX_ENTITY_DEPTH, MAX_NODES, default_parse_options, xml_init_parser, xml_cleanup_parser, XML_NS, XMLNS_NS, xml_read_memory, xml_read_doc, xml_sax_parse_memory, XmlParserCtxt, xml_new_parser_ctxt, xml_ctxt_use_options, xml_ctxt_set_options, xml_ctxt_get_options, xml_ctxt_get_last_error, xml_ctxt_get_document, xml_ctxt_reset, xml_ctxt_read_memory, XmlPushParserCtxt, xml_create_push_parser_ctxt, xml_parse_chunk, xml_read_io,
};
pub use writer::{
    XML_SAVE_FORMAT, XML_SAVE_NO_DECL, XML_SAVE_NO_EMPTY, XML_SAVE_NO_XHTML, XML_SAVE_XHTML, XML_SAVE_AS_XML, XML_SAVE_AS_HTML, XML_SAVE_WSNONSIG, XML_SAVE_EMPTY, XML_SAVE_NO_INDENT, XML_SAVE_INDENT, SAVE_AS_HTML, MAX_INDENT, SaveMode, xml_save_doc_with_indent, xml_save_doc, xml_doc_dump_format_memory, xml_doc_dump_memory, xml_node_dump, OpenFrame, XmlTextWriter, xml_new_text_writer_memory,
};
pub use reader::{
    ReaderType, XmlTextReader, xml_reader_for_memory, xml_reader_for_doc,
};
pub use valid::{
    Particle, match_children_model, is_name, is_nmtoken, split_ws, check_declarations, xml_validate_dtd, xml_validate_document,
};
pub use c14n::{
    XML_C14N_1_0, XML_C14N_EXCLUSIVE_1_0, XML_C14N_1_1, push_c14n_escaped, str_before, xml_c14n_doc_dump_memory, xml_c14n_1_0, xml_exc_c14n_1_0,
};
pub use html::{
    HTML_PARSE_NOIMPLIED, HTML_PARSE_NONET, is_void, is_block_element, decode_html_text, parse_html_doctype, html_read_memory, html_read_doc,
};
pub use xinclude::{
    XINCLUDE_NS, apply_include, xml_xinclude_process,
};
pub use catalog::{
    CATALOG_NS, XmlCatalog, resolve_uri, xml_catalog_from_doc, xml_initialize_catalog, xml_catalog_cleanup,
};
pub use xpath::{
    XPATH_UNDEFINED, XPATH_NODESET, XPATH_BOOLEAN, XPATH_NUMBER, XPATH_STRING, XmlXPathContext, xml_xpath_order_doc_elems, xml_xpath_cmp_nodes,
};
pub use axes::{
    XPathAxis, XPathNodeTest, xpath_axis_nodes,
};
pub use rng::{
    RNG_NS, Pat, Schema, trim, xml_relaxng_validate_doc,
};
pub use xsd::{
    XS_NS, XsdElement, XsdAttr, XsdContent, XSD_FUEL, parse_u32, xml_schema_validate_compiled, xml_schema_validate_doc,
};
