//! Parser error codes (libxml2 `xmlParserErrors` numbering) and the error value.

use vstd::prelude::*;

verus! {

pub const XML_ERR_OK: i32 = 0;
pub const XML_ERR_INTERNAL_ERROR: i32 = 1;
pub const XML_ERR_NO_MEMORY: i32 = 2;
pub const XML_ERR_DOCUMENT_START: i32 = 3;
pub const XML_ERR_DOCUMENT_EMPTY: i32 = 4;
pub const XML_ERR_DOCUMENT_END: i32 = 5;
pub const XML_ERR_INVALID_HEX_CHARREF: i32 = 6;
pub const XML_ERR_INVALID_DEC_CHARREF: i32 = 7;
pub const XML_ERR_INVALID_CHARREF: i32 = 8;
pub const XML_ERR_INVALID_CHAR: i32 = 9;
pub const XML_ERR_ENTITYREF_NO_NAME: i32 = 22;
pub const XML_ERR_ENTITYREF_SEMICOL_MISSING: i32 = 23;
pub const XML_ERR_UNDECLARED_ENTITY: i32 = 26;
pub const XML_ERR_UNSUPPORTED_ENCODING: i32 = 32;
pub const XML_ERR_LT_IN_ATTRIBUTE: i32 = 38;
pub const XML_ERR_ATTRIBUTE_NOT_STARTED: i32 = 39;
pub const XML_ERR_ATTRIBUTE_WITHOUT_VALUE: i32 = 41;
pub const XML_ERR_ATTRIBUTE_REDEFINED: i32 = 42;
pub const XML_ERR_LITERAL_NOT_FINISHED: i32 = 44;
pub const XML_ERR_COMMENT_NOT_FINISHED: i32 = 45;
pub const XML_ERR_PI_NOT_FINISHED: i32 = 47;
pub const XML_ERR_XMLDECL_NOT_FINISHED: i32 = 57;
pub const XML_ERR_MISPLACED_CDATA_END: i32 = 62;
pub const XML_ERR_CDATA_NOT_FINISHED: i32 = 63;
pub const XML_ERR_RESERVED_XML_NAME: i32 = 64;
pub const XML_ERR_SPACE_REQUIRED: i32 = 65;
pub const XML_ERR_NAME_REQUIRED: i32 = 68;
pub const XML_ERR_GT_REQUIRED: i32 = 73;
pub const XML_ERR_LT_REQUIRED: i32 = 72;
pub const XML_ERR_EQUAL_REQUIRED: i32 = 75;
pub const XML_ERR_TAG_NAME_MISMATCH: i32 = 76;
pub const XML_ERR_TAG_NOT_FINISHED: i32 = 77;
pub const XML_ERR_ENCODING_NAME: i32 = 79;
pub const XML_ERR_HYPHEN_IN_COMMENT: i32 = 80;
pub const XML_ERR_EXTRA_CONTENT: i32 = 86;
pub const XML_WAR_NS_URI_RELATIVE: i32 = 100;
pub const XML_NS_ERR_XML_NAMESPACE: i32 = 200;
pub const XML_NS_ERR_UNDEFINED_NAMESPACE: i32 = 201;
pub const XML_NS_ERR_QNAME: i32 = 202;
pub const XML_NS_ERR_ATTRIBUTE_REDEFINED: i32 = 203;

/// A parser or tree error: the libxml2 code, a message and where it happened.
#[derive(Clone, Debug, PartialEq, Eq)]
pub struct XmlError {
    pub code: i32,
    pub message: String,
    pub line: u32,
    pub col: u32,
}

impl XmlError {
    /// An error with the given code, message and position.
    pub fn new(code: i32, message: String, line: u32, col: u32) -> (r: Self)
        ensures
            r.code == code,
            r.message@ == message@,
            r.line == line,
            r.col == col,
    {
        XmlError { code, message, line, col }
    }

    /// A copy of the error, field for field.
    pub fn duplicate(&self) -> (r: Self)
        ensures
            r.code == self.code,
            r.message@ == self.message@,
            r.line == self.line,
            r.col == self.col,
    {
        XmlError { code: self.code, message: self.message.clone(), line: self.line, col: self.col }
    }

    /// The message as `line:col: error code N: message`, which is what the
    /// error prints as.
    pub fn to_string(&self) -> (r: String)
        ensures
            r@ == crate::util::decimal_chars(self.line as nat) + seq![':'] + crate::util::decimal_chars(self.col as nat)
                + ": error code "@ + crate::util::signed_decimal_chars(self.code as int) + seq![':', ' ']
                + self.message@,
    {
        let mut s = crate::util::u64_to_string(self.line as u64);
        s.append(":");
        let c = crate::util::u64_to_string(self.col as u64);
        s.append(c.as_str());
        s.append(": error code ");
        let k = crate::util::i64_to_string(self.code as i64);
        s.append(k.as_str());
        s.append(": ");
        s.append(self.message.as_str());
        proof {
            reveal_strlit(":");
            reveal_strlit(": error code ");
            reveal_strlit(": ");
        }
        s
    }
}

} // verus!
