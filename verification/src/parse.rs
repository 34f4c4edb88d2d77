//! The document entry point: XML text is handed to the external parser,
//! and the parsed element tree is converted into a JSON value.

use vstd::prelude::*;

use std::str::FromStr;

use crate::config::Config;
use crate::convert::xml_to_map;
use crate::convert::xml_to_map_spec;
use crate::tree::XmlElement;
use crate::value::JsonValue;

verus! {

/// `minidom::Element` is the external parser's element type; the library
/// only receives it from the parser and copies it into its own tree.
#[verifier::external_type_specification]
#[verifier::external_body]
pub struct ExMinidomElement(minidom::Element);

/// `minidom::Error` is the external parser's error type; the library
/// discards it in favour of its own error.
#[verifier::external_type_specification]
#[verifier::external_body]
pub struct ExMinidomError(minidom::Error);

/// The error of a conversion: the input text is not a well-formed XML
/// document.
#[derive(Debug, PartialEq, Eq, Structural)]
pub enum XmlError {
    MalformedXml,
}

/// The element tree that the external XML parser produces for the text:
/// `Some` exactly when the text is one well-formed document. The tree
/// depends on the text alone.
pub uninterp spec fn xml_parse_of(xml: Seq<char>) -> Option<XmlElement>;

/// Relies on `minidom::Element::from_str`: parsing succeeds exactly when
/// the text is one well-formed XML document, and the parsed tree — copied
/// into the library's type by `element_from_minidom` — depends on the text
/// alone, as `xml_parse_of` names it.
#[verifier::external_body]
fn parse_xml(xml: &str) -> (r: Result<XmlElement, minidom::Error>)
    ensures
        r is Ok <==> xml_parse_of(xml@) is Some,
        r matches Ok(el) ==> xml_parse_of(xml@) matches Some(root) && el == root,
{
    match minidom::Element::from_str(xml) {
        Ok(el) => Ok(element_from_minidom(&el)),
        Err(e) => Err(e),
    }
}

/// Relies on `minidom::Element`'s `name`, `attrs`, `text` and `children`
/// accessors: copies a parsed element into the library's tree type, name
/// for name, attribute for attribute in the parser's order, concatenated
/// text, and children in document order. Part of the trusted parse path of
/// `parse_xml`, which alone calls it.
#[verifier::external_body]
fn element_from_minidom(el: &minidom::Element) -> XmlElement {
    XmlElement {
        name: el.name().to_owned(),
        attrs: el.attrs().map(|(k, v)| (k.to_owned(), v.to_owned())).collect(),
        text: el.text(),
        children: el.children().map(element_from_minidom).collect(),
    }
}

/// Convert an XML string into a JSON value using the given settings. The
/// text is parsed by the external XML parser; a malformed document is the
/// one error. A well-formed document is converted exactly as
/// `xml_to_map_spec` states, with the root element's conversion wrapped
/// under the root's name.
pub fn xml_string_to_json(xml: String, config: &Config) -> (r: Result<JsonValue, XmlError>)
    ensures
        r is Err <==> xml_parse_of(xml@) is None,
        r matches Err(e) ==> e == XmlError::MalformedXml,
        r matches Ok(v) ==> xml_parse_of(xml@) matches Some(root) && v.model() == xml_to_map_spec(
            root,
            *config,
        ),
{
    match parse_xml(xml.as_str()) {
        Result::Ok(root) => Result::Ok(xml_to_map(&root, config)),
        Result::Err(_) => Result::Err(XmlError::MalformedXml),
    }
}

} // verus!
