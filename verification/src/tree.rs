//! The input of a conversion: an already-parsed XML element tree.

use vstd::prelude::*;

verus! {

/// One XML element: its local name, its attributes in the order the parser
/// reports them (names unique per element), the concatenation of its direct
/// text content, and its child elements in document order.
#[derive(Debug, PartialEq)]
pub struct XmlElement {
    pub name: String,
    pub attrs: Vec<(String, String)>,
    pub text: String,
    pub children: Vec<XmlElement>,
}

} // verus!
