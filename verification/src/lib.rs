//! Conversion of parsed XML element trees into JSON-like value trees.
//!
//! The conversion walks an element tree once, turning every attribute value
//! and text node into a typed scalar (integer, float, boolean or string)
//! according to a configurable type directive, and merging repeated child
//! element names into arrays. A [`Config`] controls attribute-key prefixes,
//! the text-node key, the representation of empty elements, and per-path
//! type-directive overrides.

pub mod config;
pub mod convert;
pub mod entries;
pub mod laws;
pub mod parse;
pub mod text;
pub mod tree;
pub mod value;

pub use config::Config;
pub use config::JsonType;
pub use config::NullValue;
pub use convert::convert_node;
pub use convert::xml_to_map;
pub use parse::XmlError;
pub use parse::xml_string_to_json;
pub use text::parse_text;
pub use tree::XmlElement;
pub use value::JsonModel;
pub use value::JsonValue;
