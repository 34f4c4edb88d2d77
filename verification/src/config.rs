//! Conversion settings: scalar typing rules, structural naming rules, and
//! the per-path type-directive override table.

use vstd::prelude::*;

use crate::entries::find_key;
use crate::entries::lemma_find_key_at;
use crate::entries::lemma_find_key_props;
use crate::entries::upsert;
use crate::text::str_eq;

verus! {

/// How a childless, attribute-less, textless element is represented:
/// `Ignore` drops it, `Null` keeps it as a JSON null, `EmptyObject` keeps it
/// as `{}`. A root element that `Ignore` would drop falls back to null.
#[derive(Debug)]
pub enum NullValue {
    Ignore,
    Null,
    EmptyObject,
}

/// The rule governing how one text value is turned into a typed JSON scalar.
#[derive(Debug, PartialEq)]
pub enum JsonType {
    /// Heuristic detection: integer, then float, then boolean, else string.
    Infer,
    /// Never infer; keep the trimmed text as a string.
    AlwaysString,
    /// Like `Infer`, but numeric-looking text with a leading zero (other
    /// than the single character `0`) is kept as a string.
    StringIfLeadingZero,
    /// The value is `true` exactly when the trimmed text equals one of the
    /// listed tokens (case-sensitively), else `false`.
    Bool(Vec<String>),
}

/// A path key as stored in the override table: always with a leading `/`.
pub open spec fn normalized_path(p: Seq<char>) -> Seq<char> {
    if p.len() > 0 && p[0] == '/' {
        p
    } else {
        seq!['/'] + p
    }
}

/// Tells the converter how to perform a conversion: scalar typing, key
/// naming, and the handling of empty elements.
#[derive(Debug)]
pub struct Config {
    /// Treat numeric values with a leading zero as strings.
    pub leading_zero_as_string: bool,
    /// Prefix for attribute keys in the output.
    pub xml_attr_prefix: String,
    /// Key under which an element's own text is stored when the element is
    /// represented as an object.
    pub xml_text_node_prop_name: String,
    /// How empty elements are represented.
    pub empty_element_handling: NullValue,
    /// Structural path to type-directive overrides; keys unique, exact
    /// match only, stored with a leading `/`.
    pub json_type_overrides: Vec<(String, JsonType)>,
}

/// The override table as a mathematical key-to-directive list.
pub open spec fn overrides_entries(v: Seq<(String, JsonType)>) -> Seq<(Seq<char>, JsonType)> {
    Seq::new(v.len(), |i: int| (v[i].0@, v[i].1))
}

/// The directive in force at `path`: the stored override if one exists,
/// else the document-wide fallback `Infer`.
pub open spec fn resolved_type(overrides: Seq<(Seq<char>, JsonType)>, path: Seq<char>) -> JsonType {
    match find_key(overrides, path) {
        Option::Some(i) => overrides[i].1,
        Option::None => JsonType::Infer,
    }
}

impl Config {
    /// The override table of this configuration, as a model.
    pub open spec fn overrides_model(self) -> Seq<(Seq<char>, JsonType)> {
        overrides_entries(self.json_type_overrides@)
    }

    /// The default configuration: infer scalar types, treat leading-zero
    /// numbers as numbers, prefix attribute keys with `@`, store text under
    /// `#text`, and keep empty elements as empty objects.
    pub fn new_with_defaults() -> (c: Config)
        ensures
            c.leading_zero_as_string == false,
            c.xml_attr_prefix@ == "@"@,
            c.xml_text_node_prop_name@ == "#text"@,
            c.empty_element_handling is EmptyObject,
            c.overrides_model() =~= Seq::<(Seq<char>, JsonType)>::empty(),
    {
        Config {
            leading_zero_as_string: false,
            xml_attr_prefix: "@".to_owned(),
            xml_text_node_prop_name: "#text".to_owned(),
            empty_element_handling: NullValue::EmptyObject,
            json_type_overrides: Vec::new(),
        }
    }

    /// A configuration with the given settings and an empty override table.
    pub fn new_with_custom_values(
        leading_zero_as_string: bool,
        xml_attr_prefix: &str,
        xml_text_node_prop_name: &str,
        empty_element_handling: NullValue,
    ) -> (c: Config)
        ensures
            c.leading_zero_as_string == leading_zero_as_string,
            c.xml_attr_prefix@ == xml_attr_prefix@,
            c.xml_text_node_prop_name@ == xml_text_node_prop_name@,
            c.empty_element_handling == empty_element_handling,
            c.overrides_model() =~= Seq::<(Seq<char>, JsonType)>::empty(),
    {
        Config {
            leading_zero_as_string,
            xml_attr_prefix: xml_attr_prefix.to_owned(),
            xml_text_node_prop_name: xml_text_node_prop_name.to_owned(),
            empty_element_handling,
            json_type_overrides: Vec::new(),
        }
    }

    /// Adds one type-directive override for a structural path. A missing
    /// leading `/` is prepended before storage; a later registration for
    /// the same stored path replaces the earlier directive.
    pub fn add_json_type_override(self, path: &str, json_type: JsonType) -> (c: Config)
        ensures
            c.leading_zero_as_string == self.leading_zero_as_string,
            c.xml_attr_prefix == self.xml_attr_prefix,
            c.xml_text_node_prop_name == self.xml_text_node_prop_name,
            c.empty_element_handling == self.empty_element_handling,
            c.overrides_model() == upsert(
                self.overrides_model(),
                normalized_path(path@),
                json_type,
            ),
    {
        let mut conf = self;
        let len = path.unicode_len();
        let key: String = if len > 0 && path.get_char(0) == '/' {
            path.to_owned()
        } else {
            "/".to_owned().concat(path)
        };
        proof {
            reveal_strlit("/");
            assert(key@ =~= normalized_path(path@));
        }
        let found = find_override_index(&conf.json_type_overrides, key.as_str());
        let ghost old_model = conf.overrides_model();
        proof {
            lemma_find_key_props(old_model, key@);
        }
        match found {
            Option::Some(i) => {
                let _replaced = conf.json_type_overrides.remove(i);
                conf.json_type_overrides.insert(i, (key, json_type));
                proof {
                    assert(conf.overrides_model() =~= old_model.update(i as int, (key@, json_type)));
                }
            },
            Option::None => {
                conf.json_type_overrides.push((key, json_type));
                proof {
                    assert(conf.overrides_model() =~= old_model.push((key@, json_type)));
                }
            },
        }
        conf
    }

    /// The directive registered for exactly `path`, if any.
    pub fn get_json_type_override(&self, path: &str) -> (r: Option<&JsonType>)
        ensures
            match r {
                Option::Some(t) => find_key(self.overrides_model(), path@) matches Option::Some(i)
                    && *t == self.overrides_model()[i].1,
                Option::None => find_key(self.overrides_model(), path@) is None,
            },
    {
        match find_override_index(&self.json_type_overrides, path) {
            Option::Some(i) => {
                proof {
                    lemma_find_key_props(self.overrides_model(), path@);
                }
                Option::Some(&self.json_type_overrides[i].1)
            },
            Option::None => Option::None,
        }
    }
}

impl Default for Config {
    /// The same configuration as `new_with_defaults`.
    fn default() -> (c: Config)
        ensures
            c.leading_zero_as_string == false,
            c.xml_attr_prefix@ == "@"@,
            c.xml_text_node_prop_name@ == "#text"@,
            c.empty_element_handling is EmptyObject,
            c.overrides_model() =~= Seq::<(Seq<char>, JsonType)>::empty(),
    {
        Config::new_with_defaults()
    }
}

/// Index of the first stored override whose path is `key`, if any.
fn find_override_index(v: &Vec<(String, JsonType)>, key: &str) -> (r: Option<usize>)
    ensures
        match r {
            Option::Some(i) => find_key(overrides_entries(v@), key@) == Option::Some(i as int),
            Option::None => find_key(overrides_entries(v@), key@) is None,
        },
{
    let ghost m = overrides_entries(v@);
    let mut i: usize = 0;
    while i < v.len()
        invariant
            0 <= i <= v.len(),
            m == overrides_entries(v@),
            forall|j: int| 0 <= j < i ==> m[j].0 != key@,
        decreases v.len() - i,
    {
        if str_eq(v[i].0.as_str(), key) {
            proof {
                lemma_find_key_at(m, key@, i as int);
            }
            return Option::Some(i);
        }
        i += 1;
    }
    proof {
        lemma_find_key_props(m, key@);
    }
    Option::None
}

/// Registering an override under a path that lacks the leading `/` stores
/// the same key as registering it under the path with the `/`.
pub proof fn lemma_override_path_normalized(p: Seq<char>)
    requires
        p.len() == 0 || p[0] != '/',
    ensures
        normalized_path(p) == normalized_path(seq!['/'] + p),
{
    assert((seq!['/'] + p)[0] == '/');
}

} // verus!
