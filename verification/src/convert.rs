//! The recursive conversion of an element tree into a JSON value: path
//! building, attribute and text-node entries, and the promotion of repeated
//! child names to arrays.

use vstd::prelude::*;

use crate::config::Config;
use crate::config::JsonType;
use crate::config::NullValue;
use crate::config::resolved_type;
use crate::entries::find_key;
use crate::entries::lemma_find_key_at;
use crate::entries::lemma_find_key_props;
use crate::entries::upsert;
use crate::text::classify_spec;
use crate::text::parse_text;
use crate::text::str_eq;
use crate::text::trim_spec;
use crate::text::trim_str;
use crate::tree::XmlElement;
use crate::value::JsonModel;
use crate::value::JsonValue;
use crate::value::lemma_array_models_props;
use crate::value::lemma_object_models_props;
use crate::value::object_model;
use crate::value::option_model;

verus! {

/// The structural path of an element under `parent`: the parent path, a
/// `/`, and the element's name.
pub open spec fn child_path_spec(parent: Seq<char>, name: Seq<char>) -> Seq<char> {
    parent + seq!['/'] + name
}

/// The structural path of an attribute of the element at `el_path`: the
/// element's path, `/@`, and the attribute's name.
pub open spec fn attr_path_spec(el_path: Seq<char>, attr: Seq<char>) -> Seq<char> {
    el_path + seq!['/', '@'] + attr
}

/// The object key of an attribute: the configured prefix, then the name.
pub open spec fn attr_key_spec(config: Config, name: Seq<char>) -> Seq<char> {
    config.xml_attr_prefix@ + name
}

/// The object entries that the attributes of an element contribute, in
/// order: each attribute value classified under the directive resolved at
/// the attribute's own path, stored under the prefixed name. A repeated
/// key keeps its first position and takes the later value.
pub open spec fn attr_entries_spec(
    attrs: Seq<(String, String)>,
    config: Config,
    el_path: Seq<char>,
) -> Seq<(Seq<char>, JsonModel)>
    decreases attrs.len(),
{
    if attrs.len() == 0 {
        Seq::empty()
    } else {
        let name = attrs.last().0@;
        let apath = attr_path_spec(el_path, name);
        let d = resolved_type(config.overrides_model(), apath);
        upsert(
            attr_entries_spec(attrs.drop_last(), config, el_path),
            attr_key_spec(config, name),
            classify_spec(attrs.last().1@, config.leading_zero_as_string, d),
        )
    }
}

/// Merge one converted child into an object: a new name is appended; a name
/// already holding an array has the value appended to it; a name holding
/// anything else is replaced, in place, by the two-element array of the old
/// and the new value.
pub open spec fn merge_entry(
    m: Seq<(Seq<char>, JsonModel)>,
    name: Seq<char>,
    val: JsonModel,
) -> Seq<(Seq<char>, JsonModel)> {
    match find_key(m, name) {
        Option::Some(i) => match m[i].1 {
            JsonModel::Array(a) => m.update(i, (m[i].0, JsonModel::Array(a.push(val)))),
            _ => m.update(i, (m[i].0, JsonModel::Array(seq![m[i].1, val]))),
        },
        Option::None => m.push((name, val)),
    }
}

/// The conversion of one element at `parent_path`. An element with
/// non-blank text becomes either its classified text alone or, if it has
/// attributes, an object of the attribute entries plus the text under the
/// configured text key. An element without text becomes the object of its
/// attribute entries and its converted children merged in document order;
/// if that object is empty, the empty-element policy decides between `{}`,
/// null, and dropping the element.
pub open spec fn convert_node_spec(
    el: XmlElement,
    config: Config,
    parent_path: Seq<char>,
) -> Option<JsonModel>
    decreases el, 1int, 0int,
{
    let path = child_path_spec(parent_path, el.name@);
    let d = resolved_type(config.overrides_model(), path);
    if trim_spec(el.text@).len() > 0 {
        if el.attrs@.len() > 0 {
            Option::Some(
                JsonModel::Object(
                    upsert(
                        attr_entries_spec(el.attrs@, config, path),
                        config.xml_text_node_prop_name@,
                        classify_spec(el.text@, config.leading_zero_as_string, d),
                    ),
                ),
            )
        } else {
            Option::Some(classify_spec(el.text@, config.leading_zero_as_string, d))
        }
    } else {
        let obj = merge_children_spec(el, 0, attr_entries_spec(el.attrs@, config, path), config, path);
        if obj.len() > 0 {
            Option::Some(JsonModel::Object(obj))
        } else {
            match config.empty_element_handling {
                NullValue::Null => Option::Some(JsonModel::Null),
                NullValue::EmptyObject => Option::Some(JsonModel::Object(obj)),
                NullValue::Ignore => Option::None,
            }
        }
    }
}

/// The object of an element's children from index `i` on merged into
/// `obj`, in document order; a child whose conversion is dropped adds
/// nothing.
pub open spec fn merge_children_spec(
    el: XmlElement,
    i: int,
    obj: Seq<(Seq<char>, JsonModel)>,
    config: Config,
    path: Seq<char>,
) -> Seq<(Seq<char>, JsonModel)>
    decreases el, 0int, el.children@.len() - i,
{
    if i < 0 || i >= el.children@.len() {
        obj
    } else {
        proof {
            assert(decreases_to!(el => el.children));
            assert(decreases_to!(el.children => el.children@));
            assert(decreases_to!(el.children@ => el.children@[i]));
        }
        let child = el.children@[i];
        let obj2 = match convert_node_spec(child, config, path) {
            Option::Some(v) => merge_entry(obj, child.name@, v),
            Option::None => obj,
        };
        merge_children_spec(el, i + 1, obj2, config, path)
    }
}

/// The conversion of a whole document: the root element's conversion (or
/// null, where the policy dropped it) under the single key given by the
/// root element's name.
pub open spec fn xml_to_map_spec(el: XmlElement, config: Config) -> JsonModel {
    let root = match convert_node_spec(el, config, Seq::empty()) {
        Option::Some(v) => v,
        Option::None => JsonModel::Null,
    };
    JsonModel::Object(seq![(el.name@, root)])
}

/// The structural path of an element under `parent`.
fn child_path(parent: &str, name: &str) -> (r: String)
    ensures
        r@ == child_path_spec(parent@, name@),
{
    let mut p = parent.to_owned();
    p.append("/");
    p.append(name);
    proof {
        reveal_strlit("/");
        assert(p@ =~= child_path_spec(parent@, name@));
    }
    p
}

/// The structural path of an attribute of the element at `el_path`.
fn attr_path(el_path: &str, attr: &str) -> (r: String)
    ensures
        r@ == attr_path_spec(el_path@, attr@),
{
    let mut p = el_path.to_owned();
    p.append("/@");
    p.append(attr);
    proof {
        reveal_strlit("/@");
        assert(p@ =~= attr_path_spec(el_path@, attr@));
    }
    p
}

/// Index of the first entry of `obj` whose key is `key`, if any.
fn find_entry_index(obj: &Vec<(String, JsonValue)>, key: &str) -> (r: Option<usize>)
    ensures
        match r {
            Option::Some(i) => find_key(object_model(*obj), key@) == Option::Some(i as int),
            Option::None => find_key(object_model(*obj), key@) is None,
        },
{
    proof {
        lemma_object_models_props(*obj, 0);
    }
    let ghost m = object_model(*obj);
    let mut i: usize = 0;
    while i < obj.len()
        invariant
            0 <= i <= obj@.len(),
            m == object_model(*obj),
            m.len() == obj@.len(),
            forall|j: int| 0 <= j < obj@.len() ==> m[j] == (obj@[j].0@, obj@[j].1.model()),
            forall|j: int| 0 <= j < i ==> m[j].0 != key@,
        decreases obj@.len() - i,
    {
        if str_eq(obj[i].0.as_str(), key) {
            proof {
                lemma_find_key_at(m, key@, i as int);
            }
            return Option::Some(i);
        }
        i += 1;
    }
    proof {
        lemma_find_key_props(m, key@);
    }
    Option::None
}

/// Store `val` under `key` in the object, replacing the value of an
/// existing key in place.
fn insert_entry(obj: &mut Vec<(String, JsonValue)>, key: String, val: JsonValue)
    ensures
        object_model(*final(obj)) == upsert(object_model(*old(obj)), key@, val.model()),
{
    proof {
        lemma_object_models_props(*obj, 0);
    }
    let ghost m = object_model(*old(obj));
    match find_entry_index(obj, key.as_str()) {
        Option::Some(i) => {
            proof {
                lemma_find_key_props(m, key@);
            }
            let _replaced = obj.remove(i);
            obj.insert(i, (key, val));
            proof {
                lemma_object_models_props(*obj, 0);
                assert(object_model(*obj) =~= m.update(i as int, (key@, val.model())));
            }
        },
        Option::None => {
            obj.push((key, val));
            proof {
                lemma_object_models_props(*obj, 0);
                assert(object_model(*obj) =~= m.push((key@, val.model())));
            }
        },
    }
}

/// Merge one converted child value into the object, as `merge_entry`
/// states.
fn merge_child_entry(obj: &mut Vec<(String, JsonValue)>, name: String, val: JsonValue)
    ensures
        object_model(*final(obj)) == merge_entry(object_model(*old(obj)), name@, val.model()),
{
    proof {
        lemma_object_models_props(*obj, 0);
    }
    let ghost m = object_model(*old(obj));
    match find_entry_index(obj, name.as_str()) {
        Option::Some(i) => {
            proof {
                lemma_find_key_props(m, name@);
            }
            let (k, existing) = obj.remove(i);
            match existing {
                JsonValue::Array(mut a) => {
                    proof {
                        lemma_array_models_props(a, 0);
                    }
                    a.push(val);
                    proof {
                        lemma_array_models_props(a, 0);
                    }
                    obj.insert(i, (k, JsonValue::Array(a)));
                    proof {
                        lemma_object_models_props(*obj, 0);
                        assert(JsonValue::Array(a).model() matches JsonModel::Array(s) && (
                        m[i as int].1 matches JsonModel::Array(s0) && s =~= s0.push(val.model())));
                        assert(object_model(*obj) =~= merge_entry(m, name@, val.model()));
                    }
                },
                other => {
                    let two: Vec<JsonValue> = vec![other, val];
                    proof {
                        lemma_array_models_props(two, 0);
                    }
                    obj.insert(i, (k, JsonValue::Array(two)));
                    proof {
                        lemma_object_models_props(*obj, 0);
                        assert(JsonValue::Array(two).model() matches JsonModel::Array(s) && s =~=
                        seq![m[i as int].1, val.model()]);
                        assert(object_model(*obj) =~= merge_entry(m, name@, val.model()));
                    }
                },
            }
        },
        Option::None => {
            obj.push((name, val));
            proof {
                lemma_object_models_props(*obj, 0);
                assert(object_model(*obj) =~= m.push((name@, val.model())));
            }
        },
    }
}

/// The object entries contributed by the attributes, as
/// `attr_entries_spec` states.
fn convert_attrs(attrs: &Vec<(String, String)>, config: &Config, el_path: &str) -> (obj: Vec<
    (String, JsonValue),
>)
    ensures
        object_model(obj) == attr_entries_spec(attrs@, *config, el_path@),
{
    let mut obj: Vec<(String, JsonValue)> = Vec::new();
    proof {
        lemma_object_models_props(obj, 0);
        assert(object_model(obj) =~= attr_entries_spec(attrs@.take(0), *config, el_path@));
    }
    let mut i: usize = 0;
    while i < attrs.len()
        invariant
            0 <= i <= attrs@.len(),
            object_model(obj) == attr_entries_spec(attrs@.take(i as int), *config, el_path@),
        decreases attrs@.len() - i,
    {
        let key = config.xml_attr_prefix.clone().concat(attrs[i].0.as_str());
        let apath = attr_path(el_path, attrs[i].0.as_str());
        let resolved = config.get_json_type_override(apath.as_str());
        let infer = JsonType::Infer;
        let jt: &JsonType = match resolved {
            Option::Some(t) => t,
            Option::None => &infer,
        };
        proof {
            assert(*jt == resolved_type(config.overrides_model(), apath@));
        }
        let v = parse_text(attrs[i].1.as_str(), config.leading_zero_as_string, jt);
        insert_entry(&mut obj, key, v);
        proof {
            assert(attrs@.take(i + 1).drop_last() =~= attrs@.take(i as int));
            assert(attrs@.take(i + 1).last() == attrs@[i as int]);
        }
        i += 1;
    }
    proof {
        assert(attrs@.take(attrs@.len() as int) =~= attrs@);
    }
    obj
}

/// Convert one element at `path`, as `convert_node_spec` states.
pub fn convert_node(el: &XmlElement, config: &Config, path: &str) -> (r: Option<JsonValue>)
    ensures
        option_model(r) == convert_node_spec(*el, *config, path@),
    decreases *el,
{
    let path_ex = child_path(path, el.name.as_str());
    let resolved = config.get_json_type_override(path_ex.as_str());
    let infer = JsonType::Infer;
    let jt: &JsonType = match resolved {
        Option::Some(t) => t,
        Option::None => &infer,
    };
    proof {
        assert(*jt == resolved_type(config.overrides_model(), path_ex@));
    }
    let trimmed = trim_str(el.text.as_str());
    if trimmed.as_str().unicode_len() > 0 {
        if el.attrs.len() > 0 {
            let mut obj = convert_attrs(&el.attrs, config, path_ex.as_str());
            let tv = parse_text(el.text.as_str(), config.leading_zero_as_string, jt);
            insert_entry(&mut obj, config.xml_text_node_prop_name.clone(), tv);
            Option::Some(JsonValue::Object(obj))
        } else {
            Option::Some(parse_text(el.text.as_str(), config.leading_zero_as_string, jt))
        }
    } else {
        let mut obj = convert_attrs(&el.attrs, config, path_ex.as_str());
        let ghost attrs_model = object_model(obj);
        let mut k: usize = 0;
        while k < el.children.len()
            invariant
                0 <= k <= el.children@.len(),
                merge_children_spec(*el, k as int, object_model(obj), *config, path_ex@)
                    == merge_children_spec(*el, 0, attrs_model, *config, path_ex@),
            decreases el.children@.len() - k,
        {
            let ghost obj_before = object_model(obj);
            proof {
                assert(decreases_to!(*el => el.children));
                assert(decreases_to!(el.children => el.children@));
                assert(decreases_to!(el.children@ => el.children@[k as int]));
            }
            let child = &el.children[k];
            let cv = convert_node(child, config, path_ex.as_str());
            match cv {
                Option::Some(v) => {
                    let cname = child.name.clone();
                    merge_child_entry(&mut obj, cname, v);
                },
                Option::None => {},
            }
            proof {
                assert(merge_children_spec(*el, k as int, obj_before, *config, path_ex@)
                    == merge_children_spec(*el, k as int + 1, object_model(obj), *config, path_ex@));
            }
            k += 1;
        }
        if obj.len() > 0 {
            proof {
                lemma_object_models_props(obj, 0);
            }
            Option::Some(JsonValue::Object(obj))
        } else {
            proof {
                lemma_object_models_props(obj, 0);
            }
            match config.empty_element_handling {
                NullValue::Null => Option::Some(JsonValue::Null),
                NullValue::EmptyObject => Option::Some(JsonValue::Object(obj)),
                NullValue::Ignore => Option::None,
            }
        }
    }
}

/// Convert a whole document: the root element's conversion, or null where
/// the policy dropped it, under the single key given by the root's name.
pub fn xml_to_map(el: &XmlElement, config: &Config) -> (r: JsonValue)
    ensures
        r.model() == xml_to_map_spec(*el, *config),
{
    proof {
        reveal_strlit("");
        assert(""@ =~= Seq::<char>::empty());
    }
    let converted = convert_node(el, config, "");
    let val = match converted {
        Option::Some(v) => v,
        Option::None => JsonValue::Null,
    };
    let mut data: Vec<(String, JsonValue)> = Vec::new();
    data.push((el.name.clone(), val));
    proof {
        lemma_object_models_props(data, 0);
        assert(object_model(data) =~= seq![(el.name@, val.model())]);
    }
    JsonValue::Object(data)
}

} // verus!
