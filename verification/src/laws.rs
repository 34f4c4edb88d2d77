//! The laws of the conversion: integer classification, the leading-zero
//! rule on concrete texts, the float rule on a decimal fraction, and the
//! promotion of repeated child names to arrays.

use vstd::prelude::*;

use crate::config::Config;
use crate::config::JsonType;
use crate::convert::attr_entries_spec;
use crate::convert::child_path_spec;
use crate::convert::convert_node_spec;
use crate::convert::merge_children_spec;
use crate::convert::merge_entry;
use crate::entries::find_key;
use crate::entries::lemma_find_key_props;
use crate::entries::lemma_find_key_push_fresh;
use crate::entries::lemma_find_key_push_other;
use crate::entries::lemma_find_key_same_keys;
use crate::entries::value_at;
use crate::text::all_digits;
use crate::text::classify_spec;
use crate::text::digits_val;
use crate::text::float_lz_cond;
use crate::text::float_number_of;
use crate::text::is_digit;
use crate::text::is_u64_text;
use crate::text::lemma_trim_id;
use crate::text::lz_string_cond;
use crate::text::trim_spec;
use crate::text::u64_digits;
use crate::text::u64_text_val;
use crate::tree::XmlElement;
use crate::value::JsonModel;

verus! {

/// A text that parses as an unsigned integer without a leading zero — the
/// digit sequence is `0` itself or starts with another digit — classifies
/// as that integer under either inference directive, whatever the
/// leading-zero setting.
pub proof fn lemma_classify_plain_integer(t: Seq<char>, lz: bool, d: JsonType)
    requires
        is_u64_text(t),
        t[0] != '0' || t.len() == 1,
        d == JsonType::Infer || d == JsonType::StringIfLeadingZero,
    ensures
        classify_spec(t, lz, d) == JsonModel::Int(u64_text_val(t) as u64),
{
    let dg = u64_digits(t);
    assert(t.len() > 0);
    if t[0] == '+' {
        assert(dg == t.drop_first());
        assert(t.last() == dg.last());
        assert(is_digit(dg.last()));
    } else {
        assert(dg == t);
        assert(is_digit(t[0]));
        assert(is_digit(t.last()));
    }
    lemma_trim_id(t);
    if t[0] == '0' {
        assert(t.len() == 1);
        assert(dg == t);
        lemma_zeros_val(t);
        assert(u64_text_val(t) == 0);
        assert(!lz_string_cond(t));
    }
}

/// Every character of `s` is the digit zero, so its value is zero.
proof fn lemma_zeros_val(s: Seq<char>)
    requires
        forall|i: int| 0 <= i < s.len() ==> s[i] == '0',
    ensures
        all_digits(s),
        digits_val(s) == 0,
    decreases s.len(),
{
    if s.len() > 0 {
        lemma_zeros_val(s.drop_last());
    }
}

/// The text `0` classifies as the integer zero under either inference
/// directive, whatever the leading-zero setting.
pub proof fn lemma_classify_zero(lz: bool, d: JsonType)
    requires
        d == JsonType::Infer || d == JsonType::StringIfLeadingZero,
    ensures
        classify_spec("0"@, lz, d) == JsonModel::Int(0),
{
    reveal_strlit("0");
    let t = "0"@;
    assert(t.len() == 1 && t[0] == '0');
    lemma_trim_id(t);
    assert(u64_digits(t) == t);
    lemma_zeros_val(t);
    assert(is_u64_text(t));
    assert(!lz_string_cond(t));
}

/// The text `0000` classifies as a string when the leading-zero rule is
/// active — by the document-wide setting or by the directive — and as the
/// integer zero otherwise.
pub proof fn lemma_classify_padded_zero(lz: bool, d: JsonType)
    requires
        d == JsonType::Infer || d == JsonType::StringIfLeadingZero,
    ensures
        (lz || d is StringIfLeadingZero) ==> classify_spec("0000"@, lz, d) == JsonModel::Str(
            "0000"@,
        ),
        !lz && d is Infer ==> classify_spec("0000"@, lz, d) == JsonModel::Int(0),
{
    reveal_strlit("0000");
    let t = "0000"@;
    assert(t.len() == 4);
    assert(forall|i: int| 0 <= i < t.len() ==> t[i] == '0');
    lemma_trim_id(t);
    assert(u64_digits(t) == t);
    lemma_zeros_val(t);
    assert(is_u64_text(t));
    assert(lz_string_cond(t));
}

/// The text `0.4200`, classified under either inference directive and
/// either leading-zero setting, is the float that the trusted float parse
/// returns for it.
pub proof fn lemma_classify_decimal_fraction(lz: bool, d: JsonType, n: serde_json::Number)
    requires
        d == JsonType::Infer || d == JsonType::StringIfLeadingZero,
        float_number_of("0.4200"@) == Option::Some(n),
    ensures
        classify_spec("0.4200"@, lz, d) == JsonModel::Float(n),
{
    reveal_strlit("0.4200");
    let t = "0.4200"@;
    assert(t.len() == 6);
    assert(t[0] == '0' && t[1] == '.' && t.last() == '0');
    lemma_trim_id(t);
    assert(u64_digits(t) == t);
    assert(!is_digit(t[1]));
    assert(!all_digits(t));
    assert(!is_u64_text(t));
    assert(!float_lz_cond(t));
}

/// How one more value merges into what a key already holds: a first value
/// stands alone, an array takes the value at its end, and anything else
/// becomes the two-element array of old and new.
pub open spec fn merge_one_value(base: Option<JsonModel>, v: JsonModel) -> Option<JsonModel> {
    match base {
        Option::None => Option::Some(v),
        Option::Some(JsonModel::Array(a)) => Option::Some(JsonModel::Array(a.push(v))),
        Option::Some(x) => Option::Some(JsonModel::Array(seq![x, v])),
    }
}

/// `merge_one_value` applied over a sequence of values, left to right.
pub open spec fn combine_values(base: Option<JsonModel>, ks: Seq<JsonModel>) -> Option<JsonModel>
    decreases ks.len(),
{
    if ks.len() == 0 {
        base
    } else {
        combine_values(merge_one_value(base, ks[0]), ks.drop_first())
    }
}

/// The converted values, in document order, of the children from index
/// `i` on whose name is `n` and whose conversion is kept.
pub open spec fn kept_values(
    el: XmlElement,
    i: int,
    config: Config,
    path: Seq<char>,
    n: Seq<char>,
) -> Seq<JsonModel>
    decreases el.children@.len() - i,
{
    if i < 0 || i >= el.children@.len() {
        Seq::empty()
    } else {
        let child = el.children@[i];
        let rest = kept_values(el, i + 1, config, path, n);
        if child.name@ == n {
            match convert_node_spec(child, config, path) {
                Option::Some(v) => seq![v] + rest,
                Option::None => rest,
            }
        } else {
            rest
        }
    }
}

/// A classified text is never an array.
pub proof fn lemma_classify_not_array(text: Seq<char>, lz: bool, d: JsonType)
    ensures
        !(classify_spec(text, lz, d) is Array),
{
}

/// A converted element is never an array: arrays arise only from merging
/// repeated child names inside an object.
pub proof fn lemma_convert_not_array(el: XmlElement, config: Config, parent_path: Seq<char>)
    ensures
        convert_node_spec(el, config, parent_path) matches Some(v) ==> !(v is Array),
{
    let path = child_path_spec(parent_path, el.name@);
    lemma_classify_not_array(
        el.text@,
        config.leading_zero_as_string,
        crate::config::resolved_type(config.overrides_model(), path),
    );
}

/// Merging a value under `n` changes the entry of `n` as
/// `merge_one_value` states.
pub proof fn lemma_merge_entry_same(m: Seq<(Seq<char>, JsonModel)>, n: Seq<char>, v: JsonModel)
    ensures
        value_at(merge_entry(m, n, v), n) == merge_one_value(value_at(m, n), v),
{
    lemma_find_key_props(m, n);
    match find_key(m, n) {
        Option::Some(i) => {
            let m2 = merge_entry(m, n, v);
            assert(m2.len() == m.len());
            assert(forall|j: int| 0 <= j < m.len() ==> m2[j].0 == m[j].0);
            lemma_find_key_same_keys(m, m2, n);
        },
        Option::None => {
            lemma_find_key_push_fresh(m, (n, v));
        },
    }
}

/// Merging a value under another name leaves the entry of `n` unchanged.
pub proof fn lemma_merge_entry_other(
    m: Seq<(Seq<char>, JsonModel)>,
    name: Seq<char>,
    v: JsonModel,
    n: Seq<char>,
)
    requires
        name != n,
    ensures
        value_at(merge_entry(m, name, v), n) == value_at(m, n),
{
    lemma_find_key_props(m, name);
    match find_key(m, name) {
        Option::Some(i) => {
            let m2 = merge_entry(m, name, v);
            assert(m2.len() == m.len());
            assert(forall|j: int| 0 <= j < m.len() ==> m2[j].0 == m[j].0);
            lemma_find_key_same_keys(m, m2, n);
            lemma_find_key_props(m, n);
            match find_key(m, n) {
                Option::Some(j) => {
                    assert(m[j].0 == n);
                    assert(m[i].0 == name);
                    assert(j != i);
                    assert(m2[j] == m[j]);
                    assert(value_at(m2, n) == Option::Some(m[j].1));
                    assert(value_at(m, n) == Option::Some(m[j].1));
                },
                Option::None => {
                    assert(find_key(m2, n) is None);
                    assert(value_at(m2, n) is None);
                },
            }
        },
        Option::None => {
            lemma_find_key_push_other(m, (name, v), n);
            lemma_find_key_props(m, n);
            match find_key(m, n) {
                Option::Some(j) => {
                    assert(m.push((name, v))[j] == m[j]);
                },
                Option::None => {},
            }
        },
    }
}

/// What merging the children leaves under `n`: the starting entry of `n`
/// combined, in document order, with the kept converted values of the
/// children named `n`.
pub proof fn lemma_merge_children_value_at(
    el: XmlElement,
    i: int,
    obj: Seq<(Seq<char>, JsonModel)>,
    config: Config,
    path: Seq<char>,
    n: Seq<char>,
)
    requires
        0 <= i <= el.children@.len(),
    ensures
        value_at(merge_children_spec(el, i, obj, config, path), n) == combine_values(
            value_at(obj, n),
            kept_values(el, i, config, path, n),
        ),
    decreases el.children@.len() - i,
{
    if i == el.children@.len() {
    } else {
        let child = el.children@[i];
        let ks = kept_values(el, i, config, path, n);
        let rest = kept_values(el, i + 1, config, path, n);
        match convert_node_spec(child, config, path) {
            Option::Some(v) => {
                let obj2 = merge_entry(obj, child.name@, v);
                lemma_merge_children_value_at(el, i + 1, obj2, config, path, n);
                if child.name@ == n {
                    lemma_merge_entry_same(obj, n, v);
                    assert(ks == seq![v] + rest);
                    assert(ks[0] == v);
                    assert(ks.drop_first() =~= rest);
                } else {
                    lemma_merge_entry_other(obj, child.name@, v, n);
                    assert(ks == rest);
                }
            },
            Option::None => {
                lemma_merge_children_value_at(el, i + 1, obj, config, path, n);
                assert(ks == rest);
            },
        }
    }
}

/// Combining values onto an existing array appends them all.
proof fn lemma_combine_from_array(a: Seq<JsonModel>, ks: Seq<JsonModel>)
    ensures
        combine_values(Option::Some(JsonModel::Array(a)), ks) == Option::Some(
            JsonModel::Array(a + ks),
        ),
    decreases ks.len(),
{
    if ks.len() == 0 {
        assert(a + ks =~= a);
    } else {
        lemma_combine_from_array(a.push(ks[0]), ks.drop_first());
        assert(a.push(ks[0]) + ks.drop_first() =~= a + ks);
    }
}

/// Combining values onto an absent entry: none leaves it absent, one
/// stands alone, two or more form exactly the array of all of them.
pub proof fn lemma_combine_fresh(ks: Seq<JsonModel>)
    requires
        ks.len() >= 1 ==> !(ks[0] is Array),
    ensures
        ks.len() == 0 ==> combine_values(Option::None, ks) is None,
        ks.len() == 1 ==> combine_values(Option::None, ks) == Option::Some(ks[0]),
        ks.len() >= 2 ==> combine_values(Option::None, ks) == Option::Some(JsonModel::Array(ks)),
{
    if ks.len() == 1 {
        let rest = ks.drop_first();
        assert(rest.len() == 0);
        assert(merge_one_value(Option::None, ks[0]) == Option::Some(ks[0]));
        assert(combine_values(Option::None, ks) == combine_values(Option::Some(ks[0]), rest));
        assert(combine_values(Option::Some(ks[0]), rest) == Option::Some(ks[0]));
    } else if ks.len() >= 2 {
        let rest = ks.drop_first();
        assert(rest[0] == ks[1]);
        assert(combine_values(Option::None, ks) == combine_values(Option::Some(ks[0]), rest));
        assert(merge_one_value(Option::Some(ks[0]), rest[0]) == Option::Some(
            JsonModel::Array(seq![ks[0], rest[0]]),
        ));
        assert(combine_values(Option::Some(ks[0]), rest) == combine_values(
            Option::Some(JsonModel::Array(seq![ks[0], rest[0]])),
            rest.drop_first(),
        ));
        lemma_combine_from_array(seq![ks[0], rest[0]], rest.drop_first());
        assert(seq![ks[0], rest[0]] + rest.drop_first() =~= ks);
    }
}

/// Every kept child value is a converted element, so never an array.
pub proof fn lemma_kept_values_not_array(
    el: XmlElement,
    i: int,
    config: Config,
    path: Seq<char>,
    n: Seq<char>,
)
    requires
        0 <= i <= el.children@.len(),
    ensures
        forall|j: int|
            0 <= j < kept_values(el, i, config, path, n).len() ==> !(kept_values(
                el,
                i,
                config,
                path,
                n,
            )[j] is Array),
    decreases el.children@.len() - i,
{
    if i < el.children@.len() {
        let child = el.children@[i];
        let ks = kept_values(el, i, config, path, n);
        let rest = kept_values(el, i + 1, config, path, n);
        lemma_kept_values_not_array(el, i + 1, config, path, n);
        lemma_convert_not_array(child, config, path);
        if child.name@ == n {
            match convert_node_spec(child, config, path) {
                Option::Some(v) => {
                    assert(forall|j: int| 0 <= j < rest.len() ==> ks[j + 1] == rest[j]);
                },
                Option::None => {},
            }
        }
    }
}

/// A conversion drops an element only under the `Ignore` policy: under
/// either other empty-element policy every element converts to a value.
pub proof fn lemma_convert_keeps_all(el: XmlElement, config: Config, parent_path: Seq<char>)
    requires
        !(config.empty_element_handling is Ignore),
    ensures
        convert_node_spec(el, config, parent_path) is Some,
{
}

/// The number of children from index `i` on whose name is `n`.
pub open spec fn name_count(children: Seq<XmlElement>, i: int, n: Seq<char>) -> int
    decreases children.len() - i,
{
    if i < 0 || i >= children.len() {
        0
    } else {
        (if children[i].name@ == n {
            1int
        } else {
            0int
        }) + name_count(children, i + 1, n)
    }
}

/// Under a policy that keeps every element, a name's kept values are one
/// per occurrence of the name among the children.
pub proof fn lemma_kept_values_count(
    el: XmlElement,
    i: int,
    config: Config,
    path: Seq<char>,
    n: Seq<char>,
)
    requires
        0 <= i <= el.children@.len(),
        !(config.empty_element_handling is Ignore),
    ensures
        kept_values(el, i, config, path, n).len() == name_count(el.children@, i, n),
    decreases el.children@.len() - i,
{
    if i < el.children@.len() {
        lemma_convert_keeps_all(el.children@[i], config, path);
        lemma_kept_values_count(el, i + 1, config, path, n);
    }
}

/// Promotion of repeated child names to arrays, for an element without
/// text and a name that no attribute entry of the element uses: a name
/// kept exactly once holds that single converted value — never an array —
/// a name kept two or more times holds exactly the array of all its
/// converted values in document order, and a name never kept has no
/// entry. When at least one child is kept, the element itself converts to
/// the merged object.
pub proof fn lemma_child_array_promotion(
    el: XmlElement,
    config: Config,
    parent_path: Seq<char>,
    n: Seq<char>,
)
    requires
        trim_spec(el.text@).len() == 0,
        value_at(
            attr_entries_spec(el.attrs@, config, child_path_spec(parent_path, el.name@)),
            n,
        ) is None,
    ensures
        ({
            let path = child_path_spec(parent_path, el.name@);
            let attrs = attr_entries_spec(el.attrs@, config, path);
            let obj = merge_children_spec(el, 0, attrs, config, path);
            let ks = kept_values(el, 0, config, path, n);
            &&& ks.len() == 0 ==> value_at(obj, n) is None
            &&& ks.len() == 1 ==> value_at(obj, n) == Option::Some(ks[0]) && !(ks[0] is Array)
            &&& ks.len() >= 2 ==> value_at(obj, n) == Option::Some(JsonModel::Array(ks))
            &&& ks.len() >= 1 ==> convert_node_spec(el, config, parent_path) == Option::Some(
                JsonModel::Object(obj),
            )
        }),
{
    let path = child_path_spec(parent_path, el.name@);
    let attrs = attr_entries_spec(el.attrs@, config, path);
    let obj = merge_children_spec(el, 0, attrs, config, path);
    let ks = kept_values(el, 0, config, path, n);
    lemma_merge_children_value_at(el, 0, attrs, config, path, n);
    lemma_kept_values_not_array(el, 0, config, path, n);
    lemma_combine_fresh(ks);
    if ks.len() >= 1 {
        lemma_find_key_props(obj, n);
        assert(obj.len() > 0);
    }
}

} // verus!
