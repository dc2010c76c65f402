//! Reading a config layer from JSON text, and loading the two layers.
use vstd::prelude::*;
use crate::config::{
    ConfigTree, ConfigValue, merge_layers, overlay_lookup, layer_entries, lookup, vlookup, vlookup_over,
    entry_views, keys_distinct, lemma_lookup_views, has_key,
};

verus! {

#[verifier::external_type_specification]
#[verifier::external_body]
pub struct ExJsonValue(serde_json::Value);

/// The members of the JSON object that a text holds, each value as a
/// `ConfigValue`; none where the text is no valid JSON or holds no object.
pub uninterp spec fn json_object_members(text: Seq<char>) -> Option<Seq<(Seq<char>, ConfigValue)>>;

/// Relies on `serde_json::from_str` into a `Value`, and on iterating the
/// object's `Map`, which is ordered by key and holds each key once.
#[verifier::external_body]
fn object_members_of(text: &str) -> (r: Option<Vec<(String, ConfigValue)>>)
    ensures
        match r {
            Some(m) => json_object_members(text@) == Some(entry_views(m@)) && keys_distinct(m@),
            None => json_object_members(text@) is None,
        },
{
    match serde_json::from_str::<serde_json::Value>(text) {
        Ok(serde_json::Value::Object(m)) => Some(m.into_iter().map(|(k, v)| (k, config_value_of(v))).collect()),
        _ => None,
    }
}

/// Relies on `serde_json::Value`'s variants: the kind of a member's value,
/// with a string's text and an array's string items.
#[verifier::external_body]
fn config_value_of(v: serde_json::Value) -> (r: ConfigValue) {
    match v {
        serde_json::Value::Null => ConfigValue::Null,
        serde_json::Value::Bool(b) => ConfigValue::Bool(b),
        serde_json::Value::Number(_) => ConfigValue::Number,
        serde_json::Value::String(s) => ConfigValue::Str(s),
        serde_json::Value::Array(a) => ConfigValue::Array(a.into_iter().map(|i| match i {
            serde_json::Value::String(s) => Some(s),
            _ => None,
        }).collect()),
        serde_json::Value::Object(_) => ConfigValue::Object,
    }
}

/// The entries of a layer given by its text: the members of the JSON
/// object it holds; none where it is absent, no valid JSON or no object.
pub open spec fn text_layer(text: Option<String>) -> Seq<(Seq<char>, ConfigValue)> {
    match text {
        Some(t) => match json_object_members(t@) {
            Some(m) => m,
            None => Seq::empty(),
        },
        None => Seq::empty(),
    }
}

/// Reads a config layer from its text: a tree of its members where the text
/// is a JSON object, none otherwise.
pub fn parse_config_layer(text: &str) -> (r: Option<ConfigTree>)
    ensures
        r is None <==> json_object_members(text@) is None,
        r matches Some(t) ==> t.wf() && forall|k: Seq<char>| #[trigger] t.spec_get(k) == vlookup(
            json_object_members(text@).unwrap(),
            k,
        ),
{
    match object_members_of(text) {
        Some(members) => {
            let t = ConfigTree { entries: members };
            proof {
                assert forall|k: Seq<char>| #[trigger] t.spec_get(k) == vlookup(
                    json_object_members(text@).unwrap(),
                    k,
                ) by {
                    lemma_lookup_views(t.entries@, k);
                }
            }
            Some(t)
        },
        None => None,
    }
}

/// The tree of a layer given by its text, if the text is there and holds a
/// JSON object.
fn read_layer(text: &Option<String>) -> (r: Option<ConfigTree>)
    ensures
        r matches Some(t) ==> t.wf(),
        forall|k: Seq<char>| #[trigger] lookup(layer_entries(r), k) == vlookup(text_layer(*text), k),
{
    let r = match text {
        Some(t) => parse_config_layer(t.as_str()),
        None => None,
    };
    proof {
        assert forall|k: Seq<char>| #[trigger] lookup(layer_entries(r), k) == vlookup(
            text_layer(*text),
            k,
        ) by {
            if let Some(tree) = r {
                assert(lookup(layer_entries(r), k) == tree.spec_get(k));
            } else {
                assert(!has_key(layer_entries(r), k));
                assert(text_layer(*text) =~= Seq::<(Seq<char>, ConfigValue)>::empty());
            }
        }
    }
    r
}

/// Loads the configuration from the texts of the user layer and the project
/// layer, each absent where it could not be read. A layer whose text is no
/// JSON object counts as empty; the project layer's keys override the user
/// layer's, and keys of one layer alone keep their values.
pub fn load_config(user_text: Option<String>, project_text: Option<String>) -> (r: ConfigTree)
    ensures
        r.wf(),
        forall|k: Seq<char>| #[trigger] r.spec_get(k) == vlookup_over(
            text_layer(user_text),
            text_layer(project_text),
            k,
        ),
{
    let user = read_layer(&user_text);
    let project = read_layer(&project_text);
    let r = merge_layers(user, project);
    proof {
        assert forall|k: Seq<char>| #[trigger] r.spec_get(k) == vlookup_over(
            text_layer(user_text),
            text_layer(project_text),
            k,
        ) by {
            assert(r.spec_get(k) == overlay_lookup(layer_entries(user), layer_entries(project), k));
            assert(lookup(layer_entries(user), k) == vlookup(text_layer(user_text), k));
            assert(lookup(layer_entries(project), k) == vlookup(text_layer(project_text), k));
        }
    }
    r
}

} // verus!
