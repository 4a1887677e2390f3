//! Reading the Battle.net configuration, a JSON document: whether more than
//! one client may run at once, and which account names it remembers.
use vstd::prelude::*;

use crate::switcher::BattleNetCore;
use crate::text::{
    account_names, is_blank, lemma_nonblank_trimmed, lowered, same_text, split_account_names,
    split_fields, string_views, trimmed, trimmed_lowercase,
};

verus! {

#[verifier::external_type_specification]
#[verifier::external_body]
pub struct ExJsonValue(serde_json::Value);

/// A JSON value as the switcher reads it. Numbers are not looked into, so
/// only their kind is kept; an object's entries stand in the order in which
/// its map yields them.
pub enum JsonTree {
    Null,
    Bool(bool),
    Number,
    Text(Seq<char>),
    Array(Seq<JsonTree>),
    Object(Seq<(Seq<char>, JsonTree)>),
}

/// What a `serde_json::Value` holds.
pub uninterp spec fn json_tree(value: serde_json::Value) -> JsonTree;

/// What `serde_json::from_str::<serde_json::Value>` makes of a text: the
/// value it parses, or nothing when it refuses the text.
pub uninterp spec fn json_document(content: Seq<char>) -> Option<JsonTree>;

// ---------------------------------------------------------------------------
// Specifications
// ---------------------------------------------------------------------------

/// The value stored under `key` in an object's entries (the first entry with
/// that key; a JSON map holds each key once).
pub open spec fn entry_value(entries: Seq<(Seq<char>, JsonTree)>, key: Seq<char>) -> Option<
    JsonTree,
>
    decreases entries.len(),
{
    if entries.len() == 0 {
        None
    } else if entries[0].0 == key {
        Some(entries[0].1)
    } else {
        entry_value(entries.drop_first(), key)
    }
}

pub open spec fn entry_values(entries: Seq<(Seq<char>, JsonTree)>) -> Seq<JsonTree> {
    Seq::new(entries.len(), |i: int| entries[i].1)
}

/// The values directly inside a tree: an object's entry values, an array's
/// items, nothing otherwise.
pub open spec fn tree_children(t: JsonTree) -> Seq<JsonTree> {
    match t {
        JsonTree::Object(entries) => entry_values(entries),
        JsonTree::Array(items) => items,
        _ => Seq::<JsonTree>::empty(),
    }
}

pub open spec fn object_values_of(t: JsonTree) -> Option<Seq<JsonTree>> {
    match t {
        JsonTree::Object(entries) => Some(entry_values(entries)),
        _ => None,
    }
}

pub open spec fn array_items_of(t: JsonTree) -> Option<Seq<JsonTree>> {
    match t {
        JsonTree::Array(items) => Some(items),
        _ => None,
    }
}

/// A depth-first search for `key`: an object that holds `key` answers with
/// `pick` applied to the value stored there; otherwise the first of its
/// values (or of an array's items) that answers gives the answer.
pub open spec fn find_key<A>(t: JsonTree, key: Seq<char>, pick: spec_fn(JsonTree) -> Option<A>) -> Option<A>
    decreases t,
{
    match t {
        JsonTree::Object(entries) => match entry_value(entries, key) {
            Some(v) => pick(v),
            None => find_key_in_entries(entries, key, pick),
        },
        JsonTree::Array(items) => find_key_in_items(items, key, pick),
        _ => None,
    }
}

pub open spec fn find_key_in_entries<A>(
    entries: Seq<(Seq<char>, JsonTree)>,
    key: Seq<char>,
    pick: spec_fn(JsonTree) -> Option<A>,
) -> Option<A>
    decreases entries,
{
    if entries.len() == 0 {
        None
    } else {
        match find_key(entries[0].1, key, pick) {
            Some(v) => Some(v),
            None => find_key_in_entries(entries.subrange(1, entries.len() as int), key, pick),
        }
    }
}

pub open spec fn find_key_in_items<A>(
    items: Seq<JsonTree>,
    key: Seq<char>,
    pick: spec_fn(JsonTree) -> Option<A>,
) -> Option<A>
    decreases items,
{
    if items.len() == 0 {
        None
    } else {
        match find_key(items[0], key, pick) {
            Some(v) => Some(v),
            None => find_key_in_items(items.subrange(1, items.len() as int), key, pick),
        }
    }
}

/// A flag written either as a JSON boolean or as the text `true` or
/// `false`, in any ASCII case and with white space around it.
pub open spec fn boolish(t: JsonTree) -> Option<bool> {
    match t {
        JsonTree::Bool(b) => Some(b),
        JsonTree::Text(s) => if lowered(trimmed(s)) == "true"@ {
            Some(true)
        } else if lowered(trimmed(s)) == "false"@ {
            Some(false)
        } else {
            None
        },
        _ => None,
    }
}

pub open spec fn pick_boolish() -> spec_fn(JsonTree) -> Option<bool> {
    |v: JsonTree| boolish(v)
}

pub open spec fn pick_value() -> spec_fn(JsonTree) -> Option<JsonTree> {
    |v: JsonTree| Some(v)
}

/// The `SingleInstance` setting found in a configuration: the first
/// `SingleInstance` entry, searched depth first, that reads as a flag.
pub open spec fn single_instance_in(t: JsonTree) -> Option<bool> {
    find_key(t, "SingleInstance"@, pick_boolish())
}

/// The first `SavedAccountNames` entry found depth first.
pub open spec fn saved_names_in(t: JsonTree) -> Option<JsonTree> {
    find_key(t, "SavedAccountNames"@, pick_value())
}

/// The account names held by the items of a JSON array: each text item's
/// names, in order; other items hold none.
pub open spec fn names_in_items(items: Seq<JsonTree>) -> Seq<Seq<char>>
    decreases items.len(),
{
    if items.len() == 0 {
        Seq::<Seq<char>>::empty()
    } else {
        names_in_items(items.drop_last()) + match items.last() {
            JsonTree::Text(s) => account_names(s),
            _ => Seq::<Seq<char>>::empty(),
        }
    }
}

/// The account names held by a `SavedAccountNames` value: a text's names, or
/// the names of an array's text items.
pub open spec fn names_in_value(t: JsonTree) -> Seq<Seq<char>> {
    match t {
        JsonTree::Text(s) => account_names(s),
        JsonTree::Array(items) => names_in_items(items),
        _ => Seq::<Seq<char>>::empty(),
    }
}

/// What the `SingleInstance` setting of a configuration text reads as.
pub open spec fn config_single_instance(content: Seq<char>) -> Option<bool> {
    match json_document(content) {
        Some(t) => single_instance_in(t),
        None => None,
    }
}

/// The account names a configuration text remembers.
pub open spec fn config_account_names(content: Seq<char>) -> Seq<Seq<char>> {
    match json_document(content) {
        Some(t) => match saved_names_in(t) {
            Some(v) => names_in_value(v),
            None => Seq::<Seq<char>>::empty(),
        },
        None => Seq::<Seq<char>>::empty(),
    }
}

/// Whether several clients may run at once: only when the configuration is
/// there and its `SingleInstance` setting reads as false.
pub open spec fn multiple_instances_enabled(config: Option<Seq<char>>) -> bool {
    match config {
        Some(c) => config_single_instance(c) == Some(false),
        None => false,
    }
}

/// The first account name a configuration remembers.
pub open spec fn first_account_name(content: Seq<char>) -> Option<Seq<char>> {
    if config_account_names(content).len() > 0 {
        Some(config_account_names(content)[0])
    } else {
        None
    }
}

/// Whether some object anywhere in the tree holds an entry for `key`.
pub open spec fn key_in(t: JsonTree, key: Seq<char>) -> bool
    decreases t,
{
    match t {
        JsonTree::Object(entries) => entry_value(entries, key) is Some || key_in_entries(entries, key),
        JsonTree::Array(items) => key_in_items(items, key),
        _ => false,
    }
}

pub open spec fn key_in_entries(entries: Seq<(Seq<char>, JsonTree)>, key: Seq<char>) -> bool
    decreases entries,
{
    if entries.len() == 0 {
        false
    } else {
        key_in(entries[0].1, key) || key_in_entries(entries.subrange(1, entries.len() as int), key)
    }
}

pub open spec fn key_in_items(items: Seq<JsonTree>, key: Seq<char>) -> bool
    decreases items,
{
    if items.len() == 0 {
        false
    } else {
        key_in(items[0], key) || key_in_items(items.subrange(1, items.len() as int), key)
    }
}

// ---------------------------------------------------------------------------
// Lemmas
// ---------------------------------------------------------------------------

/// A search for a key that no object in the tree holds finds nothing.
pub proof fn lemma_find_absent_key<A>(t: JsonTree, key: Seq<char>, pick: spec_fn(JsonTree) -> Option<A>)
    requires
        !key_in(t, key),
    ensures
        find_key(t, key, pick) is None,
    decreases t,
{
    match t {
        JsonTree::Object(entries) => {
            lemma_find_absent_key_entries(entries, key, pick);
        },
        JsonTree::Array(items) => {
            lemma_find_absent_key_items(items, key, pick);
        },
        _ => {},
    }
}

pub proof fn lemma_find_absent_key_entries<A>(
    entries: Seq<(Seq<char>, JsonTree)>,
    key: Seq<char>,
    pick: spec_fn(JsonTree) -> Option<A>,
)
    requires
        !key_in_entries(entries, key),
    ensures
        find_key_in_entries(entries, key, pick) is None,
    decreases entries,
{
    if entries.len() > 0 {
        lemma_find_absent_key(entries[0].1, key, pick);
        lemma_find_absent_key_entries(entries.subrange(1, entries.len() as int), key, pick);
    }
}

pub proof fn lemma_find_absent_key_items<A>(
    items: Seq<JsonTree>,
    key: Seq<char>,
    pick: spec_fn(JsonTree) -> Option<A>,
)
    requires
        !key_in_items(items, key),
    ensures
        find_key_in_items(items, key, pick) is None,
    decreases items,
{
    if items.len() > 0 {
        lemma_find_absent_key(items[0], key, pick);
        lemma_find_absent_key_items(items.subrange(1, items.len() as int), key, pick);
    }
}

/// What the `SingleInstance` setting of a configuration reads as: when no
/// object of the document holds the setting it reads as nothing; when the
/// document's top object holds it as a JSON boolean it reads as that
/// boolean; as the text `false` or `true` (white space around it and ASCII
/// case aside) it reads as that flag; and as anything else, nothing.
pub proof fn lemma_single_instance_reading(content: Seq<char>, t: JsonTree)
    requires
        json_document(content) == Some(t),
    ensures
        !key_in(t, "SingleInstance"@) ==> config_single_instance(content) is None,
        match t {
            JsonTree::Object(entries) => match entry_value(entries, "SingleInstance"@) {
                Some(JsonTree::Bool(b)) => config_single_instance(content) == Some(b),
                Some(JsonTree::Text(s)) => config_single_instance(content) == (if lowered(trimmed(s))
                    == "false"@ {
                    Some(false)
                } else if lowered(trimmed(s)) == "true"@ {
                    Some(true)
                } else {
                    None
                }),
                Some(_) => config_single_instance(content) is None,
                None => true,
            },
            _ => true,
        },
{
    reveal_strlit("false");
    reveal_strlit("true");
    assert("false"@ != "true"@) by {
        assert("false"@.len() != "true"@.len());
    }
    if !key_in(t, "SingleInstance"@) {
        lemma_find_absent_key(t, "SingleInstance"@, pick_boolish());
    }
    if let JsonTree::Object(entries) = t {
        if let Some(v) = entry_value(entries, "SingleInstance"@) {
            assert(single_instance_in(t) == pick_boolish()(v));
            assert(pick_boolish()(v) == boolish(v));
        }
    }
}

pub proof fn lemma_entries_as_items<A>(
    entries: Seq<(Seq<char>, JsonTree)>,
    key: Seq<char>,
    pick: spec_fn(JsonTree) -> Option<A>,
)
    ensures
        find_key_in_entries(entries, key, pick) == find_key_in_items(
            entry_values(entries),
            key,
            pick,
        ),
    decreases entries.len(),
{
    let vs = entry_values(entries);
    if entries.len() > 0 {
        let rest = entries.subrange(1, entries.len() as int);
        lemma_entries_as_items(rest, key, pick);
        assert(entry_values(rest) =~= vs.subrange(1, vs.len() as int));
    }
}

/// When none of the first `i` items answers, the search goes on from item
/// `i`.
pub proof fn lemma_items_skip<A>(
    items: Seq<JsonTree>,
    key: Seq<char>,
    pick: spec_fn(JsonTree) -> Option<A>,
    i: int,
)
    requires
        0 <= i <= items.len(),
        forall|j: int| 0 <= j < i ==> find_key(#[trigger] items[j], key, pick) is None,
    ensures
        find_key_in_items(items, key, pick) == find_key_in_items(
            items.subrange(i, items.len() as int),
            key,
            pick,
        ),
    decreases i,
{
    if i > 0 {
        let rest = items.subrange(1, items.len() as int);
        assert forall|j: int| 0 <= j < i - 1 implies find_key(#[trigger] rest[j], key, pick) is None by {
            assert(rest[j] == items[j + 1]);
        }
        lemma_items_skip(rest, key, pick, i - 1);
        assert(rest.subrange(i - 1, rest.len() as int) =~= items.subrange(i, items.len() as int));
        assert(items.subrange(0, items.len() as int) =~= items);
    } else {
        assert(items.subrange(0, items.len() as int) =~= items);
    }
}

/// What the search over a tree comes to when the tree holds no entry for the
/// key itself: the search over its children.
pub proof fn lemma_find_key_children<A>(
    t: JsonTree,
    key: Seq<char>,
    pick: spec_fn(JsonTree) -> Option<A>,
)
    requires
        !(t matches JsonTree::Object(entries) && entry_value(entries, key) is Some),
    ensures
        find_key(t, key, pick) == find_key_in_items(tree_children(t), key, pick),
{
    match t {
        JsonTree::Object(entries) => {
            lemma_entries_as_items(entries, key, pick);
        },
        _ => {},
    }
}

/// Every name held by the items of an array is non-empty and trimmed.
pub proof fn lemma_names_in_items_trimmed(items: Seq<JsonTree>)
    ensures
        forall|i: int|
            0 <= i < names_in_items(items).len() ==> {
                &&& (#[trigger] names_in_items(items)[i]).len() > 0
                &&& trimmed(names_in_items(items)[i]) == names_in_items(items)[i]
            },
    decreases items.len(),
{
    if items.len() > 0 {
        lemma_names_in_items_trimmed(items.drop_last());
        let rest = names_in_items(items.drop_last());
        let last = match items.last() {
            JsonTree::Text(s) => account_names(s),
            _ => Seq::<Seq<char>>::empty(),
        };
        if let JsonTree::Text(s) = items.last() {
            lemma_nonblank_trimmed(split_fields(s));
        }
        assert forall|i: int| 0 <= i < (rest + last).len() implies {
            &&& (#[trigger] (rest + last)[i]).len() > 0
            &&& trimmed((rest + last)[i]) == (rest + last)[i]
        } by {
            if i < rest.len() {
                assert((rest + last)[i] == rest[i]);
            } else {
                assert((rest + last)[i] == last[i - rest.len()]);
            }
        }
    }
}

/// Every account name a configuration text remembers is non-empty and
/// trimmed, so none of them is blank.
pub proof fn lemma_config_names_trimmed(content: Seq<char>)
    ensures
        forall|i: int|
            0 <= i < config_account_names(content).len() ==> {
                &&& (#[trigger] config_account_names(content)[i]).len() > 0
                &&& trimmed(config_account_names(content)[i]) == config_account_names(content)[i]
                &&& !is_blank(config_account_names(content)[i])
            },
{
    match json_document(content) {
        Some(t) => match saved_names_in(t) {
            Some(v) => match v {
                JsonTree::Text(s) => {
                    lemma_nonblank_trimmed(split_fields(s));
                },
                JsonTree::Array(items) => {
                    lemma_names_in_items_trimmed(items);
                },
                _ => {},
            },
            None => {},
        },
        None => {},
    }
}

// ---------------------------------------------------------------------------
// Calls into serde_json
// ---------------------------------------------------------------------------

/// `serde_json::from_str::<serde_json::Value>`: the parsed value, or nothing
/// when serde_json refuses the text.
#[verifier::external_body]
fn parse_json(content: &str) -> (r: Option<serde_json::Value>)
    ensures
        r is Some <==> json_document(content@) is Some,
        r matches Some(v) ==> json_document(content@) == Some(json_tree(v)),
{
    serde_json::from_str::<serde_json::Value>(content).ok()
}

/// `serde_json::Value::get` with a key: the value an object stores under
/// the key; nothing for other values or when the key is not there.
#[verifier::external_body]
fn object_field<'a>(value: &'a serde_json::Value, key: &str) -> (r: Option<&'a serde_json::Value>)
    ensures
        match json_tree(*value) {
            JsonTree::Object(entries) => match entry_value(entries, key@) {
                Some(t) => r matches Some(f) && json_tree(*f) == t,
                None => r is None,
            },
            _ => r is None,
        },
{
    value.get(key)
}

/// `serde_json::Map::values` of an object, in the map's order; nothing for
/// other values.
#[verifier::external_body]
fn object_values<'a>(value: &'a serde_json::Value) -> (r: Option<Vec<&'a serde_json::Value>>)
    ensures
        match object_values_of(json_tree(*value)) {
            Some(vs) => r matches Some(found) && found@.len() == vs.len() && forall|i: int|
                0 <= i < vs.len() ==> json_tree(*#[trigger] found@[i]) == vs[i],
            None => r is None,
        },
{
    value.as_object().map(|map| map.values().collect())
}

/// `serde_json::Value::as_array`, the items of an array in order; nothing
/// for other values.
#[verifier::external_body]
fn array_items<'a>(value: &'a serde_json::Value) -> (r: Option<Vec<&'a serde_json::Value>>)
    ensures
        match array_items_of(json_tree(*value)) {
            Some(items) => r matches Some(found) && found@.len() == items.len() && forall|i: int|
                0 <= i < items.len() ==> json_tree(*#[trigger] found@[i]) == items[i],
            None => r is None,
        },
{
    value.as_array().map(|items| items.iter().collect())
}

/// `serde_json::Value::as_bool`.
#[verifier::external_body]
fn json_bool(value: &serde_json::Value) -> (r: Option<bool>)
    ensures
        r == match json_tree(*value) {
            JsonTree::Bool(b) => Some(b),
            _ => None,
        },
{
    value.as_bool()
}

/// `serde_json::Value::as_str`.
#[verifier::external_body]
fn json_text<'a>(value: &'a serde_json::Value) -> (r: Option<&'a str>)
    ensures
        match json_tree(*value) {
            JsonTree::Text(s) => r matches Some(t) && t@ == s,
            _ => r is None,
        },
{
    value.as_str()
}

// ---------------------------------------------------------------------------
// Executable code
// ---------------------------------------------------------------------------

/// The values directly inside `value`: an object's values or an array's
/// items; nothing for other values.
fn children_of<'a>(value: &'a serde_json::Value) -> (r: Vec<&'a serde_json::Value>)
    ensures
        r@.len() == tree_children(json_tree(*value)).len(),
        forall|i: int|
            0 <= i < r@.len() ==> json_tree(*#[trigger] r@[i]) == tree_children(json_tree(*value))[i],
{
    match object_values(value) {
        Some(vs) => vs,
        None => match array_items(value) {
            Some(items) => items,
            None => Vec::new(),
        },
    }
}

/// A flag as the configuration writes it: a JSON boolean, or the text
/// `true` or `false` in any ASCII case, with white space around it.
pub fn parse_boolish_value(value: &serde_json::Value) -> (r: Option<bool>)
    ensures
        r == boolish(json_tree(*value)),
{
    if let Some(b) = json_bool(value) {
        return Some(b);
    }
    match json_text(value) {
        Some(s) => {
            let folded = trimmed_lowercase(s);
            if same_text(folded.as_str(), "true") {
                Some(true)
            } else if same_text(folded.as_str(), "false") {
                Some(false)
            } else {
                None
            }
        },
        None => None,
    }
}

/// The `SingleInstance` setting in `value`: an object that holds the key
/// answers with what its value reads as; otherwise its values, or an
/// array's items, are searched in order, depth first.
pub fn find_single_instance_value(value: &serde_json::Value) -> (r: Option<bool>)
    ensures
        r == single_instance_in(json_tree(*value)),
    decreases json_tree(*value),
{
    let ghost t = json_tree(*value);
    let ghost pick = pick_boolish();
    if let Some(found) = object_field(value, "SingleInstance") {
        let b = parse_boolish_value(found);
        return b;
    }
    proof {
        lemma_find_key_children(t, "SingleInstance"@, pick);
    }
    let children = children_of(value);
    let ghost cs = tree_children(t);
    let n = children.len();
    for i in 0..n
        invariant
            n == children@.len(),
            n == cs.len(),
            t == json_tree(*value),
            cs == tree_children(t),
            pick == pick_boolish(),
            forall|k: int| 0 <= k < n ==> json_tree(*#[trigger] children@[k]) == cs[k],
            forall|j: int| 0 <= j < i ==> find_key(#[trigger] cs[j], "SingleInstance"@, pick) is None,
            find_key(t, "SingleInstance"@, pick) == find_key_in_items(cs, "SingleInstance"@, pick),
    {
        proof {
            match t {
                JsonTree::Object(entries) => {
                    assert(cs[i as int] == entries[i as int].1);
                    assert(decreases_to!(t => entries));
                    assert(decreases_to!(entries => entries[i as int]));
                    assert(decreases_to!(entries[i as int] => entries[i as int].1));
                },
                JsonTree::Array(items) => {
                    assert(decreases_to!(t => items));
                    assert(decreases_to!(items => items[i as int]));
                },
                _ => {},
            }
        }
        let found = find_single_instance_value(children[i]);
        if found.is_some() {
            proof {
                lemma_items_skip(cs, "SingleInstance"@, pick, i as int);
                let rest = cs.subrange(i as int, cs.len() as int);
                assert(rest[0] == cs[i as int]);
            }
            return found;
        }
    }
    proof {
        lemma_items_skip(cs, "SingleInstance"@, pick, n as int);
    }
    None
}

/// The first `SavedAccountNames` value in `value`: an object that holds the
/// key answers with the value stored there; otherwise its values, or an
/// array's items, are searched in order, depth first.
pub fn find_saved_account_names_value<'a>(value: &'a serde_json::Value) -> (r: Option<
    &'a serde_json::Value,
>)
    ensures
        match saved_names_in(json_tree(*value)) {
            Some(t) => r matches Some(found) && json_tree(*found) == t,
            None => r is None,
        },
    decreases json_tree(*value),
{
    let ghost t = json_tree(*value);
    let ghost pick = pick_value();
    if let Some(found) = object_field(value, "SavedAccountNames") {
        return Some(found);
    }
    proof {
        lemma_find_key_children(t, "SavedAccountNames"@, pick);
    }
    let children = children_of(value);
    let ghost cs = tree_children(t);
    let n = children.len();
    for i in 0..n
        invariant
            n == children@.len(),
            n == cs.len(),
            t == json_tree(*value),
            cs == tree_children(t),
            pick == pick_value(),
            forall|k: int| 0 <= k < n ==> json_tree(*#[trigger] children@[k]) == cs[k],
            forall|j: int|
                0 <= j < i ==> find_key(#[trigger] cs[j], "SavedAccountNames"@, pick) is None,
            find_key(t, "SavedAccountNames"@, pick) == find_key_in_items(
                cs,
                "SavedAccountNames"@,
                pick,
            ),
    {
        proof {
            match t {
                JsonTree::Object(entries) => {
                    assert(cs[i as int] == entries[i as int].1);
                    assert(decreases_to!(t => entries));
                    assert(decreases_to!(entries => entries[i as int]));
                    assert(decreases_to!(entries[i as int] => entries[i as int].1));
                },
                JsonTree::Array(items) => {
                    assert(decreases_to!(t => items));
                    assert(decreases_to!(items => items[i as int]));
                },
                _ => {},
            }
        }
        let found = find_saved_account_names_value(children[i]);
        if found.is_some() {
            proof {
                lemma_items_skip(cs, "SavedAccountNames"@, pick, i as int);
                let rest = cs.subrange(i as int, cs.len() as int);
                assert(rest[0] == cs[i as int]);
            }
            return found;
        }
    }
    proof {
        lemma_items_skip(cs, "SavedAccountNames"@, pick, n as int);
    }
    None
}

/// The account names in a `SavedAccountNames` value: the names in a text,
/// or the names in each text item of an array, in order; none otherwise.
pub fn parse_account_names(value: &serde_json::Value) -> (r: Vec<String>)
    ensures
        string_views(r@) == names_in_value(json_tree(*value)),
{
    if let Some(s) = json_text(value) {
        return split_account_names(s);
    }
    let mut out: Vec<String> = Vec::new();
    match array_items(value) {
        Some(items) => {
            let ghost its = array_items_of(json_tree(*value))->0;
            let n = items.len();
            for i in 0..n
                invariant
                    n == items@.len(),
                    n == its.len(),
                    json_tree(*value) == JsonTree::Array(its),
                    forall|k: int| 0 <= k < n ==> json_tree(*#[trigger] items@[k]) == its[k],
                    string_views(out@) == names_in_items(its.take(i as int)),
            {
                assert(its.take(i + 1).drop_last() =~= its.take(i as int));
                assert(its.take(i + 1).last() == its[i as int]);
                if let Some(s) = json_text(items[i]) {
                    let mut names = split_account_names(s);
                    let ghost before = out@;
                    out.append(&mut names);
                    assert(string_views(out@) =~= string_views(before) + account_names(s@));
                } else {
                    assert(names_in_items(its.take(i + 1)) =~= names_in_items(its.take(i as int)));
                }
            }
            assert(its.take(n as int) =~= its);
            out
        },
        None => out,
    }
}

/// The `SingleInstance` setting of a configuration text; nothing when the
/// text is not JSON or holds no such setting that reads as a flag.
pub fn battle_net_single_instance_value(content: &str) -> (r: Option<bool>)
    ensures
        r == config_single_instance(content@),
{
    match parse_json(content) {
        Some(value) => find_single_instance_value(&value),
        None => None,
    }
}

/// The account names a configuration text remembers; none when the text is
/// not JSON or holds no `SavedAccountNames`.
pub fn battle_net_saved_account_names(content: &str) -> (r: Vec<String>)
    ensures
        string_views(r@) == config_account_names(content@),
{
    let value = match parse_json(content) {
        Some(value) => value,
        None => return Vec::new(),
    };
    match find_saved_account_names_value(&value) {
        Some(found) => parse_account_names(found),
        None => Vec::new(),
    }
}

/// The first account name a configuration text remembers.
pub fn first_saved_account_name(content: &str) -> (r: Option<String>)
    ensures
        match first_account_name(content@) {
            Some(name) => r matches Some(s) && s@ == name,
            None => r is None,
        },
{
    let mut names = battle_net_saved_account_names(content);
    if names.len() == 0 {
        None
    } else {
        assert(string_views(names@)[0] == names@[0]@);
        Some(names.swap_remove(0))
    }
}

impl BattleNetCore {
    /// Whether several clients may run at once, given the active
    /// configuration text (nothing when it could not be read): only when
    /// its `SingleInstance` setting reads as false.
    pub fn is_multiple_instances_enabled(&self, config: Option<&str>) -> (r: bool)
        ensures
            r == multiple_instances_enabled(
                match config {
                    Some(c) => Some(c@),
                    None => None,
                },
            ),
    {
        match config {
            Some(content) => match battle_net_single_instance_value(content) {
                Some(single_instance) => !single_instance,
                None => false,
            },
            None => false,
        }
    }
}

} // verus!
