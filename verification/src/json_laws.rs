//! What looking into a JSON value finds.
use vstd::prelude::*;

use crate::json::{entry_from, non_empty_list, non_null, Json};

verus! {

/// Whether `value` is what an object says under a name: the value of the first entry of that name.
/// Other values say nothing under any name.
pub open spec fn is_entry(json: Json, name: Seq<char>, value: Option<Json>) -> bool {
    match json {
        Json::Object(entries) => match value {
            Some(v) => exists|i: int|
                {
                    &&& 0 <= i < entries@.len()
                    &&& (#[trigger] entries@[i]).0@ == name
                    &&& entries@[i].1 == v
                    &&& forall|k: int| 0 <= k < i ==> (#[trigger] entries@[k]).0@ != name
                },
            None => forall|i: int| 0 <= i < entries@.len() ==> (#[trigger] entries@[i]).0@ != name,
        },
        _ => value is None,
    }
}

proof fn lemma_entry_from(entries: Seq<(String, Json)>, name: Seq<char>, from: int)
    requires
        0 <= from <= entries.len(),
    ensures
        match entry_from(entries, name, from) {
            Some(v) => exists|i: int|
                {
                    &&& from <= i < entries.len()
                    &&& (#[trigger] entries[i]).0@ == name
                    &&& entries[i].1 == v
                    &&& forall|k: int| from <= k < i ==> (#[trigger] entries[k]).0@ != name
                },
            None => forall|i: int|
                from <= i < entries.len() ==> (#[trigger] entries[i]).0@ != name,
        },
    decreases entries.len() - from,
{
    if from < entries.len() {
        if entries[from].0@ != name {
            lemma_entry_from(entries, name, from + 1);
            if let Some(v) = entry_from(entries, name, from + 1) {
                let i = choose|i: int|
                    {
                        &&& from + 1 <= i < entries.len()
                        &&& (#[trigger] entries[i]).0@ == name
                        &&& entries[i].1 == v
                        &&& forall|k: int| from + 1 <= k < i ==> (#[trigger] entries[k]).0@ != name
                    };
                assert(entries[i].1 == v);
            }
        } else {
            assert(entries[from].1 == entry_from(entries, name, from)->0);
        }
    }
}

/// A field is the first entry of its name; a text field is the characters of a field that is a
/// text.
pub proof fn a_field_is_the_first_entry_of_its_name(json: Json, name: Seq<char>)
    ensures
        is_entry(json, name, json.field(name)),
        json.field(name) matches Some(Json::Text(s)) ==> json.text_field(name) == Some(s@),
        !(json.field(name) matches Some(Json::Text(_))) ==> json.text_field(name) is None,
        json matches Json::Text(s) ==> json.text() == Some(s@),
        json !is Text ==> json.text() is None,
{
    if let Json::Object(entries) = json {
        lemma_entry_from(entries@, name, 0);
    }
}

/// Only an absent value and null count as null; only a list with items counts as one.
pub proof fn only_null_and_empty_lists_are_dropped(value: Option<Json>)
    ensures
        value is None ==> non_null(value) is None && non_empty_list(value) is None,
        value is Some && value->0 is Null ==> non_null(value) is None,
        value is Some && value->0 !is Null ==> non_null(value) == value,
        value matches Some(Json::List(items)) ==> (if items@.len() > 0 {
            non_empty_list(value) == Some(items)
        } else {
            non_empty_list(value) is None
        }),
        value is Some && value->0 !is List ==> non_empty_list(value) is None,
{
}

} // verus!
