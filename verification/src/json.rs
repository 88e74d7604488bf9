//! JSON values, as far as they are looked into here.
use vstd::prelude::*;

verus! {

/// A JSON value. Numbers are kept as they are written.
#[derive(Debug)]
pub enum Json {
    Null,
    Bool(bool),
    Number(String),
    Text(String),
    List(Vec<Json>),
    Object(Vec<(String, Json)>),
}

/// The value of the first entry at or behind `from` that has the given name.
pub open spec fn entry_from(entries: Seq<(String, Json)>, name: Seq<char>, from: int) -> Option<
    Json,
>
    decreases entries.len() - from,
{
    if from < 0 || from >= entries.len() {
        None
    } else if entries[from].0@ == name {
        Some(entries[from].1)
    } else {
        entry_from(entries, name, from + 1)
    }
}

impl Json {
    /// The field of an object; none for other values.
    pub open spec fn field(self, name: Seq<char>) -> Option<Json> {
        match self {
            Json::Object(entries) => entry_from(entries@, name, 0),
            _ => None,
        }
    }

    /// The characters of a text; none for other values.
    pub open spec fn text(self) -> Option<Seq<char>> {
        match self {
            Json::Text(s) => Some(s@),
            _ => None,
        }
    }

    /// The characters of a field that is a text.
    pub open spec fn text_field(self, name: Seq<char>) -> Option<Seq<char>> {
        match self.field(name) {
            Some(value) => value.text(),
            None => None,
        }
    }

    /// Looks up a field of an object.
    pub fn get(&self, name: &str) -> (r: Option<&Json>)
        ensures
            match r {
                Some(value) => self.field(name@) == Some(*value),
                None => self.field(name@) is None,
            },
    {
        let entries = match self {
            Json::Object(entries) => entries,
            _ => {
                return None;
            },
        };
        let wanted = name.to_owned();
        let mut i: usize = 0;
        while i < entries.len()
            invariant
                i <= entries.len(),
                wanted@ == name@,
                self.field(name@) == entry_from(entries@, name@, i as int),
            decreases entries.len() - i,
        {
            if entries[i].0 == wanted {
                return Some(&entries[i].1);
            }
            i += 1;
        }
        None
    }

    /// The text of a text value.
    pub fn as_str(&self) -> (r: Option<&str>)
        ensures
            match r {
                Some(s) => self.text() == Some(s@),
                None => self.text() is None,
            },
    {
        match self {
            Json::Text(s) => Some(s.as_str()),
            _ => None,
        }
    }

    /// The text of a field that is a text.
    pub fn get_str(&self, name: &str) -> (r: Option<&str>)
        ensures
            match r {
                Some(s) => self.text_field(name@) == Some(s@),
                None => self.text_field(name@) is None,
            },
    {
        match self.get(name) {
            Some(value) => value.as_str(),
            None => None,
        }
    }
}

/// The value, unless it is absent or null.
pub open spec fn non_null(value: Option<Json>) -> Option<Json> {
    match value {
        Some(Json::Null) => None,
        _ => value,
    }
}

/// The items of a list that has some.
pub open spec fn non_empty_list(value: Option<Json>) -> Option<Vec<Json>> {
    match value {
        Some(Json::List(items)) => if items@.len() > 0 {
            Some(items)
        } else {
            None
        },
        _ => None,
    }
}

/// Drops a null.
pub fn drop_null(value: Option<Json>) -> (r: Option<Json>)
    ensures
        r == non_null(value),
{
    match value {
        Some(Json::Null) => None,
        other => other,
    }
}

/// Takes the items out of a list that has some.
pub fn take_non_empty_list(value: Option<Json>) -> (r: Option<Vec<Json>>)
    ensures
        r == non_empty_list(value),
{
    match value {
        Some(Json::List(items)) => if items.len() > 0 {
            Some(items)
        } else {
            None
        },
        _ => None,
    }
}

} // verus!
