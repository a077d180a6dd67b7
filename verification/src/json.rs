//! The library's model of a JSON document.
//!
//! Children speak line-delimited JSON over stdio and callers speak JSON-RPC;
//! every such document is held in this one type. The transport edge turns
//! bytes into `JsonValue` and back; everything the library decides about a
//! document is decided, and specified, on this type.

use vstd::prelude::*;
use crate::kv::{kv_find, lemma_kv_find_at, lemma_kv_find_none};

verus! {

/// A JSON document.
#[derive(Debug, PartialEq)]
pub enum JsonValue {
    Null,
    Bool(bool),
    Int(i64),
    Str(String),
    Arr(Vec<JsonValue>),
    Obj(Vec<(String, JsonValue)>),
}

/// The mathematical shape of a JSON document.
#[verifier::ext_equal]
pub enum JsonSpec {
    Null,
    Bool(bool),
    Int(int),
    Str(Seq<char>),
    Arr(Seq<JsonSpec>),
    Obj(Seq<(Seq<char>, JsonSpec)>),
}

/// What a `JsonValue` denotes.
pub open spec fn json_view(j: JsonValue) -> JsonSpec
    decreases j,
{
    match j {
        JsonValue::Null => JsonSpec::Null,
        JsonValue::Bool(b) => JsonSpec::Bool(b),
        JsonValue::Int(i) => JsonSpec::Int(i as int),
        JsonValue::Str(s) => JsonSpec::Str(s@),
        JsonValue::Arr(items) => JsonSpec::Arr(
            Seq::new(
                items@.len(),
                |i: int|
                    if 0 <= i < items@.len() {
                        json_view(items@[i])
                    } else {
                        JsonSpec::Null
                    },
            ),
        ),
        JsonValue::Obj(fields) => JsonSpec::Obj(
            Seq::new(
                fields@.len(),
                |i: int|
                    if 0 <= i < fields@.len() {
                        (fields@[i].0@, json_view(fields@[i].1))
                    } else {
                        (Seq::empty(), JsonSpec::Null)
                    },
            ),
        ),
    }
}

impl View for JsonValue {
    type V = JsonSpec;

    open spec fn view(&self) -> JsonSpec {
        json_view(*self)
    }
}

/// The denotations of a vector of documents, element by element.
pub open spec fn arr_view(items: Seq<JsonValue>) -> Seq<JsonSpec> {
    Seq::new(items.len(), |i: int| json_view(items[i]))
}

/// The denotations of a field list, element by element.
pub open spec fn obj_view(fields: Seq<(String, JsonValue)>) -> Seq<(Seq<char>, JsonSpec)> {
    Seq::new(fields.len(), |i: int| (fields[i].0@, json_view(fields[i].1)))
}

/// An array denotes its elements' denotations.
pub proof fn lemma_arr_unfold(items: Vec<JsonValue>)
    ensures
        json_view(JsonValue::Arr(items)) == JsonSpec::Arr(arr_view(items@)),
{
    assert(json_view(JsonValue::Arr(items))->Arr_0 =~= arr_view(items@));
}

/// An object denotes its fields' denotations.
pub proof fn lemma_obj_unfold(fields: Vec<(String, JsonValue)>)
    ensures
        json_view(JsonValue::Obj(fields)) == JsonSpec::Obj(obj_view(fields@)),
{
    assert(json_view(JsonValue::Obj(fields))->Obj_0 =~= obj_view(fields@));
}

/// Field lookup on a document: `Some` only on objects that hold the key.
pub open spec fn spec_get(j: JsonSpec, k: Seq<char>) -> Option<JsonSpec> {
    match j {
        JsonSpec::Obj(fields) => kv_find(fields, k),
        _ => None,
    }
}

impl JsonValue {
    /// Look a field up in an object, first match; `None` on any other shape.
    pub fn get<'a>(&'a self, key: &String) -> (r: Option<&'a JsonValue>)
        ensures
            match r {
                Some(v) => spec_get(self@, key@) == Some(v@),
                None => spec_get(self@, key@) is None,
            },
    {
        match self {
            JsonValue::Obj(fields) => {
                proof {
                    lemma_obj_unfold(*fields);
                }
                let ghost fs = obj_view(fields@);
                let mut idx: usize = 0;
                while idx < fields.len()
                    invariant
                        idx <= fields@.len(),
                        fs == obj_view(fields@),
                        self@ == JsonSpec::Obj(fs),
                        forall|q: int| 0 <= q < idx ==> fields@[q].0@ != key@,
                    decreases fields@.len() - idx,
                {
                    if fields[idx].0 == *key {
                        proof {
                            lemma_kv_find_at(fs, key@, idx as int);
                        }
                        return Some(&fields[idx].1);
                    }
                    idx += 1;
                }
                proof {
                    lemma_kv_find_none(fs, key@);
                }
                None
            },
            _ => None,
        }
    }

    /// The string inside, if this is a string.
    pub fn as_str(&self) -> (r: Option<&String>)
        ensures
            match r {
                Some(s) => self@ == JsonSpec::Str(s@),
                None => !(self@ is Str),
            },
    {
        match self {
            JsonValue::Str(s) => Some(s),
            _ => None,
        }
    }

    /// The elements inside, if this is an array.
    pub fn as_arr(&self) -> (r: Option<&Vec<JsonValue>>)
        ensures
            match r {
                Some(items) => self@ == JsonSpec::Arr(arr_view(items@)),
                None => !(self@ is Arr),
            },
    {
        match self {
            JsonValue::Arr(items) => {
                proof {
                    lemma_arr_unfold(*items);
                }
                Some(items)
            },
            _ => None,
        }
    }

    /// The integer inside, if this is a number.
    pub fn as_int(&self) -> (r: Option<i64>)
        ensures
            match r {
                Some(n) => self@ == JsonSpec::Int(n as int),
                None => !(self@ is Int),
            },
    {
        match self {
            JsonValue::Int(n) => Some(*n),
            _ => None,
        }
    }

    /// The boolean inside, if this is `true` or `false`.
    pub fn as_bool(&self) -> (r: Option<bool>)
        ensures
            match r {
                Some(b) => self@ == JsonSpec::Bool(b),
                None => !(self@ is Bool),
            },
    {
        match self {
            JsonValue::Bool(b) => Some(*b),
            _ => None,
        }
    }
}

/// A structural copy; the model is unchanged.
pub fn clone_json(j: &JsonValue) -> (r: JsonValue)
    ensures
        r@ == j@,
    decreases *j,
{
    match j {
        JsonValue::Null => JsonValue::Null,
        JsonValue::Bool(b) => JsonValue::Bool(*b),
        JsonValue::Int(n) => JsonValue::Int(*n),
        JsonValue::Str(s) => JsonValue::Str(s.clone()),
        JsonValue::Arr(items) => {
            let mut out: Vec<JsonValue> = Vec::new();
            let mut idx: usize = 0;
            while idx < items.len()
                invariant
                    *j == JsonValue::Arr(*items),
                    idx <= items@.len(),
                    out@.len() == idx,
                    forall|q: int| 0 <= q < idx ==> out@[q]@ == items@[q]@,
                decreases items@.len() - idx,
            {
                proof {
                    assert(*items == j->Arr_0);
                    assert(decreases_to!(*j => j->Arr_0));
                    assert(decreases_to!(j->Arr_0 => j->Arr_0@[idx as int]));
                }
                let c = clone_json(&items[idx]);
                out.push(c);
                idx += 1;
            }
            proof {
                lemma_arr_unfold(out);
                lemma_arr_unfold(*items);
                assert(arr_view(out@) =~= arr_view(items@));
            }
            JsonValue::Arr(out)
        },
        JsonValue::Obj(fields) => {
            let mut out: Vec<(String, JsonValue)> = Vec::new();
            let mut idx: usize = 0;
            while idx < fields.len()
                invariant
                    *j == JsonValue::Obj(*fields),
                    idx <= fields@.len(),
                    out@.len() == idx,
                    forall|q: int| 0 <= q < idx ==> out@[q].0@ == fields@[q].0@
                        && out@[q].1@ == fields@[q].1@,
                decreases fields@.len() - idx,
            {
                proof {
                    assert(*fields == j->Obj_0);
                    assert(decreases_to!(*j => j->Obj_0));
                    assert(decreases_to!(j->Obj_0 => j->Obj_0@[idx as int]));
                    assert(decreases_to!(j->Obj_0@[idx as int] => j->Obj_0@[idx as int].1));
                }
                let k = fields[idx].0.clone();
                let v = clone_json(&fields[idx].1);
                out.push((k, v));
                idx += 1;
            }
            proof {
                lemma_obj_unfold(out);
                lemma_obj_unfold(*fields);
                assert(obj_view(out@) =~= obj_view(fields@));
            }
            JsonValue::Obj(out)
        },
    }
}

} // verus!
