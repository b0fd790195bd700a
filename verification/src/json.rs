//! The document: its mathematical model and the tree held in memory.

use vstd::prelude::*;

verus! {

/// A JSON document as a mathematical tree.
///
/// A number is kept as its decimal text. The members of an object are kept in
/// the order of the document.
#[verifier::ext_equal]
pub enum Json {
    Null,
    Bool(bool),
    Number(Seq<char>),
    String(Seq<char>),
    Array(Seq<Json>),
    Object(Seq<Member>),
}

/// A member of an object: a key and the value under it.
#[verifier::ext_equal]
pub struct Member {
    pub key: Seq<char>,
    pub value: Json,
}

impl Json {
    /// Arrays and objects are shown as directories.
    pub open spec fn is_directory(self) -> bool {
        self is Array || self is Object
    }

    /// No object, at any depth, holds two members with the same key.
    pub open spec fn well_formed(self) -> bool
        decreases self,
    {
        match self {
            Json::Array(items) => forall|i: int|
                0 <= i < items.len() ==> (#[trigger] items[i]).well_formed(),
            Json::Object(members) => {
                &&& distinct_keys(members)
                &&& forall|i: int|
                    0 <= i < members.len() ==> (#[trigger] members[i]).value.well_formed()
            },
            _ => true,
        }
    }
}

/// No two members have the same key.
pub open spec fn distinct_keys(members: Seq<Member>) -> bool {
    forall|i: int, j: int|
        0 <= i < j < members.len() ==> (#[trigger] members[i]).key != (#[trigger] members[j]).key
}

/// A JSON document held in memory.
///
/// `Number` holds the decimal text of the number. `Object` holds its members
/// in the order of the document.
#[derive(Debug, PartialEq, Eq)]
pub enum JsonValue {
    Null,
    Bool(bool),
    Number(String),
    String(String),
    Array(Vec<JsonValue>),
    Object(Vec<(String, JsonValue)>),
}

impl View for JsonValue {
    type V = Json;

    open spec fn view(&self) -> Json
        decreases self,
    {
        match self {
            JsonValue::Null => Json::Null,
            JsonValue::Bool(b) => Json::Bool(*b),
            JsonValue::Number(text) => Json::Number(text@),
            JsonValue::String(text) => Json::String(text@),
            JsonValue::Array(items) => Json::Array(
                Seq::new(
                    items.len() as nat,
                    |i: int|
                        if 0 <= i < items.len() {
                            items[i]@
                        } else {
                            Json::Null
                        },
                ),
            ),
            JsonValue::Object(members) => Json::Object(
                Seq::new(
                    members.len() as nat,
                    |i: int|
                        if 0 <= i < members.len() {
                            Member { key: members[i].0@, value: members[i].1@ }
                        } else {
                            Member { key: Seq::empty(), value: Json::Null }
                        },
                ),
            ),
        }
    }
}

impl JsonValue {
    /// Whether no object of this document, at any depth, holds two members
    /// with the same key.
    pub fn is_well_formed(&self) -> (ok: bool)
        ensures
            ok == self@.well_formed(),
        decreases self,
    {
        match self {
            JsonValue::Array(items) => {
                let mut i: usize = 0;
                while i < items.len()
                    invariant
                        self is Array,
                        self->Array_0 == *items,
                        i <= items.len(),
                        forall|j: int| 0 <= j < i ==> (#[trigger] items[j])@.well_formed(),
                    decreases items.len() - i,
                {
                    proof {
                        vstd::std_specs::vec::axiom_vec_index_decreases(*items, i as int);
                    }
                    if !items[i].is_well_formed() {
                        assert(self@->Array_0[i as int] == items[i as int]@);
                        return false;
                    }
                    i += 1;
                }
                assert forall|j: int| 0 <= j < items.len() implies (#[trigger] self@->Array_0[j])
                    .well_formed() by {
                    assert(self@->Array_0[j] == items[j]@);
                }
                true
            },
            JsonValue::Object(members) => {
                let ghost all = self@->Object_0;
                let mut i: usize = 0;
                while i < members.len()
                    invariant
                        self is Object,
                        self->Object_0 == *members,
                        self@ == Json::Object(all),
                        all.len() == members.len(),
                        forall|j: int|
                            0 <= j < members.len() ==> #[trigger] all[j] == (Member {
                                key: members[j].0@,
                                value: members[j].1@,
                            }),
                        i <= members.len(),
                        forall|j: int| 0 <= j < i ==> (#[trigger] all[j]).value.well_formed(),
                        forall|j: int, k: int|
                            0 <= j < k < i ==> (#[trigger] all[j]).key != (#[trigger] all[k]).key,
                    decreases members.len() - i,
                {
                    let mut j: usize = 0;
                    while j < i
                        invariant
                            j <= i < members.len(),
                            all.len() == members.len(),
                            forall|k: int|
                                0 <= k < members.len() ==> #[trigger] all[k] == (Member {
                                    key: members[k].0@,
                                    value: members[k].1@,
                                }),
                            self@ == Json::Object(all),
                            forall|k: int|
                                0 <= k < j ==> (#[trigger] all[k]).key != all[i as int].key,
                        decreases i - j,
                    {
                        if members[j].0 == members[i].0 {
                            assert(all[j as int].key == all[i as int].key);
                            return false;
                        }
                        j += 1;
                    }
                    proof {
                        vstd::std_specs::vec::axiom_vec_index_decreases(*members, i as int);
                    }
                    if !members[i].1.is_well_formed() {
                        assert(all[i as int].value == members[i as int].1@);
                        return false;
                    }
                    i += 1;
                }
                true
            },
            _ => true,
        }
    }
}

impl Clone for JsonValue {
    /// A deep copy: the same document in new memory.
    fn clone(&self) -> (copy: Self)
        ensures
            copy@ == self@,
        decreases self,
    {
        match self {
            JsonValue::Null => JsonValue::Null,
            JsonValue::Bool(b) => JsonValue::Bool(*b),
            JsonValue::Number(text) => JsonValue::Number(text.clone()),
            JsonValue::String(text) => JsonValue::String(text.clone()),
            JsonValue::Array(items) => {
                let mut copies: Vec<JsonValue> = Vec::new();
                let mut i: usize = 0;
                while i < items.len()
                    invariant
                        self is Array,
                        self->Array_0 == *items,
                        i <= items.len(),
                        copies.len() == i,
                        forall|j: int| 0 <= j < i ==> copies[j]@ == items[j]@,
                    decreases items.len() - i,
                {
                    proof {
                        vstd::std_specs::vec::axiom_vec_index_decreases(*items, i as int);
                    }
                    let copy = items[i].clone();
                    copies.push(copy);
                    i += 1;
                }
                let copy = JsonValue::Array(copies);
                assert(copy@->Array_0 =~= self@->Array_0);
                copy
            },
            JsonValue::Object(members) => {
                let mut copies: Vec<(String, JsonValue)> = Vec::new();
                let mut i: usize = 0;
                while i < members.len()
                    invariant
                        self is Object,
                        self->Object_0 == *members,
                        i <= members.len(),
                        copies.len() == i,
                        forall|j: int|
                            0 <= j < i ==> copies[j].0@ == members[j].0@ && copies[j].1@
                                == members[j].1@,
                    decreases members.len() - i,
                {
                    let key = members[i].0.clone();
                    proof {
                        vstd::std_specs::vec::axiom_vec_index_decreases(*members, i as int);
                    }
                    let value = members[i].1.clone();
                    copies.push((key, value));
                    i += 1;
                }
                let copy = JsonValue::Object(copies);
                assert(copy@->Object_0 =~= self@->Object_0);
                copy
            },
        }
    }
}

} // verus!
