//! A JSON document as a tree of plain values, and the reading functions that
//! the block filter needs.

use vstd::prelude::*;

verus! {

/// One `name: value` pair of an object.
#[derive(Debug, PartialEq, Eq)]
pub struct Member {
    pub name: String,
    pub value: Json,
}

/// A JSON document.
///
/// Numbers come in three shapes, so that each can be handed on unchanged and
/// the one kind that balances are written in can be told from the others.
/// An object keeps its members in the order in which they were written; where
/// two members share a name, lookups see the first.
#[derive(Debug, PartialEq, Eq)]
pub enum Json {
    Null,
    Bool(bool),
    /// An integer from zero up to `u64::MAX`.
    Unsigned(u64),
    /// An integer below zero.
    Negative(i64),
    /// Any other number, as the bit pattern of its double-precision encoding.
    Real(u64),
    Text(String),
    Array(Vec<Json>),
    Object(Vec<Member>),
}

/// The mathematical value of a [`Json`] document.
pub enum JsonModel {
    Null,
    Bool(bool),
    Unsigned(u64),
    Negative(i64),
    Real(u64),
    Text(Seq<char>),
    Array(Seq<JsonModel>),
    Object(Seq<(Seq<char>, JsonModel)>),
}

/// `i` is the position of the first member of `members` that is named `name`.
pub open spec fn is_first_named(
    members: Seq<(Seq<char>, JsonModel)>,
    name: Seq<char>,
    i: int,
) -> bool {
    &&& 0 <= i < members.len()
    &&& members[i].0 == name
    &&& forall|j: int| 0 <= j < i ==> (#[trigger] members[j]).0 != name
}

impl JsonModel {
    /// The value of the first member named `name`, if `self` is an object that
    /// has one.
    pub open spec fn get(self, name: Seq<char>) -> Option<JsonModel> {
        match self {
            JsonModel::Object(members) => {
                if exists|i: int| is_first_named(members, name, i) {
                    Some(members[choose|i: int| is_first_named(members, name, i)].1)
                } else {
                    None
                }
            },
            _ => None,
        }
    }

    /// The value found under `name`, with `Null` standing for "nothing there":
    /// `self` is no object, or has no such member.
    pub open spec fn field(self, name: Seq<char>) -> JsonModel {
        match self.get(name) {
            Some(value) => value,
            None => JsonModel::Null,
        }
    }
}

/// Looking a name up in an object gives the value of the first member so
/// named.
pub proof fn lemma_get_first(members: Seq<(Seq<char>, JsonModel)>, name: Seq<char>, i: int)
    requires
        is_first_named(members, name, i),
    ensures
        JsonModel::Object(members).get(name) == Some(members[i].1),
        JsonModel::Object(members).field(name) == members[i].1,
{
    let k = choose|k: int| is_first_named(members, name, k);
    assert(k == i) by {
        if k < i {
            assert(members[k].0 != name);
        }
        if i < k {
            assert(members[i].0 != name);
        }
    }
}

/// The values that a sequence of documents stands for, in the same order.
pub open spec fn models(items: Seq<Json>) -> Seq<JsonModel> {
    items.map_values(|item: Json| item@)
}

impl Member {
    /// The name and the value that the member stands for.
    pub open spec fn model(&self) -> (Seq<char>, JsonModel)
        decreases self,
    {
        (self.name@, self.value.model())
    }
}

impl Json {
    /// The value that the document stands for.
    pub open spec fn model(&self) -> JsonModel
        decreases self,
    {
        match self {
            Json::Null => JsonModel::Null,
            Json::Bool(b) => JsonModel::Bool(*b),
            Json::Unsigned(n) => JsonModel::Unsigned(*n),
            Json::Negative(n) => JsonModel::Negative(*n),
            Json::Real(bits) => JsonModel::Real(*bits),
            Json::Text(s) => JsonModel::Text(s@),
            Json::Array(items) => JsonModel::Array(
                Seq::new(
                    items@.len(),
                    |i: int|
                        if 0 <= i < items@.len() {
                            items@[i].model()
                        } else {
                            JsonModel::Null
                        },
                ),
            ),
            Json::Object(members) => JsonModel::Object(
                Seq::new(
                    members@.len(),
                    |i: int|
                        if 0 <= i < members@.len() {
                            members@[i].model()
                        } else {
                            (Seq::empty(), JsonModel::Null)
                        },
                ),
            ),
        }
    }
}

impl View for Member {
    type V = (Seq<char>, JsonModel);

    open spec fn view(&self) -> (Seq<char>, JsonModel) {
        self.model()
    }
}

impl View for Json {
    type V = JsonModel;

    open spec fn view(&self) -> JsonModel {
        self.model()
    }
}

impl Json {
    /// Whether the document is `null`.
    pub fn is_null(&self) -> (null: bool)
        ensures
            null == (self@ is Null),
    {
        match self {
            Json::Null => true,
            _ => false,
        }
    }

    /// The number, if the document is an integer from zero up to `u64::MAX`.
    pub fn as_u64(&self) -> (number: Option<u64>)
        ensures
            number == (match self@ {
                JsonModel::Unsigned(n) => Some(n),
                _ => None,
            }),
    {
        match self {
            Json::Unsigned(n) => Some(*n),
            _ => None,
        }
    }

    /// The text, if the document is a string.
    pub fn as_str(&self) -> (text: Option<&str>)
        ensures
            match text {
                Some(s) => self@ == JsonModel::Text(s@),
                None => !(self@ is Text),
            },
    {
        match self {
            Json::Text(s) => Some(s.as_str()),
            _ => None,
        }
    }

    /// The elements, if the document is an array.
    pub fn as_array(&self) -> (items: Option<&Vec<Json>>)
        ensures
            match items {
                Some(v) => self@ == JsonModel::Array(models(v@)),
                None => !(self@ is Array),
            },
    {
        match self {
            Json::Array(items) => {
                assert(self@->Array_0 =~= models(items@));
                Some(items)
            },
            _ => None,
        }
    }

    /// The value of the first member named `name`, if the document is an
    /// object that has one.
    pub fn get(&self, name: &str) -> (found: Option<&Json>)
        ensures
            match found {
                Some(value) => self@.get(name@) == Some(value@),
                None => self@.get(name@) is None,
            },
    {
        match self {
            Json::Object(members) => {
                let wanted = name.to_owned();
                let mut i: usize = 0;
                while i < members.len()
                    invariant
                        0 <= i <= members.len(),
                        wanted@ == name@,
                        self@ is Object,
                        self@->Object_0.len() == members.len(),
                        forall|j: int|
                            0 <= j < members.len() ==> self@->Object_0[j] == members@[j]@,
                        forall|j: int|
                            0 <= j < i ==> (#[trigger] self@->Object_0[j]).0 != name@,
                    decreases members.len() - i,
                {
                    if members[i].name == wanted {
                        assert(is_first_named(self@->Object_0, name@, i as int));
                        return Some(&members[i].value);
                    }
                    i += 1;
                }
                None
            },
            _ => None,
        }
    }
}

impl Clone for Member {
    fn clone(&self) -> (copy: Member)
        ensures
            copy@ == self@,
        decreases self,
    {
        Member { name: self.name.clone(), value: self.value.clone() }
    }
}

impl Clone for Json {
    fn clone(&self) -> (copy: Json)
        ensures
            copy@ == self@,
        decreases self,
    {
        match self {
            Json::Null => Json::Null,
            Json::Bool(b) => Json::Bool(*b),
            Json::Unsigned(n) => Json::Unsigned(*n),
            Json::Negative(n) => Json::Negative(*n),
            Json::Real(bits) => Json::Real(*bits),
            Json::Text(s) => Json::Text(s.clone()),
            Json::Array(items) => {
                let mut copies: Vec<Json> = Vec::new();
                let mut i: usize = 0;
                while i < items.len()
                    invariant
                        *self == Json::Array(*items),
                        0 <= i <= items.len(),
                        copies@.len() == i,
                        forall|j: int| 0 <= j < i ==> copies@[j]@ == items@[j]@,
                    decreases items.len() - i,
                {
                    assert(decreases_to!(self => self->Array_0));
                    assert(decreases_to!(items => items[i as int]));
                    copies.push(items[i].clone());
                    i += 1;
                }
                assert(Json::Array(copies)@->Array_0 =~= self@->Array_0);
                Json::Array(copies)
            },
            Json::Object(members) => {
                let mut copies: Vec<Member> = Vec::new();
                let mut i: usize = 0;
                while i < members.len()
                    invariant
                        *self == Json::Object(*members),
                        0 <= i <= members.len(),
                        copies@.len() == i,
                        forall|j: int| 0 <= j < i ==> copies@[j]@ == members@[j]@,
                    decreases members.len() - i,
                {
                    assert(decreases_to!(self => self->Object_0));
                    assert(decreases_to!(members => members[i as int]));
                    copies.push(members[i].clone());
                    i += 1;
                }
                assert(Json::Object(copies)@->Object_0 =~= self@->Object_0);
                Json::Object(copies)
            },
        }
    }
}

} // verus!
