//! The JSON value model that schemas and instances are written in.
use vstd::prelude::*;
use vstd::string::*;

verus! {

/// A JSON number, held in the representation it arrived in.
///
/// A number that is neither an unsigned nor a signed 64-bit integer is held
/// exactly as `mantissa * 2^exponent`, which covers every finite binary64 value.
#[derive(Clone, Copy, Debug, PartialEq, Eq)]
pub enum Number {
    Unsigned(u64),
    Signed(i64),
    Float { mantissa: i64, exponent: i32 },
}

/// A JSON document. Object members keep the order they were given in.
#[derive(Debug)]
pub enum Json {
    Null,
    Bool(bool),
    Number(Number),
    String(String),
    Array(Vec<Json>),
    Object(Vec<(String, Json)>),
}

/// The mathematical value of a JSON document.
pub enum JsonModel {
    Null,
    Bool(bool),
    Number(Number),
    String(Seq<char>),
    Array(Seq<JsonModel>),
    Object(Seq<(Seq<char>, JsonModel)>),
}

impl View for Json {
    type V = JsonModel;

    open spec fn view(&self) -> JsonModel
        decreases self,
    {
        match self {
            Json::Null => JsonModel::Null,
            Json::Bool(b) => JsonModel::Bool(*b),
            Json::Number(n) => JsonModel::Number(*n),
            Json::String(s) => JsonModel::String(s@),
            Json::Array(items) => JsonModel::Array(
                Seq::new(
                    items@.len(),
                    |i: int|
                        if 0 <= i < items@.len() {
                            items@[i].view()
                        } else {
                            JsonModel::Null
                        },
                ),
            ),
            Json::Object(entries) => JsonModel::Object(
                Seq::new(
                    entries@.len(),
                    |i: int|
                        if 0 <= i < entries@.len() {
                            (entries@[i].0@, entries@[i].1.view())
                        } else {
                            (Seq::empty(), JsonModel::Null)
                        },
                ),
            ),
        }
    }
}

/// Index of the first member named `key` at or after `i`, or the length when there is none.
pub open spec fn find_key_from(entries: Seq<(Seq<char>, JsonModel)>, key: Seq<char>, i: nat) -> nat
    decreases entries.len() - i,
{
    if i >= entries.len() {
        entries.len()
    } else if entries[i as int].0 == key {
        i
    } else {
        find_key_from(entries, key, i + 1)
    }
}

/// Index of the first member named `key`, or the length when there is none.
pub open spec fn find_key(entries: Seq<(Seq<char>, JsonModel)>, key: Seq<char>) -> nat {
    find_key_from(entries, key, 0)
}

/// The value of the first member named `key`.
pub open spec fn get_member(entries: Seq<(Seq<char>, JsonModel)>, key: Seq<char>) -> Option<JsonModel> {
    let i = find_key(entries, key);
    if i < entries.len() {
        Some(entries[i as int].1)
    } else {
        None
    }
}

/// The member named `key` of an object; `None` for any other value.
pub open spec fn member_of(value: JsonModel, key: Seq<char>) -> Option<JsonModel> {
    match value {
        JsonModel::Object(entries) => get_member(entries, key),
        _ => None,
    }
}

/// `a` and `b` hold the same characters.
pub fn str_eq(a: &str, b: &str) -> (r: bool)
    ensures
        r == (a@ == b@),
{
    let n = a.unicode_len();
    if n != b.unicode_len() {
        return false;
    }
    let mut i: usize = 0;
    while i < n
        invariant
            n == a@.len(),
            n == b@.len(),
            i <= n,
            forall|j: int| 0 <= j < i ==> a@[j] == b@[j],
        decreases n - i,
    {
        if a.get_char(i) != b.get_char(i) {
            return false;
        }
        i = i + 1;
    }
    assert(a@ =~= b@);
    true
}

/// The model of an object lists its members in order.
pub proof fn lemma_object_view(v: &Json)
    requires
        v is Object,
    ensures
        v@ is Object,
        v@->Object_0.len() == v->Object_0@.len(),
        forall|j: int|
            0 <= j < v->Object_0@.len() ==> #[trigger] v@->Object_0[j] == (v->Object_0@[j].0@, v->Object_0@[j].1@),
{
    reveal_with_fuel(<Json as View>::view, 2);
}

/// The model of an array lists its items in order.
pub proof fn lemma_array_view(v: &Json)
    requires
        v is Array,
    ensures
        v@ is Array,
        v@->Array_0.len() == v->Array_0@.len(),
        forall|j: int| 0 <= j < v->Array_0@.len() ==> #[trigger] v@->Array_0[j] == v->Array_0@[j]@,
{
    reveal_with_fuel(<Json as View>::view, 2);
}

impl Json {
    /// The member named `key` of an object; `None` for a missing member or another kind of value.
    pub fn get(&self, key: &str) -> (r: Option<&Json>)
        ensures
            match member_of(self@, key@) {
                Some(v) => r matches Some(x) && x@ == v,
                None => r is None,
            },
    {
        match self {
            Json::Object(entries) => {
                proof {
                    lemma_object_view(self);
                }
                let ghost model = self@->Object_0;
                let mut i: usize = 0;
                while i < entries.len()
                    invariant
                        i <= entries.len(),
                        model.len() == entries@.len(),
                        self@ == JsonModel::Object(model),
                        forall|j: int| 0 <= j < entries@.len() ==> #[trigger] model[j] == (entries@[j].0@, entries@[j].1@),
                        find_key_from(model, key@, 0) == find_key_from(model, key@, i as nat),
                    decreases entries.len() - i,
                {
                    if str_eq(entries[i].0.as_str(), key) {
                        assert(model[i as int] == (entries@[i as int].0@, entries@[i as int].1@));
                        assert(find_key_from(model, key@, i as nat) == i);
                        return Some(&entries[i].1);
                    }
                    assert(model[i as int] == (entries@[i as int].0@, entries@[i as int].1@));
                    i = i + 1;
                }
                None
            },
            _ => None,
        }
    }

    /// A copy of this value, member by member.
    pub fn copy(&self) -> (r: Json)
        ensures
            r@ == self@,
        decreases self,
    {
        match self {
            Json::Null => Json::Null,
            Json::Bool(b) => Json::Bool(*b),
            Json::Number(n) => Json::Number(*n),
            Json::String(s) => Json::String(s.clone()),
            Json::Array(items) => {
                let mut out: Vec<Json> = Vec::new();
                let mut i: usize = 0;
                while i < items.len()
                    invariant
                        i <= items.len(),
                        *self == Json::Array(*items),
                        out@.len() == i,
                        forall|j: int| 0 <= j < i ==> #[trigger] out@[j]@ == items@[j]@,
                    decreases items.len() - i,
                {
                    proof {
                        assert(decreases_to!(*self => self->Array_0));
                        assert(decreases_to!(*items => items@));
                        assert(decreases_to!(items@ => items@[i as int]));
                    }
                    out.push(items[i].copy());
                    i = i + 1;
                }
                let r = Json::Array(out);
                proof {
                    lemma_array_view(&r);
                    lemma_array_view(self);
                }
                assert(r@->Array_0 =~= self@->Array_0);
                r
            },
            Json::Object(entries) => {
                let mut out: Vec<(String, Json)> = Vec::new();
                let mut i: usize = 0;
                while i < entries.len()
                    invariant
                        i <= entries.len(),
                        *self == Json::Object(*entries),
                        out@.len() == i,
                        forall|j: int|
                            0 <= j < i ==> #[trigger] out@[j].0@ == entries@[j].0@ && out@[j].1@ == entries@[j].1@,
                    decreases entries.len() - i,
                {
                    proof {
                        assert(decreases_to!(*self => self->Object_0));
                        assert(decreases_to!(*entries => entries@));
                        assert(decreases_to!(entries@ => entries@[i as int]));
                        assert(decreases_to!(entries@[i as int] => entries@[i as int].1));
                    }
                    let key = entries[i].0.clone();
                    let value = entries[i].1.copy();
                    out.push((key, value));
                    i = i + 1;
                }
                let r = Json::Object(out);
                proof {
                    lemma_object_view(&r);
                    lemma_object_view(self);
                }
                assert(r@->Object_0 =~= self@->Object_0);
                r
            },
        }
    }
}

} // verus!
