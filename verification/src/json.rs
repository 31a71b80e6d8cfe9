//! JSON values.

use vstd::prelude::*;

use crate::text::same;

verus! {

/// A JSON value. Numbers are held by their text.
#[derive(Debug, PartialEq, Eq)]
pub enum JsonValue {
    Null,
    Bool(bool),
    Number(String),
    Text(String),
    List(Vec<JsonValue>),
    Object(Vec<JsonField>),
}

/// A field of a JSON object.
#[derive(Debug, PartialEq, Eq)]
pub struct JsonField {
    pub name: String,
    pub value: JsonValue,
}

/// The contents of a JSON value.
pub enum JsonModel {
    Null,
    Bool(bool),
    Number(Seq<char>),
    Text(Seq<char>),
    List(Seq<JsonModel>),
    Object(Seq<(Seq<char>, JsonModel)>),
}

/// The place of the first field of a name; the number of fields if there is none.
pub open spec fn field_place(fields: Seq<(Seq<char>, JsonModel)>, name: Seq<char>) -> int
    decreases fields.len(),
{
    if fields.len() == 0 || fields[0].0 == name {
        0
    } else {
        1 + field_place(fields.drop_first(), name)
    }
}

/// The place is the first one of the name.
proof fn lemma_field_place(fields: Seq<(Seq<char>, JsonModel)>, name: Seq<char>, n: int)
    requires
        0 <= n <= fields.len(),
        forall|i: int| 0 <= i < n ==> (#[trigger] fields[i]).0 != name,
        n == fields.len() || fields[n].0 == name,
    ensures
        field_place(fields, name) == n,
    decreases n,
{
    if n > 0 {
        let rest = fields.drop_first();
        assert(fields[0].0 != name);
        assert forall|i: int| 0 <= i < n - 1 implies (#[trigger] rest[i]).0 != name by {
            assert(rest[i] == fields[i + 1]);
        }
        lemma_field_place(rest, name, n - 1);
    }
}

impl JsonModel {
    /// The value of a field; values that are no objects have no fields.
    pub open spec fn field(self, name: Seq<char>) -> Option<JsonModel> {
        match self {
            JsonModel::Object(fields) => if field_place(fields, name) < fields.len() {
                Some(fields[field_place(fields, name)].1)
            } else {
                None
            },
            _ => None,
        }
    }

    /// The object with a field set; values that are no objects stay.
    pub open spec fn with_field(self, name: Seq<char>, value: JsonModel) -> JsonModel {
        match self {
            JsonModel::Object(fields) => JsonModel::Object(
                if field_place(fields, name) < fields.len() {
                    fields.update(field_place(fields, name), (name, value))
                } else {
                    fields.push((name, value))
                },
            ),
            _ => self,
        }
    }

    /// The text, if the value is one.
    pub open spec fn text(self) -> Option<Seq<char>> {
        match self {
            JsonModel::Text(t) => Some(t),
            _ => None,
        }
    }
}

/// A field that was set is read back, and the other fields stay.
pub proof fn field_after_set(
    object: JsonModel,
    name: Seq<char>,
    value: JsonModel,
    other: Seq<char>,
)
    requires
        object is Object,
    ensures
        object.with_field(name, value).field(name) == Some(value),
        other != name ==> object.with_field(name, value).field(other) == object.field(other),
{
    let before = object->Object_0;
    let after = object.with_field(name, value)->Object_0;
    lemma_field_place_bound(before, name);
    let at = field_place(before, name);
    lemma_field_place(after, name, at);
    if other != name {
        lemma_field_place_bound(before, other);
        let place = field_place(before, other);
        if place < before.len() {
            lemma_field_place(after, other, place);
        } else {
            lemma_field_place(after, other, after.len() as int);
        }
    }
}

/// Before the place of a name stand other names.
proof fn lemma_field_place_bound(fields: Seq<(Seq<char>, JsonModel)>, name: Seq<char>)
    ensures
        0 <= field_place(fields, name) <= fields.len(),
        forall|i: int| 0 <= i < field_place(fields, name) ==> (#[trigger] fields[i]).0 != name,
        field_place(fields, name) < fields.len() ==> fields[field_place(fields, name)].0 == name,
    decreases fields.len(),
{
    if fields.len() > 0 && fields[0].0 != name {
        let rest = fields.drop_first();
        lemma_field_place_bound(rest, name);
        assert forall|i: int| 0 <= i < field_place(fields, name) implies (#[trigger] fields[i]).0
            != name by {
            if i > 0 {
                assert(rest[i - 1] == fields[i]);
            }
        }
    }
}

impl JsonValue {
    pub open spec fn view(&self) -> JsonModel
        decreases self,
    {
        match self {
            JsonValue::Null => JsonModel::Null,
            JsonValue::Bool(b) => JsonModel::Bool(*b),
            JsonValue::Number(n) => JsonModel::Number(n@),
            JsonValue::Text(t) => JsonModel::Text(t@),
            JsonValue::List(items) => JsonModel::List(
                Seq::new(
                    items@.len(),
                    |i: int|
                        if 0 <= i < items@.len() {
                            items@[i].view()
                        } else {
                            JsonModel::Null
                        },
                ),
            ),
            JsonValue::Object(fields) => JsonModel::Object(
                Seq::new(
                    fields@.len(),
                    |i: int|
                        if 0 <= i < fields@.len() {
                            (fields@[i].name@, fields@[i].value.view())
                        } else {
                            (Seq::empty(), JsonModel::Null)
                        },
                ),
            ),
        }
    }

    /// The value of a field; values that are no objects have no fields.
    pub fn get(&self, name: &str) -> (r: Option<&JsonValue>)
        ensures
            match r {
                Some(value) => self@.field(name@) == Some(value@),
                None => self@.field(name@) is None,
            },
    {
        match self {
            JsonValue::Object(fields) => {
                let ghost model = self@->Object_0;
                let mut i: usize = 0;
                while i < fields.len()
                    invariant
                        i <= fields.len(),
                        *self == JsonValue::Object(*fields),
                        model == self@->Object_0,
                        forall|j: int| 0 <= j < i ==> (#[trigger] model[j]).0 != name@,
                    decreases fields.len() - i,
                {
                    assert(model[i as int].0 == fields[i as int].name@);
                    if same(fields[i].name.as_str(), name) {
                        proof {
                            lemma_field_place(model, name@, i as int);
                        }
                        return Some(&fields[i].value);
                    }
                    i = i + 1;
                }
                proof {
                    lemma_field_place(model, name@, i as int);
                }
                None
            },
            _ => None,
        }
    }

    /// Sets a field of an object; values that are no objects stay.
    pub fn set(&mut self, name: &str, value: JsonValue)
        ensures
            final(self)@ == old(self)@.with_field(name@, value@),
    {
        let ghost before = *self;
        match self {
            JsonValue::Object(fields) => {
                let ghost model = before@->Object_0;
                let mut i: usize = 0;
                while i < fields.len() && !same(fields[i].name.as_str(), name)
                    invariant
                        i <= fields.len(),
                        before == JsonValue::Object(*fields),
                        model == before@->Object_0,
                        forall|j: int| 0 <= j < i ==> (#[trigger] model[j]).0 != name@,
                    decreases fields.len() - i,
                {
                    assert(model[i as int].0 == fields[i as int].name@);
                    i = i + 1;
                }
                proof {
                    if i < fields.len() {
                        assert(model[i as int].0 == fields[i as int].name@);
                    }
                    lemma_field_place(model, name@, i as int);
                }
                let field = JsonField { name: name.to_owned(), value };
                if i < fields.len() {
                    fields.set(i, field);
                } else {
                    fields.push(field);
                }
                assert(self@->Object_0 =~= before@.with_field(name@, value@)->Object_0);
            },
            _ => {},
        }
    }

    /// The text, if the value is one.
    pub fn as_str(&self) -> (r: Option<&str>)
        ensures
            match r {
                Some(t) => self@ == JsonModel::Text(t@),
                None => self@.text() is None,
            },
    {
        match self {
            JsonValue::Text(t) => Some(t.as_str()),
            _ => None,
        }
    }

    /// The truth value, if the value is one.
    pub fn as_bool(&self) -> (r: Option<bool>)
        ensures
            match r {
                Some(b) => self@ == JsonModel::Bool(b),
                None => !(self@ is Bool),
            },
    {
        match self {
            JsonValue::Bool(b) => Some(*b),
            _ => None,
        }
    }

    /// A copy of the value.
    pub fn copy(&self) -> (r: JsonValue)
        ensures
            r@ == self@,
        decreases self,
    {
        match self {
            JsonValue::Null => JsonValue::Null,
            JsonValue::Bool(b) => JsonValue::Bool(*b),
            JsonValue::Number(n) => JsonValue::Number(n.clone()),
            JsonValue::Text(t) => JsonValue::Text(t.clone()),
            JsonValue::List(items) => {
                let mut out: Vec<JsonValue> = Vec::new();
                let mut i: usize = 0;
                while i < items.len()
                    invariant
                        i <= items.len(),
                        out.len() == i,
                        decreases_to!(self => items),
                        forall|j: int| 0 <= j < i ==> (#[trigger] out[j])@ == items[j]@,
                    decreases items.len() - i,
                {
                    out.push(items[i].copy());
                    i = i + 1;
                }
                let r = JsonValue::List(out);
                assert(r@->List_0 =~= self@->List_0);
                r
            },
            JsonValue::Object(fields) => {
                let mut out: Vec<JsonField> = Vec::new();
                let mut i: usize = 0;
                while i < fields.len()
                    invariant
                        i <= fields.len(),
                        out.len() == i,
                        decreases_to!(self => fields),
                        forall|j: int|
                            0 <= j < i ==> (#[trigger] out[j]).name@ == fields[j].name@
                                && out[j].value@ == fields[j].value@,
                    decreases fields.len() - i,
                {
                    out.push(
                        JsonField {
                            name: fields[i].name.clone(),
                            value: fields[i].value.copy(),
                        },
                    );
                    i = i + 1;
                }
                let r = JsonValue::Object(out);
                assert(r@->Object_0 =~= self@->Object_0);
                r
            },
        }
    }
}

} // verus!
