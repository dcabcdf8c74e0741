//! JSON values as the daemon's replies and requests hold them.
use serde_json::Value;
use vstd::prelude::*;

use crate::text::{self, push_decimal, same_text};

verus! {

/// A JSON value.
#[derive(Debug)]
pub enum Json {
    Null,
    Bool(bool),
    /// A whole number from zero to the largest `u64`.
    Number(u64),
    /// Any other number, as it is written.
    OtherNumber(String),
    Str(String),
    Array(Vec<Json>),
    /// The fields in order, each with its name.
    Object(Vec<(String, Json)>),
}

/// What a JSON value says.
pub enum JsonView {
    Null,
    Bool(bool),
    Number(u64),
    OtherNumber(Seq<char>),
    Str(Seq<char>),
    Array(Seq<JsonView>),
    Object(Seq<(Seq<char>, JsonView)>),
}

/// What each value of a list says.
pub open spec fn json_list(values: Seq<Json>) -> Seq<JsonView>
    decreases values,
{
    if values.len() == 0 {
        Seq::empty()
    } else {
        json_list(values.drop_last()).push(values.last().said())
    }
}

/// What each field of a list says.
pub open spec fn json_fields(fields: Seq<(String, Json)>) -> Seq<(Seq<char>, JsonView)>
    decreases fields,
{
    if fields.len() == 0 {
        Seq::empty()
    } else {
        json_fields(fields.drop_last()).push((fields.last().0@, fields.last().1.said()))
    }
}

impl Json {
    /// What this value says.
    pub open spec fn said(self) -> JsonView
        decreases self,
    {
        match self {
            Json::Null => JsonView::Null,
            Json::Bool(b) => JsonView::Bool(b),
            Json::Number(n) => JsonView::Number(n),
            Json::OtherNumber(s) => JsonView::OtherNumber(s@),
            Json::Str(s) => JsonView::Str(s@),
            Json::Array(v) => JsonView::Array(json_list(v@)),
            Json::Object(v) => JsonView::Object(json_fields(v@)),
        }
    }
}

impl View for Json {
    type V = JsonView;

    open spec fn view(&self) -> JsonView {
        self.said()
    }
}

/// The value of the first field with a name.
pub open spec fn field_of(fields: Seq<(Seq<char>, JsonView)>, name: Seq<char>) -> Option<JsonView>
    decreases fields.len(),
{
    if fields.len() == 0 {
        None
    } else if fields[0].0 == name {
        Some(fields[0].1)
    } else {
        field_of(fields.skip(1), name)
    }
}

impl JsonView {
    /// The field with a name, where this is an object that has it.
    pub open spec fn get(self, name: Seq<char>) -> Option<JsonView> {
        match self {
            JsonView::Object(fields) => field_of(fields, name),
            _ => None,
        }
    }

    /// The field with a name, or null.
    pub open spec fn at(self, name: Seq<char>) -> JsonView {
        match self.get(name) {
            Some(v) => v,
            None => JsonView::Null,
        }
    }

    /// The text, where this is one.
    pub open spec fn text(self) -> Option<Seq<char>> {
        match self {
            JsonView::Str(s) => Some(s),
            _ => None,
        }
    }

    /// The number, where this is a whole one that fits.
    pub open spec fn number(self) -> Option<u64> {
        match self {
            JsonView::Number(n) => Some(n),
            _ => None,
        }
    }

    /// The truth value, where this is one.
    pub open spec fn truth(self) -> Option<bool> {
        match self {
            JsonView::Bool(b) => Some(b),
            _ => None,
        }
    }

    /// The elements, where this is an array.
    pub open spec fn elements(self) -> Option<Seq<JsonView>> {
        match self {
            JsonView::Array(v) => Some(v),
            _ => None,
        }
    }
}

/// The views of a list, one by one.
pub proof fn lemma_json_list(values: Seq<Json>)
    ensures
        json_list(values).len() == values.len(),
        forall|i: int| 0 <= i < values.len() ==> #[trigger] json_list(values)[i] == values[i]@,
    decreases values.len(),
{
    if values.len() > 0 {
        lemma_json_list(values.drop_last());
        assert forall|i: int| 0 <= i < values.len() implies #[trigger] json_list(values)[i]
            == values[i]@ by {
            if i < values.len() - 1 {
                assert(json_list(values)[i] == json_list(values.drop_last())[i]);
                assert(values.drop_last()[i] == values[i]);
            }
        }
    }
}

/// The views of a list of fields, one by one.
pub proof fn lemma_json_fields(fields: Seq<(String, Json)>)
    ensures
        json_fields(fields).len() == fields.len(),
        forall|i: int|
            0 <= i < fields.len() ==> #[trigger] json_fields(fields)[i] == (
                fields[i].0@,
                fields[i].1@,
            ),
    decreases fields.len(),
{
    if fields.len() > 0 {
        lemma_json_fields(fields.drop_last());
        assert forall|i: int| 0 <= i < fields.len() implies #[trigger] json_fields(fields)[i] == (
            fields[i].0@,
            fields[i].1@,
        ) by {
            if i < fields.len() - 1 {
                assert(json_fields(fields)[i] == json_fields(fields.drop_last())[i]);
                assert(fields.drop_last()[i] == fields[i]);
            }
        }
    }
}

impl Json {
    /// The field with a name, where this is an object that has it.
    pub fn get(&self, name: &str) -> (r: Option<&Json>)
        ensures
            match r {
                Some(v) => self@.get(name@) == Some(v@),
                None => self@.get(name@) is None,
            },
    {
        match self {
            Json::Object(fields) => {
                let ghost views = json_fields(fields@);
                proof {
                    lemma_json_fields(fields@);
                    assert(views.skip(0) =~= views);
                }
                let mut i: usize = 0;
                while i < fields.len()
                    invariant
                        i <= fields.len(),
                        views == json_fields(fields@),
                        views.len() == fields.len(),
                        self@ == JsonView::Object(views),
                        forall|j: int|
                            0 <= j < fields.len() ==> #[trigger] views[j] == (
                                fields[j].0@,
                                fields[j].1@,
                            ),
                        field_of(views, name@) == field_of(views.skip(i as int), name@),
                    decreases fields.len() - i,
                {
                    assert(views.skip(i as int)[0] == views[i as int]);
                    assert(views.skip(i as int).skip(1) =~= views.skip(i + 1));
                    if same_text(fields[i].0.as_str(), name) {
                        return Some(&fields[i].1);
                    }
                    i += 1;
                }
                None
            },
            _ => None,
        }
    }

    /// The text, where this is one.
    pub fn as_str(&self) -> (r: Option<&str>)
        ensures
            match r {
                Some(s) => self@.text() == Some(s@),
                None => self@.text() is None,
            },
    {
        match self {
            Json::Str(s) => Some(s.as_str()),
            _ => None,
        }
    }

    /// The number, where this is a whole one that fits.
    pub fn as_u64(&self) -> (r: Option<u64>)
        ensures
            r == self@.number(),
    {
        match self {
            Json::Number(n) => Some(*n),
            _ => None,
        }
    }

    /// The truth value, where this is one.
    pub fn as_bool(&self) -> (r: Option<bool>)
        ensures
            r == self@.truth(),
    {
        match self {
            Json::Bool(b) => Some(*b),
            _ => None,
        }
    }

    /// The elements, where this is an array.
    pub fn as_array(&self) -> (r: Option<&Vec<Json>>)
        ensures
            match r {
                Some(v) => self@.elements() == Some(json_list(v@)),
                None => self@.elements() is None,
            },
    {
        match self {
            Json::Array(v) => Some(v),
            _ => None,
        }
    }

    /// The text of a field, where it is there and is one.
    pub fn str_at(&self, name: &str) -> (r: Option<&str>)
        ensures
            match r {
                Some(s) => self@.at(name@).text() == Some(s@),
                None => self@.at(name@).text() is None,
            },
    {
        match self.get(name) {
            Some(v) => v.as_str(),
            None => None,
        }
    }

    /// The number of a field, where it is there and is a whole one that fits.
    pub fn u64_at(&self, name: &str) -> (r: Option<u64>)
        ensures
            r == self@.at(name@).number(),
    {
        match self.get(name) {
            Some(v) => v.as_u64(),
            None => None,
        }
    }

    /// The elements of a field, where it is there and is an array.
    pub fn array_at(&self, name: &str) -> (r: Option<&Vec<Json>>)
        ensures
            match r {
                Some(v) => self@.at(name@).elements() == Some(json_list(v@)),
                None => self@.at(name@).elements() is None,
            },
    {
        match self.get(name) {
            Some(v) => v.as_array(),
            None => None,
        }
    }

    /// A copy of this value.
    pub fn copy(&self) -> (r: Json)
        ensures
            r@ == self@,
        decreases self,
    {
        match self {
            Json::Null => Json::Null,
            Json::Bool(b) => Json::Bool(*b),
            Json::Number(n) => Json::Number(*n),
            Json::OtherNumber(s) => Json::OtherNumber(s.clone()),
            Json::Str(s) => Json::Str(s.clone()),
            Json::Array(v) => {
                let mut out: Vec<Json> = Vec::new();
                let mut i: usize = 0;
                proof {
                    lemma_json_list(v@);
                }
                while i < v.len()
                    invariant
                        i <= v.len(),
                        decreases_to!(self => v@),
                        json_list(v@).len() == v.len(),
                        forall|j: int|
                            0 <= j < v.len() ==> #[trigger] json_list(v@)[j] == v[j]@,
                        json_list(out@) == json_list(v@).take(i as int),
                    decreases v.len() - i,
                {
                    assert(decreases_to!(v@ => v@[i as int]));
                    let c: Json = v[i].copy();
                    let ghost before = out@;
                    out.push(c);
                    assert(out@.drop_last() =~= before);
                    assert(json_list(out@) =~= json_list(v@).take(i + 1));
                    i += 1;
                }
                assert(json_list(v@).take(v.len() as int) =~= json_list(v@));
                Json::Array(out)
            },
            Json::Object(v) => {
                let mut out: Vec<(String, Json)> = Vec::new();
                let mut i: usize = 0;
                proof {
                    lemma_json_fields(v@);
                }
                while i < v.len()
                    invariant
                        i <= v.len(),
                        decreases_to!(self => v@),
                        json_fields(v@).len() == v.len(),
                        forall|j: int|
                            0 <= j < v.len() ==> #[trigger] json_fields(v@)[j] == (
                                v[j].0@,
                                v[j].1@,
                            ),
                        json_fields(out@) == json_fields(v@).take(i as int),
                    decreases v.len() - i,
                {
                    assert(decreases_to!(v@ => v@[i as int]));
                    assert(decreases_to!(v@[i as int] => v@[i as int].1));
                    let c: Json = v[i].1.copy();
                    let ghost before = out@;
                    out.push((v[i].0.clone(), c));
                    assert(out@.drop_last() =~= before);
                    assert(json_fields(out@) =~= json_fields(v@).take(i + 1));
                    i += 1;
                }
                assert(json_fields(v@).take(v.len() as int) =~= json_fields(v@));
                Json::Object(out)
            },
        }
    }
}

// ---------------------------------------------------------------------------
// Writing
// ---------------------------------------------------------------------------

/// A text as JSON has it: within quotes, escaped where it needs it.
pub uninterp spec fn json_quoted(s: Seq<char>) -> Seq<char>;

/// `serde_json::Value::to_string` on a text.
#[verifier::external_body]
fn quote_json(s: &str) -> (r: String)
    ensures
        r@ == json_quoted(s@),
{
    Value::String(s.to_owned()).to_string()
}

/// Some values in JSON, with commas between them.
pub open spec fn list_written(values: Seq<JsonView>) -> Seq<char>
    decreases values,
{
    if values.len() == 0 {
        Seq::empty()
    } else if values.len() == 1 {
        values.last().written()
    } else {
        list_written(values.drop_last()) + ","@ + values.last().written()
    }
}

/// Some fields in JSON, with commas between them.
pub open spec fn fields_written(fields: Seq<(Seq<char>, JsonView)>) -> Seq<char>
    decreases fields,
{
    if fields.len() == 0 {
        Seq::empty()
    } else {
        let one = json_quoted(fields.last().0) + ":"@ + fields.last().1.written();
        if fields.len() == 1 {
            one
        } else {
            fields_written(fields.drop_last()) + ","@ + one
        }
    }
}

impl JsonView {
    /// This value in JSON, without space between its parts.
    pub open spec fn written(self) -> Seq<char>
        decreases self,
    {
        match self {
            JsonView::Null => "null"@,
            JsonView::Bool(b) => if b {
                "true"@
            } else {
                "false"@
            },
            JsonView::Number(n) => text::decimal(n as nat),
            JsonView::OtherNumber(s) => s,
            JsonView::Str(s) => json_quoted(s),
            JsonView::Array(v) => "["@ + list_written(v) + "]"@,
            JsonView::Object(v) => "{"@ + fields_written(v) + "}"@,
        }
    }
}

impl Json {
    /// Writes this value in JSON, without space between its parts.
    pub fn written(&self) -> (r: String)
        ensures
            r@ == self@.written(),
        decreases self,
    {
        match self {
            Json::Null => "null".to_owned(),
            Json::Bool(b) => if *b {
                "true".to_owned()
            } else {
                "false".to_owned()
            },
            Json::Number(n) => {
                let mut out: String = String::new();
                push_decimal(&mut out, *n);
                assert(out@ =~= text::decimal(*n as nat));
                out
            },
            Json::OtherNumber(s) => s.clone(),
            Json::Str(s) => quote_json(s.as_str()),
            Json::Array(v) => {
                let ghost all = json_list(v@);
                let mut out: String = "[".to_owned();
                let mut i: usize = 0;
                proof {
                    lemma_json_list(v@);
                    assert(all.take(0) =~= Seq::<JsonView>::empty());
                    assert("["@ + list_written(all.take(0)) =~= "["@);
                }
                while i < v.len()
                    invariant
                        i <= v.len(),
                        decreases_to!(self => v@),
                        all.len() == v.len(),
                        forall|j: int| 0 <= j < v.len() ==> #[trigger] all[j] == v[j]@,
                        out@ == "["@ + list_written(all.take(i as int)),
                    decreases v.len() - i,
                {
                    assert(decreases_to!(v@ => v@[i as int]));
                    let ghost before = list_written(all.take(i as int));
                    let one: String = v[i].written();
                    proof {
                        assert(all.take(i + 1).drop_last() =~= all.take(i as int));
                        assert(all.take(i + 1).last() == v[i as int]@);
                    }
                    if i > 0 {
                        out.append(",");
                        out.append(one.as_str());
                        assert(out@ =~= "["@ + (before + ","@ + one@));
                    } else {
                        out.append(one.as_str());
                        assert(out@ =~= "["@ + one@);
                    }
                    i += 1;
                }
                assert(all.take(v.len() as int) =~= all);
                out.append("]");
                out
            },
            Json::Object(v) => {
                let ghost all = json_fields(v@);
                let mut out: String = "{".to_owned();
                let mut i: usize = 0;
                proof {
                    lemma_json_fields(v@);
                    assert(all.take(0) =~= Seq::<(Seq<char>, JsonView)>::empty());
                    assert("{"@ + fields_written(all.take(0)) =~= "{"@);
                }
                while i < v.len()
                    invariant
                        i <= v.len(),
                        decreases_to!(self => v@),
                        all.len() == v.len(),
                        forall|j: int|
                            0 <= j < v.len() ==> #[trigger] all[j] == (v[j].0@, v[j].1@),
                        out@ == "{"@ + fields_written(all.take(i as int)),
                    decreases v.len() - i,
                {
                    assert(decreases_to!(v@ => v@[i as int]));
                    assert(decreases_to!(v@[i as int] => v@[i as int].1));
                    let ghost before = fields_written(all.take(i as int));
                    let mut one: String = quote_json(v[i].0.as_str());
                    one.append(":");
                    one.append(v[i].1.written().as_str());
                    proof {
                        assert(all.take(i + 1).drop_last() =~= all.take(i as int));
                        assert(all.take(i + 1).last() == (v[i as int].0@, v[i as int].1@));
                    }
                    if i > 0 {
                        out.append(",");
                        out.append(one.as_str());
                        assert(out@ =~= "{"@ + (before + ","@ + one@));
                    } else {
                        out.append(one.as_str());
                        assert(out@ =~= "{"@ + one@);
                    }
                    i += 1;
                }
                assert(all.take(v.len() as int) =~= all);
                out.append("}");
                out
            },
        }
    }
}

// ---------------------------------------------------------------------------
// Building
// ---------------------------------------------------------------------------

/// A text value.
pub fn json_str(s: &str) -> (r: Json)
    ensures
        r@ == JsonView::Str(s@),
{
    Json::Str(s.to_owned())
}

/// An object with one field.
pub fn object_1(name: &str, value: Json) -> (r: Json)
    ensures
        r@ == JsonView::Object(seq![(name@, value@)]),
{
    let fields: Vec<(String, Json)> = vec![(name.to_owned(), value)];
    proof {
        lemma_json_fields(fields@);
        assert(json_fields(fields@) =~= seq![(name@, value@)]);
    }
    Json::Object(fields)
}

/// An object with two fields.
pub fn object_2(name1: &str, value1: Json, name2: &str, value2: Json) -> (r: Json)
    ensures
        r@ == JsonView::Object(seq![(name1@, value1@), (name2@, value2@)]),
{
    let fields: Vec<(String, Json)> = vec![(name1.to_owned(), value1), (name2.to_owned(), value2)];
    proof {
        lemma_json_fields(fields@);
        assert(json_fields(fields@) =~= seq![(name1@, value1@), (name2@, value2@)]);
    }
    Json::Object(fields)
}

/// Adds a field at the end of a list of fields.
pub fn push_field(fields: &mut Vec<(String, Json)>, name: &str, value: Json)
    ensures
        json_fields(final(fields)@) == json_fields(old(fields)@).push((name@, value@)),
{
    fields.push((name.to_owned(), value));
    assert(fields@.drop_last() =~= old(fields)@);
}

} // verus!
