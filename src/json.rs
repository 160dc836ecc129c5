use vstd::prelude::*;

verus! {

/// A JSON document as the rule compilers read it. Numbers are integers.
#[derive(Debug)]
pub enum Json {
    Null,
    Bool(bool),
    Number(i64),
    String(String),
    Array(Vec<Json>),
    Object(Vec<(String, Json)>),
}

/// What a JSON document stands for.
pub enum JsonV {
    Null,
    Bool(bool),
    Num(int),
    Str(Seq<char>),
    Arr(Seq<JsonV>),
    Obj(Seq<(Seq<char>, JsonV)>),
}

/// The document `j` stands for.
pub open spec fn json_view(j: Json) -> JsonV
    decreases j,
{
    match j {
        Json::Null => JsonV::Null,
        Json::Bool(b) => JsonV::Bool(b),
        Json::Number(n) => JsonV::Num(n as int),
        Json::String(s) => JsonV::Str(s@),
        Json::Array(items) => JsonV::Arr(
            Seq::new(
                items.len() as nat,
                |i: int|
                    if 0 <= i < items.len() {
                        json_view(items[i])
                    } else {
                        JsonV::Null
                    },
            ),
        ),
        Json::Object(fields) => JsonV::Obj(
            Seq::new(
                fields.len() as nat,
                |i: int|
                    if 0 <= i < fields.len() {
                        (fields[i].0@, json_view(fields[i].1))
                    } else {
                        (Seq::empty(), JsonV::Null)
                    },
            ),
        ),
    }
}

impl View for Json {
    type V = JsonV;

    open spec fn view(&self) -> JsonV {
        json_view(*self)
    }
}

/// The value of the first field named `key` in `fields`.
pub open spec fn field(fields: Seq<(Seq<char>, JsonV)>, key: Seq<char>) -> Option<JsonV>
    decreases fields.len(),
{
    if fields.len() == 0 {
        None
    } else if fields[0].0 == key {
        Some(fields[0].1)
    } else {
        field(fields.drop_first(), key)
    }
}

/// A field's value is smaller than the list of fields it stands in.
pub proof fn lemma_field_decreases(fields: Seq<(Seq<char>, JsonV)>, key: Seq<char>)
    ensures
        field(fields, key) matches Some(v) ==> decreases_to!(fields => v),
    decreases fields.len(),
{
    if fields.len() > 0 {
        if fields[0].0 == key {
            assert(decreases_to!(fields => fields[0]));
            assert(decreases_to!(fields[0] => fields[0].1));
        } else {
            lemma_field_decreases(fields.drop_first(), key);
            assert(decreases_to!(fields => fields.drop_first())) by {
                assert(fields.drop_first() == fields.subrange(1, fields.len() as int));
            }
        }
    }
}

/// The views of a list of documents.
pub open spec fn jsons_view(v: Seq<Json>) -> Seq<JsonV> {
    Seq::new(v.len(), |i: int| json_view(v[i]))
}

/// The field `key` of `j`, when `j` is an object that has it.
pub open spec fn get_field(j: JsonV, key: Seq<char>) -> Option<JsonV> {
    match j {
        JsonV::Obj(fields) => field(fields, key),
        _ => None,
    }
}

/// What an array or object document stands for, element by element.
pub proof fn lemma_json_view(j: Json)
    ensures
        j matches Json::Array(items) ==> json_view(j) matches JsonV::Arr(s) && s.len() == items@.len()
            && forall|k: int| 0 <= k < items@.len() ==> #[trigger] s[k] == json_view(items@[k]),
        j matches Json::Object(fields) ==> json_view(j) matches JsonV::Obj(s) && s.len() == fields@.len()
            && forall|k: int| 0 <= k < fields@.len() ==> #[trigger] s[k] == (fields@[k].0@, json_view(fields@[k].1)),
{
}

impl Json {
    /// The field `key` of this document, when it is an object that has one.
    pub fn get(&self, key: &str) -> (r: Option<&Json>)
        ensures
            match r {
                Some(v) => get_field(self@, key@) == Some(v@) && decreases_to!(*self => *v),
                None => get_field(self@, key@) is None,
            },
    {
        match self {
            Json::Object(fields) => {
                proof {
                    lemma_json_view(*self);
                }
                let ghost s = self@->Obj_0;
                let k = String::from_str(key);
                let mut i: usize = 0;
                assert(s.subrange(0, s.len() as int) =~= s);
                while i < fields.len()
                    invariant
                        *self == Json::Object(*fields),
                        s == self@->Obj_0,
                        s.len() == fields@.len(),
                        forall|m: int| 0 <= m < fields@.len() ==> #[trigger] s[m] == (fields@[m].0@, json_view(fields@[m].1)),
                        k@ == key@,
                        i <= fields.len(),
                        field(s, key@) == field(s.subrange(i as int, s.len() as int), key@),
                    decreases fields.len() - i,
                {
                    assert(s.subrange(i as int, s.len() as int).drop_first() =~= s.subrange(i as int + 1, s.len() as int));
                    if fields[i].0 == k {
                        proof {
                            vstd::std_specs::vec::axiom_vec_index_decreases(*fields, i as int);
                            assert(decreases_to!(*self => self->Object_0));
                            assert(decreases_to!(fields@[i as int] => fields@[i as int].1));
                        }
                        return Some(&fields[i].1);
                    }
                    i = i + 1;
                }
                None
            },
            _ => None,
        }
    }

    /// The text of this document, when it is a string.
    pub fn as_str(&self) -> (r: Option<&str>)
        ensures
            match r {
                Some(s) => self@ == JsonV::Str(s@),
                None => !(self@ is Str),
            },
    {
        match self {
            Json::String(s) => Some(s.as_str()),
            _ => None,
        }
    }

    /// The elements of this document, when it is an array.
    pub fn as_array(&self) -> (r: Option<&Vec<Json>>)
        ensures
            match r {
                Some(v) => *self == Json::Array(*v),
                None => !(self@ is Arr),
            },
    {
        match self {
            Json::Array(v) => Some(v),
            _ => None,
        }
    }

    /// Whether this document is `null`.
    pub fn is_null(&self) -> (r: bool)
        ensures
            r == (self@ is Null),
    {
        matches!(self, Json::Null)
    }
}

} // verus!
