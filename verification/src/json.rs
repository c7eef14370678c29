//! JSON values as the connectors read them, and the calls that parse them.

use vstd::prelude::*;

use crate::text::same_text;

verus! {

/// A JSON number: its integer readings, and the number as written.
#[derive(Debug, Clone)]
pub struct JsonNum {
    /// The number as an unsigned integer, where it is one.
    pub unsigned: Option<u64>,
    /// The number as a signed integer, where it is one.
    pub signed: Option<i64>,
    /// The number without its fraction, held to the range of an unsigned integer.
    pub truncated: u64,
    /// The number in writing.
    pub text: String,
}

/// Model of a [`JsonNum`].
pub struct NumModel {
    pub unsigned: Option<u64>,
    pub signed: Option<i64>,
    pub truncated: u64,
    pub text: Seq<char>,
}

impl View for JsonNum {
    type V = NumModel;

    open spec fn view(&self) -> NumModel {
        NumModel {
            unsigned: self.unsigned,
            signed: self.signed,
            truncated: self.truncated,
            text: self.text@,
        }
    }
}

/// A JSON value. The entries of an object stand in the order of their keys.
#[derive(Debug)]
pub enum Json {
    Null,
    Bool(bool),
    Num(JsonNum),
    Str(String),
    Arr(Vec<Json>),
    Obj(Vec<(String, Json)>),
}

/// Model of a [`Json`] value.
pub enum JsonModel {
    Null,
    Bool(bool),
    Num(NumModel),
    Str(Seq<char>),
    Arr(Seq<JsonModel>),
    Obj(Seq<(Seq<char>, JsonModel)>),
}

impl View for Json {
    type V = JsonModel;

    open spec fn view(&self) -> JsonModel {
        json_model(*self)
    }
}

/// The model of a value.
pub open spec fn json_model(j: Json) -> JsonModel
    decreases j,
{
    match j {
        Json::Null => JsonModel::Null,
        Json::Bool(b) => JsonModel::Bool(b),
        Json::Num(n) => JsonModel::Num(n@),
        Json::Str(s) => JsonModel::Str(s@),
        Json::Arr(v) => JsonModel::Arr(
            Seq::new(
                v@.len(),
                |i: int|
                    if 0 <= i < v@.len() {
                        json_model(v@[i])
                    } else {
                        JsonModel::Null
                    },
            ),
        ),
        Json::Obj(v) => JsonModel::Obj(
            Seq::new(
                v@.len(),
                |i: int|
                    if 0 <= i < v@.len() {
                        (v@[i].0@, json_model(v@[i].1))
                    } else {
                        (Seq::empty(), JsonModel::Null)
                    },
            ),
        ),
    }
}

/// Models of a list of values.
pub open spec fn jsons_of(v: Seq<Json>) -> Seq<JsonModel> {
    v.map_values(|j: Json| j@)
}

/// Index of the first entry under `key`.
pub open spec fn entry_index(v: Seq<(Seq<char>, JsonModel)>, key: Seq<char>) -> Option<int>
    decreases v.len(),
{
    if v.len() == 0 {
        None
    } else {
        match entry_index(v.drop_last(), key) {
            Some(i) => Some(i),
            None => if v.last().0 == key {
                Some(v.len() - 1)
            } else {
                None
            },
        }
    }
}

impl JsonModel {
    /// The value under `key`, in an object that has one.
    pub open spec fn field(self, key: Seq<char>) -> Option<JsonModel> {
        match self {
            JsonModel::Obj(v) => match entry_index(v, key) {
                Some(i) => Some(v[i].1),
                None => None,
            },
            _ => None,
        }
    }

    /// The value under `key`, or null.
    pub open spec fn at(self, key: Seq<char>) -> JsonModel {
        match self.field(key) {
            Some(v) => v,
            None => JsonModel::Null,
        }
    }

    pub open spec fn as_str(self) -> Option<Seq<char>> {
        match self {
            JsonModel::Str(s) => Some(s),
            _ => None,
        }
    }

    /// The text, or an empty one.
    pub open spec fn str_or_empty(self) -> Seq<char> {
        match self {
            JsonModel::Str(s) => s,
            _ => Seq::empty(),
        }
    }

    pub open spec fn as_bool(self) -> Option<bool> {
        match self {
            JsonModel::Bool(b) => Some(b),
            _ => None,
        }
    }

    /// The value is the boolean `true`.
    pub open spec fn is_true(self) -> bool {
        self.as_bool() == Some(true)
    }

    pub open spec fn as_u64(self) -> Option<u64> {
        match self {
            JsonModel::Num(n) => n.unsigned,
            _ => None,
        }
    }

    pub open spec fn as_array(self) -> Option<Seq<JsonModel>> {
        match self {
            JsonModel::Arr(v) => Some(v),
            _ => None,
        }
    }

    /// The elements of an array; none of anything else.
    pub open spec fn elements(self) -> Seq<JsonModel> {
        match self {
            JsonModel::Arr(v) => v,
            _ => Seq::empty(),
        }
    }
}

/// Model of a value that may be missing: a missing value reads as null.
pub open spec fn val(o: Option<&Json>) -> JsonModel {
    match o {
        Some(j) => j@,
        None => JsonModel::Null,
    }
}

/// Model of an optional value.
pub open spec fn opt_json(o: Option<Json>) -> Option<JsonModel> {
    match o {
        Some(j) => Some(j@),
        None => None,
    }
}

/// Models of optional values.
pub open spec fn opt_jsons(v: Seq<Option<Json>>) -> Seq<Option<JsonModel>> {
    v.map_values(|o: Option<Json>| opt_json(o))
}

/// Model of a value that was read, or of what is wrong.
pub open spec fn json_or_fault(r: Result<Json, String>) -> Result<JsonModel, Seq<char>> {
    match r {
        Ok(j) => Ok(j@),
        Err(e) => Err(e@),
    }
}

/// An entry that a prefix holds is the first of the whole.
pub proof fn lemma_entry_index_stays(v: Seq<(Seq<char>, JsonModel)>, key: Seq<char>, n: int)
    requires
        0 <= n <= v.len(),
        entry_index(v.take(n), key) is Some,
    ensures
        entry_index(v, key) == entry_index(v.take(n), key),
    decreases v.len() - n,
{
    if n == v.len() {
        assert(v.take(n) =~= v);
    } else {
        assert(v.take(n + 1).drop_last() =~= v.take(n));
        lemma_entry_index_stays(v, key, n + 1);
    }
}

impl Json {
    /// The value under `key`, in an object that has one.
    pub fn get(&self, key: &str) -> (r: Option<&Json>)
        ensures
            match r {
                Some(v) => self@.field(key@) == Some(v@),
                None => self@.field(key@) is None,
            },
    {
        match self {
            Json::Obj(v) => {
                let ghost m = self@->Obj_0;
                let mut i: usize = 0;
                while i < v.len()
                    invariant
                        i <= v@.len(),
                        self@ == JsonModel::Obj(m),
                        m.len() == v@.len(),
                        forall|j: int| 0 <= j < m.len() ==> (#[trigger] m[j]) == (v@[j].0@, v@[j].1@),
                        entry_index(m.take(i as int), key@) is None,
                    decreases v@.len() - i,
                {
                    proof {
                        assert(m.take(i as int + 1).drop_last() =~= m.take(i as int));
                        assert(m.take(i as int + 1).last() == m[i as int]);
                    }
                    if same_text(v[i].0.as_str(), key) {
                        proof {
                            lemma_entry_index_stays(m, key@, i as int + 1);
                        }
                        return Some(&v[i].1);
                    }
                    i += 1;
                }
                assert(m.take(i as int) =~= m);
                None
            },
            _ => None,
        }
    }
}

/// The value under `key`; a missing value reads as null.
pub fn at<'a>(o: Option<&'a Json>, key: &str) -> (r: Option<&'a Json>)
    ensures
        val(r) == val(o).at(key@),
{
    match o {
        Some(j) => j.get(key),
        None => None,
    }
}

/// The text of a value that is one.
pub fn as_str<'a>(o: Option<&'a Json>) -> (r: Option<&'a str>)
    ensures
        match r {
            Some(s) => val(o).as_str() == Some(s@),
            None => val(o).as_str() is None,
        },
{
    match o {
        Some(Json::Str(s)) => Some(s.as_str()),
        _ => None,
    }
}

/// The text of a value, or an empty one.
pub fn str_or_empty(o: Option<&Json>) -> (r: String)
    ensures
        r@ == val(o).str_or_empty(),
{
    match o {
        Some(Json::Str(s)) => s.clone(),
        _ => String::new(),
    }
}

/// The text of a value that is one, as a copy.
pub fn opt_string(o: Option<&Json>) -> (r: Option<String>)
    ensures
        crate::text::opt_text(r) == val(o).as_str(),
{
    match o {
        Some(Json::Str(s)) => Some(s.clone()),
        _ => None,
    }
}

/// The boolean of a value that is one.
pub fn as_bool(o: Option<&Json>) -> (r: Option<bool>)
    ensures
        r == val(o).as_bool(),
{
    match o {
        Some(Json::Bool(b)) => Some(*b),
        _ => None,
    }
}

/// Whether a value is the boolean `true`.
pub fn is_true(o: Option<&Json>) -> (r: bool)
    ensures
        r == val(o).is_true(),
{
    match o {
        Some(Json::Bool(b)) => *b,
        _ => false,
    }
}

/// The unsigned integer of a value that is one.
pub fn as_u64(o: Option<&Json>) -> (r: Option<u64>)
    ensures
        r == val(o).as_u64(),
{
    match o {
        Some(Json::Num(n)) => n.unsigned,
        _ => None,
    }
}

/// The elements of a value that is an array.
pub fn as_array<'a>(o: Option<&'a Json>) -> (r: Option<&'a Vec<Json>>)
    ensures
        match r {
            Some(v) => val(o).as_array() == Some(jsons_of(v@)),
            None => val(o).as_array() is None,
        },
{
    match o {
        Some(Json::Arr(v)) => {
            assert(val(o)->Arr_0 =~= jsons_of(v@));
            Some(v)
        },
        _ => None,
    }
}

/// The model of a number that is an unsigned integer.
pub open spec fn num_model(n: u64) -> NumModel {
    NumModel {
        unsigned: Some(n),
        signed: if n <= i64::MAX {
            Some(n as i64)
        } else {
            None
        },
        truncated: n,
        text: crate::text::decimal(n as nat),
    }
}

/// A number that is an unsigned integer.
pub fn number(n: u64) -> (r: Json)
    ensures
        r@ == JsonModel::Num(num_model(n)),
{
    Json::Num(
        JsonNum {
            unsigned: Some(n),
            signed: if n <= i64::MAX as u64 {
                Some(n as i64)
            } else {
                None
            },
            truncated: n,
            text: crate::text::decimal_of(n as u128),
        },
    )
}

/// A text.
pub fn string(s: &str) -> (r: Json)
    ensures
        r@ == JsonModel::Str(s@),
{
    Json::Str(crate::text::own(s))
}

/// What `serde_json::from_str` makes of a text: the value it holds, if it is JSON.
pub uninterp spec fn json_in_text(text: Seq<char>) -> Option<JsonModel>;

/// What `serde_json::from_slice` makes of bytes: the value they hold, or what it
/// says is wrong with them.
pub uninterp spec fn json_in_bytes(bytes: Seq<u8>) -> Result<JsonModel, Seq<char>>;

/// How `serde_json` writes a value.
pub uninterp spec fn json_written(value: JsonModel) -> Seq<char>;

/// The values that `serde_json` reads one after the other in `text`; none for one
/// that is not JSON.
pub uninterp spec fn json_stream_in(text: Seq<char>) -> Seq<Option<JsonModel>>;

/// What `String::from_utf8_lossy` makes of bytes.
pub uninterp spec fn lossy_text_of(bytes: Seq<u8>) -> Seq<char>;

/// `serde_json::Value`.
#[verifier::external_type_specification]
#[verifier::external_body]
pub struct ExValue(serde_json::Value);

/// Turns a `serde_json::Value` into a [`Json`], variant by variant. Nothing is
/// claimed of it here: what a parsed value is, the parsing calls name.
#[verifier::external_body]
fn json_of(v: serde_json::Value) -> Json {
    match v {
        serde_json::Value::Null => Json::Null,
        serde_json::Value::Bool(b) => Json::Bool(b),
        serde_json::Value::Number(n) => Json::Num(JsonNum {
            unsigned: n.as_u64(),
            signed: n.as_i64(),
            truncated: n.as_f64().unwrap_or_default() as u64,
            text: n.to_string(),
        }),
        serde_json::Value::String(s) => Json::Str(s),
        serde_json::Value::Array(a) => Json::Arr(a.into_iter().map(json_of).collect()),
        serde_json::Value::Object(m) => Json::Obj(m.into_iter().map(|(k, v)| (k, json_of(v))).collect()),
    }
}

/// Turns a [`Json`] into a `serde_json::Value`, variant by variant. Nothing is
/// claimed of it here: what a written value looks like, the writing call names.
#[verifier::external_body]
fn value_of(j: &Json) -> serde_json::Value {
    match j {
        Json::Null => serde_json::Value::Null,
        Json::Bool(b) => serde_json::Value::Bool(*b),
        Json::Num(n) => serde_json::Value::Number(n.text.parse().unwrap_or(serde_json::Number::from(n.truncated))),
        Json::Str(s) => serde_json::Value::String(s.clone()),
        Json::Arr(v) => serde_json::Value::Array(v.iter().map(value_of).collect()),
        Json::Obj(v) => serde_json::Value::Object(v.iter().map(|(k, x)| (k.clone(), value_of(x))).collect()),
    }
}

/// `serde_json::Value::to_string`: what is written is a function of the value.
#[verifier::external_body]
pub(crate) fn write_json(j: &Json) -> (r: String)
    ensures
        r@ == json_written(j@),
{
    value_of(j).to_string()
}

/// `serde_json::from_str`: the value that a text holds is a function of the text.
#[verifier::external_body]
pub(crate) fn parse_text(text: &str) -> (r: Option<Json>)
    ensures
        opt_json(r) == json_in_text(text@),
{
    serde_json::from_str::<serde_json::Value>(text).ok().map(json_of)
}

/// `serde_json::from_slice`: the value that bytes hold, or the text of the error,
/// is a function of the bytes.
#[verifier::external_body]
pub(crate) fn parse_bytes(bytes: &[u8]) -> (r: Result<Json, String>)
    ensures
        json_or_fault(r) == json_in_bytes(bytes@),
{
    serde_json::from_slice::<serde_json::Value>(bytes).map(json_of).map_err(|e| e.to_string())
}

/// `serde_json::Deserializer::into_iter`: the values that stand in a text one
/// after the other, none for one that is not JSON, are a function of the text.
#[verifier::external_body]
pub(crate) fn stream_values(text: &str) -> (r: Vec<Option<Json>>)
    ensures
        opt_jsons(r@) == json_stream_in(text@),
{
    serde_json::Deserializer::from_str(text)
        .into_iter::<serde_json::Value>()
        .map(|v| v.ok().map(json_of))
        .collect()
}

/// `String::from_utf8_lossy`: the text is a function of the bytes.
#[verifier::external_body]
pub(crate) fn lossy_text(bytes: &[u8]) -> (r: String)
    ensures
        r@ == lossy_text_of(bytes@),
{
    String::from_utf8_lossy(bytes).into_owned()
}

} // verus!
