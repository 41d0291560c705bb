//! JSON values: the data of provider frames and of request bodies.
//!
//! Text is parsed and written by `serde_json`. Everything else, such as looking a
//! member up or reading a number, works on the values of this module.

use serde_json::Value;
use vstd::prelude::*;

use crate::deep::models;
use crate::text::same_text;

verus! {

broadcast use crate::deep::group_models;

/// A JSON number: an integer of 64 bits, or the decimal notation of anything else.
#[derive(Debug, PartialEq)]
pub enum JsonNumber {
    Unsigned(u64),
    Negative(i64),
    Decimal(String),
}

/// A JSON value. An object lists its members.
#[derive(Debug, PartialEq)]
pub enum Json {
    Null,
    Bool(bool),
    Number(JsonNumber),
    Str(String),
    Array(Vec<Json>),
    Object(Vec<(String, Json)>),
}

/// What a [`JsonNumber`] stands for.
pub enum NumberModel {
    Unsigned(u64),
    Negative(i64),
    Decimal(Seq<char>),
}

/// What a [`Json`] stands for.
pub enum JsonModel {
    Null,
    Bool(bool),
    Number(NumberModel),
    Str(Seq<char>),
    Array(Seq<JsonModel>),
    Object(Seq<(Seq<char>, JsonModel)>),
}

impl DeepView for JsonNumber {
    type V = NumberModel;

    open spec fn deep_view(&self) -> NumberModel {
        match self {
            JsonNumber::Unsigned(n) => NumberModel::Unsigned(*n),
            JsonNumber::Negative(n) => NumberModel::Negative(*n),
            JsonNumber::Decimal(text) => NumberModel::Decimal(text@),
        }
    }
}

/// The model of a value: strings become character sequences, vectors sequences of models.
pub open spec fn json_model(value: Json) -> JsonModel
    decreases value,
{
    match value {
        Json::Null => JsonModel::Null,
        Json::Bool(b) => JsonModel::Bool(b),
        Json::Number(n) => JsonModel::Number(n.deep_view()),
        Json::Str(text) => JsonModel::Str(text@),
        Json::Array(items) => JsonModel::Array(
            Seq::new(
                items@.len(),
                |i: int|
                    if 0 <= i < items@.len() {
                        json_model(items@[i])
                    } else {
                        JsonModel::Null
                    },
            ),
        ),
        Json::Object(members) => JsonModel::Object(
            Seq::new(
                members@.len(),
                |i: int|
                    if 0 <= i < members@.len() {
                        (members@[i].0@, json_model(members@[i].1))
                    } else {
                        (Seq::empty(), JsonModel::Null)
                    },
            ),
        ),
    }
}

impl DeepView for Json {
    type V = JsonModel;

    open spec fn deep_view(&self) -> JsonModel {
        json_model(*self)
    }
}

/// The model of an array is made of the models of its items.
pub broadcast proof fn lemma_array_model(items: Vec<Json>)
    ensures
        #[trigger] json_model(Json::Array(items)) == JsonModel::Array(models(items@)),
{
    assert(json_model(Json::Array(items))->Array_0 =~= models(items@));
}

/// The model of an object is made of the models of its members.
pub broadcast proof fn lemma_object_model(members: Vec<(String, Json)>)
    ensures
        #[trigger] json_model(Json::Object(members)) == JsonModel::Object(models(members@)),
{
    assert(json_model(Json::Object(members))->Object_0 =~= models(members@));
}

pub broadcast group group_json {
    lemma_array_model,
    lemma_object_model,
}

/// The value of the first member named `key`.
#[verifier::opaque]
pub open spec fn find_member(
    members: Seq<(Seq<char>, JsonModel)>,
    key: Seq<char>,
) -> Option<JsonModel>
    decreases members.len(),
{
    if members.len() == 0 {
        None
    } else if members[0].0 == key {
        Some(members[0].1)
    } else {
        find_member(members.drop_first(), key)
    }
}

impl JsonModel {
    /// The member `key` of an object; nothing of any other value.
    pub open spec fn get(self, key: Seq<char>) -> Option<JsonModel> {
        match self {
            JsonModel::Object(members) => find_member(members, key),
            _ => None,
        }
    }

    pub open spec fn as_str(self) -> Option<Seq<char>> {
        match self {
            JsonModel::Str(text) => Some(text),
            _ => None,
        }
    }

    pub open spec fn as_u64(self) -> Option<u64> {
        match self {
            JsonModel::Number(NumberModel::Unsigned(n)) => Some(n),
            _ => None,
        }
    }

    pub open spec fn as_array(self) -> Option<Seq<JsonModel>> {
        match self {
            JsonModel::Array(items) => Some(items),
            _ => None,
        }
    }

    /// The string member `key`.
    pub open spec fn str_at(self, key: Seq<char>) -> Option<Seq<char>> {
        match self.get(key) {
            Some(value) => value.as_str(),
            None => None,
        }
    }

    /// The unsigned integer member `key`.
    pub open spec fn u64_at(self, key: Seq<char>) -> Option<u64> {
        match self.get(key) {
            Some(value) => value.as_u64(),
            None => None,
        }
    }

    /// The array member `key`.
    pub open spec fn array_at(self, key: Seq<char>) -> Option<Seq<JsonModel>> {
        match self.get(key) {
            Some(value) => value.as_array(),
            None => None,
        }
    }

    /// The member `inner` of the member `outer`.
    pub open spec fn get2(self, outer: Seq<char>, inner: Seq<char>) -> Option<JsonModel> {
        match self.get(outer) {
            Some(value) => value.get(inner),
            None => None,
        }
    }

    /// The unsigned integer member `inner` of the member `outer`.
    pub open spec fn u64_at2(self, outer: Seq<char>, inner: Seq<char>) -> Option<u64> {
        match self.get(outer) {
            Some(value) => value.u64_at(inner),
            None => None,
        }
    }
}

impl JsonNumber {
    fn copy(&self) -> (number: JsonNumber)
        ensures
            number.deep_view() == self.deep_view(),
    {
        match self {
            JsonNumber::Unsigned(n) => JsonNumber::Unsigned(*n),
            JsonNumber::Negative(n) => JsonNumber::Negative(*n),
            JsonNumber::Decimal(text) => JsonNumber::Decimal(text.clone()),
        }
    }
}

impl Clone for JsonNumber {
    fn clone(&self) -> (number: JsonNumber)
        ensures
            number.deep_view() == self.deep_view(),
    {
        self.copy()
    }
}

impl Json {
    /// A value with the same content.
    pub fn copy(&self) -> (value: Json)
        ensures
            value.deep_view() == self.deep_view(),
        decreases self,
    {
        broadcast use group_json;

        match self {
            Json::Null => Json::Null,
            Json::Bool(b) => Json::Bool(*b),
            Json::Number(n) => Json::Number(n.copy()),
            Json::Str(text) => Json::Str(text.clone()),
            Json::Array(items) => {
                let mut copies: Vec<Json> = Vec::new();
                let mut i: usize = 0;
                while i < items.len()
                    invariant
                        *self == Json::Array(*items),
                        i <= items.len(),
                        models(copies@) == models(items@).take(i as int),
                    decreases items.len() - i,
                {
                    proof {
                        assert(decreases_to!(self->Array_0 => items[i as int]));
                        assert(models(items@).take(i + 1) =~= models(items@).take(i as int).push(
                            items@[i as int].deep_view(),
                        ));
                    }
                    let item = items[i].copy();
                    copies.push(item);
                    i += 1;
                }
                proof {
                    assert(models(items@).take(i as int) =~= models(items@));
                }
                Json::Array(copies)
            },
            Json::Object(members) => {
                let mut copies: Vec<(String, Json)> = Vec::new();
                let mut i: usize = 0;
                while i < members.len()
                    invariant
                        *self == Json::Object(*members),
                        i <= members.len(),
                        models(copies@) == models(members@).take(i as int),
                    decreases members.len() - i,
                {
                    proof {
                        assert(decreases_to!(self->Object_0 => members[i as int]));
                        assert(models(members@).take(i + 1) =~= models(members@).take(
                            i as int,
                        ).push(members@[i as int].deep_view()));
                    }
                    let item = members[i].1.copy();
                    copies.push((members[i].0.clone(), item));
                    i += 1;
                }
                proof {
                    assert(models(members@).take(i as int) =~= models(members@));
                }
                Json::Object(copies)
            },
        }
    }

    /// The member `key` of an object.
    pub fn get(&self, key: &str) -> (value: Option<&Json>)
        ensures
            value.deep_view() == self.deep_view().get(key@),
    {
        reveal(find_member);
        broadcast use group_json;

        match self {
            Json::Object(members) => {
                let mut i: usize = 0;
                proof {
                    assert(models(members@).skip(0) =~= models(members@));
                }
                while i < members.len()
                    invariant
                        *self == Json::Object(*members),
                        i <= members.len(),
                        find_member(models(members@), key@) == find_member(
                            models(members@).skip(i as int),
                            key@,
                        ),
                    decreases members.len() - i,
                {
                    proof {
                        reveal_with_fuel(find_member, 2);
                        let rest = models(members@).skip(i as int);
                        assert(rest[0] == members@[i as int].deep_view());
                        assert(rest.drop_first() =~= models(members@).skip(i + 1));
                    }
                    if same_text(members[i].0.as_str(), key) {
                        proof {
                            lemma_object_model(*members);
                        }
                        return Some(&members[i].1);
                    }
                    i += 1;
                }
                None
            },
            _ => None,
        }
    }

    pub fn as_str(&self) -> (text: Option<&str>)
        ensures
            text.deep_view() == self.deep_view().as_str(),
    {
        match self {
            Json::Str(text) => Some(text.as_str()),
            _ => None,
        }
    }

    pub fn as_u64(&self) -> (n: Option<u64>)
        ensures
            n == self.deep_view().as_u64(),
    {
        match self {
            Json::Number(JsonNumber::Unsigned(n)) => Some(*n),
            _ => None,
        }
    }

    pub fn as_array(&self) -> (items: Option<&Vec<Json>>)
        ensures
            items.deep_view() == self.deep_view().as_array(),
    {
        broadcast use group_json;

        match self {
            Json::Array(items) => Some(items),
            _ => None,
        }
    }

    pub fn is_object(&self) -> (yes: bool)
        ensures
            yes == (self.deep_view() is Object),
    {
        match self {
            Json::Object(_) => true,
            _ => false,
        }
    }

    pub fn is_string(&self) -> (yes: bool)
        ensures
            yes == (self.deep_view() is Str),
    {
        match self {
            Json::Str(_) => true,
            _ => false,
        }
    }

    /// The string member `key`.
    pub fn str_at(&self, key: &str) -> (text: Option<&str>)
        ensures
            text.deep_view() == self.deep_view().str_at(key@),
    {
        match self.get(key) {
            Some(value) => value.as_str(),
            None => None,
        }
    }

    /// The unsigned integer member `key`.
    pub fn u64_at(&self, key: &str) -> (n: Option<u64>)
        ensures
            n == self.deep_view().u64_at(key@),
    {
        match self.get(key) {
            Some(value) => value.as_u64(),
            None => None,
        }
    }

    /// The array member `key`.
    pub fn array_at(&self, key: &str) -> (items: Option<&Vec<Json>>)
        ensures
            items.deep_view() == self.deep_view().array_at(key@),
    {
        match self.get(key) {
            Some(value) => value.as_array(),
            None => None,
        }
    }

    /// The member `inner` of the member `outer`.
    pub fn get2(&self, outer: &str, inner: &str) -> (value: Option<&Json>)
        ensures
            value.deep_view() == self.deep_view().get2(outer@, inner@),
    {
        match self.get(outer) {
            Some(value) => value.get(inner),
            None => None,
        }
    }

    /// The unsigned integer member `inner` of the member `outer`.
    pub fn u64_at2(&self, outer: &str, inner: &str) -> (n: Option<u64>)
        ensures
            n == self.deep_view().u64_at2(outer@, inner@),
    {
        match self.get(outer) {
            Some(value) => value.u64_at(inner),
            None => None,
        }
    }

    /// The compact notation of the value, with the members of each object in the order of
    /// their names.
    pub fn to_text(&self) -> (text: String)
        ensures
            text@ == json_text(self.deep_view()),
    {
        written_json(self)
    }
}

impl Clone for Json {
    fn clone(&self) -> (value: Json)
        ensures
            value.deep_view() == self.deep_view(),
    {
        self.copy()
    }
}

/// The JSON string `text`.
pub fn string_value(text: &str) -> (value: Json)
    ensures
        value.deep_view() == JsonModel::Str(text@),
{
    Json::Str(text.to_owned())
}

/// The JSON number `n`.
pub fn number_value(n: u64) -> (value: Json)
    ensures
        value.deep_view() == JsonModel::Number(NumberModel::Unsigned(n)),
{
    Json::Number(JsonNumber::Unsigned(n))
}

/// The members with one more, where there is one.
pub open spec fn with_member(
    members: Seq<(Seq<char>, JsonModel)>,
    key: Seq<char>,
    value: Option<JsonModel>,
) -> Seq<(Seq<char>, JsonModel)> {
    match value {
        Some(value) => members.push((key, value)),
        None => members,
    }
}

/// The JSON object with the given members.
pub fn object_value(members: Vec<(String, Json)>) -> (value: Json)
    ensures
        value.deep_view() == JsonModel::Object(members.deep_view()),
{
    broadcast use group_json;

    Json::Object(members)
}

/// The JSON array with the given items.
pub fn array_value(items: Vec<Json>) -> (value: Json)
    ensures
        value.deep_view() == JsonModel::Array(items.deep_view()),
{
    broadcast use group_json;

    Json::Array(items)
}

/// Appends the member `key` to the members of an object.
pub fn put_member(members: &mut Vec<(String, Json)>, key: &str, value: Json)
    ensures
        final(members).deep_view() == old(members).deep_view().push((key@, value.deep_view())),
{
    members.push((key.to_owned(), value));
}

/// Appends the string member `key` to the members of an object.
pub fn put_string(members: &mut Vec<(String, Json)>, key: &str, text: &str)
    ensures
        final(members).deep_view() == old(members).deep_view().push((key@, JsonModel::Str(text@))),
{
    put_member(members, key, string_value(text));
}

#[verifier::external_type_specification]
#[verifier::external_body]
pub struct ExValue(Value);

/// What `serde_json::from_str` reads from a text as a `serde_json::Value`, if it accepts it.
pub uninterp spec fn parsed_json(text: Seq<char>) -> Option<JsonModel>;

/// The text that the `Display` impl of `serde_json::Value` gives for a value.
pub uninterp spec fn json_text(value: JsonModel) -> Seq<char>;

/// A `serde_json::Value` in the type of this module, variant for variant. A number that is no
/// integer of 64 bits keeps the notation that `serde_json` prints for it.
#[verifier::external_body]
fn json_of_value(value: Value) -> Json {
    match value {
        Value::Null => Json::Null,
        Value::Bool(b) => Json::Bool(b),
        Value::Number(n) => Json::Number(match (n.as_u64(), n.as_i64()) {
            (Some(unsigned), _) => JsonNumber::Unsigned(unsigned),
            (None, Some(negative)) => JsonNumber::Negative(negative),
            (None, None) => JsonNumber::Decimal(n.to_string()),
        }),
        Value::String(text) => Json::Str(text),
        Value::Array(items) => Json::Array(items.into_iter().map(json_of_value).collect()),
        Value::Object(members) => Json::Object(
            members.into_iter().map(|(key, value)| (key, json_of_value(value))).collect(),
        ),
    }
}

/// A value of this module as a `serde_json::Value`, variant for variant. A decimal notation that
/// `serde_json` does not read as a number becomes `null`.
#[verifier::external_body]
fn value_of_json(value: &Json) -> Value {
    match value {
        Json::Null => Value::Null,
        Json::Bool(b) => Value::Bool(*b),
        Json::Number(JsonNumber::Unsigned(n)) => Value::from(*n),
        Json::Number(JsonNumber::Negative(n)) => Value::from(*n),
        Json::Number(JsonNumber::Decimal(text)) => serde_json::from_str::<serde_json::Number>(text)
            .map_or(Value::Null, Value::Number),
        Json::Str(text) => Value::String(text.clone()),
        Json::Array(items) => Value::Array(items.iter().map(value_of_json).collect()),
        Json::Object(members) => Value::Object(
            members.iter().map(|(key, value)| (key.clone(), value_of_json(value))).collect(),
        ),
    }
}

/// `serde_json::from_str` into a `serde_json::Value`: nothing where it reports an error. The
/// result depends on the text alone.
#[verifier::external_body]
pub(crate) fn parse_json(text: &str) -> (value: Option<Json>)
    ensures
        value.deep_view() == parsed_json(text@),
{
    serde_json::from_str::<Value>(text).ok().map(json_of_value)
}

/// `serde_json::Value::to_string`: the compact notation. The result depends on the value alone.
#[verifier::external_body]
fn written_json(value: &Json) -> (text: String)
    ensures
        text@ == json_text(value.deep_view()),
{
    value_of_json(value).to_string()
}

/// A key gives the first member that has it.
pub proof fn a_key_gives_its_first_member(members: Seq<(Seq<char>, JsonModel)>, at: int)
    requires
        0 <= at < members.len(),
        forall|i: int| 0 <= i < at ==> (#[trigger] members[i]).0 != members[at].0,
    ensures
        JsonModel::Object(members).get(members[at].0) == Some(members[at].1),
    decreases at,
{
    reveal(find_member);
    if at > 0 {
        let rest = members.drop_first();
        assert(rest[at - 1] == members[at]);
        assert(members[0].0 != members[at].0);
        assert forall|i: int| 0 <= i < at - 1 implies (#[trigger] rest[i]).0 != rest[at - 1].0 by {
            assert(rest[i] == members[i + 1]);
        }
        a_key_gives_its_first_member(rest, at - 1);
    }
}

/// A key that no member has gives nothing.
pub proof fn an_absent_key_gives_nothing(members: Seq<(Seq<char>, JsonModel)>, key: Seq<char>)
    requires
        forall|i: int| 0 <= i < members.len() ==> (#[trigger] members[i]).0 != key,
    ensures
        JsonModel::Object(members).get(key) is None,
    decreases members.len(),
{
    reveal(find_member);
    if members.len() > 0 {
        let rest = members.drop_first();
        assert(members[0].0 != key);
        assert forall|i: int| 0 <= i < rest.len() implies (#[trigger] rest[i]).0 != key by {
            assert(rest[i] == members[i + 1]);
        }
        an_absent_key_gives_nothing(rest, key);
    }
}

/// A member that is added is found by its key, unless one before it has the same.
pub proof fn an_added_member_is_found(
    members: Seq<(Seq<char>, JsonModel)>,
    added: Seq<char>,
    value: Option<JsonModel>,
    key: Seq<char>,
)
    ensures
        find_member(with_member(members, added, value), key) == match find_member(members, key) {
            Some(found) => Some(found),
            None => if added == key {
                value
            } else {
                None
            },
        },
    decreases members.len(),
{
    reveal(find_member);
    let longer = with_member(members, added, value);
    if members.len() > 0 {
        an_added_member_is_found(members.drop_first(), added, value, key);
        if value is Some {
            assert(longer.drop_first() =~= with_member(members.drop_first(), added, value));
        }
    } else if value is Some {
        assert(longer.drop_first() =~= members);
        reveal_with_fuel(find_member, 2);
    }
}

/// A value is read as what it is and as nothing else.
pub proof fn values_are_read_as_what_they_are(value: JsonModel, text: Seq<char>, n: u64)
    ensures
        value.as_str() == Some(text) <==> value == JsonModel::Str(text),
        value.as_u64() == Some(n) <==> value == JsonModel::Number(NumberModel::Unsigned(n)),
        value.as_array() is Some <==> value is Array,
        value is Array ==> value.as_array() == Some(value->Array_0),
        !(value is Object) ==> value.get(text) is None,
{
}

/// What is read at a key is what the member there is read as.
pub proof fn members_are_read_as_what_they_are(
    value: JsonModel,
    key: Seq<char>,
    inner: Seq<char>,
    text: Seq<char>,
    n: u64,
)
    ensures
        value.str_at(key) == Some(text) <==> value.get(key) == Some(JsonModel::Str(text)),
        value.u64_at(key) == Some(n) <==> value.get(key) == Some(
            JsonModel::Number(NumberModel::Unsigned(n)),
        ),
        value.array_at(key) is Some <==> value.get(key) is Some && value.get(key)->0 is Array,
        value.get(key) is None ==> value.get2(key, inner) is None,
        value.get(key) is Some ==> value.get2(key, inner) == value.get(key)->0.get(inner),
        value.u64_at2(key, inner) == Some(n) <==> value.get2(key, inner) == Some(
            JsonModel::Number(NumberModel::Unsigned(n)),
        ),
{
}

} // verus!
