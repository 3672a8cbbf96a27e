//! JSON values, as far as messages of the exchange are read.
use crate::text::same_text;
use vstd::prelude::*;

verus! {

/// A JSON value. What a number is, is not kept.
pub enum Json {
    Null,
    Bool(bool),
    Number,
    Text(String),
    List(Vec<Json>),
    Object(Vec<Member>),
}

/// A member of a JSON object.
pub struct Member {
    pub key: String,
    pub value: Json,
}

/// What a JSON value holds.
pub enum JsonView {
    Null,
    Bool(bool),
    Number,
    Text(Seq<char>),
    List(Seq<JsonView>),
    Object(Seq<MemberView>),
}

/// What a member of a JSON object holds.
pub struct MemberView {
    pub key: Seq<char>,
    pub value: JsonView,
}

impl View for Json {
    type V = JsonView;

    open spec fn view(&self) -> JsonView
        decreases self,
    {
        match self {
            Json::Null => JsonView::Null,
            Json::Bool(b) => JsonView::Bool(*b),
            Json::Number => JsonView::Number,
            Json::Text(s) => JsonView::Text(s@),
            Json::List(v) => JsonView::List(
                Seq::new(
                    v@.len(),
                    |i: int|
                        if 0 <= i < v@.len() {
                            v@[i].view()
                        } else {
                            JsonView::Null
                        },
                ),
            ),
            Json::Object(v) => JsonView::Object(
                Seq::new(
                    v@.len(),
                    |i: int|
                        if 0 <= i < v@.len() {
                            MemberView { key: v@[i].key@, value: v@[i].value.view() }
                        } else {
                            MemberView { key: Seq::empty(), value: JsonView::Null }
                        },
                ),
            ),
        }
    }
}

impl View for Member {
    type V = MemberView;

    open spec fn view(&self) -> MemberView {
        MemberView { key: self.key@, value: self.value@ }
    }
}

/// The member of an object that stands under `key`.
pub open spec fn member_from(members: Seq<MemberView>, key: Seq<char>) -> Option<JsonView>
    decreases members.len(),
{
    if members.len() == 0 {
        None
    } else if members[0].key == key {
        Some(members[0].value)
    } else {
        member_from(members.skip(1), key)
    }
}

impl JsonView {
    /// What stands under `key`, where this is an object.
    pub open spec fn member(self, key: Seq<char>) -> Option<JsonView> {
        match self {
            JsonView::Object(members) => member_from(members, key),
            _ => None,
        }
    }

    /// The text that stands under `key`.
    pub open spec fn text_member(self, key: Seq<char>) -> Option<Seq<char>> {
        match self.member(key) {
            Some(JsonView::Text(s)) => Some(s),
            _ => None,
        }
    }

    /// The list that stands under `key`.
    pub open spec fn list_member(self, key: Seq<char>) -> Option<Seq<JsonView>> {
        match self.member(key) {
            Some(JsonView::List(v)) => Some(v),
            _ => None,
        }
    }
}

/// The value that a JSON text writes.
pub uninterp spec fn json_of_text(s: Seq<char>) -> Option<JsonView>;

/// A hexadecimal digit.
pub open spec fn hex_digit(n: int) -> char {
    if n < 10 {
        ('0' as int + n) as char
    } else {
        ('a' as int + n - 10) as char
    }
}

/// A character inside a JSON string. Quotes, backslashes and control characters
/// are written by escapes.
pub open spec fn json_char(c: char) -> Seq<char> {
    if c == '"' {
        seq!['\\', '"']
    } else if c == '\\' {
        seq!['\\', '\\']
    } else if c == '\u{8}' {
        seq!['\\', 'b']
    } else if c == '\u{9}' {
        seq!['\\', 't']
    } else if c == '\u{a}' {
        seq!['\\', 'n']
    } else if c == '\u{c}' {
        seq!['\\', 'f']
    } else if c == '\u{d}' {
        seq!['\\', 'r']
    } else if (c as int) < 32 {
        seq!['\\', 'u', '0', '0', hex_digit(c as int / 16), hex_digit(c as int % 16)]
    } else {
        seq![c]
    }
}

/// What stands between the quotes of a JSON string.
pub open spec fn json_chars(s: Seq<char>) -> Seq<char>
    decreases s.len(),
{
    if s.len() == 0 {
        Seq::empty()
    } else {
        json_chars(s.drop_last()) + json_char(s.last())
    }
}

/// The JSON text that writes a string.
pub open spec fn json_string(s: Seq<char>) -> Seq<char> {
    seq!['"'] + json_chars(s) + seq!['"']
}

#[verifier::external_type_specification]
#[verifier::external_body]
pub struct ExValue(serde_json::Value);

/// A `serde_json::Value`, variant by variant. Nothing is stated of the result
/// here; `read_json` states what it is for the value of a text.
#[verifier::external_body]
fn json_of_value(v: serde_json::Value) -> (r: Json) {
    match v {
        serde_json::Value::Null => Json::Null,
        serde_json::Value::Bool(b) => Json::Bool(b),
        serde_json::Value::Number(_) => Json::Number,
        serde_json::Value::String(s) => Json::Text(s),
        serde_json::Value::Array(a) => Json::List(a.into_iter().map(json_of_value).collect()),
        serde_json::Value::Object(o) => Json::Object(
            o.into_iter().map(|m| Member { key: m.0, value: json_of_value(m.1) }).collect(),
        ),
    }
}

/// `serde_json::from_str`, read as a value. The result depends on the text alone.
#[verifier::external_body]
pub(crate) fn read_json(s: &str) -> (r: Option<Json>)
    ensures
        match r {
            Some(j) => json_of_text(s@) == Some(j@),
            None => json_of_text(s@) is None,
        },
{
    serde_json::from_str::<serde_json::Value>(s).ok().map(json_of_value)
}

/// `serde_json::Value::to_string` of a string: the string between quotes, with
/// escapes for quotes, backslashes and control characters.
#[verifier::external_body]
pub(crate) fn write_json_string(s: &str) -> (r: String)
    ensures
        r@ == json_string(s@),
{
    serde_json::Value::String(s.to_string()).to_string()
}

proof fn lemma_object_view(v: Vec<Member>)
    ensures
        Json::Object(v)@ == JsonView::Object(v@.map_values(|m: Member| m@)),
{
    let members = Json::Object(v)@->Object_0;
    assert(members =~= v@.map_values(|m: Member| m@));
}

impl Json {
    /// What stands under `key`, where this is an object.
    pub fn get(&self, key: &str) -> (r: Option<&Json>)
        ensures
            match r {
                Some(j) => self@.member(key@) == Some(j@),
                None => self@.member(key@) is None,
            },
    {
        match self {
            Json::Object(v) => {
                let ghost members = v@.map_values(|m: Member| m@);
                let mut i: usize = 0;
                proof {
                    lemma_object_view(*v);
                    assert(members.skip(0) == members);
                }
                while i < v.len()
                    invariant
                        self@ == JsonView::Object(members),
                        members.len() == v@.len(),
                        forall|j: int|
                            0 <= j < v@.len() ==> #[trigger] members[j] == v@[j]@,
                        i <= v@.len(),
                        member_from(members, key@) == member_from(members.skip(i as int), key@),
                    decreases v@.len() - i,
                {
                    proof {
                        assert(members.skip(i as int)[0] == members[i as int]);
                        assert(members.skip(i as int).skip(1) == members.skip(i + 1));
                    }
                    if same_text(v[i].key.as_str(), key) {
                        return Some(&v[i].value);
                    }
                    i = i + 1;
                }
                None
            },
            _ => None,
        }
    }

    /// The text that stands under `key`.
    pub fn get_text(&self, key: &str) -> (r: Option<&str>)
        ensures
            match r {
                Some(s) => self@.text_member(key@) == Some(s@),
                None => self@.text_member(key@) is None,
            },
    {
        match self.get(key) {
            Some(Json::Text(s)) => Some(s.as_str()),
            _ => None,
        }
    }

    /// The list that stands under `key`.
    pub fn get_list(&self, key: &str) -> (r: Option<&Vec<Json>>)
        ensures
            match r {
                Some(v) => self@.list_member(key@) == Some(v@.map_values(|j: Json| j@)),
                None => self@.list_member(key@) is None,
            },
    {
        match self.get(key) {
            Some(Json::List(v)) => {
                proof {
                    let list = Json::List(*v)@->List_0;
                    assert(list =~= v@.map_values(|j: Json| j@));
                }
                Some(v)
            },
            _ => None,
        }
    }
}

} // verus!
