//! JSON values, as far as the drive listings need them.

use vstd::prelude::*;

use crate::text;

verus! {

/// A JSON value. A number is kept only when it is a non-negative integer.
#[derive(Debug, PartialEq, Eq)]
pub enum Json {
    Null,
    Bool(bool),
    Number(Option<u64>),
    Text(String),
    List(Vec<Json>),
    Object(Vec<(String, Json)>),
}

/// What a JSON value holds, as characters.
pub ghost enum JsonView {
    Null,
    Bool(bool),
    Number(Option<u64>),
    Text(Seq<char>),
    List(Seq<JsonView>),
    Object(Seq<(Seq<char>, JsonView)>),
}

impl Json {
    /// What this value holds.
    pub open spec fn tree(self) -> JsonView
        decreases self,
    {
        match self {
            Json::Null => JsonView::Null,
            Json::Bool(b) => JsonView::Bool(b),
            Json::Number(n) => JsonView::Number(n),
            Json::Text(s) => JsonView::Text(s@),
            Json::List(v) => JsonView::List(
                Seq::new(
                    v@.len(),
                    |i: int|
                        if 0 <= i < v@.len() {
                            v@[i].tree()
                        } else {
                            JsonView::Null
                        },
                ),
            ),
            Json::Object(v) => JsonView::Object(
                Seq::new(
                    v@.len(),
                    |i: int|
                        if 0 <= i < v@.len() {
                            (v@[i].0@, v@[i].1.tree())
                        } else {
                            (Seq::empty(), JsonView::Null)
                        },
                ),
            ),
        }
    }
}

impl View for Json {
    type V = JsonView;

    open spec fn view(&self) -> JsonView {
        self.tree()
    }
}

/// The value under the first field named `key`, from position `i` on.
pub open spec fn field_from(fields: Seq<(Seq<char>, JsonView)>, key: Seq<char>, i: int) -> JsonView
    decreases fields.len() - i,
{
    if i < 0 || i >= fields.len() {
        JsonView::Null
    } else if fields[i].0 == key {
        fields[i].1
    } else {
        field_from(fields, key, i + 1)
    }
}

impl JsonView {
    /// The value of a field; null when there is none.
    pub open spec fn field(self, key: Seq<char>) -> JsonView {
        match self {
            JsonView::Object(fields) => field_from(fields, key, 0),
            _ => JsonView::Null,
        }
    }

    pub open spec fn as_text(self) -> Option<Seq<char>> {
        match self {
            JsonView::Text(s) => Some(s),
            _ => None,
        }
    }

    /// The text, or another one when this is not a text.
    pub open spec fn text_or(self, other: Seq<char>) -> Seq<char> {
        match self {
            JsonView::Text(s) => s,
            _ => other,
        }
    }

    /// The items of a list; none when this is not a list.
    pub open spec fn items(self) -> Seq<JsonView> {
        match self {
            JsonView::List(v) => v,
            _ => Seq::empty(),
        }
    }

    /// Whether this stands for yes: true, the number 1, or the text `1` or
    /// `true`.
    pub open spec fn truth(self) -> bool {
        match self {
            JsonView::Bool(b) => b,
            JsonView::Text(s) => s == "1"@ || text::same_ignoring_ascii_case(s, "true"@),
            JsonView::Number(n) => n == Some(1u64),
            _ => false,
        }
    }

    /// The number that this stands for, written as a number or as text; 0
    /// when it is none.
    pub open spec fn number(self) -> nat {
        match self {
            JsonView::Number(Some(n)) => n as nat,
            JsonView::Text(s) => match text::unsigned(s, u64::MAX as nat) {
                Some(n) => n,
                None => 0,
            },
            _ => 0,
        }
    }
}

#[verifier::external_type_specification]
#[verifier::external_body]
pub struct ExValue(serde_json::Value);

/// What a `serde_json::Value` holds. Numbers are told only when they are
/// non-negative integers that fit in 64 bits.
pub uninterp spec fn value_tree(v: serde_json::Value) -> JsonView;

/// The value that a JSON text stands for; none when it is not JSON.
pub uninterp spec fn json_value(s: Seq<char>) -> Option<JsonView>;

/// What `serde_json` says of a text that is not JSON.
pub uninterp spec fn json_error(s: Seq<char>) -> Seq<char>;

/// `serde_json::from_str` for a `Value`, with its error turned into text.
#[verifier::external_body]
fn value_of_text(s: &str) -> (r: Result<serde_json::Value, String>)
    ensures
        match json_value(s@) {
            Some(tree) => r is Ok && value_tree(r->Ok_0) == tree,
            None => r is Err && r->Err_0@ == json_error(s@),
        },
{
    serde_json::from_str::<serde_json::Value>(s).map_err(|e| e.to_string())
}

/// Takes a `serde_json::Value` apart, one variant for one; `Number::as_u64`
/// gives the number.
#[verifier::external_body]
fn json_of_value(v: serde_json::Value) -> (r: Json)
    ensures
        r@ == value_tree(v),
{
    match v {
        serde_json::Value::Null => Json::Null,
        serde_json::Value::Bool(b) => Json::Bool(b),
        serde_json::Value::Number(n) => Json::Number(n.as_u64()),
        serde_json::Value::String(s) => Json::Text(s),
        serde_json::Value::Array(a) => Json::List(a.into_iter().map(json_of_value).collect()),
        serde_json::Value::Object(m) => {
            Json::Object(m.into_iter().map(|(k, v)| (k, json_of_value(v))).collect())
        }
    }
}

/// Reads a JSON text; the error says what is wrong with it.
pub fn parse_json(s: &str) -> (r: Result<Json, String>)
    ensures
        match json_value(s@) {
            Some(tree) => r is Ok && r->Ok_0@ == tree,
            None => r is Err && r->Err_0@ == json_error(s@),
        },
{
    match value_of_text(s) {
        Ok(v) => Ok(json_of_value(v)),
        Err(e) => Err(e),
    }
}

impl Json {
    /// The value of a field; `None` when it is missing.
    pub fn field(&self, key: &str) -> (r: Option<&Json>)
        ensures
            r is Some ==> r->0@ == self@.field(key@),
            r is None ==> self@.field(key@) is Null,
    {
        match self {
            Json::Object(fields) => {
                let ghost all = self@->Object_0;
                proof {
                    reveal_with_fuel(Json::tree, 2);
                }
                let mut i: usize = 0;
                while i < fields.len()
                    invariant
                        i <= fields@.len(),
                        self@ == JsonView::Object(all),
                        all.len() == fields@.len(),
                        forall|j: int|
                            0 <= j < fields@.len() ==> #[trigger] all[j] == (
                                fields@[j].0@,
                                fields@[j].1@,
                            ),
                        field_from(all, key@, 0) == field_from(all, key@, i as int),
                    decreases fields@.len() - i,
                {
                    proof {
                        assert(all[i as int] == (fields@[i as int].0@, fields@[i as int].1@));
                    }
                    if text::same_text(fields[i].0.as_str(), key) {
                        return Some(&fields[i].1);
                    }
                    i = i + 1;
                }
                None
            },
            _ => None,
        }
    }

    /// The text of a field; `None` when it is missing or no text.
    pub fn text_field(&self, key: &str) -> (r: Option<String>)
        ensures
            match self@.field(key@).as_text() {
                Some(s) => r is Some && r->0@ == s,
                None => r is None,
            },
    {
        match self.field(key) {
            Some(Json::Text(s)) => Some(s.clone()),
            _ => None,
        }
    }

    /// The text of a field, or another one when it is missing or no text.
    pub fn text_field_or(&self, key: &str, other: &str) -> (r: String)
        ensures
            r@ == self@.field(key@).text_or(other@),
    {
        match self.text_field(key) {
            Some(s) => s,
            None => other.to_owned(),
        }
    }

    /// Whether a field stands for yes.
    pub fn bool_field(&self, key: &str) -> (r: bool)
        ensures
            r == self@.field(key@).truth(),
    {
        match self.field(key) {
            Some(v) => json_bool(v),
            None => false,
        }
    }

    /// The number that a field stands for.
    pub fn number_field(&self, key: &str) -> (r: u64)
        ensures
            r == self@.field(key@).number(),
    {
        match self.field(key) {
            Some(v) => json_u64(v),
            None => 0,
        }
    }
}

/// Whether a value stands for yes.
pub fn json_bool(v: &Json) -> (r: bool)
    ensures
        r == v@.truth(),
{
    match v {
        Json::Bool(b) => *b,
        Json::Text(s) => text::same_text(s.as_str(), "1") || text::eq_ignore_ascii_case(
            s.as_str(),
            "true",
        ),
        Json::Number(n) => match n {
            Some(k) => *k == 1,
            None => false,
        },
        _ => false,
    }
}

/// The number that a value stands for.
pub fn json_u64(v: &Json) -> (r: u64)
    ensures
        r == v@.number(),
{
    match v {
        Json::Number(n) => match n {
            Some(k) => *k,
            None => 0,
        },
        Json::Text(s) => match text::parse_unsigned(s.as_str(), u64::MAX) {
            Some(k) => k,
            None => 0,
        },
        _ => 0,
    }
}

/// Yes is written as a truth value, as the number one, or as a word in any case;
/// nothing else stands for it.
pub proof fn law_yes_is_understood(v: &Json, r: bool)
    requires
        call_ensures(json_bool, (v,), r),
    ensures
        v@ matches JsonView::Bool(b) ==> r == b,
        v@ matches JsonView::Number(n) ==> r == (n == Some(1u64)),
        v@ == JsonView::Text("1"@) || v@ == JsonView::Text("true"@) ==> r,
        v@ matches JsonView::Text(s) && s != "1"@ && s.len() != 4 ==> !r,
        v@ is Null || v@ is List || v@ is Object ==> !r,
{
    reveal_strlit("true");
    if v@ is Text {
        let s = v@->Text_0;
        let low = |c: char| text::ascii_lower(c);
        if s.len() != 4 {
            assert(s.map_values(low).len() != "true"@.map_values(low).len());
        }
    }
}

/// A number is read as it is, or from the digits of a text.
pub proof fn law_numbers_are_read(v: &Json, n: u64, r: u64)
    requires
        call_ensures(json_u64, (v,), r),
        v@ == JsonView::Number(Some(n)) || v@ == JsonView::Text(text::dec(n as nat)),
    ensures
        r == n,
{
    text::law_decimal_reads_back(n as nat);
    assert('0' <= text::dec(n as nat)[0] <= '9');
}

proof fn lemma_field_found(fields: Seq<(Seq<char>, JsonView)>, key: Seq<char>, at: int, i: int)
    requires
        0 <= at <= i < fields.len(),
        fields[i].0 == key,
        forall|k: int| at <= k < i ==> (#[trigger] fields[k]).0 != key,
    ensures
        field_from(fields, key, at) == fields[i].1,
    decreases i - at,
{
    if at < i {
        lemma_field_found(fields, key, at + 1, i);
    }
}

/// A field is found by its key, whatever stands around it; `i` is where it is.
pub proof fn law_fields_are_found(
    v: &Json,
    key: &str,
    fields: Seq<(Seq<char>, JsonView)>,
    i: int,
    found: Option<&Json>,
    words: Option<String>,
)
    requires
        v@ == JsonView::Object(fields),
        0 <= i < fields.len(),
        fields[i].0 == key@,
        forall|k: int| 0 <= k < i ==> (#[trigger] fields[k]).0 != key@,
        !(fields[i].1 is Null),
        call_ensures(Json::field, (v, key), found),
        call_ensures(Json::text_field, (v, key), words),
    ensures
        found is Some && found->0@ == fields[i].1,
        fields[i].1 matches JsonView::Text(s) ==> words is Some && words->0@ == s,
        !(fields[i].1 is Text) ==> words is None,
{
    lemma_field_found(fields, key@, 0, i);
}

} // verus!
