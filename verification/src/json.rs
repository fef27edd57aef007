//! JSON values: the library's own data type for them, what the rest of the
//! library reads from and writes into one, and the conversion from and to
//! JSON text, which serde_json does.

use serde_json::Value;
use vstd::prelude::*;

use crate::seqs::{opt_view, views, group_views};
use crate::text::{copy_of, str_eq};

verus! {

broadcast use group_views;

/// A JSON value. Integers are exact; any other number is kept as its
/// decimal text.
#[derive(Debug, PartialEq)]
pub enum Json {
    Null,
    Bool(bool),
    /// An integer that is not negative.
    PosInt(u64),
    /// A negative integer.
    NegInt(i64),
    /// A number that is no integer of 64 bits, in JSON notation.
    Float(String),
    Str(String),
    Array(Vec<Json>),
    /// The members, in the order in which they are written.
    Object(Vec<(String, Json)>),
}

/// What a [`Json`] stands for.
pub enum JsonView {
    Null,
    Bool(bool),
    PosInt(u64),
    NegInt(i64),
    Float(Seq<char>),
    Str(Seq<char>),
    Array(Seq<JsonView>),
    Object(Seq<(Seq<char>, JsonView)>),
}

/// What `j` stands for.
pub open spec fn json_view(j: Json) -> JsonView
    decreases j,
{
    match j {
        Json::Null => JsonView::Null,
        Json::Bool(b) => JsonView::Bool(b),
        Json::PosInt(n) => JsonView::PosInt(n),
        Json::NegInt(n) => JsonView::NegInt(n),
        Json::Float(t) => JsonView::Float(t@),
        Json::Str(s) => JsonView::Str(s@),
        Json::Array(v) => JsonView::Array(
            Seq::new(
                v@.len(),
                |i: int|
                    if 0 <= i < v@.len() {
                        json_view(v@[i])
                    } else {
                        JsonView::Null
                    },
            ),
        ),
        Json::Object(m) => JsonView::Object(
            Seq::new(
                m@.len(),
                |i: int|
                    if 0 <= i < m@.len() {
                        (m@[i].0@, json_view(m@[i].1))
                    } else {
                        (Seq::empty(), JsonView::Null)
                    },
            ),
        ),
    }
}

impl View for Json {
    type V = JsonView;

    open spec fn view(&self) -> JsonView {
        json_view(*self)
    }
}

/// The members of an object, by their views.
pub open spec fn members_view(m: Seq<(String, Json)>) -> Seq<(Seq<char>, JsonView)> {
    Seq::new(m.len(), |i: int| (m[i].0@, m[i].1@))
}

pub broadcast proof fn lemma_array_view(v: Vec<Json>)
    ensures
        #[trigger] json_view(Json::Array(v)) == JsonView::Array(views(v@)),
{
    let w = json_view(Json::Array(v))->Array_0;
    assert(w =~= views(v@));
}

pub broadcast proof fn lemma_object_view(m: Vec<(String, Json)>)
    ensures
        #[trigger] json_view(Json::Object(m)) == JsonView::Object(members_view(m@)),
{
    let w = json_view(Json::Object(m))->Object_0;
    assert(w =~= members_view(m@));
}

pub broadcast proof fn lemma_members_push(m: Seq<(String, Json)>, x: (String, Json))
    ensures
        #[trigger] members_view(m.push(x)) == members_view(m).push((x.0@, x.1@)),
{
    assert(members_view(m.push(x)) =~= members_view(m).push((x.0@, x.1@)));
}

pub broadcast group group_json {
    lemma_array_view,
    lemma_object_view,
    lemma_members_push,
}

fn copy_json(j: &Json) -> (r: Json)
    ensures
        r@ == j@,
    decreases *j,
{
    broadcast use group_json;

    match j {
        Json::Null => Json::Null,
        Json::Bool(b) => Json::Bool(*b),
        Json::PosInt(n) => Json::PosInt(*n),
        Json::NegInt(n) => Json::NegInt(*n),
        Json::Float(t) => Json::Float(copy_of(t)),
        Json::Str(s) => Json::Str(copy_of(s)),
        Json::Array(v) => {
            let mut w: Vec<Json> = Vec::new();
            let n: usize = v.len();
            for i in 0..n
                invariant
                    n == v@.len(),
                    *j == Json::Array(*v),
                    views(w@) == views(v@).take(i as int),
            {
                proof {
                    assert(decreases_to!(*j => j->Array_0));
                    assert(decreases_to!(*v => v@));
                    assert(decreases_to!(v@ => v@[i as int]));
                }
                w.push(copy_json(&v[i]));
                assert(views(w@) =~= views(v@).take(i + 1));
            }
            assert(views(v@).take(n as int) =~= views(v@));
            Json::Array(w)
        },
        Json::Object(m) => {
            let mut w: Vec<(String, Json)> = Vec::new();
            let n: usize = m.len();
            for i in 0..n
                invariant
                    n == m@.len(),
                    *j == Json::Object(*m),
                    members_view(w@) == members_view(m@).take(i as int),
            {
                proof {
                    assert(decreases_to!(*j => j->Object_0));
                    assert(decreases_to!(*m => m@));
                    assert(decreases_to!(m@ => m@[i as int]));
                    assert(decreases_to!(m@[i as int] => m@[i as int].1));
                }
                let key: String = copy_of(&m[i].0);
                let value: Json = copy_json(&m[i].1);
                proof {
                    lemma_members_push(w@, (key, value));
                }
                w.push((key, value));
                assert(members_view(w@) =~= members_view(m@).take(i + 1));
            }
            assert(members_view(m@).take(n as int) =~= members_view(m@));
            Json::Object(w)
        },
    }
}

impl Clone for Json {
    fn clone(&self) -> (r: Self)
        ensures
            r@ == self@,
    {
        copy_json(self)
    }
}

/// The value of the first member named `key`.
pub open spec fn lookup(m: Seq<(Seq<char>, JsonView)>, key: Seq<char>) -> Option<JsonView>
    decreases m.len(),
{
    if m.len() == 0 {
        None
    } else if m[0].0 == key {
        Some(m[0].1)
    } else {
        lookup(m.drop_first(), key)
    }
}

impl JsonView {
    /// The member `key` of an object; nothing where this is no object.
    pub open spec fn member(self, key: Seq<char>) -> Option<JsonView> {
        match self {
            JsonView::Object(m) => lookup(m, key),
            _ => None,
        }
    }

    /// The text of a string.
    pub open spec fn text(self) -> Option<Seq<char>> {
        match self {
            JsonView::Str(s) => Some(s),
            _ => None,
        }
    }

    /// The value of an integer that fits into 64 signed bits.
    pub open spec fn signed(self) -> Option<i64> {
        match self {
            JsonView::PosInt(n) => if n <= i64::MAX {
                Some(n as i64)
            } else {
                None
            },
            JsonView::NegInt(n) => Some(n),
            _ => None,
        }
    }

    /// The value of an integer that is not negative.
    pub open spec fn unsigned(self) -> Option<u64> {
        match self {
            JsonView::PosInt(n) => Some(n),
            _ => None,
        }
    }

    /// The items of an array.
    pub open spec fn items(self) -> Option<Seq<JsonView>> {
        match self {
            JsonView::Array(v) => Some(v),
            _ => None,
        }
    }

    /// The text of the member `key`, where it is a string.
    pub open spec fn text_at(self, key: Seq<char>) -> Option<Seq<char>> {
        match self.member(key) {
            Some(v) => v.text(),
            None => None,
        }
    }

    /// The integer in the member `key`; 0 where there is none.
    pub open spec fn signed_at(self, key: Seq<char>) -> i64 {
        match self.member(key) {
            Some(v) => match v.signed() {
                Some(n) => n,
                None => 0,
            },
            None => 0,
        }
    }

    /// The integer in the member `key`; 0 where there is none or it is
    /// negative.
    pub open spec fn unsigned_at(self, key: Seq<char>) -> u64 {
        match self.member(key) {
            Some(v) => match v.unsigned() {
                Some(n) => n,
                None => 0,
            },
            None => 0,
        }
    }

    /// The member `inner` of the member `outer`.
    pub open spec fn member2(self, outer: Seq<char>, inner: Seq<char>) -> Option<JsonView> {
        match self.member(outer) {
            Some(v) => v.member(inner),
            None => None,
        }
    }

    /// The text of the member `inner` of the member `outer`.
    pub open spec fn text_at2(self, outer: Seq<char>, inner: Seq<char>) -> Option<Seq<char>> {
        match self.member(outer) {
            Some(v) => v.text_at(inner),
            None => None,
        }
    }

    /// This object with one more member at its end.
    pub open spec fn plus(self, key: Seq<char>, v: JsonView) -> JsonView {
        JsonView::Object(self->Object_0.push((key, v)))
    }
}

proof fn lemma_lookup_push(
    m: Seq<(Seq<char>, JsonView)>,
    x: (Seq<char>, JsonView),
    key: Seq<char>,
)
    ensures
        lookup(m.push(x), key) == match lookup(m, key) {
            Some(v) => Some(v),
            None => if x.0 == key {
                Some(x.1)
            } else {
                None
            },
        },
    decreases m.len(),
{
    if m.len() == 0 {
        assert(m.push(x).drop_first() =~= m);
    } else {
        lemma_lookup_push(m.drop_first(), x, key);
        assert(m.push(x).drop_first() =~= m.drop_first().push(x));
    }
}

/// A member that is added is found where there was none of its name, and
/// the members before it stay as they are.
pub broadcast proof fn law_added_member_is_found(
    j: JsonView,
    name: Seq<char>,
    v: JsonView,
    key: Seq<char>,
)
    requires
        j is Object,
    ensures
        #[trigger] j.plus(name, v).member(key) == match j.member(key) {
            Some(x) => Some(x),
            None => if name == key {
                Some(v)
            } else {
                None
            },
        },
{
    lemma_lookup_push(j->Object_0, (name, v), key);
}

/// The object without members.
pub open spec fn no_members() -> JsonView {
    JsonView::Object(Seq::empty())
}

impl Json {
    /// The member `key` of an object.
    pub fn get(&self, key: &str) -> (r: Option<&Json>)
        ensures
            opt_view(r) == self@.member(key@),
    {
        broadcast use group_json;

        match self {
            Json::Object(m) => {
                let n: usize = m.len();
                assert(members_view(m@).skip(0) =~= members_view(m@));
                for i in 0..n
                    invariant
                        n == m@.len(),
                        lookup(members_view(m@), key@) == lookup(
                            members_view(m@).skip(i as int),
                            key@,
                        ),
                        self@ == JsonView::Object(members_view(m@)),
                {
                    assert(members_view(m@).skip(i as int).drop_first() =~= members_view(m@).skip(
                        i + 1,
                    ));
                    if str_eq(&m[i].0, key) {
                        return Some(&m[i].1);
                    }
                }
                None
            },
            _ => None,
        }
    }

    /// The text of a string.
    pub fn as_str(&self) -> (r: Option<&str>)
        ensures
            opt_view(r) == self@.text(),
    {
        match self {
            Json::Str(s) => Some(s.as_str()),
            _ => None,
        }
    }

    /// The value of an integer that fits into 64 signed bits.
    pub fn as_i64(&self) -> (r: Option<i64>)
        ensures
            r == self@.signed(),
    {
        match self {
            Json::PosInt(n) => if *n <= i64::MAX as u64 {
                Some(*n as i64)
            } else {
                None
            },
            Json::NegInt(n) => Some(*n),
            _ => None,
        }
    }

    /// The value of an integer that is not negative.
    pub fn as_u64(&self) -> (r: Option<u64>)
        ensures
            r == self@.unsigned(),
    {
        match self {
            Json::PosInt(n) => Some(*n),
            _ => None,
        }
    }

    /// The items of an array.
    pub fn as_array(&self) -> (r: Option<&Vec<Json>>)
        ensures
            match r {
                Some(v) => self@.items() == Some(views(v@)),
                None => self@.items() is None,
            },
    {
        broadcast use group_json;

        match self {
            Json::Array(v) => Some(v),
            _ => None,
        }
    }

    /// Whether this is the null value.
    pub fn is_null(&self) -> (r: bool)
        ensures
            r == (self@ is Null),
    {
        match self {
            Json::Null => true,
            _ => false,
        }
    }

    /// The text of the member `key`, where it is a string.
    pub fn str_at(&self, key: &str) -> (r: Option<&str>)
        ensures
            opt_view(r) == self@.text_at(key@),
    {
        match self.get(key) {
            Some(v) => v.as_str(),
            None => None,
        }
    }

    /// The integer in the member `key`; 0 where there is none.
    pub fn i64_at(&self, key: &str) -> (r: i64)
        ensures
            r == self@.signed_at(key@),
    {
        match self.get(key) {
            Some(v) => match v.as_i64() {
                Some(n) => n,
                None => 0,
            },
            None => 0,
        }
    }

    /// The integer in the member `key`; 0 where there is none or it is
    /// negative.
    pub fn u64_at(&self, key: &str) -> (r: u64)
        ensures
            r == self@.unsigned_at(key@),
    {
        match self.get(key) {
            Some(v) => match v.as_u64() {
                Some(n) => n,
                None => 0,
            },
            None => 0,
        }
    }

    /// The member `inner` of the member `outer`.
    pub fn get2(&self, outer: &str, inner: &str) -> (r: Option<&Json>)
        ensures
            opt_view(r) == self@.member2(outer@, inner@),
    {
        match self.get(outer) {
            Some(v) => v.get(inner),
            None => None,
        }
    }

    /// The text of the member `inner` of the member `outer`.
    pub fn str_at2(&self, outer: &str, inner: &str) -> (r: Option<&str>)
        ensures
            opt_view(r) == self@.text_at2(outer@, inner@),
    {
        match self.get(outer) {
            Some(v) => v.str_at(inner),
            None => None,
        }
    }

    /// An object without members.
    pub fn object() -> (r: Json)
        ensures
            r@ == no_members(),
    {
        broadcast use group_json;

        let m: Vec<(String, Json)> = Vec::new();
        assert(members_view(m@) =~= Seq::empty());
        Json::Object(m)
    }

    /// A string.
    pub fn string(s: &str) -> (r: Json)
        ensures
            r@ == JsonView::Str(s@),
    {
        Json::Str(copy_of(s))
    }

    /// An array of one item.
    pub fn array1(a: Json) -> (r: Json)
        ensures
            r@ == JsonView::Array(seq![a@]),
    {
        broadcast use group_json;

        let mut v: Vec<Json> = Vec::new();
        v.push(a);
        assert(views(v@) =~= seq![a@]);
        Json::Array(v)
    }

    /// This object with one more member at its end.
    pub fn with(self, key: &str, v: Json) -> (r: Json)
        requires
            self@ is Object,
        ensures
            r@ == self@.plus(key@, v@),
    {
        broadcast use group_json;

        match self {
            Json::Object(m) => {
                let mut m = m;
                m.push((copy_of(key), v));
                Json::Object(m)
            },
            _ => Json::Null,
        }
    }
}

/// `serde_json::Value`, carried from text to [`Json`] and back.
#[verifier::external_type_specification]
#[verifier::external_body]
pub struct ExValue(serde_json::Value);

/// What a `serde_json::Value` holds.
pub uninterp spec fn value_content(v: serde_json::Value) -> JsonView;

/// The value that `serde_json::from_str` reads from a text; nothing where
/// the text is not JSON.
pub uninterp spec fn json_of_text(text: Seq<char>) -> Option<JsonView>;

/// The `serde_json::Value` that holds the given content.
pub uninterp spec fn value_of(j: JsonView) -> serde_json::Value;

/// The text that `serde_json::Value::to_string` writes.
pub uninterp spec fn text_of_value(v: serde_json::Value) -> Seq<char>;

/// The compact JSON text of a value.
pub open spec fn json_text(j: JsonView) -> Seq<char> {
    text_of_value(value_of(j))
}

/// `serde_json::from_str`: what it reads, and whether it succeeds, is a
/// function of the text alone.
#[verifier::external_body]
fn read_value(text: &str) -> (r: Option<Value>)
    ensures
        match r {
            Some(v) => json_of_text(text@) == Some(value_content(v)),
            None => json_of_text(text@) is None,
        },
{
    serde_json::from_str::<Value>(text).ok()
}

/// The content of a `serde_json::Value`, variant by variant; a number that
/// is neither `u64` nor `i64` is kept as its text.
#[verifier::external_body]
fn from_value(v: Value) -> (r: Json)
    ensures
        r@ == value_content(v),
{
    match v {
        Value::Null => Json::Null,
        Value::Bool(b) => Json::Bool(b),
        Value::Number(n) => match (n.as_u64(), n.as_i64()) {
            (Some(u), _) => Json::PosInt(u),
            (None, Some(i)) => Json::NegInt(i),
            (None, None) => Json::Float(n.to_string()),
        },
        Value::String(s) => Json::Str(s),
        Value::Array(a) => Json::Array(a.into_iter().map(from_value).collect()),
        Value::Object(m) => Json::Object(m.into_iter().map(|(k, x)| (k, from_value(x))).collect()),
    }
}

/// The `serde_json::Value` with the given content, variant by variant.
#[verifier::external_body]
fn to_value(j: &Json) -> (r: Value)
    ensures
        r == value_of(j@),
{
    match j {
        Json::Null => Value::Null,
        Json::Bool(b) => Value::from(*b),
        Json::PosInt(n) => Value::from(*n),
        Json::NegInt(n) => Value::from(*n),
        Json::Float(t) => serde_json::from_str(t).unwrap_or(Value::Null),
        Json::Str(s) => Value::from(s.as_str()),
        Json::Array(v) => Value::Array(v.iter().map(to_value).collect()),
        Json::Object(m) => Value::Object(m.iter().map(|(k, x)| (k.clone(), to_value(x))).collect()),
    }
}

/// `serde_json::Value::to_string`: the text is a function of the value.
#[verifier::external_body]
fn write_value(v: &Value) -> (r: String)
    ensures
        r@ == text_of_value(*v),
{
    v.to_string()
}

impl Json {
    /// Reads a JSON text; nothing where `text` is not JSON.
    pub fn parse(text: &str) -> (r: Option<Json>)
        ensures
            opt_view(r) == json_of_text(text@),
    {
        match read_value(text) {
            Some(v) => Some(from_value(v)),
            None => None,
        }
    }

    /// The compact JSON text of this value.
    pub fn to_text(&self) -> (r: String)
        ensures
            r@ == json_text(self@),
    {
        write_value(&to_value(self))
    }
}

/// A value is read as what it is: a text as that text, an integer as that
/// number where it fits, an array as its items, and nothing as anything
/// else.
pub proof fn law_values_are_read_as_they_are(
    s: Seq<char>,
    n: u64,
    m: i64,
    items: Seq<JsonView>,
    b: bool,
)
    ensures
        JsonView::Str(s).text() == Some(s),
        JsonView::PosInt(n).text() is None && JsonView::Null.text() is None && JsonView::Array(
            items,
        ).text() is None && JsonView::Bool(b).text() is None,
        n <= i64::MAX ==> (JsonView::PosInt(n).signed() matches Some(k) && k == n),
        n > i64::MAX ==> JsonView::PosInt(n).signed() is None,
        JsonView::NegInt(m).signed() == Some(m),
        JsonView::Str(s).signed() is None && JsonView::Null.signed() is None,
        JsonView::PosInt(n).unsigned() == Some(n),
        JsonView::NegInt(m).unsigned() is None && JsonView::Str(s).unsigned() is None,
        JsonView::Array(items).items() == Some(items),
        JsonView::Str(s).items() is None && JsonView::Null.items() is None,
        JsonView::Array(items).member(s) is None && JsonView::Str(s).member(s) is None,
{
}

/// The first member of a name is the one that counts.
pub proof fn law_first_member_counts(
    m: Seq<(Seq<char>, JsonView)>,
    key: Seq<char>,
    i: int,
)
    requires
        0 <= i < m.len(),
        m[i].0 == key,
        forall|j: int| 0 <= j < i ==> (#[trigger] m[j]).0 != key,
    ensures
        JsonView::Object(m).member(key) == Some(m[i].1),
        JsonView::Object(m).text_at(key) == m[i].1.text(),
        m[i].1 matches JsonView::PosInt(n) ==> JsonView::Object(m).unsigned_at(key) == n && (n
            <= i64::MAX ==> JsonView::Object(m).signed_at(key) == n),
        m[i].1 matches JsonView::NegInt(n) ==> JsonView::Object(m).signed_at(key) == n,
        m[i].1 matches JsonView::Object(inner) ==> forall|k: Seq<char>| #[trigger]
            JsonView::Object(m).member2(key, k) == JsonView::Object(inner).member(k),
        m[i].1 matches JsonView::Object(inner) ==> forall|k: Seq<char>| #[trigger]
            JsonView::Object(m).text_at2(key, k) == JsonView::Object(inner).text_at(k),
    decreases m.len(),
{
    lemma_first_member(m, key, i);
}

proof fn lemma_first_member(m: Seq<(Seq<char>, JsonView)>, key: Seq<char>, i: int)
    requires
        0 <= i < m.len(),
        m[i].0 == key,
        forall|j: int| 0 <= j < i ==> (#[trigger] m[j]).0 != key,
    ensures
        lookup(m, key) == Some(m[i].1),
    decreases m.len(),
{
    if i > 0 {
        assert(m[0].0 != key);
        let rest = m.drop_first();
        assert forall|j: int| 0 <= j < i - 1 implies (#[trigger] rest[j]).0 != key by {
            assert(m[j + 1].0 != key);
        }
        lemma_first_member(rest, key, i - 1);
    }
}

proof fn lemma_no_member(m: Seq<(Seq<char>, JsonView)>, key: Seq<char>)
    requires
        forall|j: int| 0 <= j < m.len() ==> (#[trigger] m[j]).0 != key,
    ensures
        lookup(m, key) is None,
    decreases m.len(),
{
    if m.len() > 0 {
        assert(m[0].0 != key);
        let rest = m.drop_first();
        assert forall|j: int| 0 <= j < rest.len() implies (#[trigger] rest[j]).0 != key by {
            assert(m[j + 1].0 != key);
        }
        lemma_no_member(rest, key);
    }
}

/// A member that is not there is not found, and a missing number counts as
/// 0.
pub proof fn law_missing_member_is_not_found(m: Seq<(Seq<char>, JsonView)>, key: Seq<char>)
    requires
        forall|j: int| 0 <= j < m.len() ==> (#[trigger] m[j]).0 != key,
    ensures
        JsonView::Object(m).member(key) is None,
        JsonView::Object(m).text_at(key) is None,
        JsonView::Object(m).signed_at(key) == 0,
        JsonView::Object(m).unsigned_at(key) == 0,
{
    lemma_no_member(m, key);
}

} // verus!
