//! JSON values.
//!
//! `Json` holds a JSON value as plain data. Text becomes a value through
//! `serde_json`; reading a value and writing it back as text is done here.
use crate::digits::{hex_lower, parse_unsigned, unsigned_value};
use crate::split::{join, joined, lemma_texts_push, texts};
use crate::text::{chars_of, str_eq};
use vstd::prelude::*;
use vstd::string::*;

verus! {

/// `serde_json::Value`, a parsed JSON text.
#[verifier::external_type_specification]
#[verifier::external_body]
pub struct ExValue(serde_json::Value);

/// A JSON value.
pub enum Json {
    Null,
    Bool(bool),
    /// A number, as it is written, and its value where that is an unsigned integer.
    Number { as_u64: Option<u64>, text: String },
    Str(String),
    Array(Vec<Json>),
    /// The members of an object, each key once.
    Object(Vec<(String, Json)>),
}

/// What a JSON value is, as a mathematical value.
pub enum JsonView {
    Null,
    Bool(bool),
    Number { as_u64: Option<u64>, text: Seq<char> },
    Str(Seq<char>),
    Array(Seq<JsonView>),
    Object(Seq<(Seq<char>, JsonView)>),
}

/// The mathematical value of a JSON value.
pub open spec fn json_view(j: Json) -> JsonView
    decreases j,
{
    match j {
        Json::Null => JsonView::Null,
        Json::Bool(b) => JsonView::Bool(b),
        Json::Number { as_u64, text } => JsonView::Number { as_u64, text: text@ },
        Json::Str(s) => JsonView::Str(s@),
        Json::Array(items) => JsonView::Array(
            Seq::new(
                items@.len(),
                |i: int|
                    if 0 <= i < items@.len() {
                        json_view(items@[i])
                    } else {
                        JsonView::Null
                    },
            ),
        ),
        Json::Object(members) => JsonView::Object(
            Seq::new(
                members@.len(),
                |i: int|
                    if 0 <= i < members@.len() {
                        (members@[i].0@, json_view(members@[i].1))
                    } else {
                        (Seq::empty(), JsonView::Null)
                    },
            ),
        ),
    }
}

impl View for Json {
    type V = JsonView;

    open spec fn view(&self) -> JsonView {
        json_view(*self)
    }
}

/// The value of the first member with `key`.
pub open spec fn entry(members: Seq<(Seq<char>, JsonView)>, key: Seq<char>) -> Option<JsonView>
    decreases members.len(),
{
    if members.len() == 0 {
        None
    } else if members[0].0 == key {
        Some(members[0].1)
    } else {
        entry(members.drop_first(), key)
    }
}

/// The member `key` of an object.
pub open spec fn member(v: JsonView, key: Seq<char>) -> Option<JsonView> {
    match v {
        JsonView::Object(members) => entry(members, key),
        _ => None,
    }
}

/// The text of a string.
pub open spec fn str_of(v: JsonView) -> Option<Seq<char>> {
    match v {
        JsonView::Str(s) => Some(s),
        _ => None,
    }
}

/// The text of a string, where there is a value.
pub open spec fn opt_str_of(v: Option<JsonView>) -> Option<Seq<char>> {
    match v {
        Some(w) => str_of(w),
        None => None,
    }
}

/// The text of the member `key`, where that is a string.
pub open spec fn member_str(v: JsonView, key: Seq<char>) -> Option<Seq<char>> {
    opt_str_of(member(v, key))
}

/// The items of an array.
pub open spec fn array_of(v: JsonView) -> Option<Seq<JsonView>> {
    match v {
        JsonView::Array(items) => Some(items),
        _ => None,
    }
}

/// The items of the member `key`, where that is an array.
pub open spec fn member_array(v: JsonView, key: Seq<char>) -> Option<Seq<JsonView>> {
    match member(v, key) {
        Some(w) => array_of(w),
        None => None,
    }
}

/// The truth value of the member `key`, where it has one.
pub open spec fn member_bool(v: JsonView, key: Seq<char>) -> Option<bool> {
    match member(v, key) {
        Some(JsonView::Bool(b)) => Some(b),
        _ => None,
    }
}

/// The member `key`, where it is an unsigned integer.
pub open spec fn member_u64(v: JsonView, key: Seq<char>) -> Option<u64> {
    match member(v, key) {
        Some(JsonView::Number { as_u64, .. }) => as_u64,
        _ => None,
    }
}

/// The array position that a path token writes: digits without a plus sign or
/// a leading zero.
pub open spec fn token_index(token: Seq<char>) -> Option<int> {
    if token.len() > 0 && (token[0] == '+' || (token[0] == '0' && token.len() != 1)) {
        None
    } else {
        unsigned_value(token)
    }
}

/// What a path token leads to: a member of an object, an item of an array.
pub open spec fn child_of(v: JsonView, token: Seq<char>) -> Option<JsonView> {
    match v {
        JsonView::Object(members) => entry(members, token),
        JsonView::Array(items) => match token_index(token) {
            Some(k) => if 0 <= k < items.len() {
                Some(items[k])
            } else {
                None
            },
            None => None,
        },
        _ => None,
    }
}

/// What a path token leads to, where there is a value to start from.
pub open spec fn opt_child_of(v: Option<JsonView>, token: Seq<char>) -> Option<JsonView> {
    match v {
        Some(w) => child_of(w, token),
        None => None,
    }
}

/// An optional JSON value, as a mathematical value.
pub open spec fn opt_json(v: Option<&Json>) -> Option<JsonView> {
    match v {
        Some(w) => Some(w@),
        None => None,
    }
}

/// An optional list of JSON values, as mathematical values.
pub open spec fn opt_items(v: Option<&Vec<Json>>) -> Option<Seq<JsonView>> {
    match v {
        Some(w) => Some(views(w@)),
        None => None,
    }
}

/// A list of JSON values, as mathematical values.
pub open spec fn views(items: Seq<Json>) -> Seq<JsonView> {
    items.map_values(|j: Json| j@)
}

impl Json {
    /// The member `key` of an object.
    pub fn get(&self, key: &str) -> (r: Option<&Json>)
        ensures
            opt_json(r) == member(self@, key@),
    {
        match self {
            Json::Object(members) => {
                let ghost all = self@->Object_0;
                let mut i: usize = 0;
                assert(all.skip(0) =~= all);
                while i < members.len()
                    invariant
                        i <= members@.len(),
                        self@ == JsonView::Object(all),
                        *self == Json::Object(*members),
                        all.len() == members@.len(),
                        entry(all.skip(i as int), key@) == entry(all, key@),
                    decreases members.len() - i,
                {
                    let ghost rest = all.skip(i as int);
                    assert(rest[0] == (members@[i as int].0@, members@[i as int].1@));
                    if str_eq(members[i].0.as_str(), key) {
                        return Some(&members[i].1);
                    }
                    assert(rest.drop_first() =~= all.skip(i + 1));
                    i += 1;
                }
                None
            },
            _ => None,
        }
    }

    /// The text of a string.
    pub fn as_str(&self) -> (r: Option<&str>)
        ensures
            crate::text::opt_view(r) == str_of(self@),
    {
        match self {
            Json::Str(s) => Some(s.as_str()),
            _ => None,
        }
    }

    /// The text of the member `key`, where that is a string.
    pub fn get_str(&self, key: &str) -> (r: Option<&str>)
        ensures
            crate::text::opt_view(r) == member_str(self@, key@),
    {
        match self.get(key) {
            Some(v) => v.as_str(),
            None => None,
        }
    }

    /// The items of an array.
    pub fn as_array(&self) -> (r: Option<&Vec<Json>>)
        ensures
            opt_items(r) == array_of(self@),
    {
        match self {
            Json::Array(items) => {
                assert(views(items@) =~= self@->Array_0);
                Some(items)
            },
            _ => None,
        }
    }

    /// The items of the member `key`, where that is an array.
    pub fn get_array(&self, key: &str) -> (r: Option<&Vec<Json>>)
        ensures
            opt_items(r) == member_array(self@, key@),
    {
        match self.get(key) {
            Some(v) => v.as_array(),
            None => None,
        }
    }

    /// The truth value of the member `key`, where it has one.
    pub fn get_bool(&self, key: &str) -> (r: Option<bool>)
        ensures
            r == member_bool(self@, key@),
    {
        match self.get(key) {
            Some(Json::Bool(b)) => Some(*b),
            _ => None,
        }
    }

    /// The member `key`, where it is an unsigned integer.
    pub fn get_u64(&self, key: &str) -> (r: Option<u64>)
        ensures
            r == member_u64(self@, key@),
    {
        match self.get(key) {
            Some(Json::Number { as_u64, .. }) => *as_u64,
            _ => None,
        }
    }

    /// What a path token leads to: a member of an object, an item of an array.
    pub fn child(&self, token: &str) -> (r: Option<&Json>)
        ensures
            opt_json(r) == child_of(self@, token@),
    {
        match self {
            Json::Object(_) => self.get(token),
            Json::Array(items) => {
                let cs = chars_of(token);
                if cs.len() > 0 && (cs[0] == '+' || (cs[0] == '0' && cs.len() != 1)) {
                    return None;
                }
                match parse_unsigned(token, items.len() as u64) {
                    Some(k) => if (k as usize) < items.len() {
                        Some(&items[k as usize])
                    } else {
                        None
                    },
                    None => None,
                }
            },
            _ => None,
        }
    }
}

/// What a path token leads to, where there is a value to start from.
pub fn child_in<'a>(v: Option<&'a Json>, token: &str) -> (r: Option<&'a Json>)
    ensures
        opt_json(r) == opt_child_of(opt_json(v), token@),
{
    match v {
        Some(w) => w.child(token),
        None => None,
    }
}

/// A copy of the text of a string, where there is one.
pub fn text_in(v: Option<&Json>) -> (r: Option<String>)
    ensures
        crate::text::opt_text(r) == opt_str_of(opt_json(v)),
{
    match v {
        Some(Json::Str(s)) => Some(s.clone()),
        _ => None,
    }
}

/// The text of the first of two members that is there.
pub open spec fn either_str(v: JsonView, a: Seq<char>, b: Seq<char>) -> Option<Seq<char>> {
    opt_str_of(crate::text::or_else(member(v, a), member(v, b)))
}

/// The text of the first of two members that is there.
pub fn get_either<'a>(v: &'a Json, a: &str, b: &str) -> (r: Option<&'a str>)
    ensures
        crate::text::opt_view(r) == either_str(v@, a@, b@),
{
    match v.get(a) {
        Some(w) => w.as_str(),
        None => v.get_str(b),
    }
}

/// What `serde_json::from_str` makes of a text: a value, or the message of its error.
pub uninterp spec fn json_parsed(text: Seq<char>) -> Result<JsonView, Seq<char>>;

/// What a `serde_json::Value` holds.
pub uninterp spec fn value_contents(value: serde_json::Value) -> JsonView;

/// `serde_json::from_str` into a `serde_json::Value`: reads a JSON text. The
/// value, or the error's message, depends on the text alone.
#[verifier::external_body]
fn parse_value(text: &str) -> (r: Result<serde_json::Value, String>)
    ensures
        match r {
            Ok(v) => json_parsed(text@) == Ok::<JsonView, Seq<char>>(value_contents(v)),
            Err(e) => json_parsed(text@) == Err::<JsonView, Seq<char>>(e@),
        },
{
    serde_json::from_str(text).map_err(|e| e.to_string())
}

/// The contents of a `serde_json::Value`, variant by variant; a number is
/// taken by `Number::as_u64` and as it is displayed.
#[verifier::external_body]
fn json_of(value: serde_json::Value) -> (r: Json)
    ensures
        r@ == value_contents(value),
{
    match value {
        serde_json::Value::Null => Json::Null,
        serde_json::Value::Bool(b) => Json::Bool(b),
        serde_json::Value::Number(n) => Json::Number { as_u64: n.as_u64(), text: n.to_string() },
        serde_json::Value::String(s) => Json::Str(s),
        serde_json::Value::Array(a) => Json::Array(a.into_iter().map(json_of).collect()),
        serde_json::Value::Object(m) => Json::Object(
            m.into_iter().map(|(k, v)| (k, json_of(v))).collect(),
        ),
    }
}

/// Reads a JSON text; the error is a message that says what is wrong with it.
pub fn parse_json(text: &str) -> (r: Result<Json, String>)
    ensures
        match r {
            Ok(v) => json_parsed(text@) == Ok::<JsonView, Seq<char>>(v@),
            Err(e) => json_parsed(text@) == Err::<JsonView, Seq<char>>(e@),
        },
{
    match parse_value(text) {
        Ok(v) => Ok(json_of(v)),
        Err(e) => Err(e),
    }
}

/// A character as it stands inside a JSON string.
pub open spec fn escaped(c: char) -> Seq<char> {
    if c == '"' {
        seq!['\\', '"']
    } else if c == '\\' {
        seq!['\\', '\\']
    } else if c == '\u{8}' {
        seq!['\\', 'b']
    } else if c == '\u{9}' {
        seq!['\\', 't']
    } else if c == '\u{a}' {
        seq!['\\', 'n']
    } else if c == '\u{c}' {
        seq!['\\', 'f']
    } else if c == '\u{d}' {
        seq!['\\', 'r']
    } else if (c as int) < 32 {
        seq!['\\', 'u', '0', '0', hex_lower(c as int / 16), hex_lower(c as int % 16)]
    } else {
        seq![c]
    }
}

/// The characters of `s` as they stand inside a JSON string.
pub open spec fn escaped_all(s: Seq<char>) -> Seq<char>
    decreases s.len(),
{
    if s.len() == 0 {
        Seq::empty()
    } else {
        escaped_all(s.drop_last()) + escaped(s.last())
    }
}

/// `s` as a JSON string.
pub open spec fn quoted(s: Seq<char>) -> Seq<char> {
    seq!['"'] + escaped_all(s) + seq!['"']
}

/// `serde_json::Value` displayed, for a string: the string in quotes, with
/// quotes, backslashes and control characters escaped.
#[verifier::external_body]
fn quote(s: &str) -> (r: String)
    ensures
        r@ == quoted(s@),
{
    serde_json::Value::from(s).to_string()
}

/// A JSON value as compact text.
pub open spec fn rendered(v: JsonView) -> Seq<char>
    decreases v,
{
    match v {
        JsonView::Null => "null"@,
        JsonView::Bool(b) => if b {
            "true"@
        } else {
            "false"@
        },
        JsonView::Number { text, .. } => text,
        JsonView::Str(s) => quoted(s),
        JsonView::Array(items) => "["@ + joined(rendered_items(items), ","@) + "]"@,
        JsonView::Object(members) => "{"@ + joined(rendered_members(members), ","@) + "}"@,
    }
}

/// Each item of an array as compact text.
pub open spec fn rendered_items(items: Seq<JsonView>) -> Seq<Seq<char>>
    decreases items,
{
    Seq::new(
        items.len(),
        |i: int|
            if 0 <= i < items.len() {
                rendered(items[i])
            } else {
                Seq::empty()
            },
    )
}

/// Each member of an object as compact text.
pub open spec fn rendered_members(members: Seq<(Seq<char>, JsonView)>) -> Seq<Seq<char>>
    decreases members,
{
    Seq::new(
        members.len(),
        |i: int|
            if 0 <= i < members.len() {
                quoted(members[i].0) + ":"@ + rendered(members[i].1)
            } else {
                Seq::empty()
            },
    )
}

impl Json {
    /// The value as compact text.
    pub fn render(&self) -> (r: String)
        ensures
            r@ == rendered(self@),
        decreases self,
    {
        broadcast use lemma_texts_push;

        match self {
            Json::Null => "null".to_owned(),
            Json::Bool(b) => if *b {
                "true".to_owned()
            } else {
                "false".to_owned()
            },
            Json::Number { text, .. } => text.clone(),
            Json::Str(s) => quote(s.as_str()),
            Json::Array(items) => {
                let ghost all = self@->Array_0;
                let ghost want = rendered_items(all);
                let mut parts: Vec<String> = Vec::new();
                let mut i: usize = 0;
                while i < items.len()
                    invariant
                        i <= items@.len(),
                        *self == Json::Array(*items),
                        self@ == JsonView::Array(all),
                        all.len() == items@.len(),
                        want.len() == all.len(),
                        forall|j: int| 0 <= j < all.len() ==> #[trigger] want[j] == rendered(all[j]),
                        texts(parts@) == want.take(i as int),
                    decreases items.len() - i,
                {
                    assert(all[i as int] == items@[i as int]@);
                    let part = items[i].render();
                    parts.push(part);
                    assert(want.take(i + 1) =~= want.take(i as int).push(part@));
                    i += 1;
                }
                assert(want.take(i as int) =~= want);
                let inner = join(&parts, ",");
                let mut out = "[".to_owned();
                out.append(inner.as_str());
                out.append("]");
                out
            },
            Json::Object(members) => {
                let ghost all = self@->Object_0;
                let ghost want = rendered_members(all);
                let mut parts: Vec<String> = Vec::new();
                let mut i: usize = 0;
                while i < members.len()
                    invariant
                        i <= members@.len(),
                        *self == Json::Object(*members),
                        self@ == JsonView::Object(all),
                        all.len() == members@.len(),
                        want.len() == all.len(),
                        forall|j: int|
                            0 <= j < all.len() ==> #[trigger] want[j] == quoted(all[j].0) + ":"@
                                + rendered(all[j].1),
                        texts(parts@) == want.take(i as int),
                    decreases members.len() - i,
                {
                    assert(all[i as int] == (members@[i as int].0@, members@[i as int].1@));
                    let mut part = quote(members[i].0.as_str());
                    part.append(":");
                    let value = members[i].1.render();
                    part.append(value.as_str());
                    assert(part@ == want[i as int]);
                    parts.push(part);
                    assert(want.take(i + 1) =~= want.take(i as int).push(part@));
                    i += 1;
                }
                assert(want.take(i as int) =~= want);
                let inner = join(&parts, ",");
                let mut out = "{".to_owned();
                out.append(inner.as_str());
                out.append("}");
                out
            },
        }
    }
}

/// A member of an object is the first one of that name; other values have no members.
pub proof fn law_member_is_first_of_its_name(
    key: Seq<char>,
    v: JsonView,
    rest: Seq<(Seq<char>, JsonView)>,
    other: Seq<char>,
)
    ensures
        member(JsonView::Object(seq![(key, v)] + rest), key) == Some(v),
        other != key ==> member(JsonView::Object(seq![(key, v)] + rest), other) == member(
            JsonView::Object(rest),
            other,
        ),
        member(JsonView::Object(Seq::empty()), key) is None,
        !(v is Object) ==> member(v, key) is None,
{
    let m = seq![(key, v)] + rest;
    assert(m.drop_first() =~= rest);
}

/// A member is read as what it is, and as nothing else.
pub proof fn law_member_is_read_as_it_is(v: JsonView, key: Seq<char>)
    ensures
        member(v, key) is None ==> member_str(v, key) is None && member_array(v, key) is None
            && member_bool(v, key) is None && member_u64(v, key) is None,
        member(v, key) matches Some(JsonView::Str(s)) ==> member_str(v, key) == Some(s)
            && member_array(v, key) is None && member_bool(v, key) is None && member_u64(v, key)
            is None,
        member(v, key) matches Some(JsonView::Array(items)) ==> member_array(v, key) == Some(items)
            && member_str(v, key) is None,
        member(v, key) matches Some(JsonView::Bool(b)) ==> member_bool(v, key) == Some(b)
            && member_str(v, key) is None,
        member(v, key) == Some(JsonView::Null) ==> member_str(v, key) is None && member_u64(v, key)
            is None,
{
}

/// Text in a JSON string has its quotes, backslashes and control characters escaped; other
/// characters stand for themselves.
pub proof fn law_strings_are_quoted(s: Seq<char>, c: char)
    ensures
        rendered(JsonView::Str(s)) == seq!['"'] + escaped_all(s) + seq!['"'],
        escaped_all(s.push('"')) == escaped_all(s) + seq!['\\', '"'],
        escaped_all(s.push('\\')) == escaped_all(s) + seq!['\\', '\\'],
        escaped_all(s.push('\n')) == escaped_all(s) + seq!['\\', 'n'],
        c as int >= 32 && c != '"' && c != '\\' ==> escaped_all(s.push(c)) == escaped_all(s)
            + seq![c],
{
    assert(s.push('"').drop_last() =~= s);
    assert(s.push('\\').drop_last() =~= s);
    assert(s.push('\n').drop_last() =~= s);
    assert(s.push(c).drop_last() =~= s);
}

/// An object is written as its members in their order, each as its name and its value; an
/// array as its items.
pub proof fn law_values_are_written_in_order(a: Seq<char>, v: JsonView, b: Seq<char>, w: JsonView)
    ensures
        rendered(JsonView::Object(seq![(a, v)])) == "{"@ + (quoted(a) + ":"@ + rendered(v)) + "}"@,
        rendered(JsonView::Object(seq![(a, v), (b, w)])) == "{"@ + (quoted(a) + ":"@ + rendered(v)
            + ","@ + (quoted(b) + ":"@ + rendered(w))) + "}"@,
        rendered(JsonView::Array(seq![v])) == "["@ + rendered(v) + "]"@,
        rendered(JsonView::Array(seq![v, w])) == "["@ + (rendered(v) + ","@ + rendered(w)) + "]"@,
        rendered(JsonView::Bool(true)) == "true"@,
        rendered(JsonView::Bool(false)) == "false"@,
        rendered(JsonView::Null) == "null"@,
{
    let one = seq![(a, v)];
    let two = seq![(a, v), (b, w)];
    let x = rendered_members(one);
    let y = rendered_members(two);
    assert(x =~= seq![quoted(a) + ":"@ + rendered(v)]);
    assert(y =~= seq![quoted(a) + ":"@ + rendered(v), quoted(b) + ":"@ + rendered(w)]);
    assert(y.drop_last() =~= x);
    assert(joined(x, ","@) == x[0]);
    assert(joined(y, ","@) == joined(x, ","@) + ","@ + y[1]);
    let p = rendered_items(seq![v]);
    let q = rendered_items(seq![v, w]);
    assert(p =~= seq![rendered(v)]);
    assert(q =~= seq![rendered(v), rendered(w)]);
    assert(q.drop_last() =~= p);
    assert(joined(p, ","@) == p[0]);
    assert(joined(q, ","@) == joined(p, ","@) + ","@ + q[1]);
}

} // verus!
