//! JSON values as the rest of the crate sees them.
//!
//! Reading and writing JSON text is `serde_json`'s work; [`Json`] holds the
//! outcome as plain data, and its view [`JsonView`] is what contracts speak of.

use vstd::prelude::*;
use vstd::utf8::*;
use crate::text::same;
use crate::text::utf8_len;

verus! {

/// A JSON value: what a [`Json`] stands for.
///
/// An object is a map, so neither the order of its members nor a repeated key
/// is visible. A number that is no integer is known by its canonical text.
pub enum JsonView {
    Null,
    Bool(bool),
    Int(int),
    Float(Seq<char>),
    Str(Seq<char>),
    Array(Seq<JsonView>),
    Object(Map<Seq<char>, JsonView>),
}

impl JsonView {
    /// The member `key` of an object; nothing for a value that has none.
    pub open spec fn field(self, key: Seq<char>) -> Option<JsonView> {
        match self {
            JsonView::Object(members) => if members.contains_key(key) {
                Some(members[key])
            } else {
                None
            },
            _ => None,
        }
    }

    /// The member `key` of an object, or null where there is none.
    pub open spec fn at(self, key: Seq<char>) -> JsonView {
        match self.field(key) {
            Some(value) => value,
            None => JsonView::Null,
        }
    }

    /// The characters of a string; nothing for another value.
    pub open spec fn as_text(self) -> Option<Seq<char>> {
        match self {
            JsonView::Str(s) => Some(s),
            _ => None,
        }
    }

    /// The characters of a string, or `default` for another value.
    pub open spec fn text_or(self, default: Seq<char>) -> Seq<char> {
        match self {
            JsonView::Str(s) => s,
            _ => default,
        }
    }

    /// The string member `key` of an object.
    pub open spec fn field_text(self, key: Seq<char>) -> Option<Seq<char>> {
        match self.field(key) {
            Some(value) => value.as_text(),
            None => None,
        }
    }

    /// An object with plain keys whose members are strings and integers that
    /// JSON text keeps exactly.
    pub open spec fn is_flat(self) -> bool {
        match self {
            JsonView::Object(members) => forall|key: Seq<char>| #[trigger]
                members.contains_key(key) ==> plain_key(key) && match members[key] {
                    JsonView::Str(_) => true,
                    JsonView::Int(n) => i64::MIN <= n <= u64::MAX,
                    _ => false,
                },
            _ => false,
        }
    }
}

/// A key of lower-case ASCII letters, points and underscores: one that means
/// nothing special to a reader, and is written without escapes.
pub open spec fn plain_key(key: Seq<char>) -> bool {
    forall|i: int|
        0 <= i < key.len() ==> ('a' <= #[trigger] key[i] <= 'z' || key[i] == '.' || key[i] == '_')
}

/// The most bytes that a string or an integer takes in JSON text: an escape
/// takes up to six for one, and an integer has up to twenty digits and signs.
pub open spec fn scalar_bound(value: JsonView) -> nat {
    match value {
        JsonView::Str(s) => 6 * utf8_len(s) + 2,
        _ => 20,
    }
}

/// The most bytes that the members of a flat object take in JSON text: each
/// key in quotes, a colon, the value, and a comma.
pub open spec fn members_bound(members: Map<Seq<char>, JsonView>) -> nat
    decreases members.dom().len(),
{
    if members.dom().finite() && members.dom().len() > 0 {
        let key = members.dom().choose();
        key.len() + scalar_bound(members[key]) + 4 + members_bound(members.remove(key))
    } else {
        0
    }
}

/// The most bytes that a flat object takes in JSON text.
pub open spec fn flat_bound(value: JsonView) -> nat {
    match value {
        JsonView::Object(members) => members_bound(members) + 2,
        _ => 0,
    }
}

/// A JSON value.
///
/// The members of an object stand in no particular order; of two members with
/// the same key the later one counts.
pub enum Json {
    Null,
    Bool(bool),
    Unsigned(u64),
    Signed(i64),
    /// A number that is no integer, by its text.
    Float(String),
    Str(String),
    Array(Vec<Json>),
    Object(Vec<(String, Json)>),
}

/// What a number that is no integer stands for, by its text: a number where
/// the text spells one, null where it does not.
pub open spec fn float_view(text: Seq<char>) -> JsonView {
    match float_text(text) {
        Some(canonical) => JsonView::Float(canonical),
        None => JsonView::Null,
    }
}

pub open spec fn json_view(value: Json) -> JsonView
    decreases value,
{
    match value {
        Json::Null => JsonView::Null,
        Json::Bool(b) => JsonView::Bool(b),
        Json::Unsigned(n) => JsonView::Int(n as int),
        Json::Signed(n) => JsonView::Int(n as int),
        Json::Float(text) => float_view(text@),
        Json::Str(s) => JsonView::Str(s@),
        Json::Array(items) => JsonView::Array(items_view(items@)),
        Json::Object(members) => JsonView::Object(members_view(members@)),
    }
}

pub open spec fn items_view(items: Seq<Json>) -> Seq<JsonView>
    decreases items,
{
    Seq::new(
        items.len(),
        |i: int|
            if 0 <= i < items.len() {
                json_view(items[i])
            } else {
                JsonView::Null
            },
    )
}

pub open spec fn members_view(members: Seq<(String, Json)>) -> Map<Seq<char>, JsonView>
    decreases members,
{
    if members.len() == 0 {
        Map::empty()
    } else {
        members_view(members.drop_last()).insert(
            members.last().0@,
            json_view(members.last().1),
        )
    }
}

impl View for Json {
    type V = JsonView;

    open spec fn view(&self) -> JsonView {
        json_view(*self)
    }
}

/// One level of a `serde_json::Value`.
enum Node {
    Null,
    Bool(bool),
    Unsigned(u64),
    Signed(i64),
    Float(String),
    Str(String),
    Array(Vec<serde_json::Value>),
    Object(Vec<(String, serde_json::Value)>),
}

#[verifier::external_type_specification]
#[verifier::external_body]
pub struct ExValue(serde_json::Value);

/// The JSON value that a `serde_json::Value` holds.
pub uninterp spec fn json_contents(value: serde_json::Value) -> JsonView;

/// What `serde_json::from_str` makes of a text: the value, or the message of
/// its error.
pub uninterp spec fn json_parsed(text: Seq<char>) -> Result<JsonView, Seq<char>>;

/// The text in which `serde_json` writes a value, in its compact form.
pub uninterp spec fn json_text(value: JsonView) -> Seq<char>;

/// The text in which `serde_json` writes the finite floating-point number that
/// `text` spells; nothing where it spells none.
pub uninterp spec fn float_text(text: Seq<char>) -> Option<Seq<char>>;

/// Whether `serde_json::from_str` makes `value` of a text.
pub open spec fn reads_as(text: Seq<char>, value: JsonView) -> bool {
    json_parsed(text) matches Ok(read) && read == value
}

/// Whether a text holds no control character of the ASCII range.
pub open spec fn no_control(text: Seq<char>) -> bool {
    forall|i: int| 0 <= i < text.len() ==> #[trigger] text[i] as u32 >= 0x20
}

spec fn contents_members(members: Seq<(String, serde_json::Value)>) -> Map<Seq<char>, JsonView>
    decreases members.len(),
{
    if members.len() == 0 {
        Map::empty()
    } else {
        contents_members(members.drop_last()).insert(
            members.last().0@,
            json_contents(members.last().1),
        )
    }
}

/// Whether no key is given twice.
spec fn distinct_keys(members: Seq<(String, serde_json::Value)>) -> bool {
    forall|i: int, j: int|
        0 <= i < j < members.len() ==> (#[trigger] members[i]).0@ != (#[trigger] members[j]).0@
}

spec fn contents_items(items: Seq<serde_json::Value>) -> Seq<JsonView> {
    items.map_values(|value: serde_json::Value| json_contents(value))
}

spec fn node_view(node: Node) -> JsonView {
    match node {
        Node::Null => JsonView::Null,
        Node::Bool(b) => JsonView::Bool(b),
        Node::Unsigned(n) => JsonView::Int(n as int),
        Node::Signed(n) => JsonView::Int(n as int),
        Node::Float(text) => float_view(text@),
        Node::Str(s) => JsonView::Str(s@),
        Node::Array(items) => JsonView::Array(contents_items(items@)),
        Node::Object(members) => JsonView::Object(contents_members(members@)),
    }
}

/// `serde_json::from_str::<Value>`: the value that the text spells, or the
/// error's message. What it gives depends on the text alone.
#[verifier::external_body]
fn parse_value(text: &str) -> (r: Result<serde_json::Value, String>)
    ensures
        match r {
            Ok(value) => reads_as(text@, json_contents(value)),
            Err(message) => json_parsed(text@) matches Err(said) && said == message@,
        },
{
    serde_json::from_str(text).map_err(|e| e.to_string())
}

/// `serde_json::from_slice::<Value>`: bytes that are no UTF-8 are refused, and
/// others are read as `serde_json::from_str` reads their text. The error is
/// dropped, for its message is not used.
#[verifier::external_body]
fn parse_value_bytes(bytes: &[u8]) -> (r: Option<serde_json::Value>)
    ensures
        match r {
            Some(value) => valid_utf8(bytes@) && reads_as(
                decode_utf8(bytes@),
                json_contents(value),
            ),
            None => !valid_utf8(bytes@) || json_parsed(decode_utf8(bytes@)) is Err,
        },
{
    serde_json::from_slice(bytes).ok()
}

/// Takes one level of a `serde_json::Value` apart. A number is told by
/// `Number::as_u64` and `Number::as_i64`; one that is neither is a finite
/// floating-point number, given by its canonical text. The keys of an object
/// differ from each other.
#[verifier::external_body]
fn value_node(value: serde_json::Value) -> (node: Node)
    ensures
        node_view(node) == json_contents(value),
        node matches Node::Float(text) ==> float_text(text@) == Some(text@),
        node matches Node::Object(members) ==> distinct_keys(members@),
{
    match value {
        serde_json::Value::Null => Node::Null,
        serde_json::Value::Bool(b) => Node::Bool(b),
        serde_json::Value::Number(n) => match (n.as_u64(), n.as_i64()) {
            (Some(u), _) => Node::Unsigned(u),
            (None, Some(i)) => Node::Signed(i),
            (None, None) => Node::Float(n.to_string()),
        },
        serde_json::Value::String(s) => Node::Str(s),
        serde_json::Value::Array(items) => Node::Array(items),
        serde_json::Value::Object(members) => Node::Object(members.into_iter().collect()),
    }
}

/// Puts one level of a `serde_json::Value` together. The text of a
/// floating-point number is read back exactly, and is null where it spells no
/// finite number. The keys of an object differ from each other.
#[verifier::external_body]
fn node_value(node: Node) -> (value: serde_json::Value)
    requires
        node matches Node::Object(members) ==> distinct_keys(members@),
    ensures
        json_contents(value) == node_view(node),
{
    match node {
        Node::Null => serde_json::Value::Null,
        Node::Bool(b) => serde_json::Value::Bool(b),
        Node::Unsigned(u) => serde_json::Value::from(u),
        Node::Signed(i) => serde_json::Value::from(i),
        Node::Float(text) => serde_json::Value::from(
            text.parse().ok().and_then(serde_json::Number::from_f64),
        ),
        Node::Str(s) => serde_json::Value::String(s),
        Node::Array(items) => serde_json::Value::Array(items),
        Node::Object(members) => serde_json::Value::Object(members.into_iter().collect()),
    }
}

/// The compact text of a `serde_json::Value`, which its `Display` writes. It
/// depends on the value alone (an object's members come in the order of their
/// keys, in which its `BTreeMap` holds them), holds no control character (the
/// writer escapes them), and a flat object is read back from it unchanged. An
/// escape takes two bytes or six, and stands for one.
#[verifier::external_body]
fn value_text(value: &serde_json::Value) -> (text: String)
    ensures
        text@ == json_text(json_contents(*value)),
        no_control(text@),
        json_contents(*value).is_flat() ==> reads_as(text@, json_contents(*value)),
        json_contents(*value).is_flat() ==> utf8_len(text@) <= flat_bound(json_contents(*value)),
{
    value.to_string()
}

proof fn lemma_contents_members(members: Seq<(String, serde_json::Value)>, i: int)
    requires
        0 <= i < members.len(),
        distinct_keys(members),
    ensures
        contents_members(members).dom().finite(),
        contents_members(members).contains_key(members[i].0@),
        contents_members(members)[members[i].0@] == json_contents(members[i].1),
    decreases members.len(),
{
    let rest = members.drop_last();
    assert(distinct_keys(rest));
    if rest.len() > 0 {
        lemma_contents_members(rest, 0);
    } else {
        assert(contents_members(rest) == Map::<Seq<char>, JsonView>::empty());
    }
    if i < rest.len() {
        lemma_contents_members(rest, i);
        assert(members[i].0@ != members[members.len() - 1].0@);
    }
}

/// Turns a `serde_json::Value` into a [`Json`].
fn from_value(value: serde_json::Value) -> (r: Json)
    ensures
        r@ == json_contents(value),
    decreases json_contents(value),
{
    let ghost whole = json_contents(value);
    let node = value_node(value);
    match node {
        Node::Null => Json::Null,
        Node::Bool(b) => Json::Bool(b),
        Node::Unsigned(n) => Json::Unsigned(n),
        Node::Signed(n) => Json::Signed(n),
        Node::Float(text) => Json::Float(text),
        Node::Str(s) => Json::Str(s),
        Node::Array(items) => {
            let ghost all = items@;
            let mut out: Vec<Json> = Vec::new();
            for item in iter: items
                invariant
                    iter.seq() == all,
                    whole == json_contents(value),
                    whole == JsonView::Array(contents_items(all)),
                    items_view(out@) == contents_items(all).take(iter.index()),
            {
                assert(decreases_to!(whole => whole->Array_0));
                assert(decreases_to!(contents_items(all) => contents_items(all)[iter.index()]));
                let ghost before = out@;
                let converted = from_value(item);
                out.push(converted);
                assert(items_view(out@) =~= items_view(before).push(converted@));
                assert(contents_items(all).take(iter.index() + 1) =~= contents_items(all).take(
                    iter.index(),
                ).push(json_contents(item)));
            }
            assert(contents_items(all).take(all.len() as int) =~= contents_items(all));
            Json::Array(out)
        },
        Node::Object(members) => {
            let ghost all = members@;
            let mut out: Vec<(String, Json)> = Vec::new();
            for member in iter: members
                invariant
                    iter.seq() == all,
                    whole == json_contents(value),
                    whole == JsonView::Object(contents_members(all)),
                    distinct_keys(all),
                    members_view(out@) == contents_members(all.take(iter.index())),
            {
                proof {
                    lemma_contents_members(all, iter.index());
                }
                assert(decreases_to!(whole => whole->Object_0));
                assert(decreases_to!(contents_members(all) => contents_members(all)[member.0@]));
                let ghost before = out@;
                let ghost key = member.0@;
                let converted = from_value(member.1);
                out.push((member.0, converted));
                assert(out@.drop_last() =~= before);
                assert(all.take(iter.index() + 1).drop_last() =~= all.take(iter.index()));
            }
            assert(all.take(all.len() as int) =~= all);
            Json::Object(out)
        },
    }
}

/// A new value under a key that is there takes the old one's place.
proof fn lemma_replaced_member(
    members: Seq<(String, serde_json::Value)>,
    j: int,
    m: (String, serde_json::Value),
)
    requires
        0 <= j < members.len(),
        distinct_keys(members),
        m.0@ == members[j].0@,
    ensures
        distinct_keys(members.update(j, m)),
        contents_members(members.update(j, m)) == contents_members(members).insert(
            m.0@,
            json_contents(m.1),
        ),
    decreases members.len(),
{
    let rest = members.drop_last();
    let next = members.update(j, m);
    let last = members.last();
    assert(distinct_keys(rest));
    if j < rest.len() {
        lemma_replaced_member(rest, j, m);
        assert(next.drop_last() =~= rest.update(j, m));
        assert(members[j].0@ != members[members.len() - 1].0@);
    } else {
        assert(next.drop_last() =~= rest);
    }
    assert(contents_members(next) =~= contents_members(members).insert(
        m.0@,
        json_contents(m.1),
    ));
}

/// Adds a member, or replaces the one that has its key.
fn put_member(members: &mut Vec<(String, serde_json::Value)>, key: String, value: serde_json::Value)
    requires
        distinct_keys(old(members)@),
    ensures
        distinct_keys(final(members)@),
        contents_members(final(members)@) == contents_members(old(members)@).insert(
            key@,
            json_contents(value),
        ),
{
    let ghost before = members@;
    let mut j: usize = 0;
    while j < members.len()
        invariant
            members@ == before,
            j <= members@.len(),
            forall|i: int| 0 <= i < j ==> (#[trigger] before[i]).0@ != key@,
        ensures
            members@ == before,
            j <= members@.len(),
            forall|i: int| 0 <= i < j ==> (#[trigger] before[i]).0@ != key@,
            j < members@.len() ==> before[j as int].0@ == key@,
        decreases members@.len() - j,
    {
        if same(members[j].0.as_str(), key.as_str()) {
            break;
        }
        j = j + 1;
    }
    let ghost m = (key, value);
    if j < members.len() {
        proof {
            lemma_replaced_member(before, j as int, m);
        }
        members.set(j, (key, value));
    } else {
        members.push((key, value));
        assert(members@.drop_last() =~= before);
    }
}

/// Turns a [`Json`] into a `serde_json::Value`.
fn to_value(value: &Json) -> (r: serde_json::Value)
    ensures
        json_contents(r) == value@,
    decreases value,
{
    match value {
        Json::Null => node_value(Node::Null),
        Json::Bool(b) => node_value(Node::Bool(*b)),
        Json::Unsigned(n) => node_value(Node::Unsigned(*n)),
        Json::Signed(n) => node_value(Node::Signed(*n)),
        Json::Float(text) => node_value(Node::Float(text.clone())),
        Json::Str(s) => node_value(Node::Str(s.clone())),
        Json::Array(items) => {
            let mut out: Vec<serde_json::Value> = Vec::new();
            let mut i: usize = 0;
            while i < items.len()
                invariant
                    i <= items@.len(),
                    *value == Json::Array(*items),
                    contents_items(out@) == items_view(items@).take(i as int),
                decreases items@.len() - i,
            {
                assert(decreases_to!(value->Array_0 => value->Array_0@));
                assert(decreases_to!(items@ => items@[i as int]));
                let ghost before = out@;
                let converted = to_value(&items[i]);
                out.push(converted);
                assert(contents_items(out@) =~= contents_items(before).push(
                    json_contents(converted),
                ));
                assert(items_view(items@).take(i + 1) =~= items_view(items@).take(i as int).push(
                    items@[i as int]@,
                ));
                i = i + 1;
            }
            assert(items_view(items@).take(i as int) =~= items_view(items@));
            node_value(Node::Array(out))
        },
        Json::Object(members) => {
            let mut out: Vec<(String, serde_json::Value)> = Vec::new();
            let mut i: usize = 0;
            assert(members@.take(0) =~= Seq::<(String, Json)>::empty());
            while i < members.len()
                invariant
                    i <= members@.len(),
                    *value == Json::Object(*members),
                    distinct_keys(out@),
                    contents_members(out@) == members_view(members@.take(i as int)),
                decreases members@.len() - i,
            {
                assert(decreases_to!(value->Object_0 => value->Object_0@));
                assert(decreases_to!(members@ => members@[i as int]));
                assert(decreases_to!(members@[i as int] => members@[i as int].1));
                let converted = to_value(&members[i].1);
                put_member(&mut out, members[i].0.clone(), converted);
                assert(members@.take(i + 1).drop_last() =~= members@.take(i as int));
                i = i + 1;
            }
            assert(members@.take(i as int) =~= members@);
            node_value(Node::Object(out))
        },
    }
}

impl Json {
    /// Reads a JSON text; where it is none, gives the reader's message.
    pub fn parse(text: &str) -> (r: Result<Json, String>)
        ensures
            match r {
                Ok(value) => reads_as(text@, value@),
                Err(message) => json_parsed(text@) == Err::<JsonView, Seq<char>>(message@),
            },
    {
        match parse_value(text) {
            Ok(value) => Ok(from_value(value)),
            Err(message) => Err(message),
        }
    }

    /// Reads a JSON text given by its bytes.
    pub fn parse_bytes(bytes: &[u8]) -> (r: Option<Json>)
        ensures
            match r {
                Some(value) => valid_utf8(bytes@) && reads_as(decode_utf8(bytes@), value@),
                None => !valid_utf8(bytes@) || json_parsed(decode_utf8(bytes@)) is Err,
            },
    {
        match parse_value_bytes(bytes) {
            Some(value) => Some(from_value(value)),
            None => None,
        }
    }

    /// The value's compact text. It holds no control character, so it fits on
    /// one line, and a flat object is read back from it and is not much longer
    /// than its strings.
    pub fn text(&self) -> (r: String)
        ensures
            r@ == json_text(self@),
            no_control(r@),
            self@.is_flat() ==> reads_as(r@, self@),
            self@.is_flat() ==> utf8_len(r@) <= flat_bound(self@),
    {
        value_text(&to_value(self))
    }

    /// A string value.
    pub fn string(s: &str) -> (r: Json)
        ensures
            r@ == JsonView::Str(s@),
    {
        Json::Str(s.to_owned())
    }

    /// An object without members.
    pub fn object() -> (r: Json)
        ensures
            r@ == JsonView::Object(Map::empty()),
    {
        let members: Vec<(String, Json)> = Vec::new();
        Json::Object(members)
    }

    /// The object with one more member, or with that member replaced.
    pub fn with(self, key: &str, value: Json) -> (r: Json)
        requires
            self@ is Object,
        ensures
            r@ == JsonView::Object(self@->Object_0.insert(key@, value@)),
    {
        match self {
            Json::Object(members) => {
                let mut members = members;
                let ghost before = members@;
                members.push((key.to_owned(), value));
                assert(members@.drop_last() =~= before);
                Json::Object(members)
            },
            other => other,
        }
    }

    /// The member `key` of an object.
    pub fn get(&self, key: &str) -> (r: Option<&Json>)
        ensures
            match r {
                Some(value) => self@.field(key@) == Some(value@),
                None => self@.field(key@) is None,
            },
    {
        match self {
            Json::Object(members) => {
                let mut i: usize = members.len();
                assert(members@.take(i as int) =~= members@);
                while i > 0
                    invariant
                        i <= members@.len(),
                        self@ == JsonView::Object(members_view(members@)),
                        members_view(members@).contains_key(key@) == members_view(
                            members@.take(i as int),
                        ).contains_key(key@),
                        members_view(members@).contains_key(key@) ==> members_view(members@)[key@]
                            == members_view(members@.take(i as int))[key@],
                    decreases i,
                {
                    assert(members@.take(i as int).drop_last() =~= members@.take(i - 1));
                    assert(members@.take(i as int).last() == members@[i - 1]);
                    i = i - 1;
                    if same(members[i].0.as_str(), key) {
                        return Some(&members[i].1);
                    }
                }
                None
            },
            _ => None,
        }
    }

    /// The characters of a string value.
    pub fn as_str(&self) -> (r: Option<&str>)
        ensures
            match r {
                Some(s) => self@ == JsonView::Str(s@),
                None => !(self@ is Str),
            },
    {
        match self {
            Json::Str(s) => Some(s.as_str()),
            _ => None,
        }
    }

    /// The string member `key` of an object.
    pub fn get_str(&self, key: &str) -> (r: Option<&str>)
        ensures
            match r {
                Some(s) => self@.field_text(key@) == Some(s@),
                None => self@.field_text(key@) is None,
            },
    {
        match self.get(key) {
            Some(value) => value.as_str(),
            None => None,
        }
    }

    /// The items of an array value.
    pub fn as_array(&self) -> (r: Option<&Vec<Json>>)
        ensures
            match r {
                Some(items) => self@ == JsonView::Array(items_view(items@)),
                None => !(self@ is Array),
            },
    {
        match self {
            Json::Array(items) => Some(items),
            _ => None,
        }
    }

    /// An integer value that an `i64` holds.
    pub fn as_i64(&self) -> (r: Option<i64>)
        ensures
            match r {
                Some(n) => self@ == JsonView::Int(n as int),
                None => !(self@ is Int) || self@->Int_0 < i64::MIN || i64::MAX < self@->Int_0,
            },
    {
        match self {
            Json::Unsigned(n) => if *n <= i64::MAX as u64 {
                Some(*n as i64)
            } else {
                None
            },
            Json::Signed(n) => Some(*n),
            _ => None,
        }
    }

    /// An integer value that a `u64` holds.
    pub fn as_u64(&self) -> (r: Option<u64>)
        ensures
            match r {
                Some(n) => self@ == JsonView::Int(n as int),
                None => !(self@ is Int) || self@->Int_0 < 0 || u64::MAX < self@->Int_0,
            },
    {
        match self {
            Json::Unsigned(n) => Some(*n),
            Json::Signed(n) => if *n >= 0 {
                Some(*n as u64)
            } else {
                None
            },
            _ => None,
        }
    }
}

impl Clone for Json {
    fn clone(&self) -> (r: Json)
        ensures
            r@ == self@,
        decreases self,
    {
        match self {
            Json::Null => Json::Null,
            Json::Bool(b) => Json::Bool(*b),
            Json::Unsigned(n) => Json::Unsigned(*n),
            Json::Signed(n) => Json::Signed(*n),
            Json::Float(text) => Json::Float(text.clone()),
            Json::Str(s) => Json::Str(s.clone()),
            Json::Array(items) => {
                let mut out: Vec<Json> = Vec::new();
                let mut i: usize = 0;
                while i < items.len()
                    invariant
                        i <= items@.len(),
                        *self == Json::Array(*items),
                        items_view(out@) == items_view(items@).take(i as int),
                    decreases items@.len() - i,
                {
                    assert(decreases_to!(self->Array_0 => self->Array_0@));
                    assert(decreases_to!(items@ => items@[i as int]));
                    let ghost before = out@;
                    let copied = items[i].clone();
                    out.push(copied);
                    assert(items_view(out@) =~= items_view(before).push(copied@));
                    assert(items_view(items@).take(i + 1) =~= items_view(items@).take(
                        i as int,
                    ).push(items@[i as int]@));
                    i = i + 1;
                }
                assert(items_view(items@).take(i as int) =~= items_view(items@));
                Json::Array(out)
            },
            Json::Object(members) => {
                let mut out: Vec<(String, Json)> = Vec::new();
                let mut i: usize = 0;
                assert(members@.take(0) =~= Seq::<(String, Json)>::empty());
                while i < members.len()
                    invariant
                        i <= members@.len(),
                        *self == Json::Object(*members),
                        members_view(out@) == members_view(members@.take(i as int)),
                    decreases members@.len() - i,
                {
                    assert(decreases_to!(self->Object_0 => self->Object_0@));
                    assert(decreases_to!(members@ => members@[i as int]));
                    assert(decreases_to!(members@[i as int] => members@[i as int].1));
                    let ghost before = out@;
                    let copied = members[i].1.clone();
                    out.push((members[i].0.clone(), copied));
                    assert(out@.drop_last() =~= before);
                    assert(members@.take(i + 1).drop_last() =~= members@.take(i as int));
                    i = i + 1;
                }
                assert(members@.take(i as int) =~= members@);
                Json::Object(out)
            },
        }
    }
}

/// Of two members with the same key the later one counts; members with other
/// keys do not matter to each other.
pub proof fn law_later_members_count(members: Seq<(String, Json)>, m: (String, Json), key: Seq<char>)
    ensures
        members_view(members.push(m)).contains_key(m.0@),
        members_view(members.push(m))[m.0@] == json_view(m.1),
        key != m.0@ ==> (members_view(members.push(m)).contains_key(key) <==> members_view(
            members,
        ).contains_key(key)),
        key != m.0@ && members_view(members).contains_key(key) ==> members_view(members.push(m))[key]
            == members_view(members)[key],
{
    assert(members.push(m).drop_last() =~= members);
}

} // verus!
