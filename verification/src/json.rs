use vstd::prelude::*;

use crate::text::str_eq;

verus! {

/// A JSON number as `serde_json` keeps it: a non-negative integer, a negative integer,
/// or a float (whose value nothing in this library reads).
#[derive(Debug, Clone, Copy, PartialEq, Eq)]
pub enum JsonNumber {
    PosInt(u64),
    NegInt(i64),
    Float,
}

/// A JSON value as `serde_json::Value` holds it. Object members keep the order in which
/// `serde_json::Map` yields them (sorted keys, each key once).
#[derive(Debug)]
pub enum JsonValue {
    Null,
    Bool(bool),
    Number(JsonNumber),
    Str(String),
    Array(Vec<JsonValue>),
    Object(Vec<(String, JsonValue)>),
}

/// The mathematical model of a JSON value.
pub enum JsonView {
    Null,
    Bool(bool),
    Number(JsonNumber),
    Str(Seq<char>),
    Array(Seq<JsonView>),
    Object(Seq<(Seq<char>, JsonView)>),
}

impl JsonValue {
    /// The model of this value.
    pub open spec fn jview(&self) -> JsonView
        decreases self,
    {
        match self {
            JsonValue::Null => JsonView::Null,
            JsonValue::Bool(b) => JsonView::Bool(*b),
            JsonValue::Number(n) => JsonView::Number(*n),
            JsonValue::Str(s) => JsonView::Str(s@),
            JsonValue::Array(items) => JsonView::Array(items_view(items@)),
            JsonValue::Object(members) => JsonView::Object(members_view(members@)),
        }
    }
}

/// The models of a sequence of values.
pub open spec fn items_view(items: Seq<JsonValue>) -> Seq<JsonView>
    decreases items,
{
    if items.len() == 0 {
        Seq::empty()
    } else {
        items_view(items.subrange(0, items.len() - 1)).push(items[items.len() - 1].jview())
    }
}

/// The models of a sequence of object members.
pub open spec fn members_view(members: Seq<(String, JsonValue)>) -> Seq<(Seq<char>, JsonView)>
    decreases members,
{
    if members.len() == 0 {
        Seq::empty()
    } else {
        let last = members[members.len() - 1];
        members_view(members.subrange(0, members.len() - 1)).push((last.0@, last.1.jview()))
    }
}

/// Lemma: the model of a sequence of values is the sequence of their models.
pub proof fn lemma_items_view(items: Seq<JsonValue>)
    ensures
        items_view(items).len() == items.len(),
        forall|i: int| 0 <= i < items.len() ==> #[trigger] items_view(items)[i] == items[i].jview(),
    decreases items.len(),
{
    if items.len() > 0 {
        lemma_items_view(items.subrange(0, items.len() - 1));
    }
}

/// Lemma: the model of a sequence of members is the sequence of their models.
pub proof fn lemma_members_view(members: Seq<(String, JsonValue)>)
    ensures
        members_view(members).len() == members.len(),
        forall|i: int|
            0 <= i < members.len() ==> #[trigger] members_view(members)[i] == (
                members[i].0@,
                members[i].1.jview(),
            ),
    decreases members.len(),
{
    if members.len() > 0 {
        lemma_members_view(members.subrange(0, members.len() - 1));
    }
}

/// Whether the string `t` occurs as a string value anywhere in `v`.
pub open spec fn mentions(v: JsonView, t: Seq<char>) -> bool
    decreases v,
{
    match v {
        JsonView::Str(s) => s == t,
        JsonView::Array(items) => mentions_items(items, t),
        JsonView::Object(members) => mentions_members(members, t),
        _ => false,
    }
}

/// Whether `t` occurs in one of `items`.
pub open spec fn mentions_items(items: Seq<JsonView>, t: Seq<char>) -> bool
    decreases items,
{
    if items.len() == 0 {
        false
    } else {
        mentions_items(items.subrange(0, items.len() - 1), t) || mentions(items[items.len() - 1], t)
    }
}

/// Whether `t` occurs in the value of one of `members`.
pub open spec fn mentions_members(members: Seq<(Seq<char>, JsonView)>, t: Seq<char>) -> bool
    decreases members,
{
    if members.len() == 0 {
        false
    } else {
        mentions_members(members.subrange(0, members.len() - 1), t) || mentions(
            members[members.len() - 1].1,
            t,
        )
    }
}

/// Lemma: `t` occurs in the items exactly when it occurs in one of them.
pub proof fn lemma_mentions_items(items: Seq<JsonView>, t: Seq<char>)
    ensures
        mentions_items(items, t) <==> exists|i: int| 0 <= i < items.len() && #[trigger] mentions(items[i], t),
    decreases items.len(),
{
    if items.len() > 0 {
        let init = items.subrange(0, items.len() - 1);
        lemma_mentions_items(init, t);
        assert(mentions_items(items, t) == (mentions_items(init, t) || mentions(
            items[items.len() - 1],
            t,
        )));
        if mentions_items(init, t) {
            let i = choose|i: int| 0 <= i < init.len() && #[trigger] mentions(init[i], t);
            assert(items[i] == init[i]);
            assert(mentions(items[i], t));
        }
        if mentions(items[items.len() - 1], t) {
            assert(mentions(items[items.len() - 1], t));
        }
        if exists|i: int| 0 <= i < items.len() && #[trigger] mentions(items[i], t) {
            let i = choose|i: int| 0 <= i < items.len() && #[trigger] mentions(items[i], t);
            if i < items.len() - 1 {
                assert(init[i] == items[i]);
                assert(mentions(init[i], t));
            }
        }
    }
}

/// Lemma: `t` occurs in the members exactly when it occurs in the value of one of them.
pub proof fn lemma_mentions_members(members: Seq<(Seq<char>, JsonView)>, t: Seq<char>)
    ensures
        mentions_members(members, t) <==> exists|i: int|
            0 <= i < members.len() && #[trigger] mentions(members[i].1, t),
    decreases members.len(),
{
    if members.len() > 0 {
        let init = members.subrange(0, members.len() - 1);
        lemma_mentions_members(init, t);
        assert(mentions_members(members, t) == (mentions_members(init, t) || mentions(
            members[members.len() - 1].1,
            t,
        )));
        if mentions_members(init, t) {
            let i = choose|i: int| 0 <= i < init.len() && #[trigger] mentions(init[i].1, t);
            assert(members[i] == init[i]);
            assert(mentions(members[i].1, t));
        }
        if mentions(members[members.len() - 1].1, t) {
            assert(mentions(members[members.len() - 1].1, t));
        }
        if exists|i: int| 0 <= i < members.len() && #[trigger] mentions(members[i].1, t) {
            let i = choose|i: int| 0 <= i < members.len() && #[trigger] mentions(members[i].1, t);
            if i < members.len() - 1 {
                assert(init[i] == members[i]);
                assert(mentions(init[i].1, t));
            }
        }
    }
}

/// Lemma: a member found by key is one of the members.
proof fn lemma_lookup_from_member(members: Seq<(Seq<char>, JsonView)>, key: Seq<char>, i: int) -> (j: int)
    requires
        lookup_from(members, key, i) is Some,
    ensures
        0 <= j < members.len(),
        lookup_from(members, key, i) == Some(members[j].1),
    decreases members.len() - i,
{
    if members[i].0 == key {
        i
    } else {
        lemma_lookup_from_member(members, key, i + 1)
    }
}

/// Lemma: what a value does not mention, its members do not mention, nor is it a string
/// member.
pub proof fn lemma_get_keeps_unmentioned(v: JsonView, key: Seq<char>, t: Seq<char>)
    requires
        !mentions(v, t),
    ensures
        v.get(key) matches Some(u) ==> !mentions(u, t),
        v.str_at(key) != Some(t),
        v.array_at(key) matches Some(items) ==> forall|i: int|
            0 <= i < items.len() ==> !mentions(#[trigger] items[i], t),
{
    if let JsonView::Object(members) = v {
        if lookup_from(members, key, 0) is Some {
            let j = lemma_lookup_from_member(members, key, 0);
            lemma_mentions_members(members, t);
            assert(!mentions(members[j].1, t));
            if let JsonView::Array(items) = members[j].1 {
                lemma_mentions_items(items, t);
            }
        }
    }
}

impl View for JsonValue {
    type V = JsonView;

    open spec fn view(&self) -> JsonView {
        self.jview()
    }
}

/// The model of an optional reference to a value.
pub open spec fn opt_view(r: Option<&JsonValue>) -> Option<JsonView> {
    match r {
        Some(v) => Some(v@),
        None => None,
    }
}

/// The first member at or after `i` whose key is `key`.
pub open spec fn lookup_from(members: Seq<(Seq<char>, JsonView)>, key: Seq<char>, i: int) -> Option<
    JsonView,
>
    decreases members.len() - i,
{
    if i < 0 || i >= members.len() {
        None
    } else if members[i].0 == key {
        Some(members[i].1)
    } else {
        lookup_from(members, key, i + 1)
    }
}

impl JsonView {
    /// `Value::get` with a string key: the member of an object, `None` for anything else.
    pub open spec fn get(self, key: Seq<char>) -> Option<JsonView> {
        match self {
            JsonView::Object(members) => lookup_from(members, key, 0),
            _ => None,
        }
    }

    /// `Value::as_str`.
    pub open spec fn as_str(self) -> Option<Seq<char>> {
        match self {
            JsonView::Str(s) => Some(s),
            _ => None,
        }
    }

    /// `Value::as_array`.
    pub open spec fn as_array(self) -> Option<Seq<JsonView>> {
        match self {
            JsonView::Array(items) => Some(items),
            _ => None,
        }
    }

    /// `Value::as_bool`.
    pub open spec fn as_bool(self) -> Option<bool> {
        match self {
            JsonView::Bool(b) => Some(b),
            _ => None,
        }
    }

    /// `Value::as_u64`.
    pub open spec fn as_u64(self) -> Option<u64> {
        match self {
            JsonView::Number(JsonNumber::PosInt(n)) => Some(n),
            _ => None,
        }
    }

    /// `Value::as_i64`.
    pub open spec fn as_i64(self) -> Option<i64> {
        match self {
            JsonView::Number(JsonNumber::PosInt(n)) => if n <= i64::MAX as u64 {
                Some(n as i64)
            } else {
                None
            },
            JsonView::Number(JsonNumber::NegInt(n)) => Some(n),
            _ => None,
        }
    }

    /// The member `key` of an object, read as a string.
    pub open spec fn str_at(self, key: Seq<char>) -> Option<Seq<char>> {
        match self.get(key) {
            Some(v) => v.as_str(),
            None => None,
        }
    }

    /// The member `key` of an object, read as an array.
    pub open spec fn array_at(self, key: Seq<char>) -> Option<Seq<JsonView>> {
        match self.get(key) {
            Some(v) => v.as_array(),
            None => None,
        }
    }
}

impl JsonValue {
    /// `Value::get` with a string key.
    pub fn get(&self, key: &str) -> (r: Option<&JsonValue>)
        ensures
            opt_view(r) == self@.get(key@),
    {
        match self {
            JsonValue::Object(members) => {
                proof {
                    lemma_members_view(members@);
                }
                let mut i: usize = 0;
                while i < members.len()
                    invariant
                        i <= members.len(),
                        self@ == JsonView::Object(members_view(members@)),
                        members_view(members@).len() == members@.len(),
                        forall|j: int|
                            0 <= j < members@.len() ==> #[trigger] members_view(members@)[j] == (
                                members@[j].0@,
                                members@[j].1.jview(),
                            ),
                        lookup_from(members_view(members@), key@, i as int) == lookup_from(
                            members_view(members@),
                            key@,
                            0,
                        ),
                    decreases members.len() - i,
                {
                    if str_eq(members[i].0.as_str(), key) {
                        return Some(&members[i].1);
                    }
                    i = i + 1;
                }
                None
            },
            _ => None,
        }
    }

    /// `Value::as_str`.
    pub fn as_str(&self) -> (r: Option<&str>)
        ensures
            match r {
                Some(s) => self@.as_str() == Some(s@),
                None => self@.as_str() is None,
            },
    {
        match self {
            JsonValue::Str(s) => Some(s.as_str()),
            _ => None,
        }
    }

    /// `Value::as_array`.
    pub fn as_array(&self) -> (r: Option<&Vec<JsonValue>>)
        ensures
            match r {
                Some(items) => self@.as_array() == Some(items_view(items@)),
                None => self@.as_array() is None,
            },
    {
        match self {
            JsonValue::Array(items) => Some(items),
            _ => None,
        }
    }

    /// `Value::as_bool`.
    pub fn as_bool(&self) -> (r: Option<bool>)
        ensures
            r == self@.as_bool(),
    {
        match self {
            JsonValue::Bool(b) => Some(*b),
            _ => None,
        }
    }

    /// `Value::as_u64`.
    pub fn as_u64(&self) -> (r: Option<u64>)
        ensures
            r == self@.as_u64(),
    {
        match self {
            JsonValue::Number(JsonNumber::PosInt(n)) => Some(*n),
            _ => None,
        }
    }

    /// `Value::as_i64`.
    pub fn as_i64(&self) -> (r: Option<i64>)
        ensures
            r == self@.as_i64(),
    {
        match self {
            JsonValue::Number(JsonNumber::PosInt(n)) => {
                if *n <= 0x7fff_ffff_ffff_ffffu64 {
                    Some(*n as i64)
                } else {
                    None
                }
            },
            JsonValue::Number(JsonNumber::NegInt(n)) => Some(*n),
            _ => None,
        }
    }

    /// The member `key` of an object, read as a string.
    pub fn str_at(&self, key: &str) -> (r: Option<&str>)
        ensures
            match r {
                Some(s) => self@.str_at(key@) == Some(s@),
                None => self@.str_at(key@) is None,
            },
    {
        match self.get(key) {
            Some(v) => v.as_str(),
            None => None,
        }
    }

    /// The member `key` of an object, read as an array.
    pub fn array_at(&self, key: &str) -> (r: Option<&Vec<JsonValue>>)
        ensures
            match r {
                Some(items) => self@.array_at(key@) == Some(items_view(items@)),
                None => self@.array_at(key@) is None,
            },
    {
        match self.get(key) {
            Some(v) => v.as_array(),
            None => None,
        }
    }
}

// ---------------------------------------------------------------------------
// Parsing with serde_json
// ---------------------------------------------------------------------------

#[verifier::external_type_specification]
#[verifier::external_body]
pub struct ExSerdeValue(serde_json::Value);

/// What `serde_json::from_str::<serde_json::Value>` gives for `text`: the value when the
/// whole text is one JSON document, `None` when serde_json reports an error.
pub uninterp spec fn parsed_json(text: Seq<char>) -> Option<JsonView>;

/// Parses one JSON document.
/// Calls `serde_json::from_str::<serde_json::Value>`; the contract claims only that the
/// outcome is a function of the text, named `parsed_json`.
#[verifier::external_body]
pub(crate) fn parse_json(text: &str) -> (r: Option<JsonValue>)
    ensures
        match r {
            Some(v) => parsed_json(text@) == Some(v@),
            None => parsed_json(text@) is None,
        },
{
    match serde_json::from_str::<serde_json::Value>(text) {
        Ok(value) => Some(json_from_serde(value)),
        Err(_) => None,
    }
}

/// Moves a `serde_json::Value` into the library's own `JsonValue`, variant for variant.
/// `serde_json::Number` is told apart by `as_u64` / `as_i64` (its private variants
/// `PosInt`, `NegInt`, `Float`); object members come in `serde_json::Map` order.
/// Nothing is claimed of the result beyond what `parse_json` states.
#[verifier::external_body]
fn json_from_serde(value: serde_json::Value) -> JsonValue {
    match value {
        serde_json::Value::Null => JsonValue::Null,
        serde_json::Value::Bool(b) => JsonValue::Bool(b),
        serde_json::Value::Number(n) => JsonValue::Number(match (n.as_u64(), n.as_i64()) {
            (Some(u), _) => JsonNumber::PosInt(u),
            (None, Some(i)) => JsonNumber::NegInt(i),
            (None, None) => JsonNumber::Float,
        }),
        serde_json::Value::String(s) => JsonValue::Str(s),
        serde_json::Value::Array(items) => JsonValue::Array(items.into_iter().map(json_from_serde).collect()),
        serde_json::Value::Object(map) => JsonValue::Object(map.into_iter().map(|(k, v)| (k, json_from_serde(v))).collect()),
    }
}

} // verus!
