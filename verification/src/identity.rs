use vstd::prelude::*;

use crate::json::{
    items_view, lemma_items_view, lemma_members_view, lemma_mentions_items, lemma_mentions_members,
    members_view, mentions, JsonValue, JsonView,
};
use crate::text::str_eq;

verus! {

/// The keys under which the log names a person: screen and player names, user and session
/// ids, of the local player and of the opponent.
pub open spec fn identity_keys() -> Seq<Seq<char>> {
    seq![
        "screenName"@,
        "playerName"@,
        "userId"@,
        "sessionId"@,
        "opponentScreenName"@,
        "opponentPlayerName"@,
        "opponentUserId"@,
    ]
}

/// Whether `key` names a person.
pub open spec fn is_identity_key(key: Seq<char>) -> bool {
    exists|i: int| 0 <= i < identity_keys().len() && identity_keys()[i] == key
}

/// A value with every string under an identity key emptied, at any depth.
pub open spec fn scrub(v: JsonView) -> JsonView
    decreases v,
{
    match v {
        JsonView::Array(items) => JsonView::Array(scrub_items(items)),
        JsonView::Object(members) => JsonView::Object(scrub_members(members)),
        _ => v,
    }
}

/// `scrub` of each value, in order.
pub open spec fn scrub_items(items: Seq<JsonView>) -> Seq<JsonView>
    decreases items,
{
    if items.len() == 0 {
        Seq::empty()
    } else {
        scrub_items(items.subrange(0, items.len() - 1)).push(scrub(items[items.len() - 1]))
    }
}

/// The member `(key, value)` once scrubbed: a string under an identity key is emptied.
pub open spec fn scrub_member(key: Seq<char>, value: JsonView) -> JsonView {
    if is_identity_key(key) && value is Str {
        JsonView::Str(Seq::empty())
    } else {
        scrub(value)
    }
}

/// `scrub_member` of each member, in order.
pub open spec fn scrub_members(members: Seq<(Seq<char>, JsonView)>) -> Seq<(Seq<char>, JsonView)>
    decreases members,
{
    if members.len() == 0 {
        Seq::empty()
    } else {
        let last = members[members.len() - 1];
        let value = if is_identity_key(last.0) && last.1 is Str {
            JsonView::Str(Seq::empty())
        } else {
            scrub(last.1)
        };
        scrub_members(members.subrange(0, members.len() - 1)).push((last.0, value))
    }
}

/// Whether two values are the same but for the strings under identity keys.
pub open spec fn same_but_identity(a: JsonView, b: JsonView) -> bool {
    scrub(a) == scrub(b)
}

/// Lemma: scrubbing a sequence of values scrubs each of them.
pub proof fn lemma_scrub_items(items: Seq<JsonView>)
    ensures
        scrub_items(items).len() == items.len(),
        forall|i: int| 0 <= i < items.len() ==> #[trigger] scrub_items(items)[i] == scrub(items[i]),
    decreases items.len(),
{
    if items.len() > 0 {
        lemma_scrub_items(items.subrange(0, items.len() - 1));
    }
}

/// Lemma: scrubbing a sequence of members scrubs each of them and keeps the keys.
pub proof fn lemma_scrub_members(members: Seq<(Seq<char>, JsonView)>)
    ensures
        scrub_members(members).len() == members.len(),
        forall|i: int|
            0 <= i < members.len() ==> #[trigger] scrub_members(members)[i] == (
                members[i].0,
                scrub_member(members[i].0, members[i].1),
            ),
    decreases members.len(),
{
    if members.len() > 0 {
        lemma_scrub_members(members.subrange(0, members.len() - 1));
    }
}

/// Lemma: scrubbing brings no new non-empty string into a value.
pub proof fn lemma_scrub_keeps_unmentioned(v: JsonView, t: Seq<char>)
    requires
        t.len() > 0,
        !mentions(v, t),
    ensures
        !mentions(scrub(v), t),
    decreases v,
{
    match v {
        JsonView::Array(items) => {
            lemma_mentions_items(items, t);
            lemma_scrub_items(items);
            let out = scrub_items(items);
            assert forall|i: int| 0 <= i < out.len() implies !mentions(#[trigger] out[i], t) by {
                assert(!mentions(items[i], t));
                lemma_scrub_keeps_unmentioned(items[i], t);
            }
            lemma_mentions_items(out, t);
        },
        JsonView::Object(members) => {
            lemma_mentions_members(members, t);
            lemma_scrub_members(members);
            let out = scrub_members(members);
            assert forall|i: int| 0 <= i < out.len() implies !mentions(#[trigger] out[i].1, t) by {
                assert(!mentions(members[i].1, t));
                if !(is_identity_key(members[i].0) && members[i].1 is Str) {
                    lemma_scrub_keeps_unmentioned(members[i].1, t);
                }
            }
            lemma_mentions_members(out, t);
        },
        _ => {},
    }
}

/// Whether `key` names a person.
fn is_identity_key_exec(key: &str) -> (r: bool)
    ensures
        r == is_identity_key(key@),
{
    let keys = vec![
        "screenName",
        "playerName",
        "userId",
        "sessionId",
        "opponentScreenName",
        "opponentPlayerName",
        "opponentUserId",
    ];
    assert(keys@.len() == identity_keys().len());
    let mut i: usize = 0;
    while i < keys.len()
        invariant
            i <= keys.len(),
            keys@.len() == identity_keys().len(),
            forall|j: int| 0 <= j < keys@.len() ==> #[trigger] keys@[j]@ == identity_keys()[j],
            forall|j: int| 0 <= j < i ==> identity_keys()[j] != key@,
        decreases keys.len() - i,
    {
        if str_eq(keys[i], key) {
            assert(identity_keys()[i as int] == key@);
            return true;
        }
        i = i + 1;
    }
    false
}

/// A copy of `v` with every string under an identity key emptied, at any depth: what is
/// left of a log value once nobody can be told from it.
pub fn strip_identity(v: &JsonValue) -> (r: JsonValue)
    ensures
        r@ == scrub(v@),
    decreases v,
{
    match v {
        JsonValue::Null => JsonValue::Null,
        JsonValue::Bool(b) => JsonValue::Bool(*b),
        JsonValue::Number(n) => JsonValue::Number(*n),
        JsonValue::Str(s) => JsonValue::Str(s.clone()),
        JsonValue::Array(items) => {
            proof {
                lemma_items_view(items@);
                lemma_scrub_items(items_view(items@));
            }
            let mut out: Vec<JsonValue> = Vec::new();
            let mut i: usize = 0;
            while i < items.len()
                invariant
                    i <= items.len(),
                    out@.len() == i,
                    items_view(items@).len() == items@.len(),
                    forall|j: int| 0 <= j < items@.len() ==> #[trigger] items_view(items@)[j] == items@[j].jview(),
                    forall|j: int| 0 <= j < i ==> (#[trigger] out@[j]).jview() == scrub(items@[j].jview()),
                    *v == JsonValue::Array(*items),
                decreases items.len() - i,
            {
                proof {
                    assert(decreases_to!(*v => (*v)->Array_0));
                    assert((*v)->Array_0 == *items);
                    assert(decreases_to!(*items => items@));
                    assert(decreases_to!(items@ => items@[i as int]));
                }
                let x = strip_identity(&items[i]);
                out.push(x);
                i = i + 1;
            }
            proof {
                lemma_items_view(out@);
                assert(items_view(out@) =~= scrub_items(items_view(items@)));
            }
            JsonValue::Array(out)
        },
        JsonValue::Object(members) => {
            proof {
                lemma_members_view(members@);
                lemma_scrub_members(members_view(members@));
            }
            let mut out: Vec<(String, JsonValue)> = Vec::new();
            let mut i: usize = 0;
            while i < members.len()
                invariant
                    i <= members.len(),
                    out@.len() == i,
                    members_view(members@).len() == members@.len(),
                    forall|j: int|
                        0 <= j < members@.len() ==> #[trigger] members_view(members@)[j] == (
                            members@[j].0@,
                            members@[j].1.jview(),
                        ),
                    forall|j: int|
                        0 <= j < i ==> (#[trigger] out@[j]).0@ == members@[j].0@ && out@[j].1.jview()
                            == scrub_member(members@[j].0@, members@[j].1.jview()),
                    *v == JsonValue::Object(*members),
                decreases members.len() - i,
            {
                proof {
                    assert(decreases_to!(*v => (*v)->Object_0));
                    assert((*v)->Object_0 == *members);
                    assert(decreases_to!(*members => members@));
                    assert(decreases_to!(members@ => members@[i as int]));
                    assert(decreases_to!(members@[i as int] => members@[i as int].1));
                }
                let key = members[i].0.clone();
                let value = if is_identity_key_exec(key.as_str()) && members[i].1.as_str().is_some() {
                    JsonValue::Str(String::new())
                } else {
                    strip_identity(&members[i].1)
                };
                out.push((key, value));
                i = i + 1;
            }
            proof {
                lemma_members_view(out@);
                assert(members_view(out@) =~= scrub_members(members_view(members@)));
            }
            JsonValue::Object(out)
        },
    }
}

} // verus!
