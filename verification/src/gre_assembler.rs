use vstd::prelude::*;

use crate::json::{
    items_view, lemma_get_keeps_unmentioned, lemma_items_view, lemma_mentions_items, mentions, opt_view,
    JsonValue, JsonView,
};
use crate::log_follower::{extract_json_values, values_from, LogEntry, LogEntryView};
use crate::identity::{lemma_scrub_keeps_unmentioned, same_but_identity, scrub, strip_identity};
use crate::match_payload::{
    capped, copy_legal, copy_opt_str, copy_timeline, copy_u32s, format_of, legal_view, opt_str_view,
    timeline_view, Actor, DecisionContext, DecisionContextView, EventKind, LegalAction,
    LegalActionView, Match, MatchResult, MatchView, TimelineEvent, TimelineEventView,
};
use crate::text::{
    chars_of, contains_seq, decimal_int, lower_chars, lower_seq, parse_i32, parse_i32_spec,
    parse_u32, parse_u32_spec, push_char, push_decimal, starts_with_chars, starts_with_seq,
    str_contains, str_eq,
};

verus! {

/// Visibility of a card that the local player cannot see.
pub const VISIBILITY_HIDDEN: &'static str = "Visibility_Hidden";

/// Game stage of a finished game.
pub const GAME_STAGE_OVER: &'static str = "GameStage_GameOver";

/// Match state once the whole match is over.
pub const MATCH_STATE_COMPLETE: &'static str = "MatchState_MatchComplete";

/// Match state once one game of the match is over.
pub const MATCH_STATE_GAME_COMPLETE: &'static str = "MatchState_GameComplete";

/// At most this many cards or actions go into a decision context.
pub const MAX_CONTEXT_CARDS: usize = 16;

// ---------------------------------------------------------------------------
// Reading JSON fields
// ---------------------------------------------------------------------------

/// A JSON value read as a `u32`: a non-negative integer, else an integer, truncated; else a
/// string that parses as one.
pub open spec fn json_u32_spec(v: JsonView) -> Option<u32> {
    match v.as_u64() {
        Some(n) => Some(n as u32),
        None => match v.as_i64() {
            Some(n) => Some(n as u32),
            None => match v.as_str() {
                Some(s) => parse_u32_spec(s),
                None => None,
            },
        },
    }
}

/// A JSON value read as an `i32`: an integer, truncated; else a string that parses as one.
pub open spec fn json_i32_spec(v: JsonView) -> Option<i32> {
    match v.as_i64() {
        Some(n) => Some(n as i32),
        None => match v.as_u64() {
            Some(n) => Some(n as i32),
            None => match v.as_str() {
                Some(s) => parse_i32_spec(s),
                None => None,
            },
        },
    }
}

/// An optional JSON value read as a `u32`.
pub open spec fn opt_u32(v: Option<JsonView>) -> Option<u32> {
    match v {
        Some(x) => json_u32_spec(x),
        None => None,
    }
}

/// The member `key` of an optional object.
pub open spec fn opt_get(v: Option<JsonView>, key: Seq<char>) -> Option<JsonView> {
    match v {
        Some(x) => x.get(key),
        None => None,
    }
}

/// The first of two members that is a string.
pub open spec fn str_field(v: JsonView, k1: Seq<char>, k2: Seq<char>) -> Option<Seq<char>> {
    match v.str_at(k1) {
        Some(s) => Some(s),
        None => v.str_at(k2),
    }
}

/// Reads a JSON value as a `u32` (see `json_u32_spec`).
pub fn json_u32(v: &JsonValue) -> (r: Option<u32>)
    ensures
        r == json_u32_spec(v@),
{
    match v.as_u64() {
        Some(n) => Some(n as u32),
        None => match v.as_i64() {
            Some(n) => Some(n as u32),
            None => match v.as_str() {
                Some(s) => parse_u32(s),
                None => None,
            },
        },
    }
}

/// Reads a JSON value as an `i32` (see `json_i32_spec`).
pub fn json_i32(v: &JsonValue) -> (r: Option<i32>)
    ensures
        r == json_i32_spec(v@),
{
    match v.as_i64() {
        Some(n) => Some(n as i32),
        None => match v.as_u64() {
            Some(n) => Some(n as i32),
            None => match v.as_str() {
                Some(s) => parse_i32(s),
                None => None,
            },
        },
    }
}

/// Reads the member `key` of an object as a `u32`.
pub fn u32_at(v: &JsonValue, key: &str) -> (r: Option<u32>)
    ensures
        r == opt_u32(v@.get(key@)),
{
    match v.get(key) {
        Some(x) => json_u32(x),
        None => None,
    }
}

/// The first of two members that is a string, copied.
pub fn string_field(v: &JsonValue, k1: &str, k2: &str) -> (r: Option<String>)
    ensures
        opt_str_view(r) == str_field(v@, k1@, k2@),
{
    match v.str_at(k1) {
        Some(s) => Some(s.to_owned()),
        None => match v.str_at(k2) {
            Some(s) => Some(s.to_owned()),
            None => None,
        },
    }
}

/// A message addressed to exactly one seat names that seat.
pub open spec fn singleton_seat_spec(message: JsonView) -> Option<u32> {
    match message.array_at("systemSeatIds"@) {
        Some(seats) => if seats.len() == 1 {
            json_u32_spec(seats[0])
        } else {
            None
        },
        None => None,
    }
}

/// The seat a message is addressed to, when it is addressed to exactly one.
pub fn singleton_seat(message: &JsonValue) -> (r: Option<u32>)
    ensures
        r == singleton_seat_spec(message@),
{
    match message.array_at("systemSeatIds") {
        Some(seats) => {
            proof {
                lemma_items_view(seats@);
            }
            if seats.len() == 1 {
                json_u32(&seats[0])
            } else {
                None
            }
        },
        None => None,
    }
}

/// The first result from index `i` on that names a winning team.
pub open spec fn winner_from(results: Seq<JsonView>, i: int) -> Option<u32>
    decreases results.len() - i,
{
    if i < 0 || i >= results.len() {
        None
    } else {
        match opt_u32(results[i].get("winningTeamId"@)) {
            Some(w) => Some(w),
            None => winner_from(results, i + 1),
        }
    }
}

/// The local player's result from a finished game's info: a win when the winning team is the
/// player's seat, a loss when it is another, unknown otherwise.
pub open spec fn result_from_info_spec(info: JsonView, seat: Option<u32>) -> MatchResult {
    match info.array_at("results"@) {
        Some(results) => match (winner_from(results, 0), seat) {
            (Some(w), Some(s)) => if w == s {
                MatchResult::Win
            } else {
                MatchResult::Loss
            },
            _ => MatchResult::Unknown,
        },
        None => MatchResult::Unknown,
    }
}

/// The first result that names a winning team.
fn first_winner(results: &Vec<JsonValue>) -> (r: Option<u32>)
    ensures
        r == winner_from(items_view(results@), 0),
{
    proof {
        lemma_items_view(results@);
    }
    let ghost rv = items_view(results@);
    let mut i: usize = 0;
    while i < results.len()
        invariant
            i <= results.len(),
            rv == items_view(results@),
            rv.len() == results@.len(),
            forall|j: int| 0 <= j < results@.len() ==> #[trigger] rv[j] == results@[j]@,
            winner_from(rv, i as int) == winner_from(rv, 0),
        decreases results.len() - i,
    {
        let w = u32_at(&results[i], "winningTeamId");
        if w.is_some() {
            return w;
        }
        i = i + 1;
    }
    None
}

/// The local player's result from a finished game's info (see `result_from_info_spec`).
pub fn result_from_info(info: &JsonValue, seat: Option<u32>) -> (r: MatchResult)
    ensures
        r == result_from_info_spec(info@, seat),
{
    let results = match info.array_at("results") {
        Some(results) => results,
        None => return MatchResult::Unknown,
    };
    let winning = first_winner(results);
    match (winning, seat) {
        (Some(w), Some(s)) => if w == s {
            MatchResult::Win
        } else {
            MatchResult::Loss
        },
        _ => MatchResult::Unknown,
    }
}


/// The first reserved player from index `i` on that names an event.
pub open spec fn event_id_in_players_from(players: Seq<JsonView>, i: int) -> Option<Seq<char>>
    decreases players.len() - i,
{
    if i < 0 || i >= players.len() {
        None
    } else {
        match str_field(players[i], "eventId"@, "eventID"@) {
            Some(e) => Some(e),
            None => event_id_in_players_from(players, i + 1),
        }
    }
}

/// The event id that the reserved players of a room config name.
pub open spec fn event_id_from_players_spec(config: JsonView) -> Option<Seq<char>> {
    match config.array_at("reservedPlayers"@) {
        Some(players) => event_id_in_players_from(players, 0),
        None => None,
    }
}

/// The event id that the reserved players of a room config name.
pub fn event_id_from_players(config: &JsonValue) -> (r: Option<String>)
    ensures
        opt_str_view(r) == event_id_from_players_spec(config@),
{
    let players = match config.array_at("reservedPlayers") {
        Some(p) => p,
        None => return None,
    };
    proof {
        lemma_items_view(players@);
    }
    let ghost pv = items_view(players@);
    let mut i: usize = 0;
    while i < players.len()
        invariant
            i <= players.len(),
            pv == items_view(players@),
            config@.array_at("reservedPlayers"@) == Some(pv),
            pv.len() == players@.len(),
            forall|j: int| 0 <= j < players@.len() ==> #[trigger] pv[j] == players@[j]@,
            event_id_in_players_from(pv, i as int) == event_id_in_players_from(pv, 0),
        decreases players.len() - i,
    {
        let e = string_field(&players[i], "eventId", "eventID");
        assert(pv[i as int] == players@[i as int]@);
        if e.is_some() {
            return e;
        }
        i = i + 1;
    }
    None
}

/// The first string value from index `i` on of an annotation detail named `key`.
pub open spec fn detail_string_from(details: Seq<JsonView>, key: Seq<char>, i: int) -> Option<
    Seq<char>,
>
    decreases details.len() - i,
{
    if i < 0 || i >= details.len() {
        None
    } else {
        let d = details[i];
        let found = if d.str_at("key"@) == Some(key) {
            match d.array_at("valueString"@) {
                Some(values) => if values.len() > 0 {
                    values[0].as_str()
                } else {
                    None
                },
                None => None,
            }
        } else {
            None
        };
        match found {
            Some(s) => Some(s),
            None => detail_string_from(details, key, i + 1),
        }
    }
}

/// The first integer value from index `i` on of an annotation detail named `key`.
pub open spec fn detail_int_from(details: Seq<JsonView>, key: Seq<char>, i: int) -> Option<i64>
    decreases details.len() - i,
{
    if i < 0 || i >= details.len() {
        None
    } else {
        let d = details[i];
        let found = if d.str_at("key"@) == Some(key) {
            match d.array_at("valueInt32"@) {
                Some(values) => if values.len() > 0 {
                    values[0].as_i64()
                } else {
                    None
                },
                None => None,
            }
        } else {
            None
        };
        match found {
            Some(n) => Some(n),
            None => detail_int_from(details, key, i + 1),
        }
    }
}

/// The string value of a single detail, when it is named `key`.
fn detail_string_one(d: &JsonValue, key: &str) -> (r: Option<String>)
    ensures
        opt_str_view(r) == (if d@.str_at("key"@) == Some(key@) {
            match d@.array_at("valueString"@) {
                Some(values) => if values.len() > 0 {
                    values[0].as_str()
                } else {
                    None
                },
                None => None,
            }
        } else {
            None
        }),
{
    let name = d.str_at("key");
    let named = match name {
        Some(n) => str_eq(n, key),
        None => false,
    };
    if !named {
        return None;
    }
    match d.array_at("valueString") {
        Some(values) => {
            proof {
                lemma_items_view(values@);
            }
            if values.len() > 0 {
                match values[0].as_str() {
                    Some(s) => Some(s.to_owned()),
                    None => None,
                }
            } else {
                None
            }
        },
        None => None,
    }
}

/// The integer value of a single detail, when it is named `key`.
fn detail_int_one(d: &JsonValue, key: &str) -> (r: Option<i64>)
    ensures
        r == (if d@.str_at("key"@) == Some(key@) {
            match d@.array_at("valueInt32"@) {
                Some(values) => if values.len() > 0 {
                    values[0].as_i64()
                } else {
                    None
                },
                None => None,
            }
        } else {
            None
        }),
{
    let name = d.str_at("key");
    let named = match name {
        Some(n) => str_eq(n, key),
        None => false,
    };
    if !named {
        return None;
    }
    match d.array_at("valueInt32") {
        Some(values) => {
            proof {
                lemma_items_view(values@);
            }
            if values.len() > 0 {
                values[0].as_i64()
            } else {
                None
            }
        },
        None => None,
    }
}

/// The string value of the annotation detail named `key`.
pub fn detail_string(details: &Vec<JsonValue>, key: &str) -> (r: Option<String>)
    ensures
        opt_str_view(r) == detail_string_from(items_view(details@), key@, 0),
{
    proof {
        lemma_items_view(details@);
    }
    let ghost dv = items_view(details@);
    let mut i: usize = 0;
    while i < details.len()
        invariant
            i <= details.len(),
            dv == items_view(details@),
            dv.len() == details@.len(),
            forall|j: int| 0 <= j < details@.len() ==> #[trigger] dv[j] == details@[j]@,
            detail_string_from(dv, key@, i as int) == detail_string_from(dv, key@, 0),
        decreases details.len() - i,
    {
        let found = detail_string_one(&details[i], key);
        if found.is_some() {
            return found;
        }
        i = i + 1;
    }
    None
}

/// The integer value of the annotation detail named `key`.
pub fn detail_int(details: &Vec<JsonValue>, key: &str) -> (r: Option<i64>)
    ensures
        r == detail_int_from(items_view(details@), key@, 0),
{
    proof {
        lemma_items_view(details@);
    }
    let ghost dv = items_view(details@);
    let mut i: usize = 0;
    while i < details.len()
        invariant
            i <= details.len(),
            dv == items_view(details@),
            dv.len() == details@.len(),
            forall|j: int| 0 <= j < details@.len() ==> #[trigger] dv[j] == details@[j]@,
            detail_int_from(dv, key@, i as int) == detail_int_from(dv, key@, 0),
        decreases details.len() - i,
    {
        let found = detail_int_one(&details[i], key);
        if found.is_some() {
            return found;
        }
        i = i + 1;
    }
    None
}

/// An offered action: its type without the `ActionType_` prefix, lower-cased, and the card it
/// names (none for a pass).
pub open spec fn legal_action_spec(action: JsonView) -> Option<LegalActionView> {
    match action.str_at("actionType"@) {
        Some(raw) => {
            let stripped = if starts_with_seq(raw, "ActionType_"@) {
                raw.skip(11)
            } else {
                raw
            };
            let name = lower_seq(stripped);
            Some(
                LegalActionView {
                    action: name,
                    grp_id: if name == "pass"@ {
                        None
                    } else {
                        opt_u32(action.get("grpId"@))
                    },
                },
            )
        },
        None => None,
    }
}

/// An offered action (see `legal_action_spec`).
pub fn legal_action_from(action: &JsonValue) -> (r: Option<LegalAction>)
    ensures
        match r {
            Some(a) => legal_action_spec(action@) == Some(a@),
            None => legal_action_spec(action@) is None,
        },
{
    let raw = match action.str_at("actionType") {
        Some(raw) => raw,
        None => return None,
    };
    let raw_chars = chars_of(raw);
    let prefix = chars_of("ActionType_");
    proof {
        reveal_strlit("ActionType_");
    }
    let lowered = if starts_with_chars(&raw_chars, &prefix) {
        let rest = crate::log_follower::copy_range(&raw_chars, 11, raw_chars.len());
        assert(rest@ =~= raw@.skip(11));
        lower_vec(&rest)
    } else {
        lower_vec(&raw_chars)
    };
    let name = crate::text::string_of(&lowered);
    let is_pass = str_eq(name.as_str(), "pass");
    if is_pass {
        Some(LegalAction { action: name, grp_id: None })
    } else {
        let grp_id = u32_at(action, "grpId");
        Some(LegalAction { action: name, grp_id })
    }
}

/// ASCII lower-casing of characters.
fn lower_vec(v: &Vec<char>) -> (r: Vec<char>)
    ensures
        r@ == lower_seq(v@),
{
    let mut r: Vec<char> = Vec::new();
    let mut i: usize = 0;
    while i < v.len()
        invariant
            i <= v.len(),
            r@ == lower_seq(v@.take(i as int)),
        decreases v.len() - i,
    {
        r.push(crate::text::lower_char_exec(v[i]));
        i = i + 1;
        assert(r@ =~= lower_seq(v@.take(i as int)));
    }
    assert(v@.take(v@.len() as int) =~= v@);
    r
}

// ---------------------------------------------------------------------------
// Decimal notes
// ---------------------------------------------------------------------------

/// `prefix` followed by the decimal text of `n`.
pub fn note_with_number(prefix: &str, n: i64) -> (r: String)
    ensures
        r@ == prefix@ + decimal_int(n as int),
{
    let mut s = prefix.to_owned();
    if n < 0 {
        push_char(&mut s, '-');
        let magnitude = (0i128 - (n as i128)) as u64;
        push_decimal(&mut s, magnitude);
        assert(s@ =~= prefix@ + decimal_int(n as int));
    } else {
        push_decimal(&mut s, n as u64);
    }
    s
}


// ---------------------------------------------------------------------------
// State of the assembler
// ---------------------------------------------------------------------------

/// A card or other object the game reported.
#[derive(Debug)]
pub struct GameObject {
    pub grp_id: Option<u32>,
    pub owner_seat: Option<u32>,
    pub visibility: Option<String>,
    pub zone_id: Option<u32>,
}

/// The model of a game object.
pub struct ObjectView {
    pub grp_id: Option<u32>,
    pub owner_seat: Option<u32>,
    pub visibility: Option<Seq<char>>,
    pub zone_id: Option<u32>,
}

impl View for GameObject {
    type V = ObjectView;

    open spec fn view(&self) -> ObjectView {
        ObjectView {
            grp_id: self.grp_id,
            owner_seat: self.owner_seat,
            visibility: opt_str_view(self.visibility),
            zone_id: self.zone_id,
        }
    }
}

/// A zone (hand, battlefield, ...) the game reported.
#[derive(Debug)]
pub struct Zone {
    pub zone_type: String,
    pub owner_seat: Option<u32>,
    pub instance_ids: Vec<u32>,
}

/// The model of a zone.
pub struct ZoneView {
    pub zone_type: Seq<char>,
    pub owner_seat: Option<u32>,
    pub instance_ids: Seq<u32>,
}

impl View for Zone {
    type V = ZoneView;

    open spec fn view(&self) -> ZoneView {
        ZoneView {
            zone_type: self.zone_type@,
            owner_seat: self.owner_seat,
            instance_ids: self.instance_ids@,
        }
    }
}

/// The first index at or after `i` holding key `k`, or the length when there is none.
pub open spec fn key_index<V>(s: Seq<(u32, V)>, k: u32, i: int) -> int
    decreases s.len() - i,
{
    if i < 0 || i >= s.len() {
        s.len() as int
    } else if s[i].0 == k {
        i
    } else {
        key_index(s, k, i + 1)
    }
}

/// The value kept under key `k`.
pub open spec fn assoc_get<V>(s: Seq<(u32, V)>, k: u32) -> Option<V> {
    let i = key_index(s, k, 0);
    if i < s.len() {
        Some(s[i].1)
    } else {
        None
    }
}

/// `s` with `v` kept under key `k`: in place of the old value, else added at the end.
pub open spec fn assoc_put<V>(s: Seq<(u32, V)>, k: u32, v: V) -> Seq<(u32, V)> {
    let i = key_index(s, k, 0);
    if i < s.len() {
        s.update(i, (k, v))
    } else {
        s.push((k, v))
    }
}

/// `s` without any entry for key `k`, the other entries in order.
pub open spec fn assoc_remove<V>(s: Seq<(u32, V)>, k: u32) -> Seq<(u32, V)>
    decreases s.len(),
{
    if s.len() == 0 {
        s
    } else if s[0].0 == k {
        assoc_remove(s.drop_first(), k)
    } else {
        seq![s[0]] + assoc_remove(s.drop_first(), k)
    }
}

/// Lemma: no entry is left for the key removed, and no entry appears for a key that had
/// none.
pub proof fn lemma_assoc_remove_keys<V>(s: Seq<(u32, V)>, k: u32, m: u32)
    ensures
        forall|j: int| 0 <= j < assoc_remove(s, k).len() ==> #[trigger] assoc_remove(s, k)[j].0 != k,
        (forall|i: int| 0 <= i < s.len() ==> #[trigger] s[i].0 != m) ==> forall|j: int|
            0 <= j < assoc_remove(s, k).len() ==> #[trigger] assoc_remove(s, k)[j].0 != m,
        assoc_remove(s, k).len() <= s.len(),
    decreases s.len(),
{
    if s.len() > 0 {
        let t = s.drop_first();
        lemma_assoc_remove_keys(t, k, m);
        if forall|i: int| 0 <= i < s.len() ==> #[trigger] s[i].0 != m {
            assert forall|i: int| 0 <= i < t.len() implies #[trigger] t[i].0 != m by {
                assert(t[i] == s[i + 1]);
            }
        }
        if s[0].0 != k {
            let r = assoc_remove(s, k);
            assert forall|j: int| 0 <= j < r.len() implies #[trigger] r[j].0 != k by {
                if j > 0 {
                    assert(r[j] == assoc_remove(t, k)[j - 1]);
                }
            }
            if forall|i: int| 0 <= i < s.len() ==> #[trigger] s[i].0 != m {
                assert forall|j: int| 0 <= j < r.len() implies #[trigger] r[j].0 != m by {
                    if j > 0 {
                        assert(r[j] == assoc_remove(t, k)[j - 1]);
                    } else {
                        assert(r[0] == s[0]);
                    }
                }
            }
        }
    }
}

/// Lemma: a key with no entry is not found.
pub proof fn lemma_key_index_absent<V>(s: Seq<(u32, V)>, k: u32, i: int)
    requires
        0 <= i <= s.len(),
        forall|j: int| 0 <= j < s.len() ==> #[trigger] s[j].0 != k,
    ensures
        key_index(s, k, i) == s.len(),
    decreases s.len() - i,
{
    if i < s.len() {
        lemma_key_index_absent(s, k, i + 1);
    }
}

/// Lemma: two sequences with the same keys find a key at the same index.
pub proof fn lemma_key_index_same_keys<A, B>(s: Seq<(u32, A)>, t: Seq<(u32, B)>, k: u32, i: int)
    requires
        s.len() == t.len(),
        forall|j: int| 0 <= j < s.len() ==> #[trigger] s[j].0 == t[j].0,
    ensures
        key_index(s, k, i) == key_index(t, k, i),
    decreases s.len() - i,
{
    if 0 <= i < s.len() {
        lemma_key_index_same_keys(s, t, k, i + 1);
    }
}

/// Lemma: the index found lies within the sequence or is its length.
pub proof fn lemma_key_index_bounds<V>(s: Seq<(u32, V)>, k: u32, i: int)
    requires
        0 <= i <= s.len(),
    ensures
        i <= key_index(s, k, i) <= s.len(),
        key_index(s, k, i) < s.len() ==> s[key_index(s, k, i)].0 == k,
    decreases s.len() - i,
{
    if i < s.len() && s[i].0 != k {
        lemma_key_index_bounds(s, k, i + 1);
    }
}

/// Where key `k` sits in `v`, or `v.len()`.
pub fn key_pos<T>(v: &Vec<(u32, T)>, k: u32) -> (r: usize)
    ensures
        r as int == key_index(v@, k, 0),
        r <= v.len(),
{
    let mut i: usize = 0;
    while i < v.len()
        invariant
            i <= v.len(),
            key_index(v@, k, i as int) == key_index(v@, k, 0),
        decreases v.len() - i,
    {
        if v[i].0 == k {
            return i;
        }
        i = i + 1;
    }
    i
}

/// The models of the objects.
pub open spec fn objects_view(s: Seq<(u32, GameObject)>) -> Seq<(u32, ObjectView)> {
    s.map_values(|p: (u32, GameObject)| (p.0, p.1@))
}

/// The models of the zones.
pub open spec fn zones_view(s: Seq<(u32, Zone)>) -> Seq<(u32, ZoneView)> {
    s.map_values(|p: (u32, Zone)| (p.0, p.1@))
}

/// The model of the assembler: what it knows of the match being played.
pub struct AssemblerView {
    pub match_id: Option<Seq<char>>,
    pub event_id: Option<Seq<char>>,
    pub player_seat: Option<u32>,
    pub deck_grp_ids: Seq<u32>,
    pub objects: Seq<(u32, ObjectView)>,
    pub zones: Seq<(u32, ZoneView)>,
    pub life_totals: Seq<(u32, i32)>,
    pub legal: Seq<LegalActionView>,
    pub timeline: Seq<TimelineEventView>,
    pub turn: Option<u32>,
    pub phase: Option<Seq<char>>,
    pub step: Option<Seq<char>>,
    pub next_t_ms: u64,
    pub result: MatchResult,
    pub in_match: bool,
}

/// The state of a fresh assembler.
pub open spec fn initial_view() -> AssemblerView {
    AssemblerView {
        match_id: None,
        event_id: None,
        player_seat: None,
        deck_grp_ids: Seq::empty(),
        objects: Seq::empty(),
        zones: Seq::empty(),
        life_totals: Seq::empty(),
        legal: Seq::empty(),
        timeline: Seq::empty(),
        turn: None,
        phase: None,
        step: None,
        next_t_ms: 0,
        result: MatchResult::Unknown,
        in_match: false,
    }
}

/// Assembles finished matches from the messages of Arena's log.
#[derive(Debug)]
pub struct GreAssembler {
    match_id: Option<String>,
    event_id: Option<String>,
    player_seat: Option<u32>,
    deck_grp_ids: Vec<u32>,
    objects: Vec<(u32, GameObject)>,
    zones: Vec<(u32, Zone)>,
    life_totals: Vec<(u32, i32)>,
    legal: Vec<LegalAction>,
    timeline: Vec<TimelineEvent>,
    turn: Option<u32>,
    phase: Option<String>,
    step: Option<String>,
    next_t_ms: u64,
    result: MatchResult,
    in_match: bool,
}

impl View for GreAssembler {
    type V = AssemblerView;

    closed spec fn view(&self) -> AssemblerView {
        AssemblerView {
            match_id: opt_str_view(self.match_id),
            event_id: opt_str_view(self.event_id),
            player_seat: self.player_seat,
            deck_grp_ids: self.deck_grp_ids@,
            objects: objects_view(self.objects@),
            zones: zones_view(self.zones@),
            life_totals: self.life_totals@,
            legal: legal_view(self.legal@),
            timeline: timeline_view(self.timeline@),
            turn: self.turn,
            phase: opt_str_view(self.phase),
            step: opt_str_view(self.step),
            next_t_ms: self.next_t_ms,
            result: self.result,
            in_match: self.in_match,
        }
    }
}

/// A match is in progress once it has an id and has not ended.
pub open spec fn in_match_spec(st: AssemblerView) -> bool {
    st.in_match && st.match_id is Some
}

// ---------------------------------------------------------------------------
// Merging reported objects, zones and players
// ---------------------------------------------------------------------------

/// An object with nothing known of it.
pub open spec fn blank_object() -> ObjectView {
    ObjectView { grp_id: None, owner_seat: None, visibility: None, zone_id: None }
}

/// `new` when present, else `old`.
pub open spec fn or_keep<T>(new: Option<T>, old: Option<T>) -> Option<T> {
    match new {
        Some(x) => Some(x),
        None => old,
    }
}

/// The first of two optional values that is present.
pub open spec fn either<T>(a: Option<T>, b: Option<T>) -> Option<T> {
    match a {
        Some(x) => Some(x),
        None => b,
    }
}

/// Merges one reported object: the fields it reports replace the known ones.
pub open spec fn merge_object_spec(objs: Seq<(u32, ObjectView)>, o: JsonView) -> Seq<
    (u32, ObjectView),
> {
    match opt_u32(o.get("instanceId"@)) {
        None => objs,
        Some(id) => {
            let existing = match assoc_get(objs, id) {
                Some(x) => x,
                None => blank_object(),
            };
            let owner_src = either(o.get("ownerSeatId"@), o.get("controllerSeatId"@));
            assoc_put(
                objs,
                id,
                ObjectView {
                    grp_id: or_keep(opt_u32(o.get("grpId"@)), existing.grp_id),
                    owner_seat: or_keep(opt_u32(owner_src), existing.owner_seat),
                    visibility: or_keep(o.str_at("visibility"@), existing.visibility),
                    zone_id: or_keep(opt_u32(o.get("zoneId"@)), existing.zone_id),
                },
            )
        },
    }
}

/// Merges the reported objects from index `i` on.
pub open spec fn merge_objects_from(objs: Seq<(u32, ObjectView)>, items: Seq<JsonView>, i: int) -> Seq<
    (u32, ObjectView),
>
    decreases items.len() - i,
{
    if i < 0 || i >= items.len() {
        objs
    } else {
        merge_objects_from(merge_object_spec(objs, items[i]), items, i + 1)
    }
}

/// Merges a reported list of objects, if it is a list.
pub open spec fn merge_objects_spec(objs: Seq<(u32, ObjectView)>, v: Option<JsonView>) -> Seq<
    (u32, ObjectView),
> {
    match v {
        Some(x) => match x.as_array() {
            Some(items) => merge_objects_from(objs, items, 0),
            None => objs,
        },
        None => objs,
    }
}

/// The card ids of a list of JSON values that read as `u32`, from index `i` on.
pub open spec fn u32s_from(items: Seq<JsonView>, i: int) -> Seq<u32>
    decreases items.len() - i,
{
    if i < 0 || i >= items.len() {
        Seq::empty()
    } else {
        match json_u32_spec(items[i]) {
            Some(n) => seq![n] + u32s_from(items, i + 1),
            None => u32s_from(items, i + 1),
        }
    }
}

/// Merges one reported zone: it replaces the zone with the same id.
pub open spec fn merge_zone_spec(zones: Seq<(u32, ZoneView)>, z: JsonView) -> Seq<(u32, ZoneView)> {
    match opt_u32(z.get("zoneId"@)) {
        None => zones,
        Some(id) => {
            let zone_type = match either(z.get("type"@), z.get("zoneType"@)) {
                Some(t) => match t.as_str() {
                    Some(s) => s,
                    None => Seq::empty(),
                },
                None => Seq::empty(),
            };
            let ids = match z.array_at("objectInstanceIds"@) {
                Some(items) => u32s_from(items, 0),
                None => Seq::empty(),
            };
            assoc_put(
                zones,
                id,
                ZoneView {
                    zone_type,
                    owner_seat: opt_u32(z.get("ownerSeatId"@)),
                    instance_ids: ids,
                },
            )
        },
    }
}

/// Merges the reported zones from index `i` on.
pub open spec fn merge_zones_from(zones: Seq<(u32, ZoneView)>, items: Seq<JsonView>, i: int) -> Seq<
    (u32, ZoneView),
>
    decreases items.len() - i,
{
    if i < 0 || i >= items.len() {
        zones
    } else {
        merge_zones_from(merge_zone_spec(zones, items[i]), items, i + 1)
    }
}

/// Merges a reported list of zones, if it is a list.
pub open spec fn merge_zones_spec(zones: Seq<(u32, ZoneView)>, v: Option<JsonView>) -> Seq<
    (u32, ZoneView),
> {
    match v {
        Some(x) => match x.as_array() {
            Some(items) => merge_zones_from(zones, items, 0),
            None => zones,
        },
        None => zones,
    }
}

/// Merges one reported player: a life total it reports is recorded under its seat.
pub open spec fn merge_player_spec(lives: Seq<(u32, i32)>, p: JsonView) -> Seq<(u32, i32)> {
    match opt_u32(either(p.get("systemSeatNumber"@), p.get("systemSeatId"@))) {
        None => lives,
        Some(seat) => match p.get("lifeTotal"@) {
            Some(l) => match json_i32_spec(l) {
                Some(life) => assoc_put(lives, seat, life),
                None => lives,
            },
            None => lives,
        },
    }
}

/// Merges the reported players from index `i` on.
pub open spec fn merge_players_from(lives: Seq<(u32, i32)>, items: Seq<JsonView>, i: int) -> Seq<
    (u32, i32),
>
    decreases items.len() - i,
{
    if i < 0 || i >= items.len() {
        lives
    } else {
        merge_players_from(merge_player_spec(lives, items[i]), items, i + 1)
    }
}

/// Merges a reported list of players, if it is a list.
pub open spec fn merge_players_spec(lives: Seq<(u32, i32)>, v: Option<JsonView>) -> Seq<(u32, i32)> {
    match v {
        Some(x) => match x.as_array() {
            Some(items) => merge_players_from(lives, items, 0),
            None => lives,
        },
        None => lives,
    }
}

/// The card ids of a list of JSON values that read as `u32`.
pub fn u32s_of(items: &Vec<JsonValue>) -> (r: Vec<u32>)
    ensures
        r@ == u32s_from(items_view(items@), 0),
{
    proof {
        lemma_items_view(items@);
    }
    let ghost iv = items_view(items@);
    let mut r: Vec<u32> = Vec::new();
    let mut i: usize = 0;
    while i < items.len()
        invariant
            i <= items.len(),
            iv == items_view(items@),
            iv.len() == items@.len(),
            forall|j: int| 0 <= j < items@.len() ==> #[trigger] iv[j] == items@[j]@,
            r@ + u32s_from(iv, i as int) == u32s_from(iv, 0),
        decreases items.len() - i,
    {
        assert(iv[i as int] == items@[i as int]@);
        match json_u32(&items[i]) {
            Some(n) => {
                assert(r@.push(n) + u32s_from(iv, i + 1) =~= r@ + u32s_from(iv, i as int));
                r.push(n);
            },
            None => {
            },
        }
        i = i + 1;
    }
    assert(r@ + u32s_from(iv, i as int) =~= r@);
    r
}

/// The first of two members of an object that is present.
fn get_either<'a>(v: &'a JsonValue, k1: &str, k2: &str) -> (r: Option<&'a JsonValue>)
    ensures
        opt_view(r) == either(v@.get(k1@), v@.get(k2@)),
{
    match v.get(k1) {
        Some(x) => Some(x),
        None => v.get(k2),
    }
}

impl GreAssembler {
    /// A fresh assembler that knows nothing yet.
    pub fn new() -> (r: GreAssembler)
        ensures
            r@ == initial_view(),
    {
        let r = GreAssembler {
            match_id: None,
            event_id: None,
            player_seat: None,
            deck_grp_ids: Vec::new(),
            objects: Vec::new(),
            zones: Vec::new(),
            life_totals: Vec::new(),
            legal: Vec::new(),
            timeline: Vec::new(),
            turn: None,
            phase: None,
            step: None,
            next_t_ms: 0,
            result: MatchResult::Unknown,
            in_match: false,
        };
        assert(r@.objects =~= Seq::<(u32, ObjectView)>::empty());
        assert(r@.zones =~= Seq::<(u32, ZoneView)>::empty());
        assert(r@.legal =~= Seq::<LegalActionView>::empty());
        assert(r@.timeline =~= Seq::<TimelineEventView>::empty());
        r
    }

    /// Whether a match is in progress.
    pub fn in_match(&self) -> (r: bool)
        ensures
            r == in_match_spec(self@),
    {
        self.in_match && self.match_id.is_some()
    }

    /// Whether the game object `instance_id` is known.
    pub fn has_object(&self, instance_id: u32) -> (r: bool)
        ensures
            r == (assoc_get(self@.objects, instance_id) is Some),
    {
        let pos = key_pos(&self.objects, instance_id);
        proof {
            lemma_key_index_same_keys(self.objects@, self@.objects, instance_id, 0);
        }
        pos < self.objects.len()
    }

    /// Merges one reported object (see `merge_object_spec`).
    fn merge_object(&mut self, o: &JsonValue)
        ensures
            final(self)@ == (AssemblerView {
                objects: merge_object_spec(old(self)@.objects, o@),
                ..old(self)@
            }),
    {
        let id = match u32_at(o, "instanceId") {
            Some(id) => id,
            None => return,
        };
        let pos = key_pos(&self.objects, id);
        proof {
            lemma_key_index_same_keys(self.objects@, self@.objects, id, 0);
            lemma_key_index_bounds(self.objects@, id, 0);
        }
        let (old_grp, old_owner, old_vis, old_zone) = if pos < self.objects.len() {
            let existing = &self.objects[pos].1;
            (existing.grp_id, existing.owner_seat, copy_opt_str(&existing.visibility), existing.zone_id)
        } else {
            (None, None, None, None)
        };
        let grp_id = match u32_at(o, "grpId") {
            Some(g) => Some(g),
            None => old_grp,
        };
        let owner_seat = match get_either(o, "ownerSeatId", "controllerSeatId") {
            Some(x) => match json_u32(x) {
                Some(s) => Some(s),
                None => old_owner,
            },
            None => old_owner,
        };
        let visibility = match o.str_at("visibility") {
            Some(v) => Some(v.to_owned()),
            None => old_vis,
        };
        let zone_id = match u32_at(o, "zoneId") {
            Some(z) => Some(z),
            None => old_zone,
        };
        let object = GameObject { grp_id, owner_seat, visibility, zone_id };
        let ghost ov = object@;
        if pos < self.objects.len() {
            self.objects.set(pos, (id, object));
        } else {
            self.objects.push((id, object));
        }
        assert(self@.objects =~= merge_object_spec(old(self)@.objects, o@));
    }

    /// Merges a reported list of objects (see `merge_objects_spec`).
    fn merge_objects(&mut self, objects: Option<&JsonValue>)
        ensures
            final(self)@ == (AssemblerView {
                objects: merge_objects_spec(old(self)@.objects, opt_view(objects)),
                ..old(self)@
            }),
    {
        let items = match objects {
            Some(v) => match v.as_array() {
                Some(items) => items,
                None => return,
            },
            None => return,
        };
        proof {
            lemma_items_view(items@);
        }
        let ghost iv = items_view(items@);
        let mut i: usize = 0;
        while i < items.len()
            invariant
                i <= items.len(),
                iv == items_view(items@),
                iv.len() == items@.len(),
                forall|j: int| 0 <= j < items@.len() ==> #[trigger] iv[j] == items@[j]@,
                self@ == (AssemblerView { objects: self@.objects, ..old(self)@ }),
                merge_objects_from(self@.objects, iv, i as int) == merge_objects_from(
                    old(self)@.objects,
                    iv,
                    0,
                ),
            decreases items.len() - i,
        {
            assert(iv[i as int] == items@[i as int]@);
            self.merge_object(&items[i]);
            i = i + 1;
        }
    }
}


/// Removes the objects whose ids a list reports as deleted, from index `i` on.
pub open spec fn remove_objects_from(objs: Seq<(u32, ObjectView)>, items: Seq<JsonView>, i: int) -> Seq<
    (u32, ObjectView),
>
    decreases items.len() - i,
{
    if i < 0 || i >= items.len() {
        objs
    } else {
        let next = match json_u32_spec(items[i]) {
            Some(id) => assoc_remove(objs, id),
            None => objs,
        };
        remove_objects_from(next, items, i + 1)
    }
}

impl GreAssembler {
    /// Merges one reported zone (see `merge_zone_spec`).
    fn merge_zone(&mut self, z: &JsonValue)
        ensures
            final(self)@ == (AssemblerView {
                zones: merge_zone_spec(old(self)@.zones, z@),
                ..old(self)@
            }),
    {
        let id = match u32_at(z, "zoneId") {
            Some(id) => id,
            None => return,
        };
        let zone_type = match get_either(z, "type", "zoneType") {
            Some(t) => match t.as_str() {
                Some(s) => s.to_owned(),
                None => String::new(),
            },
            None => String::new(),
        };
        let owner_seat = u32_at(z, "ownerSeatId");
        let instance_ids = match z.array_at("objectInstanceIds") {
            Some(items) => u32s_of(items),
            None => Vec::new(),
        };
        let pos = key_pos(&self.zones, id);
        proof {
            lemma_key_index_same_keys(self.zones@, self@.zones, id, 0);
            lemma_key_index_bounds(self.zones@, id, 0);
        }
        let zone = Zone { zone_type, owner_seat, instance_ids };
        if pos < self.zones.len() {
            self.zones.set(pos, (id, zone));
        } else {
            self.zones.push((id, zone));
        }
        assert(self@.zones =~= merge_zone_spec(old(self)@.zones, z@));
    }

    /// Merges a reported list of zones (see `merge_zones_spec`).
    fn merge_zones(&mut self, zones: Option<&JsonValue>)
        ensures
            final(self)@ == (AssemblerView {
                zones: merge_zones_spec(old(self)@.zones, opt_view(zones)),
                ..old(self)@
            }),
    {
        let items = match zones {
            Some(v) => match v.as_array() {
                Some(items) => items,
                None => return,
            },
            None => return,
        };
        proof {
            lemma_items_view(items@);
        }
        let ghost iv = items_view(items@);
        let mut i: usize = 0;
        while i < items.len()
            invariant
                i <= items.len(),
                iv == items_view(items@),
                iv.len() == items@.len(),
                forall|j: int| 0 <= j < items@.len() ==> #[trigger] iv[j] == items@[j]@,
                self@ == (AssemblerView { zones: self@.zones, ..old(self)@ }),
                merge_zones_from(self@.zones, iv, i as int) == merge_zones_from(
                    old(self)@.zones,
                    iv,
                    0,
                ),
            decreases items.len() - i,
        {
            assert(iv[i as int] == items@[i as int]@);
            self.merge_zone(&items[i]);
            i = i + 1;
        }
    }

    /// Merges one reported player (see `merge_player_spec`).
    fn merge_player(&mut self, p: &JsonValue)
        ensures
            final(self)@ == (AssemblerView {
                life_totals: merge_player_spec(old(self)@.life_totals, p@),
                ..old(self)@
            }),
    {
        let seat = match get_either(p, "systemSeatNumber", "systemSeatId") {
            Some(x) => match json_u32(x) {
                Some(seat) => seat,
                None => return,
            },
            None => return,
        };
        let life = match p.get("lifeTotal") {
            Some(l) => match json_i32(l) {
                Some(life) => life,
                None => return,
            },
            None => return,
        };
        let pos = key_pos(&self.life_totals, seat);
        proof {
            lemma_key_index_bounds(self.life_totals@, seat, 0);
        }
        if pos < self.life_totals.len() {
            self.life_totals.set(pos, (seat, life));
        } else {
            self.life_totals.push((seat, life));
        }
        assert(self@.life_totals =~= merge_player_spec(old(self)@.life_totals, p@));
    }

    /// Merges a reported list of players (see `merge_players_spec`).
    fn merge_players(&mut self, players: Option<&JsonValue>)
        ensures
            final(self)@ == (AssemblerView {
                life_totals: merge_players_spec(old(self)@.life_totals, opt_view(players)),
                ..old(self)@
            }),
    {
        let items = match players {
            Some(v) => match v.as_array() {
                Some(items) => items,
                None => return,
            },
            None => return,
        };
        proof {
            lemma_items_view(items@);
        }
        let ghost iv = items_view(items@);
        let mut i: usize = 0;
        while i < items.len()
            invariant
                i <= items.len(),
                iv == items_view(items@),
                iv.len() == items@.len(),
                forall|j: int| 0 <= j < items@.len() ==> #[trigger] iv[j] == items@[j]@,
                self@ == (AssemblerView { life_totals: self@.life_totals, ..old(self)@ }),
                merge_players_from(self@.life_totals, iv, i as int) == merge_players_from(
                    old(self)@.life_totals,
                    iv,
                    0,
                ),
            decreases items.len() - i,
        {
            assert(iv[i as int] == items@[i as int]@);
            self.merge_player(&items[i]);
            i = i + 1;
        }
    }

    /// Forgets the object `id`: every entry for it goes.
    fn remove_object(&mut self, id: u32)
        ensures
            final(self)@ == (AssemblerView {
                objects: assoc_remove(old(self)@.objects, id),
                ..old(self)@
            }),
    {
        let mut rest: Vec<(u32, GameObject)> = Vec::new();
        std::mem::swap(&mut rest, &mut self.objects);
        assert(self@.objects =~= Seq::<(u32, ObjectView)>::empty());
        assert(objects_view(rest@) == old(self)@.objects);
        let ghost target = assoc_remove(objects_view(rest@), id);
        let mut kept: Vec<(u32, GameObject)> = Vec::new();
        while rest.len() > 0
            invariant
                objects_view(kept@) + assoc_remove(objects_view(rest@), id) == target,
                self@ == (AssemblerView { objects: Seq::empty(), ..old(self)@ }),
                self.objects@.len() == 0,
            decreases rest.len(),
        {
            let ghost before = objects_view(rest@);
            let x = rest.remove(0);
            assert(objects_view(rest@) =~= before.drop_first());
            assert(before[0] == (x.0, x.1@));
            if x.0 == id {
                assert(assoc_remove(before, id) == assoc_remove(before.drop_first(), id));
            } else {
                let ghost kv = objects_view(kept@);
                kept.push(x);
                assert(objects_view(kept@) =~= kv.push(before[0]));
                assert(assoc_remove(before, id) == seq![before[0]] + assoc_remove(before.drop_first(), id));
                assert(kv.push(before[0]) + assoc_remove(before.drop_first(), id) =~= kv + (seq![before[0]] + assoc_remove(before.drop_first(), id)));
            }
        }
        assert(objects_view(rest@) =~= Seq::<(u32, ObjectView)>::empty());
        assert(assoc_remove(objects_view(rest@), id) =~= Seq::<(u32, ObjectView)>::empty());
        assert(objects_view(kept@) =~= target);
        self.objects = kept;
        assert(self@.objects =~= assoc_remove(old(self)@.objects, id));
    }

    /// Forgets the objects a list reports as deleted (see `remove_objects_from`).
    fn remove_objects(&mut self, items: &Vec<JsonValue>)
        ensures
            final(self)@ == (AssemblerView {
                objects: remove_objects_from(old(self)@.objects, items_view(items@), 0),
                ..old(self)@
            }),
    {
        proof {
            lemma_items_view(items@);
        }
        let ghost iv = items_view(items@);
        let mut i: usize = 0;
        while i < items.len()
            invariant
                i <= items.len(),
                iv == items_view(items@),
                iv.len() == items@.len(),
                forall|j: int| 0 <= j < items@.len() ==> #[trigger] iv[j] == items@[j]@,
                self@ == (AssemblerView { objects: self@.objects, ..old(self)@ }),
                remove_objects_from(self@.objects, iv, i as int) == remove_objects_from(
                    old(self)@.objects,
                    iv,
                    0,
                ),
            decreases items.len() - i,
        {
            assert(iv[i as int] == items@[i as int]@);
            match json_u32(&items[i]) {
                Some(id) => self.remove_object(id),
                None => {
                },
            }
            i = i + 1;
        }
    }
}


// ---------------------------------------------------------------------------
// What the local player can see
// ---------------------------------------------------------------------------

/// The card ids of the known, visible objects among `ids[i..]`, in order.
pub open spec fn visible_from(objs: Seq<(u32, ObjectView)>, ids: Seq<u32>, i: int) -> Seq<u32>
    decreases ids.len() - i,
{
    if i < 0 || i >= ids.len() {
        Seq::empty()
    } else {
        let rest = visible_from(objs, ids, i + 1);
        match assoc_get(objs, ids[i]) {
            Some(o) => if o.visibility != Some(VISIBILITY_HIDDEN@) {
                match o.grp_id {
                    Some(g) => seq![g] + rest,
                    None => rest,
                }
            } else {
                rest
            },
            None => rest,
        }
    }
}

/// The card ids of the known, visible objects among `ids`, in order.
pub open spec fn visible_cards(objs: Seq<(u32, ObjectView)>, ids: Seq<u32>) -> Seq<u32> {
    visible_from(objs, ids, 0)
}

/// Whether the object known under `id` is visible and shows the card `grp`.
pub open spec fn shows_card(objs: Seq<(u32, ObjectView)>, id: u32, grp: u32) -> bool {
    match assoc_get(objs, id) {
        Some(o) => o.visibility != Some(VISIBILITY_HIDDEN@) && o.grp_id == Some(grp),
        None => false,
    }
}

/// Lemma: the `k`-th card id reported for `ids[i..]` is shown by one of those objects.
proof fn lemma_card_shown(objs: Seq<(u32, ObjectView)>, ids: Seq<u32>, i: int, k: int) -> (j: int)
    requires
        0 <= i <= ids.len(),
        0 <= k < visible_from(objs, ids, i).len(),
    ensures
        i <= j < ids.len(),
        shows_card(objs, ids[j], visible_from(objs, ids, i)[k]),
    decreases ids.len() - i,
{
    let rest = visible_from(objs, ids, i + 1);
    let here = visible_from(objs, ids, i);
    if here.len() == rest.len() + 1 && k == 0 {
        i
    } else if here.len() == rest.len() + 1 {
        assert(here[k] == rest[k - 1]);
        lemma_card_shown(objs, ids, i + 1, k - 1)
    } else {
        assert(here =~= rest);
        lemma_card_shown(objs, ids, i + 1, k)
    }
}

/// A hidden card never shows: the `k`-th card id reported for a list of objects is the
/// card of one of them, `ids[j]`, that is known and not hidden.
pub proof fn law_hidden_cards_never_show(objs: Seq<(u32, ObjectView)>, ids: Seq<u32>, k: int) -> (j: int)
    requires
        0 <= k < visible_cards(objs, ids).len(),
    ensures
        0 <= j < ids.len(),
        shows_card(objs, ids[j], visible_cards(objs, ids)[k]),
{
    lemma_card_shown(objs, ids, 0, k)
}

/// At most the first `n` items of `s`.
pub open spec fn first_n<T>(s: Seq<T>, n: nat) -> Seq<T> {
    if s.len() <= n {
        s
    } else {
        s.take(n as int)
    }
}

/// Who acted: the player when the affector is the player's seat or one of the player's
/// objects, the opponent when it is another owner's object or the other seat, else the
/// owner of the first affected object, else the game.
pub open spec fn actor_for_spec(st: AssemblerView, affector: Option<u32>, affected: Seq<u32>) -> Actor {
    let seat = st.player_seat;
    let by_affector: Option<Actor> = match affector {
        Some(id) => if seat == Some(id) {
            Some(Actor::Me)
        } else {
            let by_object: Option<Actor> = match assoc_get(st.objects, id) {
                Some(o) => if o.owner_seat == seat {
                    Some(Actor::Me)
                } else if o.owner_seat is Some {
                    Some(Actor::Opponent)
                } else {
                    None
                },
                None => None,
            };
            match by_object {
                Some(a) => Some(a),
                None => if seat is Some && (id == 1 || id == 2) {
                    Some(Actor::Opponent)
                } else {
                    None
                },
            }
        },
        None => None,
    };
    match by_affector {
        Some(a) => a,
        None => if affected.len() > 0 {
            match assoc_get(st.objects, affected[0]) {
                Some(first) => if first.owner_seat == seat {
                    Actor::Me
                } else if first.owner_seat is Some {
                    Actor::Opponent
                } else {
                    Actor::Game
                },
                None => Actor::Game,
            }
        } else {
            Actor::Game
        },
    }
}

/// A zone of type `ty` that belongs to `owner` (any owner when `owner` is `None`).
pub open spec fn zone_selected(z: ZoneView, ty: Seq<char>, owner: Option<u32>) -> bool {
    z.zone_type == ty && (owner is None || z.owner_seat == owner)
}

/// The instance ids of the selected zones from index `i` on, one zone after another.
pub open spec fn zone_ids_from(zones: Seq<(u32, ZoneView)>, ty: Seq<char>, owner: Option<u32>, i: int) -> Seq<u32>
    decreases zones.len() - i,
{
    if i < 0 || i >= zones.len() {
        Seq::empty()
    } else {
        let rest = zone_ids_from(zones, ty, owner, i + 1);
        if zone_selected(zones[i].1, ty, owner) {
            zones[i].1.instance_ids + rest
        } else {
            rest
        }
    }
}

/// Whether some zone from index `i` on has type `ty` and owner `owner`.
pub open spec fn zone_found_from(zones: Seq<(u32, ZoneView)>, ty: Seq<char>, owner: u32, i: int) -> bool
    decreases zones.len() - i,
{
    if i < 0 || i >= zones.len() {
        false
    } else {
        (zones[i].1.zone_type == ty && zones[i].1.owner_seat == Some(owner)) || zone_found_from(
            zones,
            ty,
            owner,
            i + 1,
        )
    }
}

/// How many objects the zones from index `i` on of type `ty` and owner `owner` hold.
pub open spec fn zone_count_from(zones: Seq<(u32, ZoneView)>, ty: Seq<char>, owner: u32, i: int) -> nat
    decreases zones.len() - i,
{
    if i < 0 || i >= zones.len() {
        0
    } else {
        zone_count_from(zones, ty, owner, i + 1) + if zones[i].1.zone_type == ty
            && zones[i].1.owner_seat == Some(owner) {
            zones[i].1.instance_ids.len()
        } else {
            0
        }
    }
}

/// How many objects `owner`'s zones of type `ty` hold, truncated to `u32`; `None` without an
/// owner or without such a zone.
pub open spec fn zone_size_spec(st: AssemblerView, ty: Seq<char>, owner: Option<u32>) -> Option<u32> {
    match owner {
        None => None,
        Some(o) => if zone_found_from(st.zones, ty, o, 0) {
            Some(zone_count_from(st.zones, ty, o, 0) as u32)
        } else {
            None
        },
    }
}

/// The visible cards in the selected zones of type `ty`, at most sixteen.
pub open spec fn zone_cards_spec(st: AssemblerView, ty: Seq<char>, owner: Option<u32>) -> Seq<u32> {
    first_n(visible_cards(st.objects, zone_ids_from(st.zones, ty, owner, 0)), 16)
}

/// The ids of the battlefield zones from index `i` on.
pub open spec fn battlefield_zone_ids_from(zones: Seq<(u32, ZoneView)>, i: int) -> Seq<u32>
    decreases zones.len() - i,
{
    if i < 0 || i >= zones.len() {
        Seq::empty()
    } else {
        let rest = battlefield_zone_ids_from(zones, i + 1);
        if zones[i].1.zone_type == "ZoneType_Battlefield"@ {
            seq![zones[i].0] + rest
        } else {
            rest
        }
    }
}

/// The ids of the objects from index `i` on that lie in one of the zones `zone_ids`.
pub open spec fn objects_in_zones_from(objs: Seq<(u32, ObjectView)>, zone_ids: Seq<u32>, i: int) -> Seq<u32>
    decreases objs.len() - i,
{
    if i < 0 || i >= objs.len() {
        Seq::empty()
    } else {
        let rest = objects_in_zones_from(objs, zone_ids, i + 1);
        match objs[i].1.zone_id {
            Some(z) => if zone_ids.contains(z) {
                seq![objs[i].0] + rest
            } else {
                rest
            },
            None => rest,
        }
    }
}

/// An object belongs to `owner` (any object when `owner` is `None`).
pub open spec fn owned_by(objs: Seq<(u32, ObjectView)>, id: u32, owner: Option<u32>) -> bool {
    owner is None || match assoc_get(objs, id) {
        Some(o) => o.owner_seat == owner,
        None => false,
    }
}

/// The ids among `ids[i..]` that belong to `owner`.
pub open spec fn owned_from(objs: Seq<(u32, ObjectView)>, ids: Seq<u32>, owner: Option<u32>, i: int) -> Seq<u32>
    decreases ids.len() - i,
{
    if i < 0 || i >= ids.len() {
        Seq::empty()
    } else {
        let rest = owned_from(objs, ids, owner, i + 1);
        if owned_by(objs, ids[i], owner) {
            seq![ids[i]] + rest
        } else {
            rest
        }
    }
}

/// The visible cards `owner` has on the battlefield, at most sixteen: those the battlefield
/// zones list, or when they list none, the objects placed in a battlefield zone.
pub open spec fn battlefield_cards_spec(st: AssemblerView, owner: Option<u32>) -> Seq<u32> {
    let listed = zone_ids_from(st.zones, "ZoneType_Battlefield"@, None, 0);
    let ids = if listed.len() == 0 {
        objects_in_zones_from(st.objects, battlefield_zone_ids_from(st.zones, 0), 0)
    } else {
        listed
    };
    first_n(visible_cards(st.objects, owned_from(st.objects, ids, owner, 0)), 16)
}

/// A decision context is kept for casts, lands, attacks, blocks, keeps and mulligans.
pub open spec fn kind_has_context(kind: EventKind) -> bool {
    kind == EventKind::Cast || kind == EventKind::Land || kind == EventKind::Attack || kind
        == EventKind::Block || kind == EventKind::Keep || kind == EventKind::Mulligan
}

/// The seat across from `seat` (seat 1 faces seat 2, any other faces seat 1).
pub open spec fn opponent_seat(seat: Option<u32>) -> Option<u32> {
    match seat {
        Some(id) => Some(
            if id == 1 {
                2u32
            } else {
                1u32
            },
        ),
        None => None,
    }
}

/// The life total recorded for a seat.
pub open spec fn life_of(st: AssemblerView, seat: Option<u32>) -> Option<i32> {
    match seat {
        Some(id) => assoc_get(st.life_totals, id),
        None => None,
    }
}

/// What the player could see when taking a decision of kind `kind`; none for other kinds or
/// when nothing at all is known.
#[verifier::opaque]
pub open spec fn decision_context_spec(st: AssemblerView, kind: EventKind) -> Option<DecisionContextView> {
    if !kind_has_context(kind) {
        None
    } else {
        let seat = st.player_seat;
        let opp = opponent_seat(seat);
        let context = DecisionContextView {
            my_hand: zone_cards_spec(st, "ZoneType_Hand"@, seat),
            my_board: battlefield_cards_spec(st, seat),
            opp_board: battlefield_cards_spec(st, opp),
            opp_hand: zone_cards_spec(st, "ZoneType_Hand"@, opp),
            opp_hand_count: zone_size_spec(st, "ZoneType_Hand"@, opp),
            my_life: life_of(st, seat),
            opp_life: life_of(st, opp),
            legal: st.legal,
        };
        if context.is_empty() {
            None
        } else {
            Some(context)
        }
    }
}

/// The time of the next event: a second after the last, held at the largest `u64`.
pub open spec fn next_time(t: u64) -> u64 {
    if t > u64::MAX - 1000 {
        u64::MAX
    } else {
        (t + 1000) as u64
    }
}

/// The state once an event is added to the timeline.
#[verifier::opaque]
pub open spec fn record_event_spec(
    st: AssemblerView,
    actor: Actor,
    kind: EventKind,
    card_ids: Seq<u32>,
    note: Seq<char>,
) -> AssemblerView {
    let event = TimelineEventView {
        t_ms: st.next_t_ms,
        turn: st.turn,
        phase: st.phase,
        step: st.step,
        actor,
        kind,
        card_ids,
        note,
        context: decision_context_spec(st, kind),
    };
    AssemblerView { next_t_ms: next_time(st.next_t_ms), timeline: st.timeline.push(event), ..st }
}

impl GreAssembler {
    /// The known object `id`.
    fn object_at(&self, id: u32) -> (r: Option<&GameObject>)
        ensures
            match r {
                Some(o) => assoc_get(self@.objects, id) == Some(o@),
                None => assoc_get(self@.objects, id) is None,
            },
    {
        let pos = key_pos(&self.objects, id);
        proof {
            lemma_key_index_same_keys(self.objects@, self@.objects, id, 0);
        }
        if pos < self.objects.len() {
            Some(&self.objects[pos].1)
        } else {
            None
        }
    }

    /// The card ids of the known, visible objects among `ids` (see `visible_cards`).
    fn visible_card_ids(&self, ids: &Vec<u32>) -> (r: Vec<u32>)
        ensures
            r@ == visible_cards(self@.objects, ids@),
    {
        let mut r: Vec<u32> = Vec::new();
        let mut i: usize = 0;
        while i < ids.len()
            invariant
                i <= ids.len(),
                r@ + visible_from(self@.objects, ids@, i as int) == visible_from(
                    self@.objects,
                    ids@,
                    0,
                ),
            decreases ids.len() - i,
        {
            match self.object_at(ids[i]) {
                Some(o) => {
                    let hidden = match &o.visibility {
                        Some(v) => str_eq(v.as_str(), VISIBILITY_HIDDEN),
                        None => false,
                    };
                    if !hidden {
                        match o.grp_id {
                            Some(g) => {
                                assert(r@.push(g) + visible_from(self@.objects, ids@, i + 1)
                                    =~= r@ + visible_from(self@.objects, ids@, i as int));
                                r.push(g);
                            },
                            None => {
                            },
                        }
                    }
                },
                None => {
                },
            }
            i = i + 1;
        }
        assert(r@ + visible_from(self@.objects, ids@, i as int) =~= r@);
        r
    }

    /// Who acted (see `actor_for_spec`).
    fn actor_for(&self, affector: Option<u32>, affected: &Vec<u32>) -> (r: Actor)
        ensures
            r == actor_for_spec(self@, affector, affected@),
    {
        let seat = self.player_seat;
        if let Some(id) = affector {
            if seat == Some(id) {
                return Actor::Me;
            }
            if let Some(object) = self.object_at(id) {
                if object.owner_seat == seat {
                    return Actor::Me;
                }
                if object.owner_seat.is_some() {
                    return Actor::Opponent;
                }
            }
            if seat.is_some() && (id == 1 || id == 2) {
                return Actor::Opponent;
            }
        }
        if affected.len() > 0 {
            if let Some(first) = self.object_at(affected[0]) {
                if first.owner_seat == seat {
                    return Actor::Me;
                }
                if first.owner_seat.is_some() {
                    return Actor::Opponent;
                }
            }
        }
        Actor::Game
    }

    /// The instance ids of the selected zones, one zone after another (see `zone_ids_from`).
    fn zone_ids(&self, ty: &str, owner: Option<u32>) -> (r: Vec<u32>)
        ensures
            r@ == zone_ids_from(self@.zones, ty@, owner, 0),
    {
        let ghost zv = self@.zones;
        let mut r: Vec<u32> = Vec::new();
        let mut i: usize = 0;
        while i < self.zones.len()
            invariant
                i <= self.zones.len(),
                zv == self@.zones,
                zv == zones_view(self.zones@),
                r@ + zone_ids_from(zv, ty@, owner, i as int) == zone_ids_from(zv, ty@, owner, 0),
            decreases self.zones.len() - i,
        {
            let zone = &self.zones[i].1;
            assert(zv[i as int] == (self.zones@[i as int].0, zone@));
            let selected = str_eq(zone.zone_type.as_str(), ty) && (owner.is_none()
                || zone.owner_seat == owner);
            if selected {
                let ghost before = r@;
                let mut k: usize = 0;
                while k < zone.instance_ids.len()
                    invariant
                        k <= zone.instance_ids.len(),
                        r@ == before + zone.instance_ids@.take(k as int),
                    decreases zone.instance_ids.len() - k,
                {
                    r.push(zone.instance_ids[k]);
                    k = k + 1;
                    assert(r@ =~= before + zone.instance_ids@.take(k as int));
                }
                assert(zone.instance_ids@.take(k as int) =~= zone.instance_ids@);
                assert(before + zone_ids_from(zv, ty@, owner, i as int) =~= r@ + zone_ids_from(
                    zv,
                    ty@,
                    owner,
                    i + 1,
                ));
            }
            i = i + 1;
        }
        assert(r@ + zone_ids_from(zv, ty@, owner, i as int) =~= r@);
        r
    }

    /// How many objects `owner`'s zones of type `ty` hold (see `zone_size_spec`).
    fn zone_size(&self, ty: &str, owner: Option<u32>) -> (r: Option<u32>)
        ensures
            r == zone_size_spec(self@, ty@, owner),
    {
        let o = match owner {
            Some(o) => o,
            None => return None,
        };
        let ghost zv = self@.zones;
        let mut found = false;
        let mut sum: u128 = 0;
        let mut i: usize = self.zones.len();
        while i > 0
            invariant
                i <= self.zones.len(),
                zv == self@.zones,
                zv == zones_view(self.zones@),
                found == zone_found_from(zv, ty@, o, i as int),
                sum as nat == zone_count_from(zv, ty@, o, i as int),
                sum <= (self.zones.len() - i) * 0x1_0000_0000_0000_0000,
            decreases i,
        {
            i = i - 1;
            let zone = &self.zones[i].1;
            assert(zv[i as int] == (self.zones@[i as int].0, zone@));
            if str_eq(zone.zone_type.as_str(), ty) && zone.owner_seat == Some(o) {
                found = true;
                sum = sum + (zone.instance_ids.len() as u128);
            }
        }
        if found {
            Some(sum as u32)
        } else {
            None
        }
    }

    /// At most the first sixteen of `v`.
    fn keep_first_16(v: Vec<u32>) -> (r: Vec<u32>)
        ensures
            r@ == first_n(v@, 16),
    {
        let ghost before = v@;
        let mut v = v;
        if v.len() > MAX_CONTEXT_CARDS {
            v.truncate(MAX_CONTEXT_CARDS);
            assert(v@ =~= first_n(before, 16));
        }
        v
    }

    /// The visible cards in the selected zones of type `ty`, at most sixteen.
    fn zone_cards(&self, ty: &str, owner: Option<u32>) -> (r: Vec<u32>)
        ensures
            r@ == zone_cards_spec(self@, ty@, owner),
    {
        let ids = self.zone_ids(ty, owner);
        let cards = self.visible_card_ids(&ids);
        Self::keep_first_16(cards)
    }

    /// The ids of the battlefield zones.
    fn battlefield_zone_ids(&self) -> (r: Vec<u32>)
        ensures
            r@ == battlefield_zone_ids_from(self@.zones, 0),
    {
        let ghost zv = self@.zones;
        let mut r: Vec<u32> = Vec::new();
        let mut i: usize = 0;
        while i < self.zones.len()
            invariant
                i <= self.zones.len(),
                zv == self@.zones,
                zv == zones_view(self.zones@),
                r@ + battlefield_zone_ids_from(zv, i as int) == battlefield_zone_ids_from(zv, 0),
            decreases self.zones.len() - i,
        {
            assert(zv[i as int] == (self.zones@[i as int].0, self.zones@[i as int].1@));
            if str_eq(self.zones[i].1.zone_type.as_str(), "ZoneType_Battlefield") {
                let id = self.zones[i].0;
                assert(r@.push(id) + battlefield_zone_ids_from(zv, i + 1) =~= r@
                    + battlefield_zone_ids_from(zv, i as int));
                r.push(id);
            }
            i = i + 1;
        }
        assert(r@ + battlefield_zone_ids_from(zv, i as int) =~= r@);
        r
    }

    /// The ids of the objects that lie in one of the zones `zone_ids`.
    fn objects_in_zones(&self, zone_ids: &Vec<u32>) -> (r: Vec<u32>)
        ensures
            r@ == objects_in_zones_from(self@.objects, zone_ids@, 0),
    {
        let ghost ov = self@.objects;
        let mut r: Vec<u32> = Vec::new();
        let mut i: usize = 0;
        while i < self.objects.len()
            invariant
                i <= self.objects.len(),
                ov == self@.objects,
                ov == objects_view(self.objects@),
                r@ + objects_in_zones_from(ov, zone_ids@, i as int) == objects_in_zones_from(
                    ov,
                    zone_ids@,
                    0,
                ),
            decreases self.objects.len() - i,
        {
            assert(ov[i as int] == (self.objects@[i as int].0, self.objects@[i as int].1@));
            if let Some(z) = self.objects[i].1.zone_id {
                if vec_contains_u32(zone_ids, z) {
                    let id = self.objects[i].0;
                    assert(r@.push(id) + objects_in_zones_from(ov, zone_ids@, i + 1) =~= r@
                        + objects_in_zones_from(ov, zone_ids@, i as int));
                    r.push(id);
                }
            }
            i = i + 1;
        }
        assert(r@ + objects_in_zones_from(ov, zone_ids@, i as int) =~= r@);
        r
    }

    /// The ids among `ids` that belong to `owner`.
    fn owned(&self, ids: &Vec<u32>, owner: Option<u32>) -> (r: Vec<u32>)
        ensures
            r@ == owned_from(self@.objects, ids@, owner, 0),
    {
        let mut r: Vec<u32> = Vec::new();
        let mut i: usize = 0;
        while i < ids.len()
            invariant
                i <= ids.len(),
                r@ + owned_from(self@.objects, ids@, owner, i as int) == owned_from(
                    self@.objects,
                    ids@,
                    owner,
                    0,
                ),
            decreases ids.len() - i,
        {
            let keep = owner.is_none() || match self.object_at(ids[i]) {
                Some(o) => o.owner_seat == owner,
                None => false,
            };
            if keep {
                assert(r@.push(ids[i as int]) + owned_from(self@.objects, ids@, owner, i + 1)
                    =~= r@ + owned_from(self@.objects, ids@, owner, i as int));
                r.push(ids[i]);
            }
            i = i + 1;
        }
        assert(r@ + owned_from(self@.objects, ids@, owner, i as int) =~= r@);
        r
    }

    /// The visible cards `owner` has on the battlefield (see `battlefield_cards_spec`).
    fn battlefield_cards(&self, owner: Option<u32>) -> (r: Vec<u32>)
        ensures
            r@ == battlefield_cards_spec(self@, owner),
    {
        let zone_ids = self.battlefield_zone_ids();
        let listed = self.zone_ids("ZoneType_Battlefield", None);
        let ids = if listed.len() == 0 {
            self.objects_in_zones(&zone_ids)
        } else {
            listed
        };
        let kept = self.owned(&ids, owner);
        let cards = self.visible_card_ids(&kept);
        Self::keep_first_16(cards)
    }

    /// The life total recorded for a seat.
    fn life_of(&self, seat: Option<u32>) -> (r: Option<i32>)
        ensures
            r == life_of(self@, seat),
    {
        match seat {
            Some(id) => {
                let pos = key_pos(&self.life_totals, id);
                if pos < self.life_totals.len() {
                    Some(self.life_totals[pos].1)
                } else {
                    None
                }
            },
            None => None,
        }
    }

    /// What the player could see when taking a decision (see `decision_context_spec`).
    fn decision_context(&self, kind: EventKind) -> (r: Option<DecisionContext>)
        ensures
            match r {
                Some(c) => decision_context_spec(self@, kind) == Some(c@),
                None => decision_context_spec(self@, kind) is None,
            },
    {
        let wanted = match kind {
            EventKind::Cast | EventKind::Land | EventKind::Attack | EventKind::Block
            | EventKind::Keep | EventKind::Mulligan => true,
            _ => false,
        };
        proof {
            reveal(decision_context_spec);
        }
        if !wanted {
            return None;
        }
        let seat = self.player_seat;
        let opp = match seat {
            Some(id) => Some(
                if id == 1 {
                    2u32
                } else {
                    1u32
                },
            ),
            None => None,
        };
        let context = DecisionContext {
            my_hand: self.zone_cards("ZoneType_Hand", seat),
            my_board: self.battlefield_cards(seat),
            opp_board: self.battlefield_cards(opp),
            opp_hand: self.zone_cards("ZoneType_Hand", opp),
            opp_hand_count: self.zone_size("ZoneType_Hand", opp),
            my_life: self.life_of(seat),
            opp_life: self.life_of(opp),
            legal: copy_legal(&self.legal),
        };
        if context.is_empty() {
            None
        } else {
            Some(context)
        }
    }

    /// Adds an event to the timeline (see `record_event_spec`).
    fn record_event(&mut self, actor: Actor, kind: EventKind, card_ids: Vec<u32>, note: String)
        ensures
            final(self)@ == record_event_spec(old(self)@, actor, kind, card_ids@, note@),
    {
        let context = self.decision_context(kind);
        let t_ms = self.next_t_ms;
        self.next_t_ms = if t_ms > u64::MAX - 1000 {
            u64::MAX
        } else {
            t_ms + 1000
        };
        let event = TimelineEvent {
            t_ms,
            turn: self.turn,
            phase: copy_opt_str(&self.phase),
            step: copy_opt_str(&self.step),
            actor,
            kind,
            card_ids,
            note,
            context,
        };
        let ghost ev = event@;
        self.timeline.push(event);
        assert(self@.timeline =~= old(self)@.timeline.push(ev));
        proof {
            reveal(record_event_spec);
        }
    }
}

/// Whether `v` holds `x`.
fn vec_contains_u32(v: &Vec<u32>, x: u32) -> (r: bool)
    ensures
        r == v@.contains(x),
{
    let mut i: usize = 0;
    while i < v.len()
        invariant
            i <= v.len(),
            forall|j: int| 0 <= j < i ==> v@[j] != x,
        decreases v.len() - i,
    {
        if v[i] == x {
            assert(v@[i as int] == x);
            return true;
        }
        i = i + 1;
    }
    false
}


// ---------------------------------------------------------------------------
// Messages from the client and requests to the player
// ---------------------------------------------------------------------------

/// The member `k2` of the member `k1`.
pub fn get_in<'a>(v: &'a JsonValue, k1: &str, k2: &str) -> (r: Option<&'a JsonValue>)
    ensures
        opt_view(r) == opt_get(v@.get(k1@), k2@),
{
    match v.get(k1) {
        Some(x) => x.get(k2),
        None => None,
    }
}

/// An optional value read as an array.
pub open spec fn opt_array(v: Option<JsonView>) -> Option<Seq<JsonView>> {
    match v {
        Some(x) => x.as_array(),
        None => None,
    }
}

/// An optional value read as a string, or the empty string.
pub open spec fn str_or_empty(v: Option<Seq<char>>) -> Seq<char> {
    match v {
        Some(s) => s,
        None => Seq::empty(),
    }
}

/// The ids that the member `key` of the items from index `i` on holds, read as `u32`.
pub open spec fn ids_of_field_from(items: Seq<JsonView>, key: Seq<char>, i: int) -> Seq<u32>
    decreases items.len() - i,
{
    if i < 0 || i >= items.len() {
        Seq::empty()
    } else {
        match opt_u32(items[i].get(key)) {
            Some(n) => seq![n] + ids_of_field_from(items, key, i + 1),
            None => ids_of_field_from(items, key, i + 1),
        }
    }
}

/// The ids that the member `key` of each item holds, read as `u32`.
pub fn ids_of_field(items: &Vec<JsonValue>, key: &str) -> (r: Vec<u32>)
    ensures
        r@ == ids_of_field_from(items_view(items@), key@, 0),
{
    proof {
        lemma_items_view(items@);
    }
    let ghost iv = items_view(items@);
    let mut r: Vec<u32> = Vec::new();
    let mut i: usize = 0;
    while i < items.len()
        invariant
            i <= items.len(),
            iv == items_view(items@),
            iv.len() == items@.len(),
            forall|j: int| 0 <= j < items@.len() ==> #[trigger] iv[j] == items@[j]@,
            r@ + ids_of_field_from(iv, key@, i as int) == ids_of_field_from(iv, key@, 0),
        decreases items.len() - i,
    {
        assert(iv[i as int] == items@[i as int]@);
        match u32_at(&items[i], key) {
            Some(n) => {
                assert(r@.push(n) + ids_of_field_from(iv, key@, i + 1) =~= r@ + ids_of_field_from(
                    iv,
                    key@,
                    i as int,
                ));
                r.push(n);
            },
            None => {
            },
        }
        i = i + 1;
    }
    assert(r@ + ids_of_field_from(iv, key@, i as int) =~= r@);
    r
}

/// A value is a client message: it wraps one, or its type names one.
pub open spec fn looks_like_client_spec(v: JsonView) -> bool {
    ||| v.get("clientToGREMessage"@) is Some
    ||| v.get("clientToGreMessage"@) is Some
    ||| match v.str_at("type"@) {
        Some(t) => starts_with_seq(t, "ClientMessageType_"@),
        None => false,
    }
}

/// The ids that a client response selected: `resp_key`, then `list_key`, then each item's
/// `id_key`.
pub open spec fn selected_ids(message: JsonView, resp_key: Seq<char>, list_key: Seq<char>, id_key: Seq<char>) -> Seq<u32> {
    match opt_array(opt_get(message.get(resp_key), list_key)) {
        Some(items) => ids_of_field_from(items, id_key, 0),
        None => Seq::empty(),
    }
}

/// The message a client value carries: the one it wraps, else the value itself.
pub open spec fn client_message_of(value: JsonView) -> JsonView {
    match either(value.get("clientToGREMessage"@), value.get("clientToGreMessage"@)) {
        Some(m) => m,
        None => value,
    }
}

/// A mulligan response records a keep (when the decision says accept or keep) or a
/// mulligan, with the player's hand.
pub open spec fn mulligan_spec(st: AssemblerView, message: JsonView) -> AssemblerView {
    let decision = str_or_empty(
        match opt_get(message.get("mulliganResp"@), "decision"@) {
            Some(d) => d.as_str(),
            None => None,
        },
    );
    let keep = contains_seq(decision, "Accept"@) || contains_seq(decision, "Keep"@);
    let cards = zone_cards_spec(st, "ZoneType_Hand"@, st.player_seat);
    if keep {
        record_event_spec(st, Actor::Me, EventKind::Keep, cards, "Keep"@)
    } else {
        record_event_spec(st, Actor::Me, EventKind::Mulligan, cards, "Mulligan"@)
    }
}

/// A response that selected some objects records an event of `kind` by the player with the
/// visible cards among them; one that selected none records nothing.
pub open spec fn selection_spec(st: AssemblerView, ids: Seq<u32>, kind: EventKind, note: Seq<char>) -> AssemblerView {
    if ids.len() == 0 {
        st
    } else {
        record_event_spec(st, Actor::Me, kind, visible_cards(st.objects, ids), note)
    }
}

/// What a message from the client adds: a keep or mulligan with the hand, or the player's
/// attack or block with the visible cards selected.
pub open spec fn client_message_spec(st: AssemblerView, value: JsonView) -> AssemblerView {
    let message = client_message_of(value);
    let ty = str_or_empty(message.str_at("type"@));
    if ty == "ClientMessageType_MulliganResp"@ {
        mulligan_spec(st, message)
    } else if ty == "ClientMessageType_DeclareAttackersResp"@ {
        selection_spec(
            st,
            selected_ids(message, "declareAttackersResp"@, "selectedAttackers"@, "attackerInstanceId"@),
            EventKind::Attack,
            "attack"@,
        )
    } else if ty == "ClientMessageType_DeclareBlockersResp"@ {
        selection_spec(
            st,
            selected_ids(message, "declareBlockersResp"@, "selectedBlockers"@, "blockerInstanceId"@),
            EventKind::Block,
            "block"@,
        )
    } else {
        st
    }
}

/// A request is for the local player when the seat is unknown, the request names no seats,
/// or one of the seats it names is the player's.
pub open spec fn for_us_spec(st: AssemblerView, message: JsonView) -> bool {
    match st.player_seat {
        None => true,
        Some(seat) => match message.array_at("systemSeatIds"@) {
            None => true,
            Some(seats) => u32s_from(seats, 0).contains(seat),
        },
    }
}

/// The offered actions from index `i` on.
pub open spec fn legal_actions_from(actions: Seq<JsonView>, i: int) -> Seq<LegalActionView>
    decreases actions.len() - i,
{
    if i < 0 || i >= actions.len() {
        Seq::empty()
    } else {
        match legal_action_spec(actions[i]) {
            Some(a) => seq![a] + legal_actions_from(actions, i + 1),
            None => legal_actions_from(actions, i + 1),
        }
    }
}

/// Actions named `name` on the known objects among `ids[i..]`.
pub open spec fn known_actions_from(objs: Seq<(u32, ObjectView)>, ids: Seq<u32>, name: Seq<char>, i: int) -> Seq<LegalActionView>
    decreases ids.len() - i,
{
    if i < 0 || i >= ids.len() {
        Seq::empty()
    } else {
        match assoc_get(objs, ids[i]) {
            Some(o) => seq![LegalActionView { action: name, grp_id: o.grp_id }]
                + known_actions_from(objs, ids, name, i + 1),
            None => known_actions_from(objs, ids, name, i + 1),
        }
    }
}

/// An actions request for the player replaces the offered actions (at most sixteen).
pub open spec fn actions_available_spec(st: AssemblerView, message: JsonView) -> AssemblerView {
    if !for_us_spec(st, message) {
        st
    } else {
        match opt_array(opt_get(message.get("actionsAvailableReq"@), "actions"@)) {
            None => st,
            Some(actions) => AssemblerView {
                legal: first_n(legal_actions_from(actions, 0), 16),
                ..st
            },
        }
    }
}

/// An attackers request for the player offers an attack with each known attacker.
pub open spec fn attackers_req_spec(st: AssemblerView, message: JsonView) -> AssemblerView {
    if !for_us_spec(st, message) {
        st
    } else {
        let list = match message.get("declareAttackersReq"@) {
            Some(req) => opt_array(either(req.get("qualifiedAttackers"@), req.get("attackers"@))),
            None => None,
        };
        let ids = match list {
            Some(items) => ids_of_field_from(items, "attackerInstanceId"@, 0),
            None => Seq::empty(),
        };
        AssemblerView { legal: first_n(known_actions_from(st.objects, ids, "attack"@, 0), 16), ..st }
    }
}

/// `acc` followed by those of `ids[j..]` it does not hold yet, each once.
pub open spec fn add_new_from(acc: Seq<u32>, ids: Seq<u32>, j: int) -> Seq<u32>
    decreases ids.len() - j,
{
    if j < 0 || j >= ids.len() {
        acc
    } else {
        add_new_from(
            if acc.contains(ids[j]) {
                acc
            } else {
                acc.push(ids[j])
            },
            ids,
            j + 1,
        )
    }
}

/// The attackers the blockers from index `i` on face, each once, after `acc`.
pub open spec fn attackers_faced_from(blockers: Seq<JsonView>, i: int, acc: Seq<u32>) -> Seq<u32>
    decreases blockers.len() - i,
{
    if i < 0 || i >= blockers.len() {
        acc
    } else {
        let next = match blockers[i].array_at("attackerInstanceIds"@) {
            Some(items) => add_new_from(acc, u32s_from(items, 0), 0),
            None => acc,
        };
        attackers_faced_from(blockers, i + 1, next)
    }
}

/// A blockers request for the player records the opponent's attack and offers a block with
/// each known blocker.
pub open spec fn blockers_req_spec(st: AssemblerView, message: JsonView) -> AssemblerView {
    if !for_us_spec(st, message) {
        st
    } else {
        let blockers = match opt_array(opt_get(message.get("declareBlockersReq"@), "blockers"@)) {
            Some(b) => b,
            None => Seq::empty(),
        };
        let attackers = attackers_faced_from(blockers, 0, Seq::empty());
        let s1 = if attackers.len() > 0 {
            record_event_spec(
                st,
                Actor::Opponent,
                EventKind::Attack,
                visible_cards(st.objects, attackers),
                "attack"@,
            )
        } else {
            st
        };
        let ids = ids_of_field_from(blockers, "blockerInstanceId"@, 0);
        AssemblerView { legal: first_n(known_actions_from(s1.objects, ids, "block"@, 0), 16), ..s1 }
    }
}

impl GreAssembler {
    /// Whether a message is a client message (see `looks_like_client_spec`).
    fn looks_like_client_message(value: &JsonValue) -> (r: bool)
        ensures
            r == looks_like_client_spec(value@),
    {
        if value.get("clientToGREMessage").is_some() || value.get("clientToGreMessage").is_some() {
            return true;
        }
        match value.str_at("type") {
            Some(t) => {
                let tv = chars_of(t);
                let prefix = chars_of("ClientMessageType_");
                starts_with_chars(&tv, &prefix)
            },
            None => false,
        }
    }

    /// Records a mulligan response (see `mulligan_spec`).
    fn handle_mulligan(&mut self, message: &JsonValue)
        ensures
            final(self)@ == mulligan_spec(old(self)@, message@),
    {
        proof {
            reveal_strlit("");
        }
        let decision: &str = match get_in(message, "mulliganResp", "decision") {
            Some(d) => match d.as_str() {
                Some(s) => s,
                None => "",
            },
            None => "",
        };
        let keep = str_contains(decision, "Accept") || str_contains(decision, "Keep");
        let cards = self.zone_cards("ZoneType_Hand", self.player_seat);
        let ghost decision_spec = str_or_empty(
            match opt_get(message@.get("mulliganResp"@), "decision"@) {
                Some(d) => d.as_str(),
                None => None,
            },
        );
        assert(decision@ == decision_spec);
        assert(keep == (contains_seq(decision_spec, "Accept"@) || contains_seq(decision_spec, "Keep"@)));
        assert(cards@ == zone_cards_spec(self@, "ZoneType_Hand"@, self@.player_seat));
        if keep {
            self.record_event(Actor::Me, EventKind::Keep, cards, "Keep".to_owned());
        } else {
            self.record_event(Actor::Me, EventKind::Mulligan, cards, "Mulligan".to_owned());
        }
    }

    /// The ids a client response selected (see `selected_ids`).
    fn selected(message: &JsonValue, resp_key: &str, list_key: &str, id_key: &str) -> (r: Vec<u32>)
        ensures
            r@ == selected_ids(message@, resp_key@, list_key@, id_key@),
    {
        match get_in(message, resp_key, list_key) {
            Some(list) => match list.as_array() {
                Some(items) => ids_of_field(items, id_key),
                None => Vec::new(),
            },
            None => Vec::new(),
        }
    }

    /// Records a selection response (see `selection_spec`).
    fn handle_selection(&mut self, ids: Vec<u32>, kind: EventKind, note: &str)
        ensures
            final(self)@ == selection_spec(old(self)@, ids@, kind, note@),
    {
        if ids.len() == 0 {
            return;
        }
        let cards = self.visible_card_ids(&ids);
        self.record_event(Actor::Me, kind, cards, note.to_owned());
    }

    /// Adds what a client message records (see `client_message_spec`).
    fn handle_client_to_gre(&mut self, value: &JsonValue)
        ensures
            final(self)@ == client_message_spec(old(self)@, value@),
    {
        let message = match get_either(value, "clientToGREMessage", "clientToGreMessage") {
            Some(m) => m,
            None => value,
        };
        proof {
            reveal_strlit("");
        }
        let ty: &str = match message.str_at("type") {
            Some(t) => t,
            None => "",
        };
        assert(message@ == client_message_of(value@));
        assert(ty@ == str_or_empty(message@.str_at("type"@)));
        if str_eq(ty, "ClientMessageType_MulliganResp") {
            self.handle_mulligan(message);
            assert(self@ == client_message_spec(old(self)@, value@));
        } else if str_eq(ty, "ClientMessageType_DeclareAttackersResp") {
            let ids = Self::selected(
                message,
                "declareAttackersResp",
                "selectedAttackers",
                "attackerInstanceId",
            );
            self.handle_selection(ids, EventKind::Attack, "attack");
            assert(self@ == client_message_spec(old(self)@, value@));
        } else if str_eq(ty, "ClientMessageType_DeclareBlockersResp") {
            let ids = Self::selected(
                message,
                "declareBlockersResp",
                "selectedBlockers",
                "blockerInstanceId",
            );
            self.handle_selection(ids, EventKind::Block, "block");
            assert(self@ == client_message_spec(old(self)@, value@));
        } else {
            assert(message@ == client_message_of(value@));
            assert(ty@ == str_or_empty(message@.str_at("type"@)));
            assert(client_message_spec(old(self)@, value@) == old(self)@);
        }
    }

    /// Whether a request is for the local player (see `for_us_spec`).
    fn message_is_for_us(&self, message: &JsonValue) -> (r: bool)
        ensures
            r == for_us_spec(self@, message@),
    {
        let seat = match self.player_seat {
            Some(s) => s,
            None => return true,
        };
        match message.array_at("systemSeatIds") {
            Some(seats) => {
                let ids = u32s_of(seats);
                vec_contains_u32(&ids, seat)
            },
            None => true,
        }
    }

    /// The offered actions among `actions`, at most sixteen.
    fn legal_actions(actions: &Vec<JsonValue>) -> (r: Vec<LegalAction>)
        ensures
            legal_view(r@) == first_n(legal_actions_from(items_view(actions@), 0), 16),
    {
        proof {
            lemma_items_view(actions@);
        }
        let ghost av = items_view(actions@);
        let mut r: Vec<LegalAction> = Vec::new();
        let mut i: usize = 0;
        while i < actions.len()
            invariant
                i <= actions.len(),
                av == items_view(actions@),
                av.len() == actions@.len(),
                forall|j: int| 0 <= j < actions@.len() ==> #[trigger] av[j] == actions@[j]@,
                legal_view(r@) + legal_actions_from(av, i as int) == legal_actions_from(av, 0),
            decreases actions.len() - i,
        {
            assert(av[i as int] == actions@[i as int]@);
            match legal_action_from(&actions[i]) {
                Some(a) => {
                    let ghost a_view = a@;
                    let ghost before = r@;
                    r.push(a);
                    assert(legal_view(r@) =~= legal_view(before).push(a_view));
                    assert(legal_view(r@) + legal_actions_from(av, i + 1) =~= legal_view(before)
                        + legal_actions_from(av, i as int));
                },
                None => {
                },
            }
            i = i + 1;
        }
        assert(legal_view(r@) + legal_actions_from(av, i as int) =~= legal_view(r@));
        Self::keep_first_16_actions(r)
    }

    /// At most the first sixteen actions.
    fn keep_first_16_actions(v: Vec<LegalAction>) -> (r: Vec<LegalAction>)
        ensures
            legal_view(r@) == first_n(legal_view(v@), 16),
    {
        let ghost before = v@;
        let mut v = v;
        if v.len() > MAX_CONTEXT_CARDS {
            v.truncate(MAX_CONTEXT_CARDS);
            assert(legal_view(v@) =~= first_n(legal_view(before), 16));
        }
        v
    }

    /// Actions named `name` on the known objects among `ids`, at most sixteen.
    fn known_actions(&self, ids: &Vec<u32>, name: &str) -> (r: Vec<LegalAction>)
        ensures
            legal_view(r@) == first_n(known_actions_from(self@.objects, ids@, name@, 0), 16),
    {
        let mut r: Vec<LegalAction> = Vec::new();
        let mut i: usize = 0;
        while i < ids.len()
            invariant
                i <= ids.len(),
                legal_view(r@) + known_actions_from(self@.objects, ids@, name@, i as int)
                    == known_actions_from(self@.objects, ids@, name@, 0),
            decreases ids.len() - i,
        {
            match self.object_at(ids[i]) {
                Some(o) => {
                    let a = LegalAction { action: name.to_owned(), grp_id: o.grp_id };
                    let ghost a_view = a@;
                    let ghost before = r@;
                    r.push(a);
                    assert(legal_view(r@) =~= legal_view(before).push(a_view));
                    assert(legal_view(r@) + known_actions_from(self@.objects, ids@, name@, i + 1)
                        =~= legal_view(before) + known_actions_from(
                        self@.objects,
                        ids@,
                        name@,
                        i as int,
                    ));
                },
                None => {
                },
            }
            i = i + 1;
        }
        assert(legal_view(r@) + known_actions_from(self@.objects, ids@, name@, i as int)
            =~= legal_view(r@));
        Self::keep_first_16_actions(r)
    }

    /// Takes an actions request (see `actions_available_spec`).
    fn handle_actions_available(&mut self, message: &JsonValue)
        ensures
            final(self)@ == actions_available_spec(old(self)@, message@),
    {
        if !self.message_is_for_us(message) {
            return;
        }
        let actions = match get_in(message, "actionsAvailableReq", "actions") {
            Some(list) => match list.as_array() {
                Some(items) => items,
                None => return,
            },
            None => return,
        };
        self.legal = Self::legal_actions(actions);
    }

    /// Takes an attackers request (see `attackers_req_spec`).
    fn handle_declare_attackers_req(&mut self, message: &JsonValue)
        ensures
            final(self)@ == attackers_req_spec(old(self)@, message@),
    {
        if !self.message_is_for_us(message) {
            return;
        }
        let ids = match message.get("declareAttackersReq") {
            Some(req) => match get_either(req, "qualifiedAttackers", "attackers") {
                Some(list) => match list.as_array() {
                    Some(items) => ids_of_field(items, "attackerInstanceId"),
                    None => Vec::new(),
                },
                None => Vec::new(),
            },
            None => Vec::new(),
        };
        self.legal = self.known_actions(&ids, "attack");
    }

    /// The attackers that a list of blockers faces, each once (see `attackers_faced_from`).
    fn attackers_faced(blockers: &Vec<JsonValue>) -> (r: Vec<u32>)
        ensures
            r@ == attackers_faced_from(items_view(blockers@), 0, Seq::empty()),
    {
        proof {
            lemma_items_view(blockers@);
        }
        let ghost bv = items_view(blockers@);
        let mut acc: Vec<u32> = Vec::new();
        let mut i: usize = 0;
        while i < blockers.len()
            invariant
                i <= blockers.len(),
                bv == items_view(blockers@),
                bv.len() == blockers@.len(),
                forall|j: int| 0 <= j < blockers@.len() ==> #[trigger] bv[j] == blockers@[j]@,
                attackers_faced_from(bv, i as int, acc@) == attackers_faced_from(
                    bv,
                    0,
                    Seq::empty(),
                ),
            decreases blockers.len() - i,
        {
            assert(bv[i as int] == blockers@[i as int]@);
            match blockers[i].array_at("attackerInstanceIds") {
                Some(items) => {
                    let ids = u32s_of(items);
                    let ghost start = acc@;
                    let mut j: usize = 0;
                    while j < ids.len()
                        invariant
                            j <= ids.len(),
                            add_new_from(acc@, ids@, j as int) == add_new_from(start, ids@, 0),
                        decreases ids.len() - j,
                    {
                        if !vec_contains_u32(&acc, ids[j]) {
                            acc.push(ids[j]);
                        }
                        j = j + 1;
                    }
                },
                None => {
                },
            }
            i = i + 1;
        }
        acc
    }
}


// ---------------------------------------------------------------------------
// Annotations
// ---------------------------------------------------------------------------

/// The event kind of a zone transfer, by its category.
pub open spec fn transfer_kind(category: Option<Seq<char>>) -> EventKind {
    if category == Some("PlayLand"@) {
        EventKind::Land
    } else if category == Some("CastSpell"@) {
        EventKind::Cast
    } else if category == Some("Draw"@) {
        EventKind::Draw
    } else if category == Some("Resolve"@) {
        EventKind::Resolve
    } else if category == Some("SBA_Damage"@) {
        EventKind::Die
    } else {
        EventKind::Zone
    }
}

/// The kind and note of the event an annotation of type `kind_name` makes, if any.
pub open spec fn annotation_event(
    kind_name: Seq<char>,
    details: Seq<JsonView>,
    phase: Option<Seq<char>>,
) -> Option<(EventKind, Seq<char>)> {
    let category = detail_string_from(details, "category"@, 0);
    if kind_name == "AnnotationType_ZoneTransfer"@ {
        Some(
            (
                transfer_kind(category),
                match category {
                    Some(c) => c,
                    None => "ZoneTransfer"@,
                },
            ),
        )
    } else if kind_name == "AnnotationType_DamageDealt"@ {
        let amount: i64 = match detail_int_from(details, "damage"@, 0) {
            Some(n) => n,
            None => 0,
        };
        Some((EventKind::Damage, "damage "@ + decimal_int(amount as int)))
    } else if kind_name == "AnnotationType_ModifiedLife"@ {
        let amount: i64 = match either(
            detail_int_from(details, "life"@, 0),
            detail_int_from(details, "value"@, 0),
        ) {
            Some(n) => n,
            None => 0,
        };
        Some((EventKind::Life, "life "@ + decimal_int(amount as int)))
    } else if kind_name == "AnnotationType_DeclaredAttackers"@ {
        Some((EventKind::Attack, "attack"@))
    } else if kind_name == "AnnotationType_DeclaredBlockers"@ {
        Some((EventKind::Block, "block"@))
    } else if kind_name == "AnnotationType_PhaseOrStepModified"@ {
        if phase == Some("Phase_Ending"@) {
            Some((EventKind::Pass, "pass"@))
        } else {
            None
        }
    } else {
        None
    }
}

/// An annotation's type name: the first of its types, when it is a string.
pub open spec fn annotation_type_name(annotation: JsonView) -> Seq<char> {
    match annotation.array_at("type"@) {
        Some(types) => if types.len() > 0 {
            str_or_empty(types[0].as_str())
        } else {
            Seq::empty()
        },
        None => Seq::empty(),
    }
}

/// The ids an annotation affects.
pub open spec fn affected_ids(annotation: JsonView) -> Seq<u32> {
    match annotation.array_at("affectedIds"@) {
        Some(items) => u32s_from(items, 0),
        None => Seq::empty(),
    }
}

/// An annotation's details.
pub open spec fn annotation_details(annotation: JsonView) -> Seq<JsonView> {
    match annotation.array_at("details"@) {
        Some(d) => d,
        None => Seq::empty(),
    }
}

/// What an annotation adds: an event with the visible affected cards, by the actor it names,
/// for the annotation types that make one.
pub open spec fn annotation_spec(st: AssemblerView, annotation: JsonView) -> AssemblerView {
    let affected = affected_ids(annotation);
    let cards = visible_cards(st.objects, affected);
    let actor = actor_for_spec(st, opt_u32(annotation.get("affectorId"@)), affected);
    match annotation_event(annotation_type_name(annotation), annotation_details(annotation), st.phase) {
        Some((kind, note)) => record_event_spec(st, actor, kind, cards, note),
        None => st,
    }
}

/// A zone transfer always adds one event to the timeline, by the kind of move its category
/// names: a land played, a spell cast, a card drawn, a spell resolved, a creature dying from
/// damage, or else a plain zone move. The event carries the category as its note (or
/// `ZoneTransfer` without one) and the visible cards the annotation affects.
pub proof fn law_zone_transfer_event(st: AssemblerView, annotation: JsonView)
    requires
        annotation_type_name(annotation) == "AnnotationType_ZoneTransfer"@,
    ensures
        annotation_spec(st, annotation).timeline.len() == st.timeline.len() + 1,
        annotation_spec(st, annotation).timeline.subrange(0, st.timeline.len() as int) == st.timeline,
        annotation_spec(st, annotation).timeline.last().kind == (match detail_string_from(
            annotation_details(annotation),
            "category"@,
            0,
        ) {
            Some(c) => if c == "PlayLand"@ {
                EventKind::Land
            } else if c == "CastSpell"@ {
                EventKind::Cast
            } else if c == "Draw"@ {
                EventKind::Draw
            } else if c == "Resolve"@ {
                EventKind::Resolve
            } else if c == "SBA_Damage"@ {
                EventKind::Die
            } else {
                EventKind::Zone
            },
            None => EventKind::Zone,
        }),
        annotation_spec(st, annotation).timeline.last().note == (match detail_string_from(
            annotation_details(annotation),
            "category"@,
            0,
        ) {
            Some(c) => c,
            None => "ZoneTransfer"@,
        }),
        annotation_spec(st, annotation).timeline.last().card_ids == visible_cards(
            st.objects,
            affected_ids(annotation),
        ),
{
    reveal(record_event_spec);
    let after = annotation_spec(st, annotation);
    assert(after.timeline.subrange(0, st.timeline.len() as int) =~= st.timeline);
}

/// The annotations from index `i` on, one after another.
pub open spec fn annotations_from(st: AssemblerView, anns: Seq<JsonView>, i: int) -> AssemblerView
    decreases anns.len() - i,
{
    if i < 0 || i >= anns.len() {
        st
    } else {
        annotations_from(annotation_spec(st, anns[i]), anns, i + 1)
    }
}

/// The kind and note of an annotation's event (see `annotation_event`).
fn annotation_event_exec(kind_name: &str, details: &Vec<JsonValue>, phase: &Option<String>) -> (r: Option<(EventKind, String)>)
    ensures
        match r {
            Some((k, n)) => annotation_event(kind_name@, items_view(details@), opt_str_view(*phase)) == Some((k, n@)),
            None => annotation_event(kind_name@, items_view(details@), opt_str_view(*phase)) is None,
        },
{
    let category = detail_string(details, "category");
    if str_eq(kind_name, "AnnotationType_ZoneTransfer") {
        let kind = match &category {
            Some(c) => {
                if str_eq(c.as_str(), "PlayLand") {
                    EventKind::Land
                } else if str_eq(c.as_str(), "CastSpell") {
                    EventKind::Cast
                } else if str_eq(c.as_str(), "Draw") {
                    EventKind::Draw
                } else if str_eq(c.as_str(), "Resolve") {
                    EventKind::Resolve
                } else if str_eq(c.as_str(), "SBA_Damage") {
                    EventKind::Die
                } else {
                    EventKind::Zone
                }
            },
            None => EventKind::Zone,
        };
        let note = match category {
            Some(c) => c,
            None => "ZoneTransfer".to_owned(),
        };
        Some((kind, note))
    } else if str_eq(kind_name, "AnnotationType_DamageDealt") {
        let amount: i64 = match detail_int(details, "damage") {
            Some(n) => n,
            None => 0,
        };
        Some((EventKind::Damage, note_with_number("damage ", amount)))
    } else if str_eq(kind_name, "AnnotationType_ModifiedLife") {
        let amount: i64 = match detail_int(details, "life") {
            Some(n) => n,
            None => match detail_int(details, "value") {
                Some(n) => n,
                None => 0,
            },
        };
        Some((EventKind::Life, note_with_number("life ", amount)))
    } else if str_eq(kind_name, "AnnotationType_DeclaredAttackers") {
        Some((EventKind::Attack, "attack".to_owned()))
    } else if str_eq(kind_name, "AnnotationType_DeclaredBlockers") {
        Some((EventKind::Block, "block".to_owned()))
    } else if str_eq(kind_name, "AnnotationType_PhaseOrStepModified") {
        let ending = match phase {
            Some(p) => str_eq(p.as_str(), "Phase_Ending"),
            None => false,
        };
        if ending {
            Some((EventKind::Pass, "pass".to_owned()))
        } else {
            None
        }
    } else {
        None
    }
}

impl GreAssembler {
    /// Takes a blockers request (see `blockers_req_spec`).
    fn handle_declare_blockers_req(&mut self, message: &JsonValue)
        ensures
            final(self)@ == blockers_req_spec(old(self)@, message@),
    {
        if !self.message_is_for_us(message) {
            return;
        }
        let empty: Vec<JsonValue> = Vec::new();
        proof {
            lemma_items_view(empty@);
            assert(items_view(empty@) =~= Seq::<JsonView>::empty());
        }
        let blockers: &Vec<JsonValue> = match get_in(message, "declareBlockersReq", "blockers") {
            Some(list) => match list.as_array() {
                Some(b) => b,
                None => &empty,
            },
            None => &empty,
        };
        let ghost bv = items_view(blockers@);
        assert(bv == (match opt_array(opt_get(message@.get("declareBlockersReq"@), "blockers"@)) {
            Some(b) => b,
            None => Seq::<JsonView>::empty(),
        }));
        let attackers = Self::attackers_faced(blockers);
        if attackers.len() > 0 {
            let cards = self.visible_card_ids(&attackers);
            self.record_event(Actor::Opponent, EventKind::Attack, cards, "attack".to_owned());
        }
        let ids = ids_of_field(blockers, "blockerInstanceId");
        self.legal = self.known_actions(&ids, "block");
    }

    /// Adds what an annotation records (see `annotation_spec`).
    fn push_annotation(&mut self, annotation: &JsonValue)
        ensures
            final(self)@ == annotation_spec(old(self)@, annotation@),
    {
        proof {
            reveal_strlit("");
        }
        let kind_name: &str = match annotation.array_at("type") {
            Some(types) => {
                proof {
                    lemma_items_view(types@);
                }
                if types.len() > 0 {
                    match types[0].as_str() {
                        Some(t) => t,
                        None => "",
                    }
                } else {
                    ""
                }
            },
            None => "",
        };
        assert(kind_name@ == annotation_type_name(annotation@));
        let empty: Vec<JsonValue> = Vec::new();
        proof {
            lemma_items_view(empty@);
            assert(items_view(empty@) =~= Seq::<JsonView>::empty());
        }
        let details: &Vec<JsonValue> = match annotation.array_at("details") {
            Some(d) => d,
            None => &empty,
        };
        assert(items_view(details@) == annotation_details(annotation@));
        let affector = u32_at(annotation, "affectorId");
        let affected = match annotation.array_at("affectedIds") {
            Some(items) => u32s_of(items),
            None => Vec::new(),
        };
        assert(affected@ == affected_ids(annotation@));
        let cards = self.visible_card_ids(&affected);
        let actor = self.actor_for(affector, &affected);
        match annotation_event_exec(kind_name, details, &self.phase) {
            Some((kind, note)) => self.record_event(actor, kind, cards, note),
            None => {
            },
        }
    }

    /// Adds what a list of annotations records, one after another.
    fn push_annotations(&mut self, anns: &Vec<JsonValue>)
        ensures
            final(self)@ == annotations_from(old(self)@, items_view(anns@), 0),
    {
        proof {
            lemma_items_view(anns@);
        }
        let ghost av = items_view(anns@);
        let mut i: usize = 0;
        while i < anns.len()
            invariant
                i <= anns.len(),
                av == items_view(anns@),
                av.len() == anns@.len(),
                forall|j: int| 0 <= j < anns@.len() ==> #[trigger] av[j] == anns@[j]@,
                annotations_from(self@, av, i as int) == annotations_from(old(self)@, av, 0),
            decreases anns.len() - i,
        {
            assert(av[i as int] == anns@[i as int]@);
            self.push_annotation(&anns[i]);
            i = i + 1;
        }
    }
}


// ---------------------------------------------------------------------------
// Messages from the game
// ---------------------------------------------------------------------------

/// A connect response names the player's seat and deck and starts the match.
pub open spec fn connect_spec(st: AssemblerView, message: JsonView) -> AssemblerView {
    let s1 = match singleton_seat_spec(message) {
        Some(seat) => AssemblerView { player_seat: Some(seat), ..st },
        None => st,
    };
    match message.get("connectResp"@) {
        None => s1,
        Some(connect) => {
            let s2 = match opt_array(opt_get(connect.get("deckMessage"@), "deckCards"@)) {
                Some(cards) => AssemblerView { deck_grp_ids: u32s_from(cards, 0), ..s1 },
                None => s1,
            };
            AssemblerView { in_match: true, ..s2 }
        },
    }
}

/// The first message from index `i` on that is a connect response.
pub open spec fn first_connect_from(msgs: Seq<JsonView>, i: int) -> Option<JsonView>
    decreases msgs.len() - i,
{
    if i < 0 || i >= msgs.len() {
        None
    } else if msgs[i].str_at("type"@) == Some("GREMessageType_ConnectResp"@) {
        Some(msgs[i])
    } else {
        first_connect_from(msgs, i + 1)
    }
}

/// Message types that may name a seat other than the player's.
pub open spec fn seat_neutral(ty: Seq<char>) -> bool {
    ty == "GREMessageType_UIMessage"@ || ty == "GREMessageType_TimerStateMessage"@ || ty
        == "GREMessageType_SetSettingsResp"@
}

/// The seat that the first other message from index `i` on is addressed to alone.
pub open spec fn seat_candidate_from(msgs: Seq<JsonView>, i: int) -> Option<u32>
    decreases msgs.len() - i,
{
    if i < 0 || i >= msgs.len() {
        None
    } else if seat_neutral(str_or_empty(msgs[i].str_at("type"@))) {
        seat_candidate_from(msgs, i + 1)
    } else {
        match singleton_seat_spec(msgs[i]) {
            Some(seat) => Some(seat),
            None => seat_candidate_from(msgs, i + 1),
        }
    }
}

/// Learns the player's seat from a batch of messages, once: from a connect response when the
/// batch has one, else from the first message addressed to one seat.
pub open spec fn local_seat_spec(st: AssemblerView, msgs: Seq<JsonView>) -> AssemblerView {
    if st.player_seat is Some {
        st
    } else {
        let seat = match first_connect_from(msgs, 0) {
            Some(connect) => singleton_seat_spec(connect),
            None => seat_candidate_from(msgs, 0),
        };
        match seat {
            Some(s) => AssemblerView { player_seat: Some(s), ..st },
            None => st,
        }
    }
}

/// The match id a game state reports, taken when none is known yet.
pub open spec fn gs_match_id_spec(st: AssemblerView, gsm: JsonView) -> AssemblerView {
    match gsm.get("gameInfo"@) {
        Some(info) => match str_field(info, "matchID"@, "matchId"@) {
            Some(id) => if st.match_id is None {
                AssemblerView { match_id: Some(id), in_match: true, ..st }
            } else {
                st
            },
            None => st,
        },
        None => st,
    }
}

/// The turn, phase and step a game state reports.
pub open spec fn gs_turn_spec(st: AssemblerView, gsm: JsonView) -> AssemblerView {
    match gsm.get("turnInfo"@) {
        Some(turn) => AssemblerView {
            turn: or_keep(opt_u32(turn.get("turnNumber"@)), st.turn),
            phase: or_keep(turn.str_at("phase"@), st.phase),
            step: or_keep(turn.str_at("step"@), st.step),
            ..st
        },
        None => st,
    }
}

/// Players, zones and objects of a game state merged in.
pub open spec fn gs_merge_spec(st: AssemblerView, gsm: JsonView) -> AssemblerView {
    AssemblerView {
        life_totals: merge_players_spec(st.life_totals, gsm.get("players"@)),
        zones: merge_zones_spec(st.zones, gsm.get("zones"@)),
        objects: merge_objects_spec(st.objects, gsm.get("gameObjects"@)),
        ..st
    }
}

/// The annotations of a game state, then its persistent annotations.
pub open spec fn gs_annotations(gsm: JsonView) -> Seq<JsonView> {
    (match gsm.array_at("annotations"@) {
        Some(a) => a,
        None => Seq::empty(),
    }) + (match gsm.array_at("persistentAnnotations"@) {
        Some(a) => a,
        None => Seq::empty(),
    })
}

/// The objects a game state reports deleted are forgotten.
pub open spec fn gs_deleted_spec(st: AssemblerView, gsm: JsonView) -> AssemblerView {
    match gsm.array_at("diffDeletedInstanceIds"@) {
        Some(items) => AssemblerView { objects: remove_objects_from(st.objects, items, 0), ..st },
        None => st,
    }
}

/// The finished match, once its id is known.
pub open spec fn emit_spec(st: AssemblerView) -> Option<MatchView> {
    match st.match_id {
        None => None,
        Some(id) => {
            let event_id = match st.event_id {
                Some(e) => e,
                None => "unknown"@,
            };
            Some(
                MatchView {
                    client_match_id: id,
                    event_id,
                    format: format_of(event_id),
                    result: st.result,
                    player_seat: match st.player_seat {
                        Some(s) => s,
                        None => 1,
                    },
                    deck_grp_ids: st.deck_grp_ids,
                    timeline: capped(st.timeline),
                },
            )
        },
    }
}

/// A game over that is not the end of the whole match finishes a game: the result is read,
/// the match is no longer in progress, and the match comes out.
pub open spec fn gs_finish_spec(st: AssemblerView, gsm: JsonView) -> (AssemblerView, Option<MatchView>) {
    match gsm.get("gameInfo"@) {
        None => (st, None),
        Some(info) => {
            let stage = str_or_empty(info.str_at("stage"@));
            let state = str_or_empty(info.str_at("matchState"@));
            if stage != GAME_STAGE_OVER@ || state == MATCH_STATE_COMPLETE@ {
                (st, None)
            } else if state == MATCH_STATE_GAME_COMPLETE@ || state.len() == 0 {
                let done = AssemblerView {
                    result: result_from_info_spec(info, st.player_seat),
                    in_match: false,
                    ..st
                };
                (done, emit_spec(done))
            } else {
                (st, None)
            }
        },
    }
}

/// The end of the whole match sends no match and changes nothing: only the end of a game
/// sends one.
pub proof fn law_match_complete_sends_nothing(st: AssemblerView, gsm: JsonView)
    requires
        gsm.get("gameInfo"@) matches Some(info) && info.str_at("matchState"@) == Some(
            MATCH_STATE_COMPLETE@,
        ),
    ensures
        gs_finish_spec(st, gsm).1 is None,
        gs_finish_spec(st, gsm).0 == st,
{
}

/// The end of a game sends the match, once its id is known, with the result the game
/// reports for the local seat, and ends the match in progress.
pub proof fn law_game_complete_sends_match(st: AssemblerView, gsm: JsonView)
    requires
        st.match_id is Some,
        gsm.get("gameInfo"@) matches Some(info) && info.str_at("stage"@) == Some(GAME_STAGE_OVER@)
            && info.str_at("matchState"@) == Some(MATCH_STATE_GAME_COMPLETE@),
    ensures
        gs_finish_spec(st, gsm).1 matches Some(m) && m.client_match_id == st.match_id->0
            && m.result == result_from_info_spec(gsm.get("gameInfo"@)->0, st.player_seat),
        !in_match_spec(gs_finish_spec(st, gsm).0),
{
    reveal_strlit("MatchState_GameComplete");
    reveal_strlit("MatchState_MatchComplete");
    let info = gsm.get("gameInfo"@)->0;
    assert(MATCH_STATE_GAME_COMPLETE@ == "MatchState_GameComplete"@);
    assert(MATCH_STATE_COMPLETE@ == "MatchState_MatchComplete"@);
    assert(MATCH_STATE_GAME_COMPLETE@ != MATCH_STATE_COMPLETE@) by {
        assert(MATCH_STATE_GAME_COMPLETE@[11] != MATCH_STATE_COMPLETE@[11]);
    }
    assert(str_or_empty(info.str_at("matchState"@)) == MATCH_STATE_GAME_COMPLETE@);
    assert(str_or_empty(info.str_at("stage"@)) == GAME_STAGE_OVER@);
}

/// Lemma: removing objects never brings back an id that had no entry.
proof fn lemma_removal_keeps_absent(objs: Seq<(u32, ObjectView)>, items: Seq<JsonView>, i: int, id: u32)
    requires
        forall|t: int| 0 <= t < objs.len() ==> #[trigger] objs[t].0 != id,
    ensures
        forall|t: int|
            0 <= t < remove_objects_from(objs, items, i).len() ==> #[trigger] remove_objects_from(
                objs,
                items,
                i,
            )[t].0 != id,
    decreases items.len() - i,
{
    if 0 <= i < items.len() {
        match json_u32_spec(items[i]) {
            Some(k) => {
                lemma_assoc_remove_keys(objs, k, id);
                lemma_removal_keeps_absent(assoc_remove(objs, k), items, i + 1, id);
                assert(remove_objects_from(objs, items, i) == remove_objects_from(
                    assoc_remove(objs, k),
                    items,
                    i + 1,
                ));
            },
            None => {
                lemma_removal_keeps_absent(objs, items, i + 1, id);
                assert(remove_objects_from(objs, items, i) == remove_objects_from(objs, items, i + 1));
            },
        }
    }
}

/// Lemma: an id the list reports at `j` has no entry once the list from `i <= j` is applied.
proof fn lemma_removal_drops(objs: Seq<(u32, ObjectView)>, items: Seq<JsonView>, i: int, j: int, id: u32)
    requires
        0 <= i <= j < items.len(),
        json_u32_spec(items[j]) == Some(id),
    ensures
        forall|t: int|
            0 <= t < remove_objects_from(objs, items, i).len() ==> #[trigger] remove_objects_from(
                objs,
                items,
                i,
            )[t].0 != id,
    decreases j - i,
{
    let next = match json_u32_spec(items[i]) {
        Some(k) => assoc_remove(objs, k),
        None => objs,
    };
    assert(remove_objects_from(objs, items, i) == remove_objects_from(next, items, i + 1));
    if i == j {
        lemma_assoc_remove_keys(objs, id, id);
        lemma_removal_keeps_absent(next, items, i + 1, id);
    } else {
        lemma_removal_drops(next, items, i + 1, j, id);
    }
}

/// An object that a game state message reports as deleted is gone afterwards, even when the
/// same message lists it among its objects.
pub proof fn law_deleted_object_is_gone(st: AssemblerView, message: JsonView, id: u32, j: int)
    requires
        either(message.get("gameStateMessage"@), message.get("queuedGameStateMessage"@)) matches Some(
            gsm,
        ) && gsm.array_at("diffDeletedInstanceIds"@) matches Some(items) && 0 <= j < items.len()
            && json_u32_spec(items[j]) == Some(id),
    ensures
        assoc_get(game_state_spec(st, message).0.objects, id) is None,
{
    let gsm = either(message.get("gameStateMessage"@), message.get("queuedGameStateMessage"@))->0;
    let items = gsm.array_at("diffDeletedInstanceIds"@)->0;
    let s1 = gs_turn_spec(gs_match_id_spec(st, gsm), gsm);
    let s2 = gs_merge_spec(s1, gsm);
    let s3 = annotations_from(s2, gs_annotations(gsm), 0);
    let s4 = gs_deleted_spec(s3, gsm);
    lemma_removal_drops(s3.objects, items, 0, j, id);
    assert(s4.objects == remove_objects_from(s3.objects, items, 0));
    assert(gs_finish_spec(s4, gsm).0.objects == s4.objects);
    lemma_key_index_absent(s4.objects, id, 0);
}

/// What a game state message does, and the match it finishes, if any.
pub open spec fn game_state_spec(st: AssemblerView, message: JsonView) -> (AssemblerView, Option<MatchView>) {
    match either(message.get("gameStateMessage"@), message.get("queuedGameStateMessage"@)) {
        None => (st, None),
        Some(gsm) => {
            let s1 = gs_turn_spec(gs_match_id_spec(st, gsm), gsm);
            let s2 = gs_merge_spec(s1, gsm);
            let s3 = annotations_from(s2, gs_annotations(gsm), 0);
            let s4 = gs_deleted_spec(s3, gsm);
            gs_finish_spec(s4, gsm)
        },
    }
}

/// What one message from the game does, and the match it finishes, if any.
pub open spec fn gre_message_spec(st: AssemblerView, message: JsonView) -> (AssemblerView, Option<MatchView>) {
    let ty = str_or_empty(message.str_at("type"@));
    if ty == "GREMessageType_ConnectResp"@ {
        (connect_spec(st, message), None)
    } else if ty == "GREMessageType_GameStateMessage"@ || ty
        == "GREMessageType_QueuedGameStateMessage"@ {
        game_state_spec(st, message)
    } else if ty == "GREMessageType_ActionsAvailableReq"@ {
        (actions_available_spec(st, message), None)
    } else if ty == "GREMessageType_DeclareAttackersReq"@ {
        (attackers_req_spec(st, message), None)
    } else if ty == "GREMessageType_DeclareBlockersReq"@ {
        (blockers_req_spec(st, message), None)
    } else {
        (st, None)
    }
}

/// The messages from index `i` on, one after another; the last match finished comes out.
pub open spec fn gre_messages_from(st: AssemblerView, msgs: Seq<JsonView>, i: int, done: Option<MatchView>) -> (AssemblerView, Option<MatchView>)
    decreases msgs.len() - i,
{
    if i < 0 || i >= msgs.len() {
        (st, done)
    } else {
        let (next, finished) = gre_message_spec(st, msgs[i]);
        gre_messages_from(next, msgs, i + 1, either(finished, done))
    }
}

/// The message list of a game event (or of a bare message batch).
pub open spec fn gre_message_list(gre: JsonView) -> Option<Seq<JsonView>> {
    opt_array(either(opt_get(gre.get("greToClientEvent"@), "greToClientMessages"@), gre.get("greToClientMessages"@)))
}

/// What a batch of game messages does: the seat is learned, then each message is taken.
pub open spec fn gre_spec(st: AssemblerView, gre: JsonView) -> (AssemblerView, Option<MatchView>) {
    match gre_message_list(gre) {
        None => (st, None),
        Some(msgs) => gre_messages_from(local_seat_spec(st, msgs), msgs, 0, None),
    }
}


/// The model of an optional match.
pub open spec fn opt_match_view(m: Option<Match>) -> Option<MatchView> {
    match m {
        Some(x) => Some(x@),
        None => None,
    }
}

/// Lemma: taking annotations `a` then `p` is taking `a + p`.
pub proof fn lemma_annotations_concat(st: AssemblerView, a: Seq<JsonView>, p: Seq<JsonView>, i: int)
    requires
        0 <= i <= a.len(),
    ensures
        annotations_from(st, a + p, i) == annotations_from(annotations_from(st, a, i), p, 0),
    decreases a.len() - i,
{
    if i < a.len() {
        assert((a + p)[i] == a[i]);
        lemma_annotations_concat(annotation_spec(st, a[i]), a, p, i + 1);
    } else {
        lemma_annotations_shift(st, a, p, i);
    }
}

/// Lemma: after the first `a.len()` items of `a + p`, the rest is `p`.
proof fn lemma_annotations_shift(st: AssemblerView, a: Seq<JsonView>, p: Seq<JsonView>, i: int)
    requires
        a.len() <= i <= a.len() + p.len(),
    ensures
        annotations_from(st, a + p, i) == annotations_from(st, p, i - a.len()),
    decreases a.len() + p.len() - i,
{
    if i < a.len() + p.len() {
        assert((a + p)[i] == p[i - a.len()]);
        lemma_annotations_shift(annotation_spec(st, p[i - a.len()]), a, p, i + 1);
    }
}

/// The type of a message, or the empty string.
fn message_type(message: &JsonValue) -> (r: &str)
    ensures
        r@ == str_or_empty(message@.str_at("type"@)),
{
    proof {
        reveal_strlit("");
    }
    match message.str_at("type") {
        Some(t) => t,
        None => "",
    }
}

/// Where the first connect response sits among `msgs`, or the length.
fn first_connect_index(msgs: &Vec<JsonValue>) -> (r: usize)
    ensures
        r <= msgs.len(),
        r < msgs.len() ==> first_connect_from(items_view(msgs@), 0) == Some(msgs@[r as int]@),
        r == msgs.len() ==> first_connect_from(items_view(msgs@), 0) is None,
{
    proof {
        lemma_items_view(msgs@);
    }
    let ghost mv = items_view(msgs@);
    let mut i: usize = 0;
    while i < msgs.len()
        invariant
            i <= msgs.len(),
            mv == items_view(msgs@),
            mv.len() == msgs@.len(),
            forall|j: int| 0 <= j < msgs@.len() ==> #[trigger] mv[j] == msgs@[j]@,
            first_connect_from(mv, i as int) == first_connect_from(mv, 0),
        decreases msgs.len() - i,
    {
        assert(mv[i as int] == msgs@[i as int]@);
        let is_connect = match msgs[i].str_at("type") {
            Some(t) => str_eq(t, "GREMessageType_ConnectResp"),
            None => false,
        };
        if is_connect {
            return i;
        }
        i = i + 1;
    }
    i
}

/// The seat that the first message other than UI, timer or settings is addressed to alone.
fn seat_candidate(msgs: &Vec<JsonValue>) -> (r: Option<u32>)
    ensures
        r == seat_candidate_from(items_view(msgs@), 0),
{
    proof {
        lemma_items_view(msgs@);
    }
    let ghost mv = items_view(msgs@);
    let mut i: usize = 0;
    while i < msgs.len()
        invariant
            i <= msgs.len(),
            mv == items_view(msgs@),
            mv.len() == msgs@.len(),
            forall|j: int| 0 <= j < msgs@.len() ==> #[trigger] mv[j] == msgs@[j]@,
            seat_candidate_from(mv, i as int) == seat_candidate_from(mv, 0),
        decreases msgs.len() - i,
    {
        assert(mv[i as int] == msgs@[i as int]@);
        let ty = message_type(&msgs[i]);
        let neutral = str_eq(ty, "GREMessageType_UIMessage") || str_eq(
            ty,
            "GREMessageType_TimerStateMessage",
        ) || str_eq(ty, "GREMessageType_SetSettingsResp");
        if !neutral {
            let seat = singleton_seat(&msgs[i]);
            if seat.is_some() {
                return seat;
            }
        }
        i = i + 1;
    }
    None
}

impl GreAssembler {
    /// Takes a connect response (see `connect_spec`).
    fn handle_connect(&mut self, message: &JsonValue)
        ensures
            final(self)@ == connect_spec(old(self)@, message@),
    {
        match singleton_seat(message) {
            Some(seat) => {
                self.player_seat = Some(seat);
            },
            None => {
            },
        }
        let connect = match message.get("connectResp") {
            Some(c) => c,
            None => return ,
        };
        match get_in(connect, "deckMessage", "deckCards") {
            Some(list) => match list.as_array() {
                Some(cards) => {
                    self.deck_grp_ids = u32s_of(cards);
                },
                None => {
                },
            },
            None => {
            },
        }
        self.in_match = true;
    }

    /// Learns the player's seat from a batch (see `local_seat_spec`).
    fn maybe_set_local_seat(&mut self, msgs: &Vec<JsonValue>)
        ensures
            final(self)@ == local_seat_spec(old(self)@, items_view(msgs@)),
    {
        if self.player_seat.is_some() {
            return;
        }
        let k = first_connect_index(msgs);
        let seat = if k < msgs.len() {
            singleton_seat(&msgs[k])
        } else {
            seat_candidate(msgs)
        };
        match seat {
            Some(s) => {
                self.player_seat = Some(s);
            },
            None => {
            },
        }
    }

    /// The finished match (see `emit_spec`).
    fn emit_match(&self) -> (r: Option<Match>)
        ensures
            opt_match_view(r) == emit_spec(self@),
    {
        let client_match_id = match &self.match_id {
            Some(id) => id.clone(),
            None => return None,
        };
        let event_id = match &self.event_id {
            Some(e) => e.clone(),
            None => "unknown".to_owned(),
        };
        let format = Match::infer_format(event_id.as_str());
        let player_seat = match self.player_seat {
            Some(s) => s,
            None => 1,
        };
        let mut assembled = Match {
            client_match_id,
            event_id,
            format,
            result: self.result,
            player_seat,
            deck_grp_ids: copy_u32s(&self.deck_grp_ids),
            timeline: copy_timeline(&self.timeline),
        };
        let ghost before = assembled.timeline@;
        assembled.cap_timeline();
        assert(timeline_view(assembled.timeline@) =~= capped(timeline_view(before)));
        Some(assembled)
    }

    /// Takes the match id and turn a game state reports.
    fn gs_header(&mut self, gsm: &JsonValue)
        ensures
            final(self)@ == gs_turn_spec(gs_match_id_spec(old(self)@, gsm@), gsm@),
    {
        match gsm.get("gameInfo") {
            Some(info) => match string_field(info, "matchID", "matchId") {
                Some(id) => {
                    if self.match_id.is_none() {
                        self.match_id = Some(id);
                        self.in_match = true;
                    }
                },
                None => {
                },
            },
            None => {
            },
        }
        match gsm.get("turnInfo") {
            Some(turn) => {
                match u32_at(turn, "turnNumber") {
                    Some(n) => {
                        self.turn = Some(n);
                    },
                    None => {
                    },
                }
                match turn.str_at("phase") {
                    Some(p) => {
                        self.phase = Some(p.to_owned());
                    },
                    None => {
                    },
                }
                match turn.str_at("step") {
                    Some(st) => {
                        self.step = Some(st.to_owned());
                    },
                    None => {
                    },
                }
            },
            None => {
            },
        }
    }

    /// Ends the game when the game info says so (see `gs_finish_spec`).
    fn gs_finish(&mut self, gsm: &JsonValue) -> (r: Option<Match>)
        ensures
            final(self)@ == gs_finish_spec(old(self)@, gsm@).0,
            opt_match_view(r) == gs_finish_spec(old(self)@, gsm@).1,
    {
        proof {
            reveal_strlit("");
        }
        let info = match gsm.get("gameInfo") {
            Some(i) => i,
            None => return None,
        };
        let stage: &str = match info.str_at("stage") {
            Some(x) => x,
            None => "",
        };
        let state: &str = match info.str_at("matchState") {
            Some(x) => x,
            None => "",
        };
        assert(gsm@.get("gameInfo"@) == Some(info@));
        assert(stage@ == str_or_empty(info@.str_at("stage"@)));
        assert(state@ == str_or_empty(info@.str_at("matchState"@)));
        if !str_eq(stage, GAME_STAGE_OVER) || str_eq(state, MATCH_STATE_COMPLETE) {
            return None;
        }
        if str_eq(state, MATCH_STATE_GAME_COMPLETE) || state.is_empty() {
            self.result = result_from_info(info, self.player_seat);
            self.in_match = false;
            return self.emit_match();
        }
        None
    }

    /// Takes a game state message (see `game_state_spec`).
    fn handle_game_state(&mut self, message: &JsonValue) -> (r: Option<Match>)
        ensures
            final(self)@ == game_state_spec(old(self)@, message@).0,
            opt_match_view(r) == game_state_spec(old(self)@, message@).1,
    {
        let gsm = match get_either(message, "gameStateMessage", "queuedGameStateMessage") {
            Some(g) => g,
            None => return None,
        };
        self.gs_header(gsm);
        let ghost s1 = self@;
        self.merge_players(gsm.get("players"));
        self.merge_zones(gsm.get("zones"));
        self.merge_objects(gsm.get("gameObjects"));
        let ghost s2 = self@;
        assert(s2 == gs_merge_spec(s1, gsm@));
        let ghost anns = match gsm@.array_at("annotations"@) {
            Some(a) => a,
            None => Seq::<JsonView>::empty(),
        };
        let ghost persistent = match gsm@.array_at("persistentAnnotations"@) {
            Some(a) => a,
            None => Seq::<JsonView>::empty(),
        };
        match gsm.array_at("annotations") {
            Some(a) => self.push_annotations(a),
            None => {
            },
        }
        assert(self@ == annotations_from(s2, anns, 0));
        match gsm.array_at("persistentAnnotations") {
            Some(a) => self.push_annotations(a),
            None => {
            },
        }
        proof {
            lemma_annotations_concat(s2, anns, persistent, 0);
        }
        assert(self@ == annotations_from(s2, gs_annotations(gsm@), 0));
        match gsm.array_at("diffDeletedInstanceIds") {
            Some(items) => self.remove_objects(items),
            None => {
            },
        }
        self.gs_finish(gsm)
    }
}


/// What a room state change does: a playing room names the match (a different match starts
/// the assembler over) and its event; any room fills in an unknown event; a completed room
/// ends the match.
pub open spec fn room_spec(st: AssemblerView, room: JsonView) -> AssemblerView {
    let info = match room.get("gameRoomInfo"@) {
        Some(i) => i,
        None => room,
    };
    let state = str_or_empty(info.str_at("stateType"@));
    let config = match info.get("gameRoomConfig"@) {
        Some(c) => c,
        None => info,
    };
    let match_id = str_field(config, "matchId"@, "matchID"@);
    let event_id = either(str_field(config, "eventId"@, "eventID"@), event_id_from_players_spec(config));
    let s1 = room_open_spec(st, state, match_id, event_id);
    if contains_seq(state, "MatchCompleted"@) {
        AssemblerView { in_match: false, ..s1 }
    } else {
        s1
    }
}

/// The match and event a room names: a playing room names the match (a different match starts
/// the assembler over); any room fills in an unknown event.
pub open spec fn room_open_spec(
    st: AssemblerView,
    state: Seq<char>,
    match_id: Option<Seq<char>>,
    event_id: Option<Seq<char>>,
) -> AssemblerView {
    if contains_seq(state, "Playing"@) {
        match match_id {
            Some(id) => {
                let base = match st.match_id {
                    Some(current) => if current != id {
                        initial_view()
                    } else {
                        st
                    },
                    None => st,
                };
                AssemblerView {
                    match_id: Some(id),
                    event_id: if base.event_id is None {
                        event_id
                    } else {
                        base.event_id
                    },
                    in_match: true,
                    ..base
                }
            },
            None => st,
        }
    } else if st.event_id is None {
        AssemblerView { event_id, ..st }
    } else {
        st
    }
}

/// What one JSON value of the log does, and the match it finishes, if any: a room change, a
/// batch of game messages, or a client message (bare or as a payload).
pub open spec fn handle_value_spec(st: AssemblerView, value: JsonView) -> (AssemblerView, Option<MatchView>) {
    match value.get("matchGameRoomStateChangedEvent"@) {
        Some(room) => (room_spec(st, room), None),
        None => {
            let gre = match value.get("greToClientEvent"@) {
                Some(g) => Some(g),
                None => if value.get("greToClientMessages"@) is Some {
                    Some(value)
                } else {
                    None
                },
            };
            match gre {
                Some(g) => gre_spec(st, g),
                None => {
                    let s1 = if looks_like_client_spec(value) {
                        client_message_spec(st, value)
                    } else {
                        st
                    };
                    let s2 = match value.get("payload"@) {
                        Some(p) => if looks_like_client_spec(p) {
                            client_message_spec(s1, p)
                        } else {
                            s1
                        },
                        None => s1,
                    };
                    (s2, None)
                },
            }
        },
    }
}

/// What one JSON value of the log does once nobody can be told from it: the value is
/// scrubbed of the strings under identity keys first (see `handle_value_spec`).
pub open spec fn push_json_spec(st: AssemblerView, value: JsonView) -> (AssemblerView, Option<MatchView>) {
    handle_value_spec(st, scrub(value))
}

/// The values from index `i` on, one after another; the last match finished comes out.
pub open spec fn push_values_from(st: AssemblerView, values: Seq<JsonView>, i: int, done: Option<MatchView>) -> (AssemblerView, Option<MatchView>)
    decreases values.len() - i,
{
    if i < 0 || i >= values.len() {
        (st, done)
    } else {
        let (next, finished) = push_json_spec(st, values[i]);
        push_values_from(next, values, i + 1, either(finished, done))
    }
}

/// The assembler never reads who played: two values that differ only in the strings under
/// identity keys (screen and player names, user and session ids) have the same effect and
/// finish the same match.
pub proof fn law_identity_never_read(st: AssemblerView, a: JsonView, b: JsonView)
    requires
        same_but_identity(a, b),
    ensures
        push_json_spec(st, a) == push_json_spec(st, b),
{
}

/// The same over a sequence of values, taken in turn from index `i` on: sequences that
/// differ only in the strings under identity keys give the same state and the same match.
pub proof fn law_identity_never_read_values(
    st: AssemblerView,
    a: Seq<JsonView>,
    b: Seq<JsonView>,
    i: int,
    done: Option<MatchView>,
)
    requires
        a.len() == b.len(),
        forall|j: int| 0 <= j < a.len() ==> same_but_identity(#[trigger] a[j], b[j]),
    ensures
        push_values_from(st, a, i, done) == push_values_from(st, b, i, done),
    decreases a.len() - i,
{
    if 0 <= i < a.len() {
        assert(same_but_identity(a[i], b[i]));
        let (next, finished) = push_json_spec(st, a[i]);
        law_identity_never_read_values(next, a, b, i + 1, either(finished, done));
    }
}

/// Lemma: the game-over stage is a non-empty text.
proof fn lemma_game_over_text()
    ensures
        GAME_STAGE_OVER@.len() > 0,
{
    reveal_strlit("GameStage_GameOver");
    assert(GAME_STAGE_OVER@ == "GameStage_GameOver"@);
}

/// Lemma: a game state message that nowhere names the game-over stage finishes no match.
proof fn lemma_game_state_no_match(st: AssemblerView, message: JsonView)
    requires
        !mentions(message, GAME_STAGE_OVER@),
    ensures
        game_state_spec(st, message).1 is None,
{
    lemma_game_over_text();
    lemma_get_keeps_unmentioned(message, "gameStateMessage"@, GAME_STAGE_OVER@);
    lemma_get_keeps_unmentioned(message, "queuedGameStateMessage"@, GAME_STAGE_OVER@);
    if let Some(gsm) = either(message.get("gameStateMessage"@), message.get("queuedGameStateMessage"@)) {
        let s1 = gs_turn_spec(gs_match_id_spec(st, gsm), gsm);
        let s2 = gs_merge_spec(s1, gsm);
        let s3 = annotations_from(s2, gs_annotations(gsm), 0);
        let s4 = gs_deleted_spec(s3, gsm);
        lemma_get_keeps_unmentioned(gsm, "gameInfo"@, GAME_STAGE_OVER@);
        if let Some(info) = gsm.get("gameInfo"@) {
            lemma_get_keeps_unmentioned(info, "stage"@, GAME_STAGE_OVER@);
            assert(str_or_empty(info.str_at("stage"@)) != GAME_STAGE_OVER@);
        }
        assert(gs_finish_spec(s4, gsm).1 is None);
    }
}

/// Lemma: messages that nowhere name the game-over stage finish no match.
proof fn lemma_gre_messages_no_match(st: AssemblerView, msgs: Seq<JsonView>, i: int, done: Option<MatchView>)
    requires
        forall|j: int| 0 <= j < msgs.len() ==> !mentions(#[trigger] msgs[j], GAME_STAGE_OVER@),
    ensures
        gre_messages_from(st, msgs, i, done).1 == done,
    decreases msgs.len() - i,
{
    if 0 <= i < msgs.len() {
        let m = msgs[i];
        if gre_message_spec(st, m).1 is Some {
            lemma_game_state_no_match(st, m);
        }
        let (next, finished) = gre_message_spec(st, m);
        lemma_gre_messages_no_match(next, msgs, i + 1, either(finished, done));
    }
}

/// Lemma: the items of an array that does not name `t` do not name it.
proof fn lemma_array_unmentioned(v: Option<JsonView>, t: Seq<char>)
    requires
        v matches Some(u) ==> !mentions(u, t),
    ensures
        opt_array(v) matches Some(items) ==> forall|j: int| 0 <= j < items.len() ==> !mentions(#[trigger] items[j], t),
{
    if let Some(u) = v {
        if let JsonView::Array(items) = u {
            lemma_mentions_items(items, t);
        }
    }
}

/// Lemma: a value that nowhere names the game-over stage finishes no match.
proof fn lemma_value_no_match(st: AssemblerView, value: JsonView)
    requires
        !mentions(value, GAME_STAGE_OVER@),
    ensures
        handle_value_spec(st, value).1 is None,
{
    let t = GAME_STAGE_OVER@;
    lemma_get_keeps_unmentioned(value, "greToClientEvent"@, t);
    if value.get("matchGameRoomStateChangedEvent"@) is None {
        let gre = match value.get("greToClientEvent"@) {
            Some(g) => Some(g),
            None => if value.get("greToClientMessages"@) is Some {
                Some(value)
            } else {
                None
            },
        };
        if let Some(g) = gre {
            lemma_get_keeps_unmentioned(g, "greToClientEvent"@, t);
            lemma_get_keeps_unmentioned(g, "greToClientMessages"@, t);
            if let Some(e) = g.get("greToClientEvent"@) {
                lemma_get_keeps_unmentioned(e, "greToClientMessages"@, t);
            }
            let list = either(opt_get(g.get("greToClientEvent"@), "greToClientMessages"@), g.get("greToClientMessages"@));
            lemma_array_unmentioned(list, t);
            if let Some(msgs) = gre_message_list(g) {
                lemma_gre_messages_no_match(local_seat_spec(st, msgs), msgs, 0, None);
            }
        }
    }
}

/// A log value that nowhere names the game-over stage finishes no match: without a game
/// over (as in a log written with detailed logs off) nothing is ever sent.
pub proof fn law_no_game_over_no_match(st: AssemblerView, value: JsonView)
    requires
        !mentions(value, GAME_STAGE_OVER@),
    ensures
        push_json_spec(st, value).1 is None,
{
    lemma_game_over_text();
    lemma_scrub_keeps_unmentioned(value, GAME_STAGE_OVER@);
    lemma_value_no_match(st, scrub(value));
}

/// The same over values taken in turn from index `i` on: when none names the game-over
/// stage, no match comes out beyond the one already finished.
pub proof fn law_no_game_over_no_match_values(st: AssemblerView, values: Seq<JsonView>, i: int, done: Option<MatchView>)
    requires
        forall|j: int| 0 <= j < values.len() ==> !mentions(#[trigger] values[j], GAME_STAGE_OVER@),
    ensures
        push_values_from(st, values, i, done).1 == done,
    decreases values.len() - i,
{
    if 0 <= i < values.len() {
        law_no_game_over_no_match(st, values[i]);
        let (next, finished) = push_json_spec(st, values[i]);
        law_no_game_over_no_match_values(next, values, i + 1, either(finished, done));
    }
}

/// What a log entry does: each JSON object of its body is taken in turn, and the last match
/// finished comes out.
pub open spec fn push_spec(st: AssemblerView, body: Seq<char>) -> (AssemblerView, Option<MatchView>) {
    push_values_from(st, values_from(body, 0), 0, None)
}

impl GreAssembler {
    /// Takes one message from the game (see `gre_message_spec`).
    fn handle_gre_message(&mut self, message: &JsonValue) -> (r: Option<Match>)
        ensures
            final(self)@ == gre_message_spec(old(self)@, message@).0,
            opt_match_view(r) == gre_message_spec(old(self)@, message@).1,
    {
        let ty = message_type(message);
        if str_eq(ty, "GREMessageType_ConnectResp") {
            self.handle_connect(message);
            None
        } else if str_eq(ty, "GREMessageType_GameStateMessage") || str_eq(
            ty,
            "GREMessageType_QueuedGameStateMessage",
        ) {
            self.handle_game_state(message)
        } else if str_eq(ty, "GREMessageType_ActionsAvailableReq") {
            self.handle_actions_available(message);
            None
        } else if str_eq(ty, "GREMessageType_DeclareAttackersReq") {
            self.handle_declare_attackers_req(message);
            None
        } else if str_eq(ty, "GREMessageType_DeclareBlockersReq") {
            self.handle_declare_blockers_req(message);
            None
        } else {
            None
        }
    }

    /// Takes a batch of game messages (see `gre_spec`).
    fn handle_gre(&mut self, gre: &JsonValue) -> (r: Option<Match>)
        ensures
            final(self)@ == gre_spec(old(self)@, gre@).0,
            opt_match_view(r) == gre_spec(old(self)@, gre@).1,
    {
        let list = match get_in(gre, "greToClientEvent", "greToClientMessages") {
            Some(x) => Some(x),
            None => gre.get("greToClientMessages"),
        };
        let msgs = match list {
            Some(l) => match l.as_array() {
                Some(m) => m,
                None => return None,
            },
            None => return None,
        };
        proof {
            lemma_items_view(msgs@);
        }
        let ghost mv = items_view(msgs@);
        assert(gre_message_list(gre@) == Some(mv));
        self.maybe_set_local_seat(msgs);
        let ghost start = self@;
        let mut completed: Option<Match> = None;
        let mut i: usize = 0;
        while i < msgs.len()
            invariant
                i <= msgs.len(),
                mv == items_view(msgs@),
                mv.len() == msgs@.len(),
                forall|j: int| 0 <= j < msgs@.len() ==> #[trigger] mv[j] == msgs@[j]@,
                gre_messages_from(self@, mv, i as int, opt_match_view(completed))
                    == gre_messages_from(start, mv, 0, None),
            decreases msgs.len() - i,
        {
            assert(mv[i as int] == msgs@[i as int]@);
            let finished = self.handle_gre_message(&msgs[i]);
            if finished.is_some() {
                completed = finished;
            }
            i = i + 1;
        }
        completed
    }

    /// Takes a room state change (see `room_spec`).
    fn handle_room(&mut self, room: &JsonValue)
        ensures
            final(self)@ == room_spec(old(self)@, room@),
    {
        proof {
            reveal_strlit("");
        }
        let info = match room.get("gameRoomInfo") {
            Some(i) => i,
            None => room,
        };
        let state: &str = match info.str_at("stateType") {
            Some(s) => s,
            None => "",
        };
        let config = match info.get("gameRoomConfig") {
            Some(c) => c,
            None => info,
        };
        let match_id = string_field(config, "matchId", "matchID");
        let event_id = match string_field(config, "eventId", "eventID") {
            Some(e) => Some(e),
            None => event_id_from_players(config),
        };
        let ghost ev = opt_str_view(event_id);
        let ghost mid = opt_str_view(match_id);
        assert(ev == either(str_field(config@, "eventId"@, "eventID"@), event_id_from_players_spec(config@)));
        assert(info@ == (match room@.get("gameRoomInfo"@) {
            Some(i) => i,
            None => room@,
        }));
        assert(config@ == (match info@.get("gameRoomConfig"@) {
            Some(c) => c,
            None => info@,
        }));
        assert(state@ == str_or_empty(info@.str_at("stateType"@)));
        assert(mid == str_field(config@, "matchId"@, "matchID"@));
        let playing = str_contains(state, "Playing");
        if playing {
            match match_id {
                Some(id) => {
                    let is_new_match = match &self.match_id {
                        Some(current) => !str_eq(current.as_str(), id.as_str()),
                        None => false,
                    };
                    if is_new_match {
                        *self = GreAssembler::new();
                    }
                    self.match_id = Some(id);
                    if self.event_id.is_none() {
                        self.event_id = event_id;
                    }
                    self.in_match = true;
                },
                None => {
                },
            }
        } else if self.event_id.is_none() {
            self.event_id = event_id;
        }
        assert(self@ == room_open_spec(old(self)@, state@, mid, ev));
        if str_contains(state, "MatchCompleted") {
            self.in_match = false;
        }
    }

    /// Takes one JSON value of the log (see `push_json_spec`): a room event, the messages
    /// of the game, or a message of the client. The value is first stripped of the strings
    /// under identity keys. Returns the match a game over finishes.
    pub fn push_json(&mut self, value: &JsonValue) -> (r: Option<Match>)
        ensures
            final(self)@ == push_json_spec(old(self)@, value@).0,
            opt_match_view(r) == push_json_spec(old(self)@, value@).1,
    {
        let clean = strip_identity(value);
        self.handle_value(&clean)
    }

    /// Takes one JSON value (see `handle_value_spec`).
    fn handle_value(&mut self, value: &JsonValue) -> (r: Option<Match>)
        ensures
            final(self)@ == handle_value_spec(old(self)@, value@).0,
            opt_match_view(r) == handle_value_spec(old(self)@, value@).1,
    {
        match value.get("matchGameRoomStateChangedEvent") {
            Some(room) => {
                self.handle_room(room);
                return None;
            },
            None => {
            },
        }
        let gre = match value.get("greToClientEvent") {
            Some(g) => Some(g),
            None => if value.get("greToClientMessages").is_some() {
                Some(value)
            } else {
                None
            },
        };
        match gre {
            Some(g) => {
                return self.handle_gre(g);
            },
            None => {
            },
        }
        if Self::looks_like_client_message(value) {
            self.handle_client_to_gre(value);
        }
        match value.get("payload") {
            Some(p) => {
                if Self::looks_like_client_message(p) {
                    self.handle_client_to_gre(p);
                }
            },
            None => {
            },
        }
        None
    }

    /// Takes a log entry: each JSON object of its body in turn. Returns the last match that
    /// the entry finished, if any (see `push_spec`).
    pub fn push(&mut self, entry: &LogEntry) -> (r: Option<Match>)
        ensures
            final(self)@ == push_spec(old(self)@, entry@.body).0,
            opt_match_view(r) == push_spec(old(self)@, entry@.body).1,
    {
        let values = extract_json_values(entry.body.as_str());
        let ghost vv = items_view(values@);
        proof {
            lemma_items_view(values@);
        }
        let mut completed: Option<Match> = None;
        let mut i: usize = 0;
        while i < values.len()
            invariant
                i <= values.len(),
                vv == items_view(values@),
                vv == values_from(entry@.body, 0),
                vv.len() == values@.len(),
                forall|j: int| 0 <= j < values@.len() ==> #[trigger] vv[j] == values@[j]@,
                push_values_from(self@, vv, i as int, opt_match_view(completed))
                    == push_values_from(old(self)@, vv, 0, None),
            decreases values.len() - i,
        {
            assert(vv[i as int] == values@[i as int]@);
            let finished = self.push_json(&values[i]);
            if finished.is_some() {
                completed = finished;
            }
            i = i + 1;
        }
        completed
    }

    /// Takes log entries in order; the last match they finish comes out.
    pub fn push_entries(&mut self, entries: &Vec<LogEntry>) -> (r: Option<Match>)
        ensures
            final(self)@ == push_entries_spec(old(self)@, entries@.map_values(|e: LogEntry| e@.body), 0, None).0,
            opt_match_view(r) == push_entries_spec(old(self)@, entries@.map_values(|e: LogEntry| e@.body), 0, None).1,
    {
        let ghost bodies = entries@.map_values(|e: LogEntry| e@.body);
        let mut last: Option<Match> = None;
        let mut i: usize = 0;
        while i < entries.len()
            invariant
                i <= entries.len(),
                bodies == entries@.map_values(|e: LogEntry| e@.body),
                push_entries_spec(self@, bodies, i as int, opt_match_view(last))
                    == push_entries_spec(old(self)@, bodies, 0, None),
            decreases entries.len() - i,
        {
            assert(bodies[i as int] == entries@[i as int]@.body);
            let finished = self.push(&entries[i]);
            if finished.is_some() {
                last = finished;
            }
            i = i + 1;
        }
        last
    }
}

/// Entries from index `i` on, one after another; the last match finished comes out.
pub open spec fn push_entries_spec(st: AssemblerView, bodies: Seq<Seq<char>>, i: int, done: Option<MatchView>) -> (AssemblerView, Option<MatchView>)
    decreases bodies.len() - i,
{
    if i < 0 || i >= bodies.len() {
        (st, done)
    } else {
        let (next, finished) = push_spec(st, bodies[i]);
        push_entries_spec(next, bodies, i + 1, either(finished, done))
    }
}

} // verus!
