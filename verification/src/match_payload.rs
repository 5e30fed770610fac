use vstd::prelude::*;

use crate::text::{chars_of, contains_chars, contains_seq, lower_chars, lower_seq, str_eq};

verus! {

/// At most this many timeline events are sent.
pub const MAX_TIMELINE_EVENTS: usize = 500;

/// A serialized match is shrunk until it takes at most this many bytes.
pub const MAX_PAYLOAD_BYTES: usize = 512 * 1024;

/// Events always kept from the end of a capped timeline, and from its start when shrinking.
pub const KEPT_EDGE_EVENTS: usize = 20;

/// The game format that an event id names.
#[derive(Debug, Clone, Copy, PartialEq, Eq, Structural)]
pub enum Format {
    Constructed,
    Limited,
    Unknown,
}

/// How a game ended for the local player.
#[derive(Debug, Clone, Copy, PartialEq, Eq, Structural)]
pub enum MatchResult {
    Win,
    Loss,
    Unknown,
}

impl Default for MatchResult {
    fn default() -> (r: MatchResult)
        ensures
            r == MatchResult::Unknown,
    {
        MatchResult::Unknown
    }
}

/// Who caused a timeline event.
#[derive(Debug, Clone, Copy, PartialEq, Eq, Structural)]
pub enum Actor {
    Me,
    Opponent,
    Game,
}

/// What a timeline event records.
#[derive(Debug, Clone, Copy, PartialEq, Eq, Structural)]
pub enum EventKind {
    Cast,
    Land,
    Attack,
    Block,
    Damage,
    Life,
    Mulligan,
    Keep,
    Draw,
    Resolve,
    Die,
    Zone,
    Pass,
    Other,
}

/// An action the game offered the local player.
#[derive(Debug, Clone, PartialEq, Eq)]
pub struct LegalAction {
    pub action: String,
    pub grp_id: Option<u32>,
}

/// What the local player could see when a decision was taken.
#[derive(Debug, Clone, PartialEq, Eq)]
pub struct DecisionContext {
    pub my_hand: Vec<u32>,
    pub my_board: Vec<u32>,
    pub opp_board: Vec<u32>,
    pub opp_hand: Vec<u32>,
    pub opp_hand_count: Option<u32>,
    pub my_life: Option<i32>,
    pub opp_life: Option<i32>,
    pub legal: Vec<LegalAction>,
}

/// One step of a game as the timeline records it.
#[derive(Debug, Clone, PartialEq, Eq)]
pub struct TimelineEvent {
    pub t_ms: u64,
    pub turn: Option<u32>,
    pub phase: Option<String>,
    pub step: Option<String>,
    pub actor: Actor,
    pub kind: EventKind,
    pub card_ids: Vec<u32>,
    pub note: String,
    pub context: Option<DecisionContext>,
}

/// A finished game, ready to be sent.
#[derive(Debug, Clone, PartialEq, Eq)]
pub struct Match {
    pub client_match_id: String,
    pub event_id: String,
    pub format: Format,
    pub result: MatchResult,
    pub player_seat: u32,
    pub deck_grp_ids: Vec<u32>,
    pub timeline: Vec<TimelineEvent>,
}

// ---------------------------------------------------------------------------
// Models
// ---------------------------------------------------------------------------

/// The model of an optional string.
pub open spec fn opt_str_view(s: Option<String>) -> Option<Seq<char>> {
    match s {
        Some(t) => Some(t@),
        None => None,
    }
}

/// The model of a legal action.
pub struct LegalActionView {
    pub action: Seq<char>,
    pub grp_id: Option<u32>,
}

impl View for LegalAction {
    type V = LegalActionView;

    open spec fn view(&self) -> LegalActionView {
        LegalActionView { action: self.action@, grp_id: self.grp_id }
    }
}

/// The models of a sequence of legal actions.
pub open spec fn legal_view(s: Seq<LegalAction>) -> Seq<LegalActionView> {
    s.map_values(|a: LegalAction| a@)
}

/// The model of a decision context.
pub struct DecisionContextView {
    pub my_hand: Seq<u32>,
    pub my_board: Seq<u32>,
    pub opp_board: Seq<u32>,
    pub opp_hand: Seq<u32>,
    pub opp_hand_count: Option<u32>,
    pub my_life: Option<i32>,
    pub opp_life: Option<i32>,
    pub legal: Seq<LegalActionView>,
}

impl View for DecisionContext {
    type V = DecisionContextView;

    open spec fn view(&self) -> DecisionContextView {
        DecisionContextView {
            my_hand: self.my_hand@,
            my_board: self.my_board@,
            opp_board: self.opp_board@,
            opp_hand: self.opp_hand@,
            opp_hand_count: self.opp_hand_count,
            my_life: self.my_life,
            opp_life: self.opp_life,
            legal: legal_view(self.legal@),
        }
    }
}

impl DecisionContextView {
    /// A context that records nothing at all.
    pub open spec fn is_empty(self) -> bool {
        &&& self.my_hand.len() == 0
        &&& self.my_board.len() == 0
        &&& self.opp_board.len() == 0
        &&& self.opp_hand.len() == 0
        &&& self.opp_hand_count is None
        &&& self.my_life is None
        &&& self.opp_life is None
        &&& self.legal.len() == 0
    }
}

impl DecisionContext {
    /// Whether the context records nothing at all.
    pub fn is_empty(&self) -> (r: bool)
        ensures
            r == self@.is_empty(),
    {
        self.my_hand.len() == 0 && self.my_board.len() == 0 && self.opp_board.len() == 0
            && self.opp_hand.len() == 0 && self.opp_hand_count.is_none()
            && self.my_life.is_none() && self.opp_life.is_none() && self.legal.len() == 0
    }
}

/// The model of a timeline event.
pub struct TimelineEventView {
    pub t_ms: u64,
    pub turn: Option<u32>,
    pub phase: Option<Seq<char>>,
    pub step: Option<Seq<char>>,
    pub actor: Actor,
    pub kind: EventKind,
    pub card_ids: Seq<u32>,
    pub note: Seq<char>,
    pub context: Option<DecisionContextView>,
}

impl View for TimelineEvent {
    type V = TimelineEventView;

    open spec fn view(&self) -> TimelineEventView {
        TimelineEventView {
            t_ms: self.t_ms,
            turn: self.turn,
            phase: opt_str_view(self.phase),
            step: opt_str_view(self.step),
            actor: self.actor,
            kind: self.kind,
            card_ids: self.card_ids@,
            note: self.note@,
            context: match self.context {
                Some(c) => Some(c@),
                None => None,
            },
        }
    }
}

/// The models of a sequence of timeline events.
pub open spec fn timeline_view(s: Seq<TimelineEvent>) -> Seq<TimelineEventView> {
    s.map_values(|e: TimelineEvent| e@)
}

/// The model of a match.
pub struct MatchView {
    pub client_match_id: Seq<char>,
    pub event_id: Seq<char>,
    pub format: Format,
    pub result: MatchResult,
    pub player_seat: u32,
    pub deck_grp_ids: Seq<u32>,
    pub timeline: Seq<TimelineEventView>,
}

impl View for Match {
    type V = MatchView;

    open spec fn view(&self) -> MatchView {
        MatchView {
            client_match_id: self.client_match_id@,
            event_id: self.event_id@,
            format: self.format,
            result: self.result,
            player_seat: self.player_seat,
            deck_grp_ids: self.deck_grp_ids@,
            timeline: timeline_view(self.timeline@),
        }
    }
}

// ---------------------------------------------------------------------------
// Format
// ---------------------------------------------------------------------------

/// Words in an event id that mark a limited format.
pub open spec fn limited_words() -> Seq<Seq<char>> {
    seq!["draft"@, "sealed"@, "limited"@]
}

/// Words in an event id that mark a constructed format.
pub open spec fn constructed_words() -> Seq<Seq<char>> {
    seq![
        "constructed"@,
        "ladder"@,
        "historic"@,
        "standard"@,
        "alchemy"@,
        "explorer"@,
        "pioneer"@,
        "modern"@,
        "timeless"@,
        "brawl"@,
        "play"@,
        "precon"@,
    ]
}

/// Some word of `words` occurs in `text`.
pub open spec fn mentions_any(text: Seq<char>, words: Seq<Seq<char>>) -> bool {
    exists|i: int| 0 <= i < words.len() && contains_seq(text, #[trigger] words[i])
}

/// The format an event id names, read case-insensitively: limited words win over
/// constructed ones.
pub open spec fn format_of(event_id: Seq<char>) -> Format {
    let event = lower_seq(event_id);
    if mentions_any(event, limited_words()) {
        Format::Limited
    } else if mentions_any(event, constructed_words()) {
        Format::Constructed
    } else {
        Format::Unknown
    }
}

/// Whether one of `words` occurs in `text`.
fn mentions_any_exec(text: &Vec<char>, words: &Vec<&str>, Ghost(spec_words): Ghost<
    Seq<Seq<char>>,
>) -> (r: bool)
    requires
        words@.len() == spec_words.len(),
        forall|i: int| 0 <= i < words@.len() ==> #[trigger] words@[i]@ == spec_words[i],
    ensures
        r == mentions_any(text@, spec_words),
{
    let mut i: usize = 0;
    while i < words.len()
        invariant
            i <= words@.len(),
            words@.len() == spec_words.len(),
            forall|k: int| 0 <= k < words@.len() ==> #[trigger] words@[k]@ == spec_words[k],
            forall|k: int| 0 <= k < i ==> !contains_seq(text@, #[trigger] spec_words[k]),
        decreases words.len() - i,
    {
        let w = chars_of(words[i]);
        if contains_chars(text, &w) {
            assert(contains_seq(text@, spec_words[i as int]));
            return true;
        }
        i = i + 1;
    }
    false
}

/// A timeline of at most `MAX_TIMELINE_EVENTS` events as it is; a longer one cut to its
/// first events and its last `KEPT_EDGE_EVENTS`, `MAX_TIMELINE_EVENTS` in all.
pub open spec fn capped<T>(timeline: Seq<T>) -> Seq<T> {
    if timeline.len() <= MAX_TIMELINE_EVENTS {
        timeline
    } else {
        timeline.take(MAX_TIMELINE_EVENTS - KEPT_EDGE_EVENTS) + timeline.skip(
            timeline.len() - KEPT_EDGE_EVENTS,
        )
    }
}

/// A capped timeline never holds more than `MAX_TIMELINE_EVENTS` events, keeps the
/// opening of the game and its end, and keeps a short timeline whole.
pub proof fn law_capped_timeline<T>(timeline: Seq<T>)
    ensures
        capped(timeline).len() == if timeline.len() <= MAX_TIMELINE_EVENTS {
            timeline.len()
        } else {
            MAX_TIMELINE_EVENTS as nat
        },
        forall|i: int|
            0 <= i < timeline.len() && i < MAX_TIMELINE_EVENTS - KEPT_EDGE_EVENTS ==> #[trigger] capped(timeline)[i]
                == timeline[i],
        forall|i: int|
            0 <= i < KEPT_EDGE_EVENTS && i < timeline.len() ==> capped(timeline)[capped(timeline).len() - 1 - i]
                == #[trigger] timeline[timeline.len() - 1 - i],
{
}

/// Whether the lower-cased event id names a limited format: a draft, sealed or limited event.
pub open spec fn names_limited(event: Seq<char>) -> bool {
    contains_seq(event, "draft"@) || contains_seq(event, "sealed"@) || contains_seq(event, "limited"@)
}

/// Whether the lower-cased event id names a constructed format.
pub open spec fn names_constructed(event: Seq<char>) -> bool {
    contains_seq(event, "constructed"@) || contains_seq(event, "ladder"@) || contains_seq(
        event,
        "historic"@,
    ) || contains_seq(event, "standard"@) || contains_seq(event, "alchemy"@) || contains_seq(
        event,
        "explorer"@,
    ) || contains_seq(event, "pioneer"@) || contains_seq(event, "modern"@) || contains_seq(
        event,
        "timeless"@,
    ) || contains_seq(event, "brawl"@) || contains_seq(event, "play"@) || contains_seq(
        event,
        "precon"@,
    )
}

/// An event id names a limited format exactly when, read case-insensitively, it contains
/// "draft", "sealed" or "limited"; otherwise a constructed one exactly when it contains one
/// of the constructed words; otherwise the format is unknown.
pub proof fn law_format_words(event_id: Seq<char>)
    ensures
        (format_of(event_id) == Format::Limited) == names_limited(lower_seq(event_id)),
        (format_of(event_id) == Format::Constructed) == (!names_limited(lower_seq(event_id))
            && names_constructed(lower_seq(event_id))),
        (format_of(event_id) == Format::Unknown) == (!names_limited(lower_seq(event_id))
            && !names_constructed(lower_seq(event_id))),
{
    let e = lower_seq(event_id);
    let lw = limited_words();
    let cw = constructed_words();
    assert(lw.len() == 3 && lw[0] == "draft"@ && lw[1] == "sealed"@ && lw[2] == "limited"@);
    assert(cw.len() == 12 && cw[0] == "constructed"@ && cw[1] == "ladder"@ && cw[2] == "historic"@
        && cw[3] == "standard"@ && cw[4] == "alchemy"@ && cw[5] == "explorer"@ && cw[6]
        == "pioneer"@ && cw[7] == "modern"@ && cw[8] == "timeless"@ && cw[9] == "brawl"@ && cw[10]
        == "play"@ && cw[11] == "precon"@);
    if names_limited(e) {
        if contains_seq(e, "draft"@) {
            assert(contains_seq(e, lw[0]));
        } else if contains_seq(e, "sealed"@) {
            assert(contains_seq(e, lw[1]));
        } else {
            assert(contains_seq(e, lw[2]));
        }
    }
    if mentions_any(e, lw) {
        let i = choose|i: int| 0 <= i < lw.len() && contains_seq(e, #[trigger] lw[i]);
        assert(i == 0 || i == 1 || i == 2);
    }
    if names_constructed(e) {
        assert(exists|i: int| 0 <= i < cw.len() && contains_seq(e, #[trigger] cw[i])) by {
            if contains_seq(e, "constructed"@) {
                assert(contains_seq(e, cw[0]));
            } else if contains_seq(e, "ladder"@) {
                assert(contains_seq(e, cw[1]));
            } else if contains_seq(e, "historic"@) {
                assert(contains_seq(e, cw[2]));
            } else if contains_seq(e, "standard"@) {
                assert(contains_seq(e, cw[3]));
            } else if contains_seq(e, "alchemy"@) {
                assert(contains_seq(e, cw[4]));
            } else if contains_seq(e, "explorer"@) {
                assert(contains_seq(e, cw[5]));
            } else if contains_seq(e, "pioneer"@) {
                assert(contains_seq(e, cw[6]));
            } else if contains_seq(e, "modern"@) {
                assert(contains_seq(e, cw[7]));
            } else if contains_seq(e, "timeless"@) {
                assert(contains_seq(e, cw[8]));
            } else if contains_seq(e, "brawl"@) {
                assert(contains_seq(e, cw[9]));
            } else if contains_seq(e, "play"@) {
                assert(contains_seq(e, cw[10]));
            } else {
                assert(contains_seq(e, cw[11]));
            }
        }
    }
    if mentions_any(e, cw) {
        let i = choose|i: int| 0 <= i < cw.len() && contains_seq(e, #[trigger] cw[i]);
        assert(0 <= i < 12);
    }
}

impl Match {
    /// The format an event id names (see `format_of`).
    pub fn infer_format(event_id: &str) -> (r: Format)
        ensures
            r == format_of(event_id@),
            (r == Format::Limited) == names_limited(lower_seq(event_id@)),
            (r == Format::Constructed) == (!names_limited(lower_seq(event_id@)) && names_constructed(
                lower_seq(event_id@),
            )),
            (r == Format::Unknown) == (!names_limited(lower_seq(event_id@)) && !names_constructed(
                lower_seq(event_id@),
            )),
    {
        proof {
            law_format_words(event_id@);
        }
        let event = lower_chars(event_id);
        let limited = vec!["draft", "sealed", "limited"];
        assert(limited@.len() == 3);
        if mentions_any_exec(&event, &limited, Ghost(limited_words())) {
            return Format::Limited;
        }
        let constructed = vec![
            "constructed",
            "ladder",
            "historic",
            "standard",
            "alchemy",
            "explorer",
            "pioneer",
            "modern",
            "timeless",
            "brawl",
            "play",
            "precon",
        ];
        if mentions_any_exec(&event, &constructed, Ghost(constructed_words())) {
            Format::Constructed
        } else {
            Format::Unknown
        }
    }

    /// Keeps a long timeline to its first 480 and last 20 events; a timeline of at most 500
    /// events stays as it is.
    pub fn cap_timeline(&mut self)
        ensures
            final(self).timeline@ == capped(old(self).timeline@),
            final(self).client_match_id == old(self).client_match_id,
            final(self).event_id == old(self).event_id,
            final(self).format == old(self).format,
            final(self).result == old(self).result,
            final(self).player_seat == old(self).player_seat,
            final(self).deck_grp_ids == old(self).deck_grp_ids,
    {
        let len = self.timeline.len();
        if len <= MAX_TIMELINE_EVENTS {
            return;
        }
        let mut tail = self.timeline.split_off(len - KEPT_EDGE_EVENTS);
        self.timeline.truncate(MAX_TIMELINE_EVENTS - KEPT_EDGE_EVENTS);
        self.timeline.append(&mut tail);
        assert(self.timeline@ =~= old(self).timeline@.take(480) + old(self).timeline@.skip(
            len - KEPT_EDGE_EVENTS,
        ));
    }

    /// How many events `shrink_timeline` drops from a timeline of `len` events.
    pub open spec fn shrink_count(len: nat) -> nat {
        if len / 4 > 1 {
            len / 4
        } else {
            1
        }
    }

    /// One step of fitting a payload into `MAX_PAYLOAD_BYTES`: drops a quarter of the
    /// timeline (at least one event) right after its first 20 events.
    pub fn shrink_timeline(&mut self)
        requires
            old(self).timeline@.len() >= KEPT_EDGE_EVENTS + Self::shrink_count(
                old(self).timeline@.len(),
            ),
        ensures
            final(self).timeline@ == old(self).timeline@.take(20) + old(self).timeline@.skip(
                20 + Self::shrink_count(old(self).timeline@.len()) as int,
            ),
            final(self).client_match_id == old(self).client_match_id,
            final(self).event_id == old(self).event_id,
            final(self).format == old(self).format,
            final(self).result == old(self).result,
            final(self).player_seat == old(self).player_seat,
            final(self).deck_grp_ids == old(self).deck_grp_ids,
    {
        let len = self.timeline.len();
        let quarter = len / 4;
        let drop_count = if quarter > 1 {
            quarter
        } else {
            1
        };
        let mut rest = self.timeline.split_off(KEPT_EDGE_EVENTS);
        let mut kept = rest.split_off(drop_count);
        self.timeline.append(&mut kept);
        assert(self.timeline@ =~= old(self).timeline@.take(20) + old(self).timeline@.skip(
            20 + drop_count,
        ));
    }

    /// Whether `shrink_timeline` can run on this match.
    pub fn can_shrink(&self) -> (r: bool)
        ensures
            r == (self.timeline@.len() >= KEPT_EDGE_EVENTS + Self::shrink_count(
                self.timeline@.len(),
            )),
    {
        let len = self.timeline.len();
        let quarter = len / 4;
        let drop_count = if quarter > 1 {
            quarter
        } else {
            1
        };
        len >= KEPT_EDGE_EVENTS && len - KEPT_EDGE_EVENTS >= drop_count
    }
}

// ---------------------------------------------------------------------------
// Comparing and copying
// ---------------------------------------------------------------------------

/// Whether two lists of card ids are the same.
pub fn u32s_equal(a: &Vec<u32>, b: &Vec<u32>) -> (r: bool)
    ensures
        r == (a@ == b@),
{
    if a.len() != b.len() {
        return false;
    }
    let mut i: usize = 0;
    while i < a.len()
        invariant
            i <= a.len(),
            a.len() == b.len(),
            forall|j: int| 0 <= j < i ==> a@[j] == b@[j],
        decreases a.len() - i,
    {
        if a[i] != b[i] {
            return false;
        }
        i = i + 1;
    }
    assert(a@ =~= b@);
    true
}

/// A copy of a list of card ids.
pub fn copy_u32s(a: &Vec<u32>) -> (r: Vec<u32>)
    ensures
        r@ == a@,
{
    let mut r: Vec<u32> = Vec::new();
    let mut i: usize = 0;
    while i < a.len()
        invariant
            i <= a.len(),
            r@ == a@.take(i as int),
        decreases a.len() - i,
    {
        r.push(a[i]);
        i = i + 1;
        assert(r@ =~= a@.take(i as int));
    }
    assert(a@.take(a@.len() as int) =~= a@);
    r
}

/// Whether two optional strings are the same.
pub fn opt_str_equal(a: &Option<String>, b: &Option<String>) -> (r: bool)
    ensures
        r == (opt_str_view(*a) == opt_str_view(*b)),
{
    match (a, b) {
        (Some(x), Some(y)) => str_eq(x.as_str(), y.as_str()),
        (None, None) => true,
        _ => false,
    }
}

/// A copy of an optional string.
pub fn copy_opt_str(a: &Option<String>) -> (r: Option<String>)
    ensures
        opt_str_view(r) == opt_str_view(*a),
{
    match a {
        Some(x) => Some(x.clone()),
        None => None,
    }
}

impl LegalAction {
    /// A copy of this action.
    pub fn duplicate(&self) -> (r: LegalAction)
        ensures
            r@ == self@,
    {
        LegalAction { action: self.action.clone(), grp_id: self.grp_id }
    }

    /// Whether two actions are the same.
    pub fn same_as(&self, other: &LegalAction) -> (r: bool)
        ensures
            r == (self@ == other@),
    {
        str_eq(self.action.as_str(), other.action.as_str()) && self.grp_id == other.grp_id
    }
}

/// A copy of a list of legal actions.
pub fn copy_legal(a: &Vec<LegalAction>) -> (r: Vec<LegalAction>)
    ensures
        legal_view(r@) == legal_view(a@),
{
    let mut r: Vec<LegalAction> = Vec::new();
    let mut i: usize = 0;
    while i < a.len()
        invariant
            i <= a.len(),
            r@.len() == i,
            forall|j: int| 0 <= j < i ==> #[trigger] r@[j]@ == a@[j]@,
        decreases a.len() - i,
    {
        r.push(a[i].duplicate());
        i = i + 1;
    }
    assert(legal_view(r@) =~= legal_view(a@));
    r
}

/// Whether two lists of legal actions are the same.
pub fn legal_equal(a: &Vec<LegalAction>, b: &Vec<LegalAction>) -> (r: bool)
    ensures
        r == (legal_view(a@) == legal_view(b@)),
{
    if a.len() != b.len() {
        assert(legal_view(a@).len() != legal_view(b@).len());
        return false;
    }
    let mut i: usize = 0;
    while i < a.len()
        invariant
            i <= a.len(),
            a.len() == b.len(),
            forall|j: int| 0 <= j < i ==> a@[j]@ == b@[j]@,
        decreases a.len() - i,
    {
        if !a[i].same_as(&b[i]) {
            assert(legal_view(a@)[i as int] != legal_view(b@)[i as int]);
            return false;
        }
        i = i + 1;
    }
    assert(legal_view(a@) =~= legal_view(b@));
    true
}

impl DecisionContext {
    /// A copy of this context.
    pub fn duplicate(&self) -> (r: DecisionContext)
        ensures
            r@ == self@,
    {
        DecisionContext {
            my_hand: copy_u32s(&self.my_hand),
            my_board: copy_u32s(&self.my_board),
            opp_board: copy_u32s(&self.opp_board),
            opp_hand: copy_u32s(&self.opp_hand),
            opp_hand_count: self.opp_hand_count,
            my_life: self.my_life,
            opp_life: self.opp_life,
            legal: copy_legal(&self.legal),
        }
    }

    /// Whether two contexts are the same.
    pub fn same_as(&self, other: &DecisionContext) -> (r: bool)
        ensures
            r == (self@ == other@),
    {
        u32s_equal(&self.my_hand, &other.my_hand) && u32s_equal(&self.my_board, &other.my_board)
            && u32s_equal(&self.opp_board, &other.opp_board) && u32s_equal(
            &self.opp_hand,
            &other.opp_hand,
        ) && self.opp_hand_count == other.opp_hand_count && self.my_life == other.my_life
            && self.opp_life == other.opp_life && legal_equal(&self.legal, &other.legal)
    }
}

impl TimelineEvent {
    /// A copy of this event.
    pub fn duplicate(&self) -> (r: TimelineEvent)
        ensures
            r@ == self@,
    {
        TimelineEvent {
            t_ms: self.t_ms,
            turn: self.turn,
            phase: copy_opt_str(&self.phase),
            step: copy_opt_str(&self.step),
            actor: self.actor,
            kind: self.kind,
            card_ids: copy_u32s(&self.card_ids),
            note: self.note.clone(),
            context: match &self.context {
                Some(c) => Some(c.duplicate()),
                None => None,
            },
        }
    }

    /// Whether two events are the same.
    pub fn same_as(&self, other: &TimelineEvent) -> (r: bool)
        ensures
            r == (self@ == other@),
    {
        let context_same = match (&self.context, &other.context) {
            (Some(a), Some(b)) => a.same_as(b),
            (None, None) => true,
            _ => false,
        };
        self.t_ms == other.t_ms && self.turn == other.turn && opt_str_equal(
            &self.phase,
            &other.phase,
        ) && opt_str_equal(&self.step, &other.step) && self.actor == other.actor && self.kind
            == other.kind && u32s_equal(&self.card_ids, &other.card_ids) && str_eq(
            self.note.as_str(),
            other.note.as_str(),
        ) && context_same
    }
}

/// A copy of a timeline.
pub fn copy_timeline(a: &Vec<TimelineEvent>) -> (r: Vec<TimelineEvent>)
    ensures
        timeline_view(r@) == timeline_view(a@),
{
    let mut r: Vec<TimelineEvent> = Vec::new();
    let mut i: usize = 0;
    while i < a.len()
        invariant
            i <= a.len(),
            r@.len() == i,
            forall|j: int| 0 <= j < i ==> #[trigger] r@[j]@ == a@[j]@,
        decreases a.len() - i,
    {
        r.push(a[i].duplicate());
        i = i + 1;
    }
    assert(timeline_view(r@) =~= timeline_view(a@));
    r
}

/// Whether two timelines are the same.
pub fn timeline_equal(a: &Vec<TimelineEvent>, b: &Vec<TimelineEvent>) -> (r: bool)
    ensures
        r == (timeline_view(a@) == timeline_view(b@)),
{
    if a.len() != b.len() {
        assert(timeline_view(a@).len() != timeline_view(b@).len());
        return false;
    }
    let mut i: usize = 0;
    while i < a.len()
        invariant
            i <= a.len(),
            a.len() == b.len(),
            forall|j: int| 0 <= j < i ==> a@[j]@ == b@[j]@,
        decreases a.len() - i,
    {
        if !a[i].same_as(&b[i]) {
            assert(timeline_view(a@)[i as int] != timeline_view(b@)[i as int]);
            return false;
        }
        i = i + 1;
    }
    assert(timeline_view(a@) =~= timeline_view(b@));
    true
}

impl Match {
    /// A copy of this match.
    pub fn duplicate(&self) -> (r: Match)
        ensures
            r@ == self@,
    {
        Match {
            client_match_id: self.client_match_id.clone(),
            event_id: self.event_id.clone(),
            format: self.format,
            result: self.result,
            player_seat: self.player_seat,
            deck_grp_ids: copy_u32s(&self.deck_grp_ids),
            timeline: copy_timeline(&self.timeline),
        }
    }

    /// Whether two matches are the same in every field.
    pub fn same_as(&self, other: &Match) -> (r: bool)
        ensures
            r == (self@ == other@),
    {
        str_eq(self.client_match_id.as_str(), other.client_match_id.as_str()) && str_eq(
            self.event_id.as_str(),
            other.event_id.as_str(),
        ) && self.format == other.format && self.result == other.result && self.player_seat
            == other.player_seat && u32s_equal(&self.deck_grp_ids, &other.deck_grp_ids)
            && timeline_equal(&self.timeline, &other.timeline)
    }
}

} // verus!
