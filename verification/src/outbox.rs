use vstd::prelude::*;

use crate::log_path::{join_path, joined_path, plain_name};
use crate::match_payload::{copy_opt_str, opt_str_view, Match, MatchView};
use vstd::string::StringExecFns;
use crate::text::{all_digits, decimal, lemma_decimal_injective, lemma_decimal_value, push_decimal};

verus! {

/// The most matches the outbox holds.
pub const MAX_ITEMS: usize = 100;

/// The most bytes a stored outbox may take.
pub const MAX_BYTES: u64 = 20 * 1024 * 1024;

/// Room kept free in a stored outbox when a match is added.
pub const STORE_HEADROOM: u64 = 1024;

/// Why the outbox refused a change or a stored copy.
#[derive(Debug, Clone, Copy, PartialEq, Eq, Structural)]
pub enum OutboxError {
    /// A new match would take the outbox past `MAX_ITEMS`.
    Full,
    /// Stored, the outbox would take more than `MAX_BYTES - STORE_HEADROOM` bytes.
    StoreFull,
    /// A stored outbox is larger than `MAX_BYTES`.
    TooLarge,
    /// A stored outbox holds more than `MAX_ITEMS` matches.
    TooManyMatches,
}

impl OutboxError {
    /// The message shown for the error.
    pub fn message(&self) -> (r: &'static str)
        ensures
            r@ == match self {
                OutboxError::Full => "Upload outbox is full. Sync or remove failed uploads before playing more games."@,
                OutboxError::StoreFull => "Upload outbox is full"@,
                OutboxError::TooLarge => "Upload outbox is too large"@,
                OutboxError::TooManyMatches => "Upload outbox has too many matches"@,
            },
    {
        match self {
            OutboxError::Full => "Upload outbox is full. Sync or remove failed uploads before playing more games.",
            OutboxError::StoreFull => "Upload outbox is full",
            OutboxError::TooLarge => "Upload outbox is too large",
            OutboxError::TooManyMatches => "Upload outbox has too many matches",
        }
    }
}

/// A match waiting to be sent, with the error of its last refused attempt.
#[derive(Debug)]
pub struct OutboxItem {
    pub payload: Match,
    pub error: Option<String>,
}

/// The model of an outbox item.
pub struct OutboxItemView {
    pub payload: MatchView,
    pub error: Option<Seq<char>>,
}

impl View for OutboxItem {
    type V = OutboxItemView;

    open spec fn view(&self) -> OutboxItemView {
        OutboxItemView { payload: self.payload@, error: opt_str_view(self.error) }
    }
}

impl OutboxItem {
    /// A copy of this item.
    pub fn duplicate(&self) -> (r: OutboxItem)
        ensures
            r@ == self@,
    {
        OutboxItem { payload: self.payload.duplicate(), error: copy_opt_str(&self.error) }
    }
}

/// The models of a sequence of items.
pub open spec fn items_view(s: Seq<OutboxItem>) -> Seq<OutboxItemView> {
    s.map_values(|it: OutboxItem| it@)
}

/// The matches not yet sent, in the order they were queued.
#[derive(Debug)]
pub struct Outbox {
    items: Vec<OutboxItem>,
}

impl View for Outbox {
    type V = Seq<OutboxItemView>;

    closed spec fn view(&self) -> Seq<OutboxItemView> {
        items_view(self.items@)
    }
}

// ---------------------------------------------------------------------------
// Models of the operations
// ---------------------------------------------------------------------------

/// The first position from `i` on whose item satisfies `p`, or the length.
pub open spec fn first_index(s: Seq<OutboxItemView>, p: spec_fn(OutboxItemView) -> bool, i: int) -> int
    decreases s.len() - i,
{
    if i < 0 || i >= s.len() {
        s.len() as int
    } else if p(s[i]) {
        i
    } else {
        first_index(s, p, i + 1)
    }
}

/// Whether the item is for the game `id`.
pub open spec fn for_game(id: Seq<char>) -> spec_fn(OutboxItemView) -> bool {
    |it: OutboxItemView| it.payload.client_match_id == id
}

/// Whether the item carries exactly `payload`.
pub open spec fn carries(payload: MatchView) -> spec_fn(OutboxItemView) -> bool {
    |it: OutboxItemView| it.payload == payload
}

/// Whether the item is still to be sent.
pub open spec fn is_pending(it: OutboxItemView) -> bool {
    it.error is None
}

/// No two items are for the same game.
pub open spec fn games_unique(s: Seq<OutboxItemView>) -> bool {
    forall|i: int, j: int|
        0 <= i < j < s.len() ==> #[trigger] s[i].payload.client_match_id
            != #[trigger] s[j].payload.client_match_id
}

/// What queuing `payload` does: nothing where it is queued already, in place of an older
/// version of the same game, else at the end unless the outbox is full.
pub open spec fn enqueue_spec(s: Seq<OutboxItemView>, payload: MatchView) -> Result<
    Seq<OutboxItemView>,
    OutboxError,
> {
    let k = first_index(s, for_game(payload.client_match_id), 0);
    let fresh = OutboxItemView { payload: payload, error: None };
    if k < s.len() {
        if s[k].payload == payload {
            Ok(s)
        } else {
            Ok(s.update(k, fresh))
        }
    } else if s.len() >= MAX_ITEMS {
        Err(OutboxError::Full)
    } else {
        Ok(s.push(fresh))
    }
}

/// The position of the item `next` hands out, or the length.
pub open spec fn next_index(s: Seq<OutboxItemView>) -> int {
    first_index(s, |it: OutboxItemView| is_pending(it), 0)
}

/// What settling the attempt to send `payload` does: a refusal marks the first item that
/// carries it with the error, a success removes that item; without such an item, nothing.
pub open spec fn finish_spec(s: Seq<OutboxItemView>, payload: MatchView, error: Option<Seq<char>>) -> Seq<
    OutboxItemView,
> {
    let k = first_index(s, carries(payload), 0);
    if k < s.len() {
        match error {
            Some(e) => s.update(k, OutboxItemView { payload: s[k].payload, error: Some(e) }),
            None => s.remove(k),
        }
    } else {
        s
    }
}

/// Every item with its error cleared.
pub open spec fn retry_spec(s: Seq<OutboxItemView>) -> Seq<OutboxItemView> {
    s.map_values(|it: OutboxItemView| OutboxItemView { payload: it.payload, error: None })
}

/// The items still to be sent, in order.
pub open spec fn pending_items(s: Seq<OutboxItemView>) -> Seq<OutboxItemView>
    decreases s.len(),
{
    if s.len() == 0 {
        Seq::empty()
    } else if is_pending(s.last()) {
        pending_items(s.drop_last()).push(s.last())
    } else {
        pending_items(s.drop_last())
    }
}

/// How many items are still to be sent.
pub open spec fn count_pending(s: Seq<OutboxItemView>) -> nat
    decreases s.len(),
{
    if s.len() == 0 {
        0
    } else {
        count_pending(s.drop_last()) + if is_pending(s.last()) {
            1nat
        } else {
            0nat
        }
    }
}

/// How many items were refused.
pub open spec fn count_failed(s: Seq<OutboxItemView>) -> nat
    decreases s.len(),
{
    if s.len() == 0 {
        0
    } else {
        count_failed(s.drop_last()) + if is_pending(s.last()) {
            0nat
        } else {
            1nat
        }
    }
}

/// The name of the outbox file of a user, in development or production.
pub open spec fn outbox_file_name(developer_mode: bool, user_id: nat) -> Seq<char> {
    "outbox-"@ + (if developer_mode {
        "dev"@
    } else {
        "prod"@
    }) + "-"@ + decimal(user_id) + ".json"@
}

// ---------------------------------------------------------------------------
// Lemmas and laws
// ---------------------------------------------------------------------------

/// Lemma: what `first_index` finds.
pub proof fn lemma_first_index(s: Seq<OutboxItemView>, p: spec_fn(OutboxItemView) -> bool, i: int)
    requires
        0 <= i <= s.len(),
    ensures
        i <= first_index(s, p, i) <= s.len(),
        first_index(s, p, i) < s.len() ==> p(s[first_index(s, p, i)]),
        forall|j: int| i <= j < first_index(s, p, i) ==> !p(#[trigger] s[j]),
    decreases s.len() - i,
{
    if i < s.len() && !p(s[i]) {
        lemma_first_index(s, p, i + 1);
    }
}

/// Every item is either still to be sent or refused.
pub proof fn law_pending_and_failed_partition(s: Seq<OutboxItemView>)
    ensures
        count_pending(s) + count_failed(s) == s.len(),
        count_pending(s) == pending_items(s).len(),
    decreases s.len(),
{
    if s.len() > 0 {
        law_pending_and_failed_partition(s.drop_last());
    }
}

/// Lemma: the kept items are all still to be sent.
pub proof fn lemma_pending_items_pending(s: Seq<OutboxItemView>)
    ensures
        forall|i: int| 0 <= i < pending_items(s).len() ==> is_pending(#[trigger] pending_items(s)[i]),
        pending_items(s).len() <= s.len(),
    decreases s.len(),
{
    if s.len() > 0 {
        lemma_pending_items_pending(s.drop_last());
    }
}

/// Lemma: a sequence of items all still to be sent has no refused item.
pub proof fn lemma_none_failed(s: Seq<OutboxItemView>)
    requires
        forall|i: int| 0 <= i < s.len() ==> is_pending(#[trigger] s[i]),
    ensures
        count_failed(s) == 0,
        count_pending(s) == s.len(),
        pending_items(s) == s,
    decreases s.len(),
{
    if s.len() > 0 {
        let t = s.drop_last();
        assert forall|i: int| 0 <= i < t.len() implies is_pending(#[trigger] t[i]) by {
            assert(t[i] == s[i]);
        }
        lemma_none_failed(t);
        assert(s.last() == s[s.len() - 1]);
        assert(t.push(s.last()) =~= s);
    }
}

/// Retrying clears every refusal: afterwards every item is to be sent again.
pub proof fn law_retry_clears_failures(s: Seq<OutboxItemView>)
    ensures
        retry_spec(s).len() == s.len(),
        count_failed(retry_spec(s)) == 0,
        count_pending(retry_spec(s)) == s.len(),
{
    lemma_none_failed(retry_spec(s));
}

/// Discarding the refused items keeps every item still to be sent, in order, and nothing else.
pub proof fn law_discard_keeps_pending(s: Seq<OutboxItemView>)
    ensures
        count_failed(pending_items(s)) == 0,
        count_pending(pending_items(s)) == count_pending(s),
        pending_items(pending_items(s)) == pending_items(s),
{
    lemma_pending_items_pending(s);
    lemma_none_failed(pending_items(s));
    law_pending_and_failed_partition(s);
}

/// Queuing keeps one item per game.
pub proof fn law_enqueue_keeps_games_unique(s: Seq<OutboxItemView>, payload: MatchView)
    requires
        games_unique(s),
    ensures
        enqueue_spec(s, payload) matches Ok(t) ==> games_unique(t),
{
    let id = payload.client_match_id;
    lemma_first_index(s, for_game(id), 0);
    let k = first_index(s, for_game(id), 0);
    if let Ok(t) = enqueue_spec(s, payload) {
        assert forall|i: int, j: int| 0 <= i < j < t.len() implies #[trigger] t[i].payload.client_match_id
            != #[trigger] t[j].payload.client_match_id by {
            if k == s.len() && j == s.len() {
                assert(t[i] == s[i]);
                assert(!(for_game(id))(s[i]));
            } else if k < s.len() && (i == k || j == k) {
                assert((for_game(id))(s[k]));
            }
        }
    }
}

/// Queuing a match leaves it as the item of its game, to be sent: with no error, whatever
/// error an older version of the game had; queuing succeeds unless the game is new and the
/// outbox is full.
pub proof fn law_enqueue_holds_payload(s: Seq<OutboxItemView>, payload: MatchView)
    ensures
        enqueue_spec(s, payload) matches Ok(t) ==> {
            let k = first_index(t, for_game(payload.client_match_id), 0);
            &&& k < t.len()
            &&& t[k].payload == payload
            &&& (t[k].error is None || t == s)
            &&& t.len() <= s.len() + 1
        },
        enqueue_spec(s, payload) is Err <==> (s.len() >= MAX_ITEMS && forall|j: int|
            0 <= j < s.len() ==> #[trigger] s[j].payload.client_match_id != payload.client_match_id),
{
    let id = payload.client_match_id;
    lemma_first_index(s, for_game(id), 0);
    let k = first_index(s, for_game(id), 0);
    if let Ok(t) = enqueue_spec(s, payload) {
        lemma_first_index(t, for_game(id), 0);
        let m = first_index(t, for_game(id), 0);
        if k < s.len() {
            assert((for_game(id))(t[k]));
            if m < k {
                assert(t[m] == s[m]);
            }
        } else {
            assert((for_game(id))(t[s.len() as int]));
            if m < s.len() {
                assert(t[m] == s[m]);
            }
        }
    }
}

/// Settling an attempt for a version that is no longer queued changes nothing: once a newer
/// version of a game replaced the one being sent, completing the old one keeps the new one.
pub proof fn law_finish_after_newer_version(
    s: Seq<OutboxItemView>,
    old_payload: MatchView,
    new_payload: MatchView,
    error: Option<Seq<char>>,
)
    requires
        games_unique(s),
        old_payload.client_match_id == new_payload.client_match_id,
        old_payload != new_payload,
    ensures
        enqueue_spec(s, new_payload) matches Ok(t) ==> finish_spec(t, old_payload, error) == t,
{
    let id = new_payload.client_match_id;
    lemma_first_index(s, for_game(id), 0);
    let k = first_index(s, for_game(id), 0);
    if let Ok(t) = enqueue_spec(s, new_payload) {
        law_enqueue_keeps_games_unique(s, new_payload);
        law_enqueue_holds_payload(s, new_payload);
        lemma_first_index(t, carries(old_payload), 0);
        lemma_first_index(t, for_game(id), 0);
        let m = first_index(t, carries(old_payload), 0);
        let n = first_index(t, for_game(id), 0);
        if m < t.len() {
            assert((carries(old_payload))(t[m]));
            assert(t[m].payload.client_match_id == id);
            assert((for_game(id))(t[m]));
            if m != n {
                assert(t[n].payload.client_match_id == id);
            }
            assert(false);
        }
    }
}

/// Distinct owners get distinct outbox files: the user id and the mode both show in the name.
pub proof fn law_owner_file_names_distinct(
    dev_a: bool,
    id_a: nat,
    dev_b: bool,
    id_b: nat,
)
    requires
        dev_a != dev_b || id_a != id_b,
    ensures
        outbox_file_name(dev_a, id_a) != outbox_file_name(dev_b, id_b),
{
    reveal_strlit("outbox-");
    reveal_strlit("dev");
    reveal_strlit("prod");
    reveal_strlit("-");
    reveal_strlit(".json");
    let a = outbox_file_name(dev_a, id_a);
    let b = outbox_file_name(dev_b, id_b);
    if a == b {
        if dev_a != dev_b {
            assert(a[7] == (if dev_a { 'd' } else { 'p' }));
            assert(b[7] == (if dev_b { 'd' } else { 'p' }));
        } else {
            let head: int = if dev_a { 11 } else { 12 };
            assert(a.subrange(head, a.len() - 5) =~= decimal(id_a));
            assert(b.subrange(head, b.len() - 5) =~= decimal(id_b));
            lemma_decimal_injective(id_a, id_b);
        }
    }
}

/// Whether `c` may stand in a plain file name.
pub open spec fn name_char(c: char) -> bool {
    c != '/' && c != '\\' && c != ':'
}

/// Lemma: the name of an outbox file is a plain file name.
pub proof fn lemma_outbox_name_plain(developer_mode: bool, user_id: nat)
    ensures
        plain_name(outbox_file_name(developer_mode, user_id)),
{
    reveal_strlit("outbox-");
    reveal_strlit("dev");
    reveal_strlit("prod");
    reveal_strlit("-");
    reveal_strlit(".json");
    lemma_decimal_value(user_id);
    let mode: Seq<char> = if developer_mode {
        "dev"@
    } else {
        "prod"@
    };
    let d = decimal(user_id);
    let name = outbox_file_name(developer_mode, user_id);
    let head = "outbox-"@ + mode + "-"@;
    assert(name == head + d + ".json"@);
    assert(forall|i: int| 0 <= i < d.len() ==> name_char(#[trigger] d[i])) by {
        assert(all_digits(d));
    }
    assert forall|i: int| 0 <= i < name.len() implies #[trigger] name[i] != '/' && name[i] != '\\'
        && name[i] != ':' by {
        if i < head.len() {
            assert(name[i] == head[i]);
        } else if i < head.len() + d.len() {
            assert(name[i] == d[i - head.len()]);
            assert(name_char(d[i - head.len()]));
        } else {
            assert(name[i] == ".json"@[i - head.len() - d.len()]);
        }
    }
    assert(name.len() > 2);
}

// ---------------------------------------------------------------------------
// The outbox
// ---------------------------------------------------------------------------

impl Outbox {
    /// The outbox never holds more than `MAX_ITEMS` matches.
    #[verifier::type_invariant]
    closed spec fn within_limit(self) -> bool {
        self.items@.len() <= MAX_ITEMS
    }

    /// An empty outbox.
    pub fn new() -> (r: Outbox)
        ensures
            r@ == Seq::<OutboxItemView>::empty(),
    {
        let r = Outbox { items: Vec::new() };
        assert(r@ =~= Seq::<OutboxItemView>::empty());
        r
    }

    /// The number of matches held, at most `MAX_ITEMS`.
    pub fn len(&self) -> (r: usize)
        ensures
            r == self@.len(),
            r <= MAX_ITEMS,
    {
        proof {
            use_type_invariant(self);
        }
        self.items.len()
    }

    /// The items, in order.
    pub fn items(&self) -> (r: &Vec<OutboxItem>)
        ensures
            items_view(r@) == self@,
    {
        &self.items
    }

    /// The file that keeps the outbox of a signed-in user, for development or production;
    /// none without a user.
    pub fn path(directory: &str, developer_mode: bool, user_id: Option<i64>) -> (r: Option<String>)
        ensures
            match user_id {
                Some(id) => if id > 0 {
                    r matches Some(p) && p@ == joined_path(directory@, outbox_file_name(developer_mode, id as nat))
                } else {
                    r is None
                },
                None => r is None,
            },
            r matches Some(p) ==> forall|other_mode: bool, other_id: nat|
                other_id > 0 && (other_mode != developer_mode || Some(other_id as int) != (match user_id {
                    Some(id) => Some(id as int),
                    None => None,
                })) ==> #[trigger] joined_path(directory@, outbox_file_name(other_mode, other_id)) != p@,
    {
        match user_id {
            Some(id) => {
                if id > 0 {
                    let mut name = String::new();
                    name.append("outbox-");
                    if developer_mode {
                        name.append("dev");
                    } else {
                        name.append("prod");
                    }
                    name.append("-");
                    push_decimal(&mut name, id as u64);
                    name.append(".json");
                    assert(name@ =~= outbox_file_name(developer_mode, id as nat));
                    let p = join_path(directory, name.as_str());
                    proof {
                        lemma_outbox_name_plain(developer_mode, id as nat);
                        let prefix = p@.subrange(0, p@.len() - name@.len());
                        assert(p@ == prefix + name@);
                        assert forall|other_mode: bool, other_id: nat|
                            other_id > 0 && (other_mode != developer_mode || other_id != id as nat) implies
                            #[trigger] joined_path(directory@, outbox_file_name(other_mode, other_id)) != p@ by {
                            let other = outbox_file_name(other_mode, other_id);
                            lemma_outbox_name_plain(other_mode, other_id);
                            law_owner_file_names_distinct(other_mode, other_id, developer_mode, id as nat);
                            let q = joined_path(directory@, other);
                            assert(q == prefix + other);
                            if q == p@ {
                                assert(q.subrange(prefix.len() as int, q.len() as int) =~= other);
                                assert(p@.subrange(prefix.len() as int, p@.len() as int) =~= name@);
                            }
                        }
                    }
                    Some(p)
                } else {
                    None
                }
            },
            None => None,
        }
    }

    /// Whether a stored outbox of `encoded_len` bytes may be read.
    pub fn check_stored_size(encoded_len: u64) -> (r: Result<(), OutboxError>)
        ensures
            r matches Ok(_) <==> encoded_len <= MAX_BYTES,
            r matches Err(e) ==> e == OutboxError::TooLarge,
    {
        if encoded_len > MAX_BYTES {
            Err(OutboxError::TooLarge)
        } else {
            Ok(())
        }
    }

    /// Whether an outbox that takes `encoded_len` bytes once stored leaves the room kept free.
    pub fn fits_in_store(encoded_len: u64) -> (r: bool)
        ensures
            r == (encoded_len <= MAX_BYTES - STORE_HEADROOM),
    {
        encoded_len <= MAX_BYTES - STORE_HEADROOM
    }

    /// The outbox made of stored items; refused when there are more than `MAX_ITEMS`.
    pub fn from_items(items: Vec<OutboxItem>) -> (r: Result<Outbox, OutboxError>)
        ensures
            r matches Ok(o) <==> items@.len() <= MAX_ITEMS,
            r matches Ok(o) ==> o@ == items_view(items@),
            r matches Err(e) ==> e == OutboxError::TooManyMatches,
    {
        if items.len() > MAX_ITEMS {
            Err(OutboxError::TooManyMatches)
        } else {
            Ok(Outbox { items })
        }
    }

    /// A copy of this outbox.
    pub fn duplicate(&self) -> (r: Outbox)
        ensures
            r@ == self@,
    {
        proof {
            use_type_invariant(self);
        }
        let mut items: Vec<OutboxItem> = Vec::new();
        let mut i: usize = 0;
        while i < self.items.len()
            invariant
                i <= self.items.len() <= MAX_ITEMS,
                items@.len() == i,
                forall|j: int| 0 <= j < i ==> (#[trigger] items@[j])@ == self.items@[j]@,
            decreases self.items.len() - i,
        {
            items.push(self.items[i].duplicate());
            i = i + 1;
        }
        let r = Outbox { items };
        assert(r@ =~= self@);
        r
    }

    /// Where the first item for the game `id` sits, or the length.
    fn position_of_game(&self, id: &str) -> (r: usize)
        ensures
            r as int == first_index(self@, for_game(id@), 0),
    {
        let mut i: usize = 0;
        while i < self.items.len()
            invariant
                i <= self.items.len(),
                self@ == items_view(self.items@),
                first_index(self@, for_game(id@), i as int) == first_index(self@, for_game(id@), 0),
            decreases self.items.len() - i,
        {
            assert(self@[i as int] == self.items@[i as int]@);
            if crate::text::str_eq(self.items[i].payload.client_match_id.as_str(), id) {
                return i;
            }
            i = i + 1;
        }
        i
    }

    /// Where the first item that carries `payload` sits, or the length.
    fn position_of_payload(&self, payload: &Match) -> (r: usize)
        ensures
            r as int == first_index(self@, carries(payload@), 0),
    {
        let mut i: usize = 0;
        while i < self.items.len()
            invariant
                i <= self.items.len(),
                self@ == items_view(self.items@),
                first_index(self@, carries(payload@), i as int) == first_index(self@, carries(payload@), 0),
            decreases self.items.len() - i,
        {
            assert(self@[i as int] == self.items@[i as int]@);
            if self.items[i].payload.same_as(payload) {
                return i;
            }
            i = i + 1;
        }
        i
    }

    /// Queues a match: a version already queued stays, an older version of the same game is
    /// replaced and to be sent again, a new game goes at the end unless the outbox is full.
    pub fn enqueue(&mut self, payload: Match) -> (r: Result<(), OutboxError>)
        ensures
            match enqueue_spec(old(self)@, payload@) {
                Ok(t) => r is Ok && final(self)@ == t,
                Err(e) => r == Err::<(), OutboxError>(e) && final(self)@ == old(self)@,
            },
    {
        proof {
            use_type_invariant(&*self);
        }
        let k = self.position_of_game(payload.client_match_id.as_str());
        proof {
            lemma_first_index(self@, for_game(payload@.client_match_id), 0);
        }
        if k < self.items.len() {
            assert(self@[k as int] == self.items@[k as int]@);
            if self.items[k].payload.same_as(&payload) {
                return Ok(());
            }
            let mut items: Vec<OutboxItem> = Vec::new();
            std::mem::swap(&mut items, &mut self.items);
            items.set(k, OutboxItem { payload, error: None });
            assert(items_view(items@) =~= enqueue_spec(old(self)@, payload@)->Ok_0);
            self.items = items;
            Ok(())
        } else if self.items.len() >= MAX_ITEMS {
            Err(OutboxError::Full)
        } else {
            let mut items: Vec<OutboxItem> = Vec::new();
            std::mem::swap(&mut items, &mut self.items);
            items.push(OutboxItem { payload, error: None });
            assert(items_view(items@) =~= enqueue_spec(old(self)@, payload@)->Ok_0);
            self.items = items;
            Ok(())
        }
    }

    /// The first match still to be sent, if any.
    pub fn next(&self) -> (r: Option<Match>)
        ensures
            next_index(self@) < self@.len() ==> (r matches Some(m) && m@ == self@[next_index(self@)].payload),
            next_index(self@) == self@.len() ==> r is None,
    {
        proof {
            lemma_first_index(self@, |it: OutboxItemView| is_pending(it), 0);
        }
        let mut i: usize = 0;
        while i < self.items.len()
            invariant
                i <= self.items.len(),
                self@ == items_view(self.items@),
                first_index(self@, |it: OutboxItemView| is_pending(it), i as int) == next_index(self@),
            decreases self.items.len() - i,
        {
            assert(self@[i as int] == self.items@[i as int]@);
            if self.items[i].error.is_none() {
                return Some(self.items[i].payload.duplicate());
            }
            i = i + 1;
        }
        None
    }

    /// Settles an attempt to send `payload`: with an error the item is kept and marked
    /// refused; without one it is removed.
    pub fn finish(&mut self, payload: &Match, error: Option<String>)
        ensures
            final(self)@ == finish_spec(old(self)@, payload@, opt_str_view(error)),
    {
        proof {
            use_type_invariant(&*self);
        }
        let k = self.position_of_payload(payload);
        proof {
            lemma_first_index(self@, carries(payload@), 0);
        }
        if k < self.items.len() {
            assert(self@[k as int] == self.items@[k as int]@);
            let mut items: Vec<OutboxItem> = Vec::new();
            std::mem::swap(&mut items, &mut self.items);
            match error {
                Some(e) => {
                    let kept = items[k].payload.duplicate();
                    items.set(k, OutboxItem { payload: kept, error: Some(e) });
                },
                None => {
                    items.remove(k);
                },
            }
            assert(items_view(items@) =~= finish_spec(old(self)@, payload@, opt_str_view(error)));
            self.items = items;
        } else {
            assert(finish_spec(old(self)@, payload@, opt_str_view(error)) == old(self)@);
        }
    }

    /// Clears every refusal, so that every match is sent again.
    pub fn retry_failed(&mut self)
        ensures
            final(self)@ == retry_spec(old(self)@),
    {
        proof {
            use_type_invariant(&*self);
        }
        let mut items: Vec<OutboxItem> = Vec::new();
        let mut i: usize = 0;
        while i < self.items.len()
            invariant
                i <= self.items.len() <= MAX_ITEMS,
                self@ == items_view(self.items@),
                items@.len() == i,
                forall|j: int| 0 <= j < i ==> (#[trigger] items@[j])@ == (OutboxItemView { payload: self@[j].payload, error: None }),
            decreases self.items.len() - i,
        {
            assert(self@[i as int] == self.items@[i as int]@);
            items.push(OutboxItem { payload: self.items[i].payload.duplicate(), error: None });
            i = i + 1;
        }
        assert(items_view(items@) =~= retry_spec(self@));
        self.items = items;
    }

    /// Drops every refused match.
    pub fn discard_failed(&mut self)
        ensures
            final(self)@ == pending_items(old(self)@),
    {
        proof {
            use_type_invariant(&*self);
            lemma_pending_items_pending(self@);
        }
        let ghost s = self@;
        let mut items: Vec<OutboxItem> = Vec::new();
        let mut i: usize = 0;
        while i < self.items.len()
            invariant
                i <= self.items.len() <= MAX_ITEMS,
                s == self@,
                self@ == items_view(self.items@),
                items_view(items@) == pending_items(s.take(i as int)),
                items@.len() <= i,
            decreases self.items.len() - i,
        {
            assert(self@[i as int] == self.items@[i as int]@);
            assert(s.take(i + 1).drop_last() =~= s.take(i as int));
            assert(s.take(i + 1).last() == s[i as int]);
            if self.items[i].error.is_none() {
                items.push(self.items[i].duplicate());
                assert(items_view(items@) =~= pending_items(s.take(i + 1)));
            }
            i = i + 1;
        }
        assert(s.take(i as int) =~= s);
        self.items = items;
    }

    /// How many matches are still to be sent.
    pub fn pending(&self) -> (r: usize)
        ensures
            r == count_pending(self@),
    {
        self.count(true)
    }

    /// How many matches were refused.
    pub fn failed(&self) -> (r: usize)
        ensures
            r == count_failed(self@),
    {
        self.count(false)
    }

    /// How many items are still to be sent (`pending`) or refused (otherwise).
    fn count(&self, pending: bool) -> (r: usize)
        ensures
            pending ==> r == count_pending(self@),
            !pending ==> r == count_failed(self@),
    {
        let ghost s = self@;
        let mut n: usize = 0;
        let mut i: usize = 0;
        while i < self.items.len()
            invariant
                i <= self.items.len(),
                s == self@,
                self@ == items_view(self.items@),
                pending ==> n == count_pending(s.take(i as int)),
                !pending ==> n == count_failed(s.take(i as int)),
            decreases self.items.len() - i,
        {
            assert(self@[i as int] == self.items@[i as int]@);
            assert(s.take(i + 1).drop_last() =~= s.take(i as int));
            assert(s.take(i + 1).last() == s[i as int]);
            proof {
                law_pending_and_failed_partition(s.take(i as int));
            }
            if self.items[i].error.is_none() == pending {
                n = n + 1;
            }
            i = i + 1;
        }
        assert(s.take(i as int) =~= s);
        n
    }
}

impl Default for Outbox {
    fn default() -> (r: Outbox)
        ensures
            r@ == Seq::<OutboxItemView>::empty(),
    {
        Outbox::new()
    }
}

} // verus!
