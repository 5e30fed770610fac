use vstd::prelude::*;

use crate::match_payload::{Match, MatchResult};
use crate::text::str_eq;

verus! {

/// The all-time record of the games processed on this device.
#[derive(Debug, Clone, Copy, PartialEq, Eq, Structural)]
pub struct CompanionStats {
    pub games: u32,
    pub wins: u32,
    pub losses: u32,
    pub unknown: u32,
}

impl Default for CompanionStats {
    fn default() -> (r: CompanionStats)
        ensures
            r == (CompanionStats { games: 0, wins: 0, losses: 0, unknown: 0 }),
    {
        CompanionStats { games: 0, wins: 0, losses: 0, unknown: 0 }
    }
}

/// The result of each game processed on this device, by match id; each id at most once.
#[derive(Debug)]
pub struct LocalStats {
    matches: Vec<(String, MatchResult)>,
}

/// The ids of a sequence of records.
pub open spec fn record_ids(s: Seq<(Seq<char>, MatchResult)>) -> Seq<Seq<char>> {
    s.map_values(|p: (Seq<char>, MatchResult)| p.0)
}

/// No id occurs twice.
pub open spec fn ids_unique(s: Seq<(Seq<char>, MatchResult)>) -> bool {
    forall|i: int, j: int| 0 <= i < j < s.len() ==> #[trigger] s[i].0 != #[trigger] s[j].0
}

/// Where `id` is recorded, or the length.
pub open spec fn record_index(s: Seq<(Seq<char>, MatchResult)>, id: Seq<char>, i: int) -> int
    decreases s.len() - i,
{
    if i < 0 || i >= s.len() {
        s.len() as int
    } else if s[i].0 == id {
        i
    } else {
        record_index(s, id, i + 1)
    }
}

/// The result recorded for `id`.
pub open spec fn recorded(s: Seq<(Seq<char>, MatchResult)>, id: Seq<char>) -> Option<MatchResult> {
    let i = record_index(s, id, 0);
    if i < s.len() {
        Some(s[i].1)
    } else {
        None
    }
}

/// The records once `id` has `result`: in place of its old result, else added at the end.
pub open spec fn with_record(s: Seq<(Seq<char>, MatchResult)>, id: Seq<char>, result: MatchResult) -> Seq<(Seq<char>, MatchResult)> {
    let i = record_index(s, id, 0);
    if i < s.len() {
        s.update(i, (id, result))
    } else {
        s.push((id, result))
    }
}

/// How many records have `result`.
pub open spec fn count_result(s: Seq<(Seq<char>, MatchResult)>, result: MatchResult) -> nat
    decreases s.len(),
{
    if s.len() == 0 {
        0
    } else {
        count_result(s.drop_last(), result) + if s.last().1 == result {
            1nat
        } else {
            0nat
        }
    }
}

/// The record that `summary` reports for `s`.
pub open spec fn summary_spec(s: Seq<(Seq<char>, MatchResult)>) -> CompanionStats {
    CompanionStats {
        games: s.len() as u32,
        wins: count_result(s, MatchResult::Win) as u32,
        losses: count_result(s, MatchResult::Loss) as u32,
        unknown: count_result(s, MatchResult::Unknown) as u32,
    }
}

impl View for LocalStats {
    type V = Seq<(Seq<char>, MatchResult)>;

    closed spec fn view(&self) -> Seq<(Seq<char>, MatchResult)> {
        self.matches@.map_values(|p: (String, MatchResult)| (p.0@, p.1))
    }
}

/// Lemma: the record found lies within the records and has the id looked for.
pub proof fn lemma_record_index(s: Seq<(Seq<char>, MatchResult)>, id: Seq<char>, i: int)
    requires
        0 <= i <= s.len(),
    ensures
        i <= record_index(s, id, i) <= s.len(),
        record_index(s, id, i) < s.len() ==> s[record_index(s, id, i)].0 == id,
        forall|j: int| i <= j < record_index(s, id, i) ==> s[j].0 != id,
    decreases s.len() - i,
{
    if i < s.len() && s[i].0 != id {
        lemma_record_index(s, id, i + 1);
    }
}

/// Lemma: recording keeps the ids unique.
pub proof fn lemma_with_record_unique(s: Seq<(Seq<char>, MatchResult)>, id: Seq<char>, result: MatchResult)
    requires
        ids_unique(s),
    ensures
        ids_unique(with_record(s, id, result)),
{
    lemma_record_index(s, id, 0);
    let t = with_record(s, id, result);
    assert forall|i: int, j: int| 0 <= i < j < t.len() implies #[trigger] t[i].0 != #[trigger] t[j].0 by {
        if record_index(s, id, 0) == s.len() {
            if j == s.len() {
                assert(t[j].0 == id);
                assert(t[i] == s[i]);
            }
        }
    }
}

/// Every recorded game counts once, as a win, a loss or an unknown result: the three
/// counts add up to the number of games.
pub proof fn law_counts_add_up(s: Seq<(Seq<char>, MatchResult)>)
    ensures
        count_result(s, MatchResult::Win) + count_result(s, MatchResult::Loss) + count_result(
            s,
            MatchResult::Unknown,
        ) == s.len(),
        count_result(s, MatchResult::Win) <= s.len(),
        count_result(s, MatchResult::Loss) <= s.len(),
        count_result(s, MatchResult::Unknown) <= s.len(),
    decreases s.len(),
{
    if s.len() > 0 {
        law_counts_add_up(s.drop_last());
    }
}

/// The records built from `entries` in order, a later entry for an id replacing an earlier one.
pub open spec fn records_from(entries: Seq<(Seq<char>, MatchResult)>) -> Seq<(Seq<char>, MatchResult)>
    decreases entries.len(),
{
    if entries.len() == 0 {
        Seq::empty()
    } else {
        let last = entries.last();
        with_record(records_from(entries.drop_last()), last.0, last.1)
    }
}

/// A result just recorded for a game is the one found for it, so recording the same result
/// again changes nothing.
pub proof fn law_recorded_after_record(s: Seq<(Seq<char>, MatchResult)>, id: Seq<char>, result: MatchResult)
    requires
        ids_unique(s),
    ensures
        recorded(with_record(s, id, result), id) == Some(result),
{
    lemma_record_index(s, id, 0);
    let t = with_record(s, id, result);
    let k = record_index(s, id, 0);
    lemma_record_index(t, id, 0);
    lemma_with_record_unique(s, id, result);
    assert(t[k].0 == id);
    let m = record_index(t, id, 0);
    if m != k {
        assert(m < k);
        assert(t[m] == s[m]);
    }
}

/// Recording a game leaves the results of the other games as they were.
pub proof fn law_record_keeps_others(
    s: Seq<(Seq<char>, MatchResult)>,
    id: Seq<char>,
    result: MatchResult,
    other: Seq<char>,
)
    requires
        ids_unique(s),
        other != id,
    ensures
        recorded(with_record(s, id, result), other) == recorded(s, other),
{
    lemma_record_index(s, id, 0);
    lemma_record_index(s, other, 0);
    let t = with_record(s, id, result);
    lemma_record_index(t, other, 0);
    let a = record_index(s, other, 0);
    let b = record_index(t, other, 0);
    let k = record_index(s, id, 0);
    if a < s.len() {
        assert(t[a] == s[a]);
        if b < a {
            assert(t[b] == s[b]);
        }
    }
    if b < t.len() && b != k {
        if b < s.len() {
            assert(t[b] == s[b]);
        }
    }
}

/// A game counts once however often its result is recorded: recording a game already
/// recorded keeps the number of games, recording a new one adds one.
pub proof fn law_game_counted_once(s: Seq<(Seq<char>, MatchResult)>, id: Seq<char>, result: MatchResult)
    ensures
        recorded(s, id) is Some ==> with_record(s, id, result).len() == s.len(),
        recorded(s, id) is None ==> with_record(s, id, result).len() == s.len() + 1,
{
    lemma_record_index(s, id, 0);
}

/// After a reset the record shows no game.
pub proof fn law_reset_summary()
    ensures
        summary_spec(Seq::empty()) == (CompanionStats { games: 0, wins: 0, losses: 0, unknown: 0 }),
{
}

impl LocalStats {
    /// The records keep each id at most once.
    #[verifier::type_invariant]
    closed spec fn wf(self) -> bool {
        ids_unique(self.matches@.map_values(|p: (String, MatchResult)| (p.0@, p.1)))
    }

    /// No game recorded.
    pub fn new() -> (r: LocalStats)
        ensures
            r@ == Seq::<(Seq<char>, MatchResult)>::empty(),
    {
        let r = LocalStats { matches: Vec::new() };
        assert(r@ =~= Seq::<(Seq<char>, MatchResult)>::empty());
        r
    }

    /// How many games are recorded.
    pub fn len(&self) -> (r: usize)
        ensures
            r == self@.len(),
            ids_unique(self@),
    {
        proof {
            use_type_invariant(self);
        }
        self.matches.len()
    }

    /// The records, in the order they were first made.
    pub fn entries(&self) -> (r: Vec<(String, MatchResult)>)
        ensures
            r@.map_values(|p: (String, MatchResult)| (p.0@, p.1)) == self@,
    {
        let mut r: Vec<(String, MatchResult)> = Vec::new();
        let mut i: usize = 0;
        while i < self.matches.len()
            invariant
                i <= self.matches.len(),
                r@.len() == i,
                forall|j: int| 0 <= j < i ==> (#[trigger] r@[j]).0@ == self.matches@[j].0@ && r@[j].1 == self.matches@[j].1,
            decreases self.matches.len() - i,
        {
            let id = self.matches[i].0.clone();
            r.push((id, self.matches[i].1));
            i = i + 1;
        }
        assert(r@.map_values(|p: (String, MatchResult)| (p.0@, p.1)) =~= self@);
        r
    }

    /// Where `id` is recorded, or the number of records.
    fn index_of(&self, id: &str) -> (r: usize)
        ensures
            r as int == record_index(self@, id@, 0),
            r <= self@.len(),
    {
        let mut i: usize = 0;
        while i < self.matches.len()
            invariant
                i <= self.matches.len(),
                self@.len() == self.matches@.len(),
                forall|j: int| 0 <= j < self.matches@.len() ==> #[trigger] self@[j] == (self.matches@[j].0@, self.matches@[j].1),
                record_index(self@, id@, i as int) == record_index(self@, id@, 0),
            decreases self.matches.len() - i,
        {
            assert(self@[i as int] == (self.matches@[i as int].0@, self.matches@[i as int].1));
            if str_eq(self.matches[i].0.as_str(), id) {
                return i;
            }
            i = i + 1;
        }
        i
    }

    /// Records `result` for `id`, whatever was recorded before.
    fn put(&mut self, id: &str, result: MatchResult)
        ensures
            final(self)@ == with_record(old(self)@, id@, result),
    {
        proof {
            use_type_invariant(&*self);
        }
        let k = self.index_of(id);
        proof {
            lemma_record_index(self@, id@, 0);
            lemma_with_record_unique(self@, id@, result);
        }
        let ghost target = with_record(self@, id@, result);
        let mut matches: Vec<(String, MatchResult)> = Vec::new();
        std::mem::swap(&mut matches, &mut self.matches);
        if k < matches.len() {
            matches.set(k, (id.to_owned(), result));
        } else {
            matches.push((id.to_owned(), result));
        }
        assert(matches@.map_values(|p: (String, MatchResult)| (p.0@, p.1)) =~= target);
        self.matches = matches;
    }

    /// Records the result of a processed game. Returns whether the record changed: an empty
    /// id and a result already recorded for the id change nothing.
    pub fn record_result(&mut self, id: &str, result: MatchResult) -> (changed: bool)
        ensures
            changed == (id@.len() > 0 && recorded(old(self)@, id@) != Some(result)),
            changed ==> final(self)@ == with_record(old(self)@, id@, result),
            !changed ==> final(self)@ == old(self)@,
            ids_unique(final(self)@),
    {
        proof {
            use_type_invariant(&*self);
        }
        if id.is_empty() {
            return false;
        }
        let k = self.index_of(id);
        if k < self.matches.len() && self.matches[k].1 == result {
            assert(self@[k as int] == (self.matches@[k as int].0@, self.matches@[k as int].1));
            return false;
        }
        proof {
            if k < self.matches.len() {
                assert(self@[k as int] == (self.matches@[k as int].0@, self.matches@[k as int].1));
            }
        }
        self.put(id, result);
        proof {
            use_type_invariant(&*self);
        }
        true
    }

    /// Records the result of an assembled match (see `record_result`).
    pub fn record(&mut self, assembled: &Match) -> (changed: bool)
        ensures
            changed == (assembled.client_match_id@.len() > 0 && recorded(
                old(self)@,
                assembled.client_match_id@,
            ) != Some(assembled.result)),
            changed ==> final(self)@ == with_record(
                old(self)@,
                assembled.client_match_id@,
                assembled.result,
            ),
            !changed ==> final(self)@ == old(self)@,
            ids_unique(final(self)@),
    {
        self.record_result(assembled.client_match_id.as_str(), assembled.result)
    }

    /// Forgets every record.
    pub fn reset(&mut self)
        ensures
            final(self)@ == Seq::<(Seq<char>, MatchResult)>::empty(),
    {
        self.matches = Vec::new();
        assert(self@ =~= Seq::<(Seq<char>, MatchResult)>::empty());
    }

    /// Records built from stored results, each id once (a later duplicate replaces an earlier
    /// one).
    pub fn from_entries(entries: Vec<(String, MatchResult)>) -> (r: LocalStats)
        ensures
            r@ == records_from(entries@.map_values(|p: (String, MatchResult)| (p.0@, p.1))),
            ids_unique(r@),
    {
        let ghost ev = entries@.map_values(|p: (String, MatchResult)| (p.0@, p.1));
        let mut r = LocalStats::new();
        let mut i: usize = 0;
        while i < entries.len()
            invariant
                i <= entries.len(),
                ev == entries@.map_values(|p: (String, MatchResult)| (p.0@, p.1)),
                r@ == records_from(ev.take(i as int)),
            decreases entries.len() - i,
        {
            proof {
                assert(ev.take(i + 1).drop_last() =~= ev.take(i as int));
                assert(ev.take(i + 1).last() == (entries@[i as int].0@, entries@[i as int].1));
            }
            r.put(entries[i].0.as_str(), entries[i].1);
            i = i + 1;
        }
        assert(ev.take(i as int) =~= ev);
        proof {
            use_type_invariant(&r);
        }
        r
    }

    /// How many games, wins, losses and unknown results are recorded.
    pub fn summary(&self) -> (r: CompanionStats)
        requires
            self@.len() <= u32::MAX,
        ensures
            r == summary_spec(self@),
            ids_unique(self@),
    {
        proof {
            use_type_invariant(self);
        }
        let mut stats = CompanionStats { games: 0, wins: 0, losses: 0, unknown: 0 };
        let mut i: usize = 0;
        while i < self.matches.len()
            invariant
                i <= self.matches.len(),
                self@.len() == self.matches@.len(),
                self@.len() <= u32::MAX,
                forall|j: int| 0 <= j < self.matches@.len() ==> #[trigger] self@[j] == (self.matches@[j].0@, self.matches@[j].1),
                stats == summary_spec(self@.take(i as int)),
            decreases self.matches.len() - i,
        {
            let ghost prefix = self@.take(i as int);
            proof {
                law_counts_add_up(prefix);
                assert(self@.take(i + 1).drop_last() =~= prefix);
                assert(self@.take(i + 1).last() == self@[i as int]);
            }
            stats.games = stats.games + 1;
            match self.matches[i].1 {
                MatchResult::Win => stats.wins = stats.wins + 1,
                MatchResult::Loss => stats.losses = stats.losses + 1,
                MatchResult::Unknown => stats.unknown = stats.unknown + 1,
            }
            i = i + 1;
        }
        assert(self@.take(i as int) =~= self@);
        stats
    }
}

impl Default for LocalStats {
    fn default() -> (r: LocalStats)
        ensures
            r@ == Seq::<(Seq<char>, MatchResult)>::empty(),
    {
        LocalStats::new()
    }
}

} // verus!
