use arenacoach::match_payload::{
    Actor, DecisionContext, EventKind, Format, Match, MatchResult, TimelineEvent,
    MAX_TIMELINE_EVENTS,
};

fn event(t_ms: u64) -> TimelineEvent {
    TimelineEvent {
        t_ms,
        turn: Some(1),
        phase: None,
        step: None,
        actor: Actor::Game,
        kind: EventKind::Zone,
        card_ids: vec![],
        note: String::new(),
        context: None,
    }
}

fn with_events(n: u64) -> Match {
    Match {
        client_match_id: "m".into(),
        event_id: "e".into(),
        format: Format::Unknown,
        result: MatchResult::Unknown,
        player_seat: 1,
        deck_grp_ids: vec![],
        timeline: (0..n).map(event).collect(),
    }
}

#[test]
fn constructed_and_limited_from_event_id() {
    assert_eq!(Match::infer_format("Constructed_BestOf1"), Format::Constructed);
    assert_eq!(Match::infer_format("PremierDraft_ECL"), Format::Limited);
    assert_eq!(Match::infer_format("SomethingElse"), Format::Unknown);
}

#[test]
fn capping_keeps_both_ends_of_the_timeline() {
    let mut m = with_events(MAX_TIMELINE_EVENTS as u64 + 50);
    m.cap_timeline();
    assert_eq!(m.timeline.len(), MAX_TIMELINE_EVENTS);
    assert_eq!(m.timeline[0].t_ms, 0);
    assert_eq!(
        m.timeline[MAX_TIMELINE_EVENTS - 1].t_ms,
        MAX_TIMELINE_EVENTS as u64 + 49
    );
    let mut short = with_events(3);
    short.cap_timeline();
    assert_eq!(short.timeline.len(), 3);
}

#[test]
fn empty_context_is_empty() {
    let context = DecisionContext {
        my_hand: vec![],
        my_board: vec![],
        opp_board: vec![],
        opp_hand: vec![],
        opp_hand_count: None,
        my_life: None,
        opp_life: None,
        legal: vec![],
    };
    assert!(context.is_empty());
    let with_life = DecisionContext { my_life: Some(20), ..context };
    assert!(!with_life.is_empty());
}

#[test]
fn copies_are_the_same_match() {
    let m = with_events(4);
    assert!(m.duplicate().same_as(&m));
    let mut other = m.duplicate();
    other.event_id = "other".into();
    assert!(!other.same_as(&m));
}

#[test]
fn precon_events_are_constructed() {
    assert_eq!(Match::infer_format("DualColorPrecons"), Format::Constructed);
    assert_eq!(Match::infer_format("QuickDraft_ABC"), Format::Limited);
}
