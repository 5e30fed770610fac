use arenacoach::local_stats::{CompanionStats, LocalStats};
use arenacoach::match_payload::{Format, Match, MatchResult};

fn match_with(id: &str, result: MatchResult) -> Match {
    Match {
        client_match_id: id.into(),
        event_id: "Constructed_BestOf1".into(),
        format: Format::Constructed,
        result,
        player_seat: 1,
        deck_grp_ids: vec![],
        timeline: vec![],
    }
}

#[test]
fn records_each_processed_game_once() {
    let mut stats = LocalStats::default();
    assert!(stats.record(&match_with("a", MatchResult::Win)));
    assert!(!stats.record(&match_with("a", MatchResult::Win)));
    assert!(stats.record(&match_with("b", MatchResult::Loss)));
    assert_eq!(
        stats.summary(),
        CompanionStats {
            games: 2,
            wins: 1,
            losses: 1,
            unknown: 0,
        }
    );
}

#[test]
fn updates_the_result_when_the_same_game_finishes() {
    let mut stats = LocalStats::default();
    stats.record(&match_with("a", MatchResult::Unknown));
    stats.record(&match_with("a", MatchResult::Win));
    assert_eq!(
        stats.summary(),
        CompanionStats {
            games: 1,
            wins: 1,
            losses: 0,
            unknown: 0,
        }
    );
}

#[test]
fn reset_clears_the_all_time_record() {
    let mut stats = LocalStats::default();
    stats.record(&match_with("a", MatchResult::Win));
    stats.reset();
    assert_eq!(stats.summary(), CompanionStats::default());
    assert!(stats.record(&match_with("a", MatchResult::Loss)));
    assert_eq!(stats.summary().losses, 1);
}

#[test]
fn empty_game_id_is_not_recorded() {
    let mut stats = LocalStats::new();
    assert!(!stats.record_result("", MatchResult::Win));
    assert_eq!(stats.summary().games, 0);
}

#[test]
fn counts_add_up_to_the_games() {
    let mut stats = LocalStats::new();
    stats.record_result("a", MatchResult::Win);
    stats.record_result("b", MatchResult::Unknown);
    stats.record_result("c", MatchResult::Loss);
    stats.record_result("b", MatchResult::Loss);
    let summary = stats.summary();
    assert_eq!(summary.games, 3);
    assert_eq!(summary.wins + summary.losses + summary.unknown, summary.games);
    assert_eq!(summary.losses, 2);
}

#[test]
fn stored_entries_come_back_with_later_duplicates_winning() {
    let stats = LocalStats::from_entries(vec![
        ("a".to_string(), MatchResult::Win),
        ("b".to_string(), MatchResult::Loss),
        ("a".to_string(), MatchResult::Loss),
    ]);
    let entries = stats.entries();
    assert_eq!(
        entries,
        vec![("a".to_string(), MatchResult::Loss), ("b".to_string(), MatchResult::Loss)]
    );
    assert_eq!(stats.summary().losses, 2);
}
