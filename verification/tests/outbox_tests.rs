use arenacoach::match_payload::{Format, Match, MatchResult};
use arenacoach::outbox::{Outbox, OutboxError, OutboxItem, MAX_BYTES, MAX_ITEMS, STORE_HEADROOM};
use std::path::Path;

fn game(id: &str) -> Match {
    Match {
        client_match_id: id.into(),
        event_id: "test".into(),
        format: Format::Unknown,
        result: MatchResult::Win,
        player_seat: 1,
        deck_grp_ids: vec![],
        timeline: vec![],
    }
}

#[test]
fn owner_paths_never_overlap() {
    let dir = "test";
    assert_ne!(Outbox::path(dir, false, Some(1)), Outbox::path(dir, false, Some(2)));
    assert_ne!(Outbox::path(dir, false, Some(1)), Outbox::path(dir, true, Some(1)));
    assert_eq!(Outbox::path(dir, false, None), None);
}

#[test]
fn outbox_file_names_carry_mode_and_user() {
    let prod = Outbox::path("test", false, Some(42)).unwrap();
    assert_eq!(Path::new(&prod), Path::new("test/outbox-prod-42.json"));
    let dev = Outbox::path("test", true, Some(7)).unwrap();
    assert_eq!(Path::new(&dev), Path::new("test/outbox-dev-7.json"));
    assert_eq!(Outbox::path("test", true, Some(0)), None);
    assert_eq!(Outbox::path("test", true, Some(-3)), None);
}

#[test]
fn permanent_failures_do_not_block_later_uploads() {
    let mut queue = Outbox::default();
    queue.enqueue(game("a")).unwrap();
    queue.enqueue(game("b")).unwrap();
    queue.finish(&game("a"), Some("invalid".into()));
    assert_eq!(queue.next().unwrap().client_match_id, "b");
    assert_eq!(queue.failed(), 1);
}

#[test]
fn completion_does_not_remove_a_newer_version() {
    let mut queue = Outbox::default();
    let old = game("a");
    queue.enqueue(old.clone()).unwrap();
    let mut new = old.clone();
    new.event_id = "updated".into();
    queue.enqueue(new.clone()).unwrap();
    queue.finish(&old, None);
    assert_eq!(queue.next(), Some(new));
}

#[test]
fn same_version_is_queued_once() {
    let mut queue = Outbox::new();
    queue.enqueue(game("a")).unwrap();
    queue.enqueue(game("a")).unwrap();
    assert_eq!(queue.len(), 1);
    assert_eq!(queue.pending(), 1);
}

#[test]
fn success_removes_the_match() {
    let mut queue = Outbox::new();
    queue.enqueue(game("a")).unwrap();
    queue.finish(&game("a"), None);
    assert_eq!(queue.len(), 0);
    assert_eq!(queue.next(), None);
}

#[test]
fn full_outbox_refuses_a_new_game_but_takes_a_new_version() {
    let mut queue = Outbox::new();
    for i in 0..MAX_ITEMS {
        queue.enqueue(game(&format!("g{i}"))).unwrap();
    }
    assert_eq!(queue.enqueue(game("one-more")), Err(OutboxError::Full));
    let mut newer = game("g0");
    newer.result = MatchResult::Loss;
    assert_eq!(queue.enqueue(newer), Ok(()));
    assert_eq!(queue.len(), MAX_ITEMS);
    assert_eq!(
        OutboxError::Full.message(),
        "Upload outbox is full. Sync or remove failed uploads before playing more games."
    );
}

#[test]
fn retry_and_discard_failed() {
    let mut queue = Outbox::new();
    queue.enqueue(game("a")).unwrap();
    queue.enqueue(game("b")).unwrap();
    queue.enqueue(game("c")).unwrap();
    queue.finish(&game("a"), Some("bad".into()));
    queue.finish(&game("c"), Some("bad".into()));
    assert_eq!((queue.pending(), queue.failed()), (1, 2));
    let mut retried = queue.duplicate();
    retried.retry_failed();
    assert_eq!((retried.pending(), retried.failed()), (3, 0));
    assert_eq!(retried.next().unwrap().client_match_id, "a");
    queue.discard_failed();
    assert_eq!((queue.pending(), queue.failed()), (1, 0));
    assert_eq!(queue.next().unwrap().client_match_id, "b");
}

#[test]
fn stored_outbox_limits() {
    assert_eq!(Outbox::check_stored_size(MAX_BYTES), Ok(()));
    assert_eq!(Outbox::check_stored_size(MAX_BYTES + 1), Err(OutboxError::TooLarge));
    assert!(Outbox::fits_in_store(MAX_BYTES - STORE_HEADROOM));
    assert!(!Outbox::fits_in_store(MAX_BYTES - STORE_HEADROOM + 1));
    let too_many: Vec<OutboxItem> = (0..=MAX_ITEMS)
        .map(|i| OutboxItem { payload: game(&format!("g{i}")), error: None })
        .collect();
    assert_eq!(Outbox::from_items(too_many).err(), Some(OutboxError::TooManyMatches));
    let kept = vec![OutboxItem { payload: game("a"), error: Some("x".into()) }];
    let outbox = Outbox::from_items(kept).unwrap();
    assert_eq!(outbox.failed(), 1);
    assert_eq!(outbox.next(), None);
}
