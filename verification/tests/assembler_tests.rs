use arenacoach::gre_assembler::GreAssembler;
use arenacoach::json::{JsonNumber, JsonValue};
use arenacoach::log_follower::{split_entries, LogEntry};
use arenacoach::match_payload::{Actor, EventKind, Format, Match, MatchResult};

fn entries_from(log: &str) -> Vec<LogEntry> {
    let (entries, remainder) = split_entries(log);
    assert!(remainder.is_empty(), "fixture must be complete: {remainder}");
    entries
}

fn assemble(log: &str) -> Option<Match> {
    let mut assembler = GreAssembler::new();
    let mut last = None;
    for entry in entries_from(log) {
        if let Some(finished) = assembler.push(&entry) {
            last = Some(finished);
        }
    }
    last
}

const ROOM_PLAYING: &str = r#"[UnityCrossThreadLogger]
{"matchGameRoomStateChangedEvent":{"gameRoomInfo":{"stateType":"MatchGameRoomStateType_Playing","gameRoomConfig":{"matchId":"match-1","reservedPlayers":[{"eventId":"Constructed_BestOf1"}]}}}}
"#;

const CONNECT_SEAT_1: &str = r#"[UnityCrossThreadLogger]
{"greToClientEvent":{"greToClientMessages":[{"type":"GREMessageType_ConnectResp","systemSeatIds":[1],"connectResp":{"deckMessage":{"deckCards":[68398,68398,71000]}}}]}}
"#;

const GAME_OVER_WON: &str = r#"[UnityCrossThreadLogger]
{"greToClientEvent":{"greToClientMessages":[{"type":"GREMessageType_GameStateMessage","systemSeatIds":[1],"gameStateMessage":{"gameInfo":{"matchID":"match-1","stage":"GameStage_GameOver","matchState":"MatchState_GameComplete","results":[{"winningTeamId":1}]}}}]}}
"#;

const MATCH_OVER: &str = r#"[UnityCrossThreadLogger]
{"greToClientEvent":{"greToClientMessages":[{"type":"GREMessageType_GameStateMessage","systemSeatIds":[1],"gameStateMessage":{"gameInfo":{"matchID":"match-1","stage":"GameStage_GameOver","matchState":"MatchState_MatchComplete","results":[{"winningTeamId":1}]}}}]}}
"#;

#[test]
fn connect_resp_before_playing_room_keeps_deck() {
    let log = r#"[UnityCrossThreadLogger]
{"greToClientEvent":{"greToClientMessages":[{"type":"GREMessageType_ConnectResp","systemSeatIds":[2],"connectResp":{"deckMessage":{"deckCards":[94111,93877,68398]}}}]}}
[UnityCrossThreadLogger]
{"matchGameRoomStateChangedEvent":{"gameRoomInfo":{"stateType":"MatchGameRoomStateType_Playing","gameRoomConfig":{"matchId":"match-connect-first","reservedPlayers":[{"eventId":"DualColorPrecons"}]}}}}
[UnityCrossThreadLogger]
{"greToClientEvent":{"greToClientMessages":[{"type":"GREMessageType_GameStateMessage","gameStateMessage":{"gameInfo":{"matchID":"match-connect-first","stage":"GameStage_GameOver","matchState":"MatchState_GameComplete","results":[{"winningTeamId":2}]}}}]}}
"#;
    let assembled = assemble(log).expect("game over should emit a match");
    assert_eq!(assembled.client_match_id, "match-connect-first");
    assert_eq!(assembled.event_id, "DualColorPrecons");
    assert_eq!(assembled.player_seat, 2);
    assert_eq!(assembled.deck_grp_ids, vec![94111, 93877, 68398]);
}

#[test]
fn game_complete_emits_once_match_complete_is_ignored() {
    let log = [ROOM_PLAYING, CONNECT_SEAT_1, GAME_OVER_WON, MATCH_OVER].concat();
    let mut assembler = GreAssembler::new();
    let mut emitted = 0;
    for entry in entries_from(&log) {
        if assembler.push(&entry).is_some() {
            emitted += 1;
        }
    }
    assert_eq!(emitted, 1);
}

#[test]
fn batched_game_state_messages_are_all_applied() {
    let batch = r#"[UnityCrossThreadLogger]
{"greToClientEvent":{"greToClientMessages":[
{"type":"GREMessageType_GameStateMessage","systemSeatIds":[1],"gameStateMessage":{"turnInfo":{"turnNumber":1,"phase":"Phase_Main1"},"gameObjects":[{"instanceId":100,"grpId":68398,"ownerSeatId":1},{"instanceId":101,"grpId":71000,"ownerSeatId":1}],"annotations":[{"type":["AnnotationType_ZoneTransfer"],"affectorId":1,"affectedIds":[100],"details":[{"key":"category","valueString":["PlayLand"]}]}]}},
{"type":"GREMessageType_GameStateMessage","systemSeatIds":[1],"gameStateMessage":{"annotations":[{"type":["AnnotationType_ZoneTransfer"],"affectorId":1,"affectedIds":[101],"details":[{"key":"category","valueString":["CastSpell"]}]}]}},
{"type":"GREMessageType_GameStateMessage","systemSeatIds":[1],"gameStateMessage":{"annotations":[{"type":["AnnotationType_DeclaredAttackers"],"affectorId":1,"affectedIds":[101]}]}},
{"type":"GREMessageType_GameStateMessage","systemSeatIds":[1],"gameStateMessage":{"annotations":[{"type":["AnnotationType_ModifiedLife"],"affectorId":101,"affectedIds":[2],"details":[{"key":"life","valueInt32":[-2]}]}]}}
]}}
"#;
    let log = [ROOM_PLAYING, CONNECT_SEAT_1, batch, GAME_OVER_WON].concat();
    let assembled = assemble(&log).unwrap();
    let kinds: Vec<_> = assembled.timeline.iter().map(|event| event.kind).collect();
    assert!(kinds.contains(&EventKind::Land));
    assert!(kinds.contains(&EventKind::Cast));
    assert!(kinds.contains(&EventKind::Attack));
    assert!(kinds.contains(&EventKind::Life));
}

#[test]
fn incremental_delete_drops_object() {
    let create = r#"[UnityCrossThreadLogger]
{"greToClientEvent":{"greToClientMessages":[{"type":"GREMessageType_GameStateMessage","systemSeatIds":[1],"gameStateMessage":{"gameObjects":[{"instanceId":999,"grpId":68398,"ownerSeatId":1}]}}]}}
"#;
    let delete = r#"[UnityCrossThreadLogger]
{"greToClientEvent":{"greToClientMessages":[{"type":"GREMessageType_GameStateMessage","systemSeatIds":[1],"gameStateMessage":{"diffDeletedInstanceIds":[999]}}]}}
"#;
    let mut assembler = GreAssembler::new();
    for entry in entries_from(&[ROOM_PLAYING, CONNECT_SEAT_1, create].concat()) {
        assembler.push(&entry);
    }
    assert!(assembler.has_object(999));
    for entry in entries_from(delete) {
        assembler.push(&entry);
    }
    assert!(!assembler.has_object(999));
}

#[test]
fn hidden_opponent_cards_are_omitted() {
    let hidden = r#"[UnityCrossThreadLogger]
{"greToClientEvent":{"greToClientMessages":[{"type":"GREMessageType_GameStateMessage","systemSeatIds":[1],"gameStateMessage":{"turnInfo":{"turnNumber":2,"phase":"Phase_Main1"},"gameObjects":[{"instanceId":200,"grpId":94051,"ownerSeatId":2,"visibility":"Visibility_Hidden"}],"annotations":[{"type":["AnnotationType_ZoneTransfer"],"affectorId":2,"affectedIds":[200],"details":[{"key":"category","valueString":["CastSpell"]}]},{"type":["AnnotationType_ZoneTransfer"],"affectorId":2,"affectedIds":[201],"details":[{"key":"category","valueString":["Draw"]}]}]}}]}}
"#;
    let log = [ROOM_PLAYING, CONNECT_SEAT_1, hidden, GAME_OVER_WON].concat();
    let assembled = assemble(&log).expect("hidden fixture should complete");
    assert!(!assembled.timeline.is_empty());
    assert!(
        assembled
            .timeline
            .iter()
            .all(|event| event.card_ids.is_empty())
    );
}

#[test]
fn missing_detailed_logs_emits_nothing() {
    let log = r#"[UnityCrossThreadLogger]
DETAILED LOGS: DISABLED
[UnityCrossThreadLogger]
{"matchGameRoomStateChangedEvent":{"gameRoomInfo":{"stateType":"MatchGameRoomStateType_Playing","gameRoomConfig":{"matchId":"match-1"}}}}
[UnityCrossThreadLogger]
{"matchGameRoomStateChangedEvent":{"gameRoomInfo":{"stateType":"MatchGameRoomStateType_MatchCompleted","gameRoomConfig":{"matchId":"match-1"}}}}
"#;
    assert!(assemble(log).is_none());
}

#[test]
fn captures_hands_life_legal_actions_and_live_combat() {
    let log = r#"[UnityCrossThreadLogger]
{"greToClientEvent":{"greToClientMessages":[{"type":"GREMessageType_ConnectResp","systemSeatIds":[2],"connectResp":{"deckMessage":{"deckCards":[94111,93877,68398]}}}]}}
[UnityCrossThreadLogger]
{"matchGameRoomStateChangedEvent":{"gameRoomInfo":{"stateType":"MatchGameRoomStateType_Playing","gameRoomConfig":{"matchId":"match-context","reservedPlayers":[{"eventId":"DualColorPrecons"}]}}}}
[UnityCrossThreadLogger]
{"greToClientEvent":{"greToClientMessages":[{"type":"GREMessageType_GameStateMessage","systemSeatIds":[2],"gameStateMessage":{"turnInfo":{"turnNumber":1,"phase":"Phase_Beginning","step":"Step_Upkeep"},"players":[{"systemSeatNumber":1,"lifeTotal":20},{"systemSeatNumber":2,"lifeTotal":18}],"zones":[{"zoneId":31,"type":"ZoneType_Hand","ownerSeatId":2,"objectInstanceIds":[10,11]},{"zoneId":35,"type":"ZoneType_Hand","ownerSeatId":1,"objectInstanceIds":[20,21,22]},{"zoneId":28,"type":"ZoneType_Battlefield","objectInstanceIds":[30,40]}],"gameObjects":[{"instanceId":10,"grpId":94111,"ownerSeatId":2,"zoneId":31},{"instanceId":11,"grpId":93877,"ownerSeatId":2,"zoneId":31},{"instanceId":20,"grpId":94051,"ownerSeatId":1,"zoneId":35,"visibility":"Visibility_Public"},{"instanceId":21,"ownerSeatId":1,"zoneId":35,"visibility":"Visibility_Hidden"},{"instanceId":30,"grpId":93645,"ownerSeatId":2,"zoneId":28},{"instanceId":40,"grpId":94051,"ownerSeatId":1,"zoneId":28}]}}]}}
[UnityCrossThreadLogger]
{"clientToGREMessage":{"type":"ClientMessageType_MulliganResp","systemSeatId":2,"mulliganResp":{"decision":"MulliganOption_AcceptHand"}}}
[UnityCrossThreadLogger]
{"greToClientEvent":{"greToClientMessages":[{"type":"GREMessageType_ActionsAvailableReq","systemSeatIds":[2],"actionsAvailableReq":{"actions":[{"actionType":"ActionType_Cast","grpId":93877},{"actionType":"ActionType_Play","grpId":94111},{"actionType":"ActionType_Pass"}]}}]}}
[UnityCrossThreadLogger]
{"greToClientEvent":{"greToClientMessages":[{"type":"GREMessageType_GameStateMessage","systemSeatIds":[2],"gameStateMessage":{"turnInfo":{"turnNumber":1,"phase":"Phase_Main1"},"annotations":[{"type":["AnnotationType_ZoneTransfer"],"affectorId":2,"affectedIds":[10],"details":[{"key":"category","valueString":["PlayLand"]}]},{"type":["AnnotationType_ZoneTransfer"],"affectorId":2,"affectedIds":[11],"details":[{"key":"category","valueString":["Draw"]}]}]}}]}}
[UnityCrossThreadLogger]
{"clientToGREMessage":{"type":"ClientMessageType_DeclareAttackersResp","declareAttackersResp":{"selectedAttackers":[{"attackerInstanceId":30}]}}}
[UnityCrossThreadLogger]
{"greToClientEvent":{"greToClientMessages":[{"type":"GREMessageType_DeclareBlockersReq","systemSeatIds":[2],"declareBlockersReq":{"blockers":[{"blockerInstanceId":30,"attackerInstanceIds":[40]}]}}]}}
[UnityCrossThreadLogger]
{"clientToGREMessage":{"type":"ClientMessageType_DeclareBlockersResp","declareBlockersResp":{"selectedBlockers":[{"blockerInstanceId":30}]}}}
[UnityCrossThreadLogger]
{"greToClientEvent":{"greToClientMessages":[{"type":"GREMessageType_GameStateMessage","systemSeatIds":[2],"gameStateMessage":{"gameInfo":{"matchID":"match-context","stage":"GameStage_GameOver","matchState":"MatchState_GameComplete","results":[{"winningTeamId":1}]}}}]}}
"#;
    let assembled = assemble(log).expect("context fixture should complete");
    assert_eq!(assembled.event_id, "DualColorPrecons");
    assert_eq!(assembled.format, Format::Constructed);
    assert_eq!(assembled.player_seat, 2);
    assert_eq!(assembled.deck_grp_ids, vec![94111, 93877, 68398]);
    assert!(
        assembled
            .timeline
            .iter()
            .any(|event| event.kind == EventKind::Keep && event.card_ids.contains(&94111))
    );
    let land = assembled
        .timeline
        .iter()
        .find(|event| event.kind == EventKind::Land)
        .expect("land");
    let context = land.context.as_ref().expect("land context");
    assert_eq!(context.opp_hand_count, Some(3));
    assert_eq!(context.opp_hand, vec![94051]);
    assert!(context.my_hand.contains(&94111));
    assert!(context.my_board.contains(&93645));
    assert!(context.opp_board.contains(&94051));
    assert_eq!(context.my_life, Some(18));
    assert_eq!(context.opp_life, Some(20));
    assert!(
        context
            .legal
            .iter()
            .any(|action| action.action == "cast" && action.grp_id == Some(93877))
    );
    assert!(
        assembled
            .timeline
            .iter()
            .any(|event| event.kind == EventKind::Attack && event.actor == Actor::Me)
    );
    assert!(
        assembled
            .timeline
            .iter()
            .any(|event| event.kind == EventKind::Attack && event.actor == Actor::Opponent)
    );
    assert!(
        assembled
            .timeline
            .iter()
            .any(|event| event.kind == EventKind::Block)
    );
    assert!(
        assembled
            .timeline
            .iter()
            .any(|event| event.kind == EventKind::Draw)
    );
}

#[test]
fn result_follows_the_winning_team() {
    let lost = r#"[UnityCrossThreadLogger]
{"greToClientEvent":{"greToClientMessages":[{"type":"GREMessageType_GameStateMessage","systemSeatIds":[1],"gameStateMessage":{"gameInfo":{"matchID":"match-1","stage":"GameStage_GameOver","matchState":"MatchState_GameComplete","results":[{"winningTeamId":2}]}}}]}}
"#;
    let won = assemble(&[ROOM_PLAYING, CONNECT_SEAT_1, GAME_OVER_WON].concat()).unwrap();
    assert_eq!(won.result, MatchResult::Win);
    assert_eq!(won.format, Format::Constructed);
    assert_eq!(won.deck_grp_ids, vec![68398, 68398, 71000]);
    let loss = assemble(&[ROOM_PLAYING, CONNECT_SEAT_1, lost].concat()).unwrap();
    assert_eq!(loss.result, MatchResult::Loss);
}

#[test]
fn in_match_between_playing_and_game_over() {
    let mut assembler = GreAssembler::new();
    assert!(!assembler.in_match());
    for entry in entries_from(ROOM_PLAYING) {
        assembler.push(&entry);
    }
    assert!(assembler.in_match());
    for entry in entries_from(&[CONNECT_SEAT_1, GAME_OVER_WON].concat()) {
        assembler.push(&entry);
    }
    assert!(!assembler.in_match());
}

#[test]
fn legal_actions_drop_the_prefix_and_lower_case() {
    let log = r#"[UnityCrossThreadLogger]
{"greToClientEvent":{"greToClientMessages":[{"type":"GREMessageType_ActionsAvailableReq","systemSeatIds":[1],"actionsAvailableReq":{"actions":[{"actionType":"ActionType_Pass","grpId":5},{"actionType":"ActionType_Activate_Mana","grpId":7}]}}]}}
[UnityCrossThreadLogger]
{"clientToGREMessage":{"type":"ClientMessageType_MulliganResp","mulliganResp":{"decision":"MulliganOption_Mulligan"}}}
"#;
    let full = [ROOM_PLAYING, CONNECT_SEAT_1, log, GAME_OVER_WON].concat();
    let assembled = assemble(&full).unwrap();
    let mulligan = assembled
        .timeline
        .iter()
        .find(|event| event.kind == EventKind::Mulligan)
        .expect("mulligan");
    assert_eq!(mulligan.note, "Mulligan");
    let context = mulligan.context.as_ref().expect("context");
    assert_eq!(context.legal.len(), 2);
    assert_eq!(context.legal[0].action, "pass");
    assert_eq!(context.legal[0].grp_id, None);
    assert_eq!(context.legal[1].action, "activate_mana");
    assert_eq!(context.legal[1].grp_id, Some(7));
}

fn text(s: &str) -> JsonValue {
    JsonValue::Str(s.to_string())
}

fn object(members: Vec<(&str, JsonValue)>) -> JsonValue {
    JsonValue::Object(
        members.into_iter().map(|(k, v)| (k.to_string(), v)).collect(),
    )
}

#[test]
fn parsed_values_drive_the_assembler() {
    let room = object(vec![(
        "matchGameRoomStateChangedEvent",
        object(vec![(
            "gameRoomInfo",
            object(vec![
                ("stateType", text("MatchGameRoomStateType_Playing")),
                (
                    "gameRoomConfig",
                    object(vec![("eventId", text("Ladder")), ("matchId", text("m-7"))]),
                ),
            ]),
        )]),
    )]);
    let game_over = object(vec![(
        "greToClientEvent",
        object(vec![(
            "greToClientMessages",
            JsonValue::Array(vec![object(vec![
                ("gameStateMessage", object(vec![(
                    "gameInfo",
                    object(vec![
                        ("matchState", text("MatchState_GameComplete")),
                        ("results", JsonValue::Array(vec![object(vec![(
                            "winningTeamId",
                            JsonValue::Number(JsonNumber::PosInt(2)),
                        )])])),
                        ("stage", text("GameStage_GameOver")),
                    ]),
                )])),
                ("systemSeatIds", JsonValue::Array(vec![JsonValue::Number(JsonNumber::PosInt(2))])),
                ("type", text("GREMessageType_GameStateMessage")),
            ])]),
        )]),
    )]);
    let mut assembler = GreAssembler::new();
    assert!(assembler.push_json(&room).is_none());
    assert!(assembler.in_match());
    let finished = assembler.push_json(&game_over).expect("game over");
    assert_eq!(finished.client_match_id, "m-7");
    assert_eq!(finished.event_id, "Ladder");
    assert_eq!(finished.format, Format::Constructed);
    assert_eq!(finished.player_seat, 2);
    assert_eq!(finished.result, MatchResult::Win);
    assert!(!assembler.in_match());
}

fn fixture_match_log() -> String {
    let mut deck: Vec<String> = vec!["68398".to_string(); 4];
    for i in 0..56 {
        deck.push(format!("{}", 70000 + i));
    }
    let deck = deck.join(",");
    let mut log = String::new();
    log.push_str(r#"[UnityCrossThreadLogger]
{"matchGameRoomStateChangedEvent":{"gameRoomInfo":{"stateType":"MatchGameRoomStateType_Playing","gameRoomConfig":{"matchId":"match-fixture-001","reservedPlayers":[{"userId":"REDACTED_USER","playerName":"Alice#11111","systemSeatId":1,"eventId":"Constructed_BestOf1","sessionId":"session-1"},{"userId":"OPPONENT_USER","playerName":"Bob#22222","systemSeatId":2,"eventId":"Constructed_BestOf1"}]}}}}
"#);
    log.push_str(&format!(
        "[UnityCrossThreadLogger]\n{{\"greToClientEvent\":{{\"greToClientMessages\":[{{\"type\":\"GREMessageType_ConnectResp\",\"systemSeatIds\":[1],\"connectResp\":{{\"deckMessage\":{{\"deckCards\":[{deck}]}}}}}}]}}}}\n"
    ));
    log.push_str(r#"[UnityCrossThreadLogger]
{"greToClientEvent":{"greToClientMessages":[{"type":"GREMessageType_GameStateMessage","systemSeatIds":[1],"gameStateMessage":{"turnInfo":{"turnNumber":1,"phase":"Phase_Beginning"},"players":[{"systemSeatNumber":1,"lifeTotal":20,"screenName":"Alice#11111","sessionId":"session-1"},{"systemSeatNumber":2,"lifeTotal":20,"screenName":"Bob#22222"}],"zones":[{"zoneId":31,"type":"ZoneType_Hand","ownerSeatId":1,"objectInstanceIds":[10,11]}],"gameObjects":[{"instanceId":10,"grpId":68398,"ownerSeatId":1,"zoneId":31},{"instanceId":11,"grpId":70001,"ownerSeatId":1,"zoneId":31},{"instanceId":20,"grpId":80000,"ownerSeatId":2,"visibility":"Visibility_Public"}]}}]}}
[UnityCrossThreadLogger]
{"clientToGREMessage":{"type":"ClientMessageType_MulliganResp","mulliganResp":{"decision":"MulliganOption_Mulligan"}}}
[UnityCrossThreadLogger]
{"clientToGREMessage":{"type":"ClientMessageType_MulliganResp","mulliganResp":{"decision":"MulliganOption_AcceptHand"}}}
[UnityCrossThreadLogger]
{"greToClientEvent":{"greToClientMessages":[{"type":"GREMessageType_GameStateMessage","systemSeatIds":[1],"gameStateMessage":{"turnInfo":{"turnNumber":1,"phase":"Phase_Main1"},"annotations":[{"type":["AnnotationType_ZoneTransfer"],"affectorId":1,"affectedIds":[10],"details":[{"key":"category","valueString":["PlayLand"]}]},{"type":["AnnotationType_ZoneTransfer"],"affectorId":1,"affectedIds":[11],"details":[{"key":"category","valueString":["CastSpell"]}]},{"type":["AnnotationType_ZoneTransfer"],"affectorId":2,"affectedIds":[20],"details":[{"key":"category","valueString":["CastSpell"]}]},{"type":["AnnotationType_DeclaredAttackers"],"affectorId":1,"affectedIds":[11]},{"type":["AnnotationType_DamageDealt"],"affectorId":11,"affectedIds":[2],"details":[{"key":"damage","valueInt32":[3]}]},{"type":["AnnotationType_ModifiedLife"],"affectorId":11,"affectedIds":[2],"details":[{"key":"life","valueInt32":[-3]}]}]}}]}}
"#);
    for _ in 0..12 {
        log.push_str(r#"[UnityCrossThreadLogger]
{"greToClientEvent":{"greToClientMessages":[{"type":"GREMessageType_GameStateMessage","systemSeatIds":[1],"gameStateMessage":{"annotations":[{"type":["AnnotationType_ZoneTransfer"],"affectorId":1,"affectedIds":[11],"details":[{"key":"category","valueString":["Draw"]}]}]}}]}}
"#);
    }
    log.push_str(r#"[UnityCrossThreadLogger]
{"greToClientEvent":{"greToClientMessages":[{"type":"GREMessageType_GameStateMessage","systemSeatIds":[1],"gameStateMessage":{"turnInfo":{"turnNumber":1,"phase":"Phase_Ending"},"annotations":[{"type":["AnnotationType_PhaseOrStepModified"],"affectorId":1,"affectedIds":[1]}]}}]}}
[UnityCrossThreadLogger]
{"greToClientEvent":{"greToClientMessages":[{"type":"GREMessageType_GameStateMessage","systemSeatIds":[1],"gameStateMessage":{"gameInfo":{"matchID":"match-fixture-001","stage":"GameStage_GameOver","matchState":"MatchState_GameComplete","results":[{"winningTeamId":1}]}}}]}}
"#);
    log
}

#[test]
fn assembles_fixture_match_and_strips_identity() {
    let log = fixture_match_log();
    let assembled = assemble(&log).expect("game over should emit a match");
    assert_eq!(assembled.client_match_id, "match-fixture-001");
    assert_eq!(assembled.event_id, "Constructed_BestOf1");
    assert_eq!(assembled.format, Format::Constructed);
    assert_eq!(assembled.result, MatchResult::Win);
    assert_eq!(assembled.player_seat, 1);
    assert_eq!(assembled.deck_grp_ids.len(), 60);
    assert!(assembled.deck_grp_ids.contains(&68398));
    assert!(assembled.timeline.len() >= 20);
    assert!(assembled.timeline.iter().any(|event| event.kind == EventKind::Mulligan));
    assert!(assembled.timeline.iter().any(|event| event.kind == EventKind::Keep));
    assert!(assembled
        .timeline
        .iter()
        .any(|event| event.kind == EventKind::Land && event.card_ids == vec![68398]));
    assert!(assembled
        .timeline
        .iter()
        .any(|event| event.kind == EventKind::Cast && event.actor == Actor::Me));
    assert!(assembled
        .timeline
        .iter()
        .any(|event| event.kind == EventKind::Cast && event.actor == Actor::Opponent));
    assert!(assembled.timeline.iter().any(|event| event.kind == EventKind::Attack));
    assert!(assembled.timeline.iter().any(|event| event.kind == EventKind::Damage));
    assert!(assembled.timeline.iter().any(|event| event.kind == EventKind::Life));
    assert!(assembled.timeline.iter().any(|event| event.kind == EventKind::Pass));
    let json = format!("{assembled:?}");
    assert!(!json.contains("REDACTED_USER"));
    assert!(!json.contains("Alice#11111"));
    assert!(!json.contains("screenName"));
    assert!(!json.contains("sessionId"));
}

#[test]
fn identity_values_do_not_change_the_match() {
    let log = fixture_match_log();
    let renamed = log
        .replace("Alice#11111", "Carol#33333")
        .replace("REDACTED_USER", "OTHER_USER")
        .replace("session-1", "session-9");
    assert_eq!(assemble(&log), assemble(&renamed));
}

#[test]
fn strip_identity_empties_names_at_any_depth() {
    let value = object(vec![
        ("players", JsonValue::Array(vec![object(vec![
            ("screenName", text("Alice#11111")),
            ("systemSeatNumber", JsonValue::Number(JsonNumber::PosInt(1))),
        ])])),
        ("sessionId", text("session-1")),
        ("userId", JsonValue::Number(JsonNumber::PosInt(5))),
        ("note", text("Alice#11111")),
    ]);
    let clean = arenacoach::identity::strip_identity(&value);
    let shown = format!("{clean:?}");
    assert_eq!(shown.matches("Alice#11111").count(), 1);
    assert!(!shown.contains("session-1"));
    assert!(shown.contains("PosInt(5)"));
    assert!(shown.contains("PosInt(1)"));
}

#[test]
fn pushing_entries_gives_the_last_finished_match() {
    let log = [ROOM_PLAYING, CONNECT_SEAT_1, GAME_OVER_WON, MATCH_OVER].concat();
    let mut assembler = GreAssembler::new();
    let finished = assembler.push_entries(&entries_from(&log)).expect("a match");
    assert_eq!(finished.client_match_id, "match-1");
    assert_eq!(finished.result, MatchResult::Win);
    let mut quiet = GreAssembler::new();
    assert!(quiet.push_entries(&entries_from(ROOM_PLAYING)).is_none());
}
