use commitgen::accumulator::TurnAccumulator;
use commitgen::codec::encode_record;
use commitgen::conversation::Turn;
use commitgen::errors::ErrorKind;
use commitgen::record::{Record, Role};
use commitgen::session::{Phase, Session};
use commitgen::toolcall::ToolAction;

fn rec(role: Option<Role>, delta: &[u8], done: bool) -> Record {
    Record::new(role, delta.to_vec(), done)
}

fn stream_line(role: Option<Role>, delta: &[u8], done: bool) -> Vec<u8> {
    let mut line = encode_record(&rec(role, delta, done));
    line.push(b'\n');
    line
}

fn seeded_session() -> Session {
    Session::new(vec![
        Turn::new(Role::System, b"You write commit messages.".to_vec(), true),
        Turn::new(Role::User, b"diff goes here".to_vec(), true),
    ])
}

#[test]
fn turn_accumulation_order() {
    let mut acc = TurnAccumulator::new();
    assert!(acc.accept(&rec(Some(Role::Assistant), b"Hel", false)).is_none());
    assert!(acc.accept(&rec(None, b"lo", false)).is_none());
    let turn = acc.accept(&rec(None, b"", true)).expect("terminal record completes the turn");
    assert_eq!(turn.role, Role::Assistant);
    assert_eq!(turn.content, b"Hello".to_vec());
    assert!(turn.complete);
    // Exactly one turn: nothing is left in progress.
    assert!(acc.take_partial().is_none());
}

#[test]
fn accumulator_keeps_first_seen_role_and_counts_anomalies() {
    let mut acc = TurnAccumulator::new();
    assert!(acc.accept(&rec(Some(Role::Assistant), b"a", false)).is_none());
    assert!(acc.accept(&rec(Some(Role::User), b"b", false)).is_none());
    let turn = acc.accept(&rec(None, b"", true)).unwrap();
    assert_eq!(turn.role, Role::Assistant);
    assert_eq!(turn.content, b"ab".to_vec());
    assert_eq!(acc.anomalies(), 1);
}

#[test]
fn sentinel_terminates_without_request() {
    let mut s = seeded_session();
    assert_eq!(s.phase(), Phase::Requesting);
    // A failed transport returns the loop to the prompt.
    s.on_transport_err();
    assert_eq!(s.phase(), Phase::AwaitingUserInput);
    assert_eq!(s.errors().as_slice(), &[ErrorKind::Transport]);
    let before = s.history_len();
    s.on_user_line(b"/bye".to_vec());
    assert_eq!(s.phase(), Phase::Terminated);
    assert_eq!(s.history_len(), before);
}

#[test]
fn ordinary_line_becomes_user_turn_and_request() {
    let mut s = seeded_session();
    s.on_transport_err();
    s.on_user_line(b"make it shorter".to_vec());
    assert_eq!(s.phase(), Phase::Requesting);
    let turns = s.request_turns();
    let last = turns.last().unwrap();
    assert_eq!(last.role, Role::User);
    assert_eq!(last.content, b"make it shorter".to_vec());
}

#[test]
fn empty_line_is_still_a_user_turn() {
    let mut s = seeded_session();
    s.on_transport_err();
    s.on_user_line(Vec::new());
    assert_eq!(s.phase(), Phase::Requesting);
}

#[test]
fn streamed_turn_lands_in_history() {
    let mut s = seeded_session();
    s.on_transport_ok();
    assert_eq!(s.phase(), Phase::Streaming);
    s.on_chunk(&stream_line(Some(Role::Assistant), b"feat: add parser", true));
    s.on_stream_end();
    assert_eq!(s.phase(), Phase::TurnComplete);
    s.on_turn_complete();
    assert_eq!(s.phase(), Phase::AwaitingUserInput);
    let n = s.history_len();
    assert_eq!(n, 3);
    assert!(s.errors().is_empty());
}

#[test]
fn tool_round_trip_appends_one_tool_turn() {
    let mut s = seeded_session();
    s.on_transport_ok();
    s.on_chunk(&stream_line(Some(Role::Assistant), b"tool:get_file:src/lib.rs", true));
    s.on_stream_end();
    s.on_turn_complete();
    assert_eq!(s.phase(), Phase::InvokingTool);
    let path = match s.pending_action() {
        Some(ToolAction::ReadFile(p)) => p.clone(),
        None => panic!("an action must be pending"),
    };
    assert_eq!(path, b"src/lib.rs".to_vec());
    let before = s.history_len();
    s.on_tool_result(Ok(b"fn main() {}".to_vec()));
    assert_eq!(s.phase(), Phase::Requesting);
    assert_eq!(s.history_len(), before + 1);
    let turns = s.request_turns();
    let last = turns.last().unwrap();
    assert_eq!(last.role, Role::Tool);
    assert_eq!(last.content, b"fn main() {}".to_vec());
    assert!(s.errors().is_empty());
}

#[test]
fn unsupported_tool_reports_and_returns_to_prompt() {
    let mut s = seeded_session();
    s.on_transport_ok();
    s.on_chunk(&stream_line(Some(Role::Assistant), b"tool:rm_rf:/", true));
    s.on_stream_end();
    let before = s.history_len();
    s.on_turn_complete();
    assert_eq!(s.phase(), Phase::AwaitingUserInput);
    // No tool turn was appended beyond the assistant turn itself.
    assert_eq!(s.history_len(), before);
    assert!(s.errors().contains(&ErrorKind::UnsupportedTool));
}

#[test]
fn tool_failure_reports_and_returns_to_prompt() {
    let mut s = seeded_session();
    s.on_transport_ok();
    s.on_chunk(&stream_line(Some(Role::Assistant), b"tool:get_file:/missing", true));
    s.on_stream_end();
    s.on_turn_complete();
    assert_eq!(s.phase(), Phase::InvokingTool);
    let before = s.history_len();
    s.on_tool_result(Err(()));
    assert_eq!(s.phase(), Phase::AwaitingUserInput);
    assert_eq!(s.history_len(), before);
    assert!(s.errors().contains(&ErrorKind::ToolExecution));
}

#[test]
fn truncated_stream_keeps_partial_turn() {
    let mut s = seeded_session();
    s.on_transport_ok();
    s.on_chunk(&stream_line(Some(Role::Assistant), b"half a mes", false));
    // Stream dies before the terminal record.
    s.on_stream_end();
    assert!(s.errors().contains(&ErrorKind::TruncatedStream));
    s.on_turn_complete();
    assert_eq!(s.phase(), Phase::AwaitingUserInput);
    let turns = s.history_turns();
    let last = turns.last().unwrap();
    assert_eq!(last.role, Role::Assistant);
    assert_eq!(last.content, b"half a mes".to_vec());
    assert!(!last.complete);
}

#[test]
fn corrupt_line_reported_stream_goes_on() {
    let mut s = seeded_session();
    s.on_transport_ok();
    let mut bytes = stream_line(Some(Role::Assistant), b"good", false);
    bytes.extend_from_slice(b"not a record\n");
    bytes.append(&mut stream_line(None, b"!", true));
    s.on_chunk(&bytes);
    s.on_stream_end();
    s.on_turn_complete();
    assert_eq!(s.errors().as_slice(), &[ErrorKind::Decode]);
    let turns = s.history_turns();
    let last = turns.last().unwrap();
    assert_eq!(last.content, b"good!".to_vec());
    assert!(last.complete);
}

#[test]
fn unparsed_tail_at_stream_end_is_truncated_stream() {
    let mut s = seeded_session();
    s.on_transport_ok();
    s.on_chunk(&b"{\"content\":\"never fini".to_vec());
    s.on_stream_end();
    assert!(s.errors().contains(&ErrorKind::TruncatedStream));
}

#[test]
fn empty_stream_appends_nothing() {
    let mut s = seeded_session();
    s.on_transport_ok();
    let before = s.history_len();
    s.on_stream_end();
    assert_eq!(s.phase(), Phase::TurnComplete);
    s.on_turn_complete();
    assert_eq!(s.phase(), Phase::AwaitingUserInput);
    assert_eq!(s.history_len(), before);
    assert!(s.errors().is_empty());
}

#[test]
fn system_turn_mid_stream_is_refused_and_reported() {
    let mut s = seeded_session();
    s.on_transport_ok();
    let before = s.history_len();
    s.on_chunk(&stream_line(Some(Role::System), b"sneaky prompt", true));
    s.on_stream_end();
    assert_eq!(s.history_len(), before);
    assert!(s.errors().contains(&ErrorKind::Decode));
}

#[test]
fn session_pipeline_is_chunking_invariant() {
    let mut line = stream_line(Some(Role::Assistant), b"one ", false);
    line.append(&mut stream_line(None, b"answer", true));

    let mut whole = seeded_session();
    whole.on_transport_ok();
    whole.on_chunk(&line);
    whole.on_stream_end();

    let mut split = seeded_session();
    split.on_transport_ok();
    for b in &line {
        split.on_chunk(&vec![*b]);
    }
    split.on_stream_end();

    assert_eq!(whole.history_len(), split.history_len());
    let a = whole.history_turns().last().unwrap();
    let b = split.history_turns().last().unwrap();
    assert_eq!(a.role, b.role);
    assert_eq!(a.content, b"one answer".to_vec());
    assert_eq!(a.content, b.content);
    assert_eq!(whole.errors().as_slice(), split.errors().as_slice());
}
