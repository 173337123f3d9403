use session_engine::framing::FramingMode;
use session_engine::lsp::LspState;
use session_engine::registry::{RegistryError, SessionRegistry};
use session_engine::session::{
    exit_watch_step, framing_for, send_frame, Channel, SessionKind, PollOutcome, ReadOutcome, ReaderAction, ReaderLoop, WatchAction,
};

fn events_of(action: ReaderAction) -> Vec<(String, Channel, Vec<u8>)> {
    match action {
        ReaderAction::Publish(events) => events
            .into_iter()
            .map(|e| (e.session_id, e.channel, e.payload))
            .collect(),
        ReaderAction::Stop => panic!("reader stopped"),
    }
}

#[test]
fn reader_loop_publishes_decoded_frames_in_order() {
    let mut r = ReaderLoop::new("srv".to_string(), Channel::Protocol, FramingMode::LengthPrefixed);
    let ev = events_of(r.on_read(ReadOutcome::Data(b"Content-Length: 2\r\n\r\n{}Content-Len".to_vec())));
    assert_eq!(ev, vec![("srv".to_string(), Channel::Protocol, b"{}".to_vec())]);
    let ev = events_of(r.on_read(ReadOutcome::Data(b"gth: 1\r\n\r\nA".to_vec())));
    assert_eq!(ev, vec![("srv".to_string(), Channel::Protocol, b"A".to_vec())]);
}

#[test]
fn reader_loop_stops_at_end_and_stays_stopped() {
    let mut r = ReaderLoop::new("t".to_string(), Channel::Stderr, FramingMode::LineDelimited);
    let ev = events_of(r.on_read(ReadOutcome::Data(b"warn\nhalf".to_vec())));
    assert_eq!(ev, vec![("t".to_string(), Channel::Stderr, b"warn".to_vec())]);
    assert!(matches!(r.on_read(ReadOutcome::Data(Vec::new())), ReaderAction::Stop));
    assert!(matches!(r.on_read(ReadOutcome::Data(b"\n".to_vec())), ReaderAction::Stop));
    let mut f = ReaderLoop::new("u".to_string(), Channel::Stdout, FramingMode::Raw);
    assert!(matches!(f.on_read(ReadOutcome::Failed), ReaderAction::Stop));
}

#[test]
fn exit_watcher_steps() {
    let mut s: SessionRegistry<u8> = SessionRegistry::new();
    s.register("a".to_string(), 1).unwrap();
    s.register("b".to_string(), 2).unwrap();
    assert_eq!(exit_watch_step(&mut s, &"a".to_string(), PollOutcome::Running), WatchAction::KeepWatching);
    assert_eq!(exit_watch_step(&mut s, &"a".to_string(), PollOutcome::Exited(Some(1))), WatchAction::Exited(Some(1)));
    assert!(!s.contains(&"a".to_string()));
    assert_eq!(exit_watch_step(&mut s, &"a".to_string(), PollOutcome::Exited(Some(1))), WatchAction::Stop);
    assert_eq!(exit_watch_step(&mut s, &"b".to_string(), PollOutcome::Failed("e".to_string())), WatchAction::Stop);
    assert_eq!(s.len(), 0);
}

#[test]
fn send_frame_finds_session_or_reports_not_found() {
    let mut s: SessionRegistry<u8> = SessionRegistry::new();
    s.register("term".to_string(), 9).unwrap();
    let (h, bytes) = send_frame(&s, &"term".to_string(), FramingMode::Raw, b"ls\r").unwrap();
    assert_eq!(*h, 9);
    assert_eq!(bytes, b"ls\r".to_vec());
    assert!(matches!(send_frame(&s, &"x".to_string(), FramingMode::Raw, b"ls"), Err(RegistryError::NotFound)));
}

#[test]
fn lsp_start_send_list_stop() {
    let mut st: LspState<u8> = LspState::new();
    assert_eq!(st.lsp_check_absent(&"rust".to_string()), Ok(()));
    assert_eq!(st.lsp_register("rust".to_string(), 1), Ok(()));
    assert_eq!(
        st.lsp_check_absent(&"rust".to_string()),
        Err("Server rust already running".to_string())
    );
    assert_eq!(st.lsp_register("rust".to_string(), 2), Err("Server rust already running".to_string()));
    let (h, bytes) = st.lsp_send(&"rust".to_string(), "{}").unwrap();
    assert_eq!(*h, 1);
    assert_eq!(bytes, b"Content-Length: 2\r\n\r\n{}".to_vec());
    assert_eq!(st.lsp_send(&"py".to_string(), "{}").err(), Some("Server py not found".to_string()));
    st.lsp_register("py".to_string(), 3).unwrap();
    assert_eq!(st.lsp_list(), vec!["rust".to_string(), "py".to_string()]);
    assert_eq!(st.lsp_stop(&"rust".to_string()), Some(1));
    assert_eq!(st.lsp_stop(&"rust".to_string()), None);
    assert_eq!(st.lsp_list(), vec!["py".to_string()]);
}

#[test]
fn lsp_send_counts_bytes_not_chars() {
    let st_msg = "é";
    let mut st: LspState<u8> = LspState::new();
    st.lsp_register("s".to_string(), 0).unwrap();
    let (_, bytes) = st.lsp_send(&"s".to_string(), st_msg).unwrap();
    assert_eq!(bytes, b"Content-Length: 2\r\n\r\n\xc3\xa9".to_vec());
}

#[test]
fn framing_by_kind_and_channel() {
    assert_eq!(framing_for(SessionKind::LanguageServer, Channel::Protocol), FramingMode::LengthPrefixed);
    assert_eq!(framing_for(SessionKind::LanguageServer, Channel::Stderr), FramingMode::LineDelimited);
    assert_eq!(framing_for(SessionKind::Terminal, Channel::Stdout), FramingMode::Raw);
    assert_eq!(framing_for(SessionKind::DebugAdapter, Channel::Stdout), FramingMode::Raw);
    assert_eq!(framing_for(SessionKind::BackgroundCommand, Channel::Stderr), FramingMode::Raw);
}
