use localbeam::contacts::ContactBook;
use localbeam::filename::{NameSearch, SearchAction};
use localbeam::http_server::{
    announce, announce_decided, begin_upload, goes_before, health, html_escape, index, page_address,
    peers, summarize, AnnounceOutcome, HttpReply, Upload, UploadAction, UploadEvent, UploadPhase,
    UploadSession, UploadStart, UploadStep, NAME_MARKER, UPLOAD_DECISION_SECS, UPLOAD_LIMIT,
};
use localbeam::identity::Identity;
use localbeam::settings::Settings;
use localbeam::state::{
    AppState, PeerInfo, TransferDirection, TransferFileMeta, TransferSource, TransferStatus,
};
use localbeam::table::KeyedTable;

fn new_state() -> AppState<u8> {
    let identity = Identity {
        cert_der: vec![1],
        key_pem: "k".to_string(),
        cert_pem: "c".to_string(),
        fingerprint: "me".to_string(),
    };
    let settings = Settings::initial("Desk".to_string(), "/save".to_string(), 50_000);
    AppState::new_at("/data".to_string(), identity, settings, ContactBook::default(), 10)
}

fn file(name: &str, size: u64) -> TransferFileMeta {
    TransferFileMeta { name: name.to_string(), size, mime: None }
}

fn peer(id: &str, name: &str, host: &str) -> PeerInfo {
    PeerInfo {
        id: id.to_string(),
        name: name.to_string(),
        avatar: "a".to_string(),
        host: host.to_string(),
        transfer_port: 1,
        http_port: 7878,
        mobile_web_available: true,
        manual: false,
        last_seen: 1,
    }
}

#[test]
fn constants_of_the_page() {
    assert_eq!(UPLOAD_DECISION_SECS, 180);
    assert_eq!(UPLOAD_LIMIT, 8 * 1024 * 1024 * 1024);
    assert_eq!(NAME_MARKER, "{{DEVICE_NAME}}");
    assert_eq!(health(), "ok");
}

#[test]
fn markup_is_escaped() {
    assert_eq!(html_escape("a & b"), "a &amp; b");
    assert_eq!(html_escape("<i>\"&lt;\"</i>"), "&lt;i&gt;&quot;&amp;lt;&quot;&lt;/i&gt;");
    assert_eq!(html_escape("plain ✓ 'x'"), "plain ✓ 'x'");
    assert_eq!(html_escape(""), "");
    for s in ["&<>\"", "a<b>&amp;\"", "&&lt;;"] {
        let in_turn = s.replace('&', "&amp;").replace('<', "&lt;").replace('>', "&gt;").replace('"', "&quot;");
        assert_eq!(html_escape(s), in_turn);
    }
    assert_ne!(html_escape("<"), html_escape("&lt;"));
    assert_eq!(html_escape("a&<b"), html_escape("a&") + &html_escape("<b"));
}

#[test]
fn the_page_names_the_device() {
    let page = index("<t>{{DEVICE_NAME}}</t> {{DEVICE_NAME}} {{OTHER}}", "<b>");
    assert_eq!(page, "<t>&lt;b&gt;</t> &lt;b&gt; {{OTHER}}");
    assert_eq!(index("none", "x"), "none");
}

#[test]
fn devices_are_listed_by_name_and_host() {
    let mut state = new_state();
    for (id, name, host) in [("1", "beta", "10.0.0.9"), ("2", "Alpha", "10.0.0.2"), ("3", "ALPHA", "10.0.0.1"), ("4", "Zeta", "10.0.0.3")] {
        state.peers.insert(id.to_string(), peer(id, name, host));
    }
    let listed = peers(&state);
    let ids: Vec<&str> = listed.iter().map(|p| p.id.as_str()).collect();
    assert_eq!(ids, vec!["3", "2", "1", "4"]);
    assert_eq!(listed[0].url, "http://10.0.0.1:7878/");
    assert!(listed[0].mobile_web_available);
}

#[test]
fn summaries_and_their_order() {
    let a = summarize(peer("1", "É", "10.0.0.1"));
    let b = summarize(peer("2", "é", "10.0.0.2"));
    assert_eq!(a.url, "http://10.0.0.1:7878/");
    assert!(goes_before(&a, "é", &b, "é"));
    assert!(!goes_before(&b, "é", &a, "é"));
    assert!(goes_before(&b, "a", &a, "b"));
    assert_eq!(page_address("h", 1), "http://h:1/");
}

#[test]
fn replies_have_a_status_and_a_text() {
    let cases = vec![
        (HttpReply::Rejected, 403, "rejected"),
        (HttpReply::SessionNotAccepted, 403, "session not accepted"),
        (HttpReply::TransferNotFound, 404, "transfer not found"),
        (HttpReply::Malformed("m".to_string()), 400, "multipart err: m"),
        (HttpReply::NotCreated("c".to_string()), 500, "create: c"),
        (HttpReply::NotWritten("w".to_string()), 500, "write: w"),
        (HttpReply::Done, 200, "ok"),
    ];
    for (reply, status, text) in cases {
        assert_eq!(reply.status(), status);
        assert_eq!(reply.text(), text);
    }
}

fn announced(state: &mut AppState<u8>) {
    let files = vec![file("a", 300_000), file("b", 5)];
    let a = announce(state, "u1".to_string(), "Phone".to_string(), files, 40, 3);
    assert_eq!((a.prompt.from_id.as_str(), a.prompt.from_avatar.as_str()), ("qr-mobile", "📱"));
    assert_eq!((a.prompt.from_name.as_str(), a.prompt.total_bytes), ("Phone", 300_005));
    assert_eq!(a.prompt.source, TransferSource::QrUpload);
    assert_eq!(a.report.peer_id, None);
    assert_eq!(a.report.direction, TransferDirection::Incoming);
    assert_eq!((a.report.status, a.report.created_at), (TransferStatus::Pending, 40));
}

fn begun(state: &mut AppState<u8>, sessions: &KeyedTable<UploadSession>) -> Upload {
    match begin_upload(state, sessions, "u1") {
        UploadStart::Begun { upload, report } => {
            assert_eq!(report.status, TransferStatus::Active);
            upload
        }
        UploadStart::Refused(r) => panic!("{r:?}"),
    }
}

fn advance(u: &mut Upload, state: &mut AppState<u8>, sessions: &mut KeyedTable<UploadSession>, event: UploadEvent) -> UploadStep {
    assert!(u.ready(&event));
    u.step(state, sessions, event)
}

/// Begins a file of this name.
fn opened(u: &mut Upload, state: &mut AppState<u8>, sessions: &mut KeyedTable<UploadSession>, name: &str) -> String {
    let step = advance(u, state, sessions, UploadEvent::Field(Some(name.to_string())));
    assert!(matches!(advance(u, state, sessions, UploadEvent::Created).action, UploadAction::Read));
    match step.action {
        UploadAction::Create(name) => name,
        other => panic!("{other:?}"),
    }
}

fn closed(u: &mut Upload, state: &mut AppState<u8>, sessions: &mut KeyedTable<UploadSession>) {
    assert!(matches!(advance(u, state, sessions, UploadEvent::FieldEnded).action, UploadAction::Flush));
    assert!(matches!(advance(u, state, sessions, UploadEvent::Flushed).action, UploadAction::Next));
}

#[test]
fn an_upload_lasts_from_acceptance_to_end() {
    let mut state = new_state();
    let mut sessions: KeyedTable<UploadSession> = KeyedTable::new();
    announced(&mut state);
    assert!(matches!(begin_upload(&mut state, &sessions, "u1"), UploadStart::Refused(HttpReply::SessionNotAccepted)));
    let out = announce_decided(&mut state, &mut sessions, "u1", "Phone".to_string(), Some(true));
    assert!(matches!(out, AnnounceOutcome::Accepted));
    let mut u = begun(&mut state, &sessions);
    assert_eq!(u.save_dir, "/save");
    assert_eq!(u.phase, UploadPhase::Between);
    assert!(!u.ready(&UploadEvent::Chunk(1)) && !u.ready(&UploadEvent::Created));
    assert_eq!(opened(&mut u, &mut state, &mut sessions, "../a"), "_a");
    assert!(advance(&mut u, &mut state, &mut sessions, UploadEvent::Chunk(262_143)).report.is_none());
    let r = advance(&mut u, &mut state, &mut sessions, UploadEvent::Chunk(1)).report.unwrap();
    assert_eq!((r.bytes_sent, r.current_file_index), (262_144, 0));
    assert!(advance(&mut u, &mut state, &mut sessions, UploadEvent::Chunk(37_856)).report.is_none());
    closed(&mut u, &mut state, &mut sessions);
    opened(&mut u, &mut state, &mut sessions, "b");
    let r = advance(&mut u, &mut state, &mut sessions, UploadEvent::Chunk(5)).report.unwrap();
    assert_eq!((r.bytes_sent, r.current_file_index), (300_005, 1));
    closed(&mut u, &mut state, &mut sessions);
    let end = advance(&mut u, &mut state, &mut sessions, UploadEvent::FormEnded);
    let t = end.report.unwrap();
    assert_eq!((t.status, t.bytes_sent), (TransferStatus::Completed, 300_005));
    assert!(matches!(end.action, UploadAction::Reply(HttpReply::Done)));
    assert!(!u.ready(&UploadEvent::FormEnded) && !u.ready(&UploadEvent::Field(None)));
    assert!(matches!(begin_upload(&mut state, &sessions, "u1"), UploadStart::Refused(HttpReply::SessionNotAccepted)));
}

#[test]
fn a_declined_upload_is_rejected() {
    let mut state = new_state();
    let mut sessions: KeyedTable<UploadSession> = KeyedTable::new();
    announced(&mut state);
    match announce_decided(&mut state, &mut sessions, "u1", "Phone".to_string(), Some(false)) {
        AnnounceOutcome::Refused { reply, report } => {
            assert_eq!((reply.status(), reply.text().as_str()), (403, "rejected"));
            assert_eq!(report.status, TransferStatus::Rejected);
        }
        AnnounceOutcome::Accepted => panic!(),
    }
    assert!(state.pending_decisions.contains("u1"));
    assert!(matches!(begin_upload(&mut state, &sessions, "u1"), UploadStart::Refused(HttpReply::SessionNotAccepted)));
}

#[test]
fn an_undecided_upload_is_rejected_and_nobody_waits() {
    let mut state = new_state();
    let mut sessions: KeyedTable<UploadSession> = KeyedTable::new();
    announced(&mut state);
    assert!(state.pending_decisions.contains("u1"));
    announce_decided(&mut state, &mut sessions, "u1", "Phone".to_string(), None);
    assert!(!state.pending_decisions.contains("u1"));
    assert_eq!(state.transfer("u1").unwrap().status, TransferStatus::Rejected);
}

#[test]
fn an_upload_whose_record_is_gone() {
    let mut state = new_state();
    let mut sessions: KeyedTable<UploadSession> = KeyedTable::new();
    announced(&mut state);
    announce_decided(&mut state, &mut sessions, "u1", "Phone".to_string(), Some(true));
    let mut u = begun(&mut state, &sessions);
    state.active_transfers.remove("u1");
    assert!(matches!(begin_upload(&mut state, &sessions, "u1"), UploadStart::Refused(HttpReply::TransferNotFound)));
    opened(&mut u, &mut state, &mut sessions, "a");
    let r = advance(&mut u, &mut state, &mut sessions, UploadEvent::Chunk(262_144)).report.unwrap();
    assert_eq!((r.status, r.bytes_sent), (TransferStatus::Active, 262_144));
    state.active_transfers.remove("u1");
    closed(&mut u, &mut state, &mut sessions);
    let t = advance(&mut u, &mut state, &mut sessions, UploadEvent::FormEnded).report.unwrap();
    assert_eq!((t.status, t.bytes_sent), (TransferStatus::Completed, 300_005));
}

#[test]
fn more_bytes_than_announced_are_counted() {
    let mut state = new_state();
    let mut sessions: KeyedTable<UploadSession> = KeyedTable::new();
    announced(&mut state);
    announce_decided(&mut state, &mut sessions, "u1", "Phone".to_string(), Some(true));
    let mut u = begun(&mut state, &sessions);
    opened(&mut u, &mut state, &mut sessions, "a");
    advance(&mut u, &mut state, &mut sessions, UploadEvent::Chunk(400_000));
    closed(&mut u, &mut state, &mut sessions);
    let t = advance(&mut u, &mut state, &mut sessions, UploadEvent::FormEnded).report.unwrap();
    assert_eq!((t.bytes_sent, t.total_bytes), (400_000, 300_005));
}

#[test]
fn faults_end_an_upload_and_leave_the_session_open() {
    let why = || "why".to_string();
    for (before, fault, status, text) in [
        (0, UploadEvent::Malformed(why()), 400, "multipart err: why"),
        (1, UploadEvent::NotCreated(why()), 500, "create: why"),
        (2, UploadEvent::NotWritten(why()), 500, "write: why"),
    ] {
        let mut state = new_state();
        let mut sessions: KeyedTable<UploadSession> = KeyedTable::new();
        announced(&mut state);
        announce_decided(&mut state, &mut sessions, "u1", "Phone".to_string(), Some(true));
        let mut u = begun(&mut state, &sessions);
        if before > 0 {
            advance(&mut u, &mut state, &mut sessions, UploadEvent::Field(Some("a".to_string())));
        }
        if before > 1 {
            advance(&mut u, &mut state, &mut sessions, UploadEvent::Created);
        }
        match advance(&mut u, &mut state, &mut sessions, fault).action {
            UploadAction::Reply(r) => assert_eq!((r.status(), r.text().as_str()), (status, text)),
            other => panic!("{other:?}"),
        }
        assert_eq!(u.phase, UploadPhase::Closed);
        assert!(!u.ready(&UploadEvent::FormEnded));
        assert_eq!(state.transfer("u1").unwrap().status, TransferStatus::Active);
        begun(&mut state, &sessions);
    }
}

#[test]
fn a_file_that_breaks_off_is_kept_and_the_form_goes_on() {
    let mut state = new_state();
    let mut sessions: KeyedTable<UploadSession> = KeyedTable::new();
    announced(&mut state);
    announce_decided(&mut state, &mut sessions, "u1", "Phone".to_string(), Some(true));
    let mut u = begun(&mut state, &sessions);
    opened(&mut u, &mut state, &mut sessions, "a");
    advance(&mut u, &mut state, &mut sessions, UploadEvent::Chunk(3));
    assert!(matches!(advance(&mut u, &mut state, &mut sessions, UploadEvent::FieldBroken).action, UploadAction::Flush));
    assert!(matches!(advance(&mut u, &mut state, &mut sessions, UploadEvent::Flushed).action, UploadAction::Next));
    assert_eq!((u.received, u.file_index), (3, 1));
    match advance(&mut u, &mut state, &mut sessions, UploadEvent::Field(None)).action {
        UploadAction::Create(n) => assert!(n.starts_with("upload-") && n.len() == 43),
        other => panic!("{other:?}"),
    }
}

#[test]
fn uploaded_files_share_no_name() {
    let mut state = new_state();
    let mut sessions: KeyedTable<UploadSession> = KeyedTable::new();
    announced(&mut state);
    announce_decided(&mut state, &mut sessions, "u1", "Phone".to_string(), Some(true));
    let mut u = begun(&mut state, &sessions);
    let mut held = vec![String::new(), "a".to_string()];
    for raw in ["a", "a", "...", "..."] {
        let name = opened(&mut u, &mut state, &mut sessions, raw);
        let (mut search, mut action) = NameSearch::begin(&name);
        let saved = loop {
            match action {
                SearchAction::Probe(n) => action = search.step(held.contains(&n)),
                SearchAction::Use(n) => break n,
            }
        };
        assert!(!held.contains(&saved));
        held.push(saved);
        closed(&mut u, &mut state, &mut sessions);
    }
    assert_eq!(held[2..], ["a (1)", "a (2)", " (1)", " (2)"]);
}
