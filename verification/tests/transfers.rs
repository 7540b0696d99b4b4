use localbeam::contacts::{Contact, ContactBook};
use localbeam::identity::Identity;
use localbeam::receiving::{
    chunk_len, handle_incoming_send, Incoming, IncomingStart, ReceiveAction, ReceiveEvent,
    ReceivePhase, ReceiveStep, STRANGER_REASON,
};
use localbeam::sending::{send_files, Offer, SendAction, SendEvent, SendPhase};
use localbeam::settings::{AllowMode, Settings};
use localbeam::state::{
    checked_total_bytes, total_bytes, AppState, PeerInfo, TransferDirection, TransferFileMeta,
    TransferSource, TransferStatus,
};
use localbeam::transfer::{
    decide_pending, describe_file, describe_files, file_meta, find_peer, handle_contact_request, ident_of,
    report_due, send_contact_request, HeaderMsg, PeerIdent, ResponseMsg, SourceFile, TransferError,
    CHUNK_SIZE, DECISION_SECS, REPORT_INTERVAL,
};

fn new_state() -> AppState<u8> {
    let identity = Identity {
        cert_der: vec![1],
        key_pem: "k".to_string(),
        cert_pem: "c".to_string(),
        fingerprint: "me".to_string(),
    };
    let settings = Settings::initial("Desk".to_string(), "/save".to_string(), 50_000);
    AppState::new_at("/data".to_string(), identity, settings, ContactBook::default(), 10)
}

fn file(name: &str, size: u64) -> TransferFileMeta {
    TransferFileMeta { name: name.to_string(), size, mime: None }
}

fn peer(id: &str) -> PeerInfo {
    PeerInfo {
        id: id.to_string(),
        name: "Peer".to_string(),
        avatar: "a".to_string(),
        host: "10.0.0.2".to_string(),
        transfer_port: 1,
        http_port: 2,
        mobile_web_available: true,
        manual: false,
        last_seen: 1,
    }
}

fn ident(id: &str) -> PeerIdent {
    PeerIdent { id: id.to_string(), name: "Friend".to_string(), avatar: "f".to_string() }
}

fn friend(id: &str) -> Contact {
    Contact { id: id.to_string(), name: "n".to_string(), avatar: "a".to_string(), added_at: 1 }
}

fn offer(state: &mut AppState<u8>, files: Vec<TransferFileMeta>) -> Offer {
    send_files(state, &peer("p"), "t1".to_string(), files, 99)
}

// ---- Sending ----

#[test]
fn constants_of_transfers() {
    assert_eq!(CHUNK_SIZE, 64 * 1024);
    assert_eq!(REPORT_INTERVAL, 256 * 1024);
    assert_eq!(DECISION_SECS, 120);
}

#[test]
fn an_offer_is_recorded_and_says_who_sends_what() {
    let mut state = new_state();
    let o = offer(&mut state, vec![file("a", 3), file("b", 4)]);
    assert_eq!(o.outgoing.phase, SendPhase::Offered);
    assert_eq!((o.outgoing.file_count, o.outgoing.total_bytes), (2, 7));
    match o.header {
        HeaderMsg::Send { from, transfer_id, files } => {
            assert_eq!((from.id.as_str(), from.name.as_str(), from.avatar.as_str()), ("me", "Desk", "💻"));
            assert_eq!(transfer_id, "t1");
            assert_eq!(files.len(), 2);
        }
        other => panic!("{other:?}"),
    }
    let t = state.transfer("t1").unwrap();
    assert_eq!(t.direction, TransferDirection::Outgoing);
    assert_eq!(t.status, TransferStatus::Pending);
    assert_eq!((t.peer_id.as_deref(), t.peer_name.as_str()), (Some("p"), "Peer"));
    assert_eq!((t.total_bytes, t.bytes_sent, t.created_at), (7, 0, 99));
    assert_eq!(o.report.transfer_id, "t1");
}

#[test]
fn an_accepted_offer_is_streamed_to_the_end() {
    let mut state = new_state();
    let mut m = offer(&mut state, vec![file("a", 3), file("b", 4)]).outgoing;
    let yes = SendEvent::Answered(ResponseMsg::yes());
    assert!(m.ready(&state, &yes));
    let s = m.step(&mut state, yes);
    assert!(matches!(s.action, SendAction::Stream(0)));
    assert_eq!(s.reports.len(), 1);
    assert_eq!(s.reports[0].status, TransferStatus::Active);
    assert!(!m.ready(&state, &SendEvent::Flushed));

    let s = m.step(&mut state, SendEvent::Sent(3));
    assert!(matches!(s.action, SendAction::Stream(0)));
    assert_eq!(s.reports[0].bytes_sent, 3);
    let s = m.step(&mut state, SendEvent::FileEnded);
    assert!(matches!(s.action, SendAction::Stream(1)));
    assert!(s.reports.is_empty());
    let s = m.step(&mut state, SendEvent::Sent(4));
    assert_eq!((s.reports[0].bytes_sent, s.reports[0].current_file_index), (7, 1));
    let s = m.step(&mut state, SendEvent::FileEnded);
    assert!(matches!(s.action, SendAction::Flush));
    let s = m.step(&mut state, SendEvent::Flushed);
    assert!(matches!(s.action, SendAction::Succeed));
    let t = state.transfer("t1").unwrap();
    assert_eq!((t.status, t.bytes_sent), (TransferStatus::Completed, 7));
    assert_eq!(m.phase, SendPhase::Closed);
    assert!(!m.ready(&state, &SendEvent::Flushed));
    assert!(!m.ready(&state, &SendEvent::Broken("x".to_string())));
}

#[test]
fn a_refused_offer_fails_with_the_reason() {
    let mut state = new_state();
    let mut m = offer(&mut state, vec![file("a", 3)]).outgoing;
    let s = m.step(&mut state, SendEvent::Answered(ResponseMsg::no("declined")));
    assert!(matches!(&s.action, SendAction::Fail(why) if why == "declined"));
    assert_eq!(s.reports.len(), 2);
    assert_eq!(s.reports[0].status, TransferStatus::Rejected);
    assert_eq!(s.reports[1].status, TransferStatus::Failed);
    let t = state.transfer("t1").unwrap();
    assert_eq!((t.status, t.error.as_deref()), (TransferStatus::Failed, Some("declined")));

    let mut m = offer(&mut state, vec![file("a", 3)]).outgoing;
    let silent = ResponseMsg { accepted: false, reason: None };
    let s = m.step(&mut state, SendEvent::Answered(silent));
    assert!(matches!(&s.action, SendAction::Fail(why) if why == "rejected"));
    assert_eq!(s.reports[0].error, None);
    assert_eq!(s.reports[1].error.as_deref(), Some("rejected"));
}

#[test]
fn a_broken_transfer_fails_with_the_cause() {
    let mut state = new_state();
    let mut m = offer(&mut state, vec![file("a", 3)]).outgoing;
    m.step(&mut state, SendEvent::Answered(ResponseMsg::yes()));
    let s = m.step(&mut state, SendEvent::Broken("gone".to_string()));
    assert!(matches!(&s.action, SendAction::Fail(why) if why == "gone"));
    assert_eq!(state.transfer("t1").unwrap().error.as_deref(), Some("gone"));
    let mut m = offer(&mut state, Vec::new()).outgoing;
    let s = m.step(&mut state, SendEvent::Broken("no route".to_string()));
    assert_eq!(s.reports[0].status, TransferStatus::Failed);
}

#[test]
fn an_offer_without_files_is_flushed_at_once() {
    let mut state = new_state();
    let mut m = offer(&mut state, Vec::new()).outgoing;
    let s = m.step(&mut state, SendEvent::Answered(ResponseMsg::yes()));
    assert!(matches!(s.action, SendAction::Flush));
}

#[test]
fn progress_is_reported_once_per_interval_and_at_the_end() {
    assert!(report_due(0, 9));
    assert!(report_due(65_535, 1 << 40));
    assert!(!report_due(65_536, 1 << 40));
    assert!(report_due(65_536, 65_536));
    assert!(report_due(262_144, 1 << 40));
    assert!(!report_due(262_143, 1 << 40));
    let mut state = new_state();
    let mut m = offer(&mut state, vec![file("a", 1 << 30)]).outgoing;
    m.step(&mut state, SendEvent::Answered(ResponseMsg::yes()));
    let reports: Vec<usize> =
        (0..8).map(|_| m.step(&mut state, SendEvent::Sent(65_536)).reports.len()).collect();
    assert_eq!(reports, vec![0, 0, 0, 1, 0, 0, 0, 1]);
}

#[test]
fn a_forgotten_record_is_noticed_before_a_step() {
    let mut state = new_state();
    let mut m = offer(&mut state, vec![file("a", 3)]).outgoing;
    m.step(&mut state, SendEvent::Answered(ResponseMsg::yes()));
    state.active_transfers.remove("t1");
    assert!(!m.ready(&state, &SendEvent::Sent(3)));
    assert!(m.ready(&state, &SendEvent::FileEnded));
    assert!(!m.ready(&state, &SendEvent::Sent(0)));
}

// ---- What is to be sent ----

fn source(is_file: bool, name: Option<&str>, extension: Option<&str>) -> SourceFile {
    SourceFile {
        shown: "\"/x/y\"".to_string(),
        is_file,
        file_name: name.map(|s| s.to_string()),
        extension: extension.map(|s| s.to_string()),
        size: 12,
    }
}

#[test]
fn files_are_described_with_their_media_type() {
    let f = describe_file(source(true, Some("a.PNG"), Some("PNG"))).unwrap();
    assert_eq!((f.name.as_str(), f.size, f.mime.as_deref()), ("a.PNG", 12, Some("image/png")));
    let f = describe_file(source(true, Some("a.html"), Some("html"))).unwrap();
    assert_eq!(f.mime.as_deref(), Some("text/html"));
    let f = describe_file(source(true, Some("README"), None)).unwrap();
    assert_eq!(f.mime, None);
    let f = describe_file(source(true, None, Some("no such extension"))).unwrap();
    assert_eq!((f.name.as_str(), f.mime), ("file", None));
    let f = file_meta(None, 1, Some("m".to_string()));
    assert_eq!((f.name.as_str(), f.mime.as_deref()), ("file", Some("m")));
}

#[test]
fn the_first_file_that_cannot_be_sent_decides() {
    let files = describe_files(vec![source(true, Some("a.txt"), Some("txt")), source(true, Some("b"), None)]).unwrap();
    assert_eq!(files.len(), 2);
    assert_eq!((files[0].mime.as_deref(), files[1].name.as_str()), (Some("text/plain"), "b"));
    assert!(describe_files(Vec::new()).unwrap().is_empty());
    let mut second = source(false, None, None);
    second.shown = "second".to_string();
    let e = describe_files(vec![source(true, None, None), source(false, None, None), second]).unwrap_err();
    assert_eq!(e.message(), "\"/x/y\" is not a regular file");
}

#[test]
fn directories_cannot_be_sent() {
    let e = describe_file(source(false, Some("y"), None)).unwrap_err();
    assert!(matches!(e, TransferError::NotAFile(_)));
    assert_eq!(e.message(), "\"/x/y\" is not a regular file");
}

#[test]
fn unknown_devices_cannot_be_sent_to() {
    let mut state = new_state();
    let e = find_peer(&state, "p").unwrap_err();
    assert!(matches!(e, TransferError::NotOnNetwork));
    assert_eq!(e.message(), "peer not found on the network");
    let e = send_contact_request(&state, "p", None).unwrap_err();
    assert!(matches!(e, TransferError::NotFound));
    assert_eq!(e.message(), "peer not found");
    state.peers.insert("p".to_string(), peer("p"));
    assert_eq!(find_peer(&state, "p").unwrap().name, "Peer");
}

#[test]
fn a_contact_request_presents_this_device() {
    let mut state = new_state();
    state.peers.insert("p".to_string(), peer("p"));
    let (to, header) = send_contact_request(&state, "p", Some("hi".to_string())).unwrap();
    assert_eq!(to.id, "p");
    match header {
        HeaderMsg::ContactRequest { from, message } => {
            assert_eq!((from.id.as_str(), message.as_deref()), ("me", Some("hi")));
        }
        other => panic!("{other:?}"),
    }
    assert_eq!(ident_of(&state).name, "Desk");
}

#[test]
fn sizes_are_summed_where_they_fit() {
    assert_eq!(total_bytes(&vec![file("a", 3), file("b", 4)]), 7);
    assert_eq!(checked_total_bytes(&vec![file("a", u64::MAX)]), Some(u64::MAX));
    assert_eq!(checked_total_bytes(&vec![file("a", u64::MAX), file("b", 1)]), None);
    assert_eq!(checked_total_bytes(&Vec::new()), Some(0));
}

// ---- Contact requests ----

#[test]
fn a_request_is_noted_and_shown() {
    let mut state = new_state();
    let r = handle_contact_request(&mut state, ident("x"), Some("hi".to_string()), 7);
    assert!(r.response.accepted && r.response.reason.is_none());
    let shown = r.inbound.unwrap();
    assert_eq!((shown.id.as_str(), shown.message.as_deref()), ("x", Some("hi")));
    assert_eq!(state.contacts.pending.len(), 1);
    assert_eq!(state.contacts.pending[0].requested_at, 7);
}

#[test]
fn a_blocked_device_cannot_ask() {
    let mut state = new_state();
    state.contacts.blocked.push("x".to_string());
    let r = handle_contact_request(&mut state, ident("x"), None, 7);
    assert!(!r.response.accepted);
    assert_eq!(r.response.reason.as_deref(), Some("blocked"));
    assert!(r.inbound.is_none());
    assert!(state.contacts.pending.is_empty());
}

// ---- Receiving ----

fn incoming(state: &mut AppState<u8>, id: &str, files: Vec<TransferFileMeta>) -> IncomingStart {
    handle_incoming_send(state, ident(id), "t9".to_string(), files, 50, 77)
}

fn asked(state: &mut AppState<u8>, files: Vec<TransferFileMeta>) -> Incoming {
    match incoming(state, "x", files) {
        IncomingStart::Asked { incoming, .. } => incoming,
        other => panic!("{other:?}"),
    }
}

#[test]
fn a_blocked_device_is_refused() {
    let mut state = new_state();
    state.contacts.blocked.push("x".to_string());
    state.contacts.contacts.push(friend("x"));
    match incoming(&mut state, "x", vec![file("a", 1)]) {
        IncomingStart::Refused { response, inbound } => {
            assert_eq!(response.reason.as_deref(), Some("blocked"));
            assert!(!response.accepted && inbound.is_none());
        }
        other => panic!("{other:?}"),
    }
    assert!(state.transfer("t9").is_none());
}

#[test]
fn a_stranger_gets_in_by_way_of_the_user() {
    let mut state = new_state();
    state.settings.allow_mode = AllowMode::Contacts;
    match incoming(&mut state, "x", vec![file("a", 1)]) {
        IncomingStart::Refused { response, inbound } => {
            assert_eq!(response.reason.as_deref(), Some("Not in contacts. A contact request was created."));
            let shown = inbound.unwrap();
            assert_eq!((shown.id.as_str(), shown.message), ("x", None));
        }
        other => panic!("{other:?}"),
    }
    assert_eq!(STRANGER_REASON, "Not in contacts. A contact request was created.");
    assert!(state.transfer("t9").is_none());
    assert_eq!(state.contacts.pending[0].id, "x");
    state.contacts.accept_pending_at("x", 60).unwrap();
    assert!(matches!(incoming(&mut state, "x", vec![file("a", 1)]), IncomingStart::Asked { .. }));
    state.contacts.remove_contact("x");
    assert!(matches!(incoming(&mut state, "x", vec![file("a", 1)]), IncomingStart::Refused { .. }));
}

#[test]
fn the_user_is_asked_about_an_offer() {
    let mut state = new_state();
    match incoming(&mut state, "x", vec![file("a", 1), file("b", 2)]) {
        IncomingStart::Asked { incoming, report, prompt } => {
            assert_eq!(incoming.phase, ReceivePhase::Deciding);
            assert_eq!((incoming.save_dir.as_str(), incoming.total_bytes), ("/save", 3));
            assert_eq!(report.status, TransferStatus::Pending);
            assert_eq!(report.direction, TransferDirection::Incoming);
            assert_eq!((report.peer_id.as_deref(), report.peer_name.as_str()), (Some("x"), "Friend"));
            assert_eq!((prompt.from_id.as_str(), prompt.from_avatar.as_str()), ("x", "f"));
            assert_eq!((prompt.total_bytes, prompt.files.len()), (3, 2));
            assert_eq!(prompt.source, TransferSource::Peer);
        }
        other => panic!("{other:?}"),
    }
    assert_eq!(decide_pending(&mut state, "t9", true), Some((77, true)));
    assert_eq!(decide_pending(&mut state, "t9", true), None);
}

#[test]
fn without_asking_every_offer_is_welcome() {
    let mut state = new_state();
    state.settings.require_accept = false;
    match incoming(&mut state, "x", vec![file("a", 1)]) {
        IncomingStart::Welcome { incoming, response, .. } => {
            assert_eq!(incoming.phase, ReceivePhase::Accepting);
            assert!(response.accepted && response.reason.is_none());
        }
        other => panic!("{other:?}"),
    }
    assert_eq!(decide_pending(&mut state, "t9", true), None);
}

#[test]
fn a_declined_offer_is_rejected() {
    let mut state = new_state();
    let mut m = asked(&mut state, vec![file("a", 1)]);
    let s = m.step(&mut state, ReceiveEvent::Decided(false));
    match s.action {
        ReceiveAction::Reply(r) => assert_eq!((r.accepted, r.reason.as_deref()), (false, Some("declined"))),
        other => panic!("{other:?}"),
    }
    assert!(s.report.is_none());
    let s = m.step(&mut state, ReceiveEvent::Replied);
    assert!(matches!(s.action, ReceiveAction::Declined));
    assert_eq!(state.transfer("t9").unwrap().status, TransferStatus::Rejected);
    assert!(!m.ready(&state, &ReceiveEvent::Replied));
}

#[test]
fn an_undecided_offer_is_rejected_and_nobody_waits() {
    let mut state = new_state();
    let mut m = asked(&mut state, vec![file("a", 1)]);
    m.step(&mut state, ReceiveEvent::Undecided);
    assert_eq!(decide_pending(&mut state, "t9", true), None);
    m.step(&mut state, ReceiveEvent::Replied);
    assert_eq!(state.transfer("t9").unwrap().status, TransferStatus::Rejected);
}

/// Drives the receiving side over `wire`, which arrives in pieces of at most `piece` bytes.
fn receive(state: &mut AppState<u8>, m: &mut Incoming, wire: &[u8], piece: usize) -> (Vec<(String, Vec<u8>)>, String) {
    let mut saved: Vec<(String, Vec<u8>)> = Vec::new();
    let mut at = 0;
    let mut event = ReceiveEvent::Decided(true);
    loop {
        assert!(m.ready(state, &event));
        let ReceiveStep { action, .. } = m.step(state, event);
        event = match action {
            ReceiveAction::Reply(r) => {
                assert!(r.accepted);
                ReceiveEvent::Replied
            }
            ReceiveAction::Create(name) => {
                saved.push((name, Vec::new()));
                ReceiveEvent::Created
            }
            ReceiveAction::Read(most) => {
                let n = most.min(piece).min(wire.len() - at);
                saved.last_mut().unwrap().1.extend_from_slice(&wire[at..at + n]);
                at += n;
                ReceiveEvent::Got(n)
            }
            ReceiveAction::Flush => ReceiveEvent::Flushed,
            ReceiveAction::Complete => return (saved, "complete".to_string()),
            ReceiveAction::Declined => return (saved, "declined".to_string()),
            ReceiveAction::Abort(why) => return (saved, why),
        };
    }
}

#[test]
fn files_come_out_as_they_went_in() {
    let contents: Vec<Vec<u8>> = vec![
        (0..200_000u32).map(|i| (i * 7) as u8).collect(),
        Vec::new(),
        b"short".to_vec(),
    ];
    let wire: Vec<u8> = contents.concat();
    for piece in [1000, 65_536, 1 << 20] {
        let mut state = new_state();
        let files = vec![file("a/b", 200_000), file("..x", 0), file("", 5)];
        let mut m = asked(&mut state, files);
        let (saved, end) = receive(&mut state, &mut m, &wire, piece);
        assert_eq!(end, "complete");
        let names: Vec<&str> = saved.iter().map(|s| s.0.as_str()).collect();
        assert_eq!(names, vec!["a_b", "x", "file"]);
        let bytes: Vec<Vec<u8>> = saved.into_iter().map(|s| s.1).collect();
        assert_eq!(bytes, contents);
        let t = state.transfer("t9").unwrap();
        assert_eq!((t.status, t.bytes_sent, t.total_bytes), (TransferStatus::Completed, 200_005, 200_005));
        assert_eq!(m.phase, ReceivePhase::Closed);
    }
}

#[test]
fn what_one_device_sends_another_receives() {
    let contents: Vec<Vec<u8>> = vec![vec![7; 100_000], Vec::new(), (0..70_000u32).map(|i| i as u8).collect()];
    let files = || vec![file("a", 100_000), file("b", 0), file("c", 70_000)];
    let mut state = new_state();
    let mut out = offer(&mut state, files()).outgoing;
    let mut wire: Vec<u8> = Vec::new();
    let mut offsets = [0usize; 3];
    let mut event = SendEvent::Answered(ResponseMsg::yes());
    loop {
        assert!(out.ready(&state, &event));
        event = match out.step(&mut state, event).action {
            SendAction::Stream(i) => {
                let left = &contents[i][offsets[i]..];
                let n = left.len().min(30_000);
                wire.extend_from_slice(&left[..n]);
                offsets[i] += n;
                if n == 0 { SendEvent::FileEnded } else { SendEvent::Sent(n) }
            }
            SendAction::Flush => SendEvent::Flushed,
            SendAction::Succeed => break,
            SendAction::Fail(why) => panic!("{why}"),
        };
    }
    assert_eq!(wire, contents.concat());
    let mut other = new_state();
    let mut m = asked(&mut other, files());
    let (saved, end) = receive(&mut other, &mut m, &wire, 1 << 20);
    assert_eq!(end, "complete");
    let bytes: Vec<Vec<u8>> = saved.into_iter().map(|s| s.1).collect();
    assert_eq!(bytes, contents);
}

#[test]
fn a_connection_that_closes_early_breaks_the_transfer_off() {
    let mut state = new_state();
    let mut m = asked(&mut state, vec![file("a", 10)]);
    let (saved, end) = receive(&mut state, &mut m, b"1234", 4);
    assert_eq!(end, "connection closed mid-transfer");
    assert_eq!(saved[0].1, b"1234");
    assert_eq!(state.transfer("t9").unwrap().status, TransferStatus::Active);
    assert!(!m.ready(&state, &ReceiveEvent::Got(1)));
}

#[test]
fn an_offer_without_files_is_complete_at_once() {
    let mut state = new_state();
    let mut m = asked(&mut state, Vec::new());
    let (saved, end) = receive(&mut state, &mut m, b"", 1);
    assert!(saved.is_empty());
    assert_eq!(end, "complete");
}

#[test]
fn no_more_is_read_than_a_file_lacks() {
    assert_eq!(chunk_len(0), 0);
    assert_eq!(chunk_len(5), 5);
    assert_eq!(chunk_len(65_535), 65_535);
    assert_eq!(chunk_len(u64::MAX), 65_536);
    let mut state = new_state();
    let mut m = asked(&mut state, vec![file("a", 3)]);
    m.step(&mut state, ReceiveEvent::Decided(true));
    m.step(&mut state, ReceiveEvent::Replied);
    let s = m.step(&mut state, ReceiveEvent::Created);
    assert!(matches!(s.action, ReceiveAction::Read(3)));
    assert!(!m.ready(&state, &ReceiveEvent::Got(4)));
    let s = m.step(&mut state, ReceiveEvent::Got(1));
    assert!(matches!(s.action, ReceiveAction::Read(2)));
    let r = s.report.unwrap();
    assert_eq!((r.bytes_sent, r.status), (1, TransferStatus::Active));
}

#[test]
fn one_transfer_does_not_touch_another() {
    let mut state = new_state();
    let mut other = offer(&mut state, vec![file("o", 1)]).outgoing;
    let mut m = asked(&mut state, vec![file("a", 2)]);
    receive(&mut state, &mut m, b"ab", 2);
    assert_eq!(state.transfer("t1").unwrap().status, TransferStatus::Pending);
    other.step(&mut state, SendEvent::Answered(ResponseMsg::no("no")));
    assert_eq!(state.transfer("t9").unwrap().status, TransferStatus::Completed);
}
