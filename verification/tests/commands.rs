use localbeam::commands::{
    accept_contact_request, clear_completed_transfers, decide_incoming, get_me, list_contacts,
    list_peers, list_pending_contact_requests, list_transfers, local_ip, mode_for_word,
    reject_contact_request, remove_contact, update_settings, word_for_mode, SettingsPatch,
};
use localbeam::contacts::{ContactBook, ContactRequest};
use localbeam::identity::Identity;
use localbeam::net::{IpAddr, Ipv4Addr};
use localbeam::settings::{AllowMode, Settings};
use localbeam::state::{
    AppState, PeerInfo, TransferDirection, TransferProgress, TransferStatus,
};

fn new_state() -> AppState<u8> {
    let identity = Identity {
        cert_der: vec![1],
        key_pem: "k".to_string(),
        cert_pem: "c".to_string(),
        fingerprint: "me".to_string(),
    };
    let settings = Settings::initial("Desk".to_string(), "/save".to_string(), 50_000);
    AppState::new("/data".to_string(), identity, settings, ContactBook::default())
}

fn nothing() -> SettingsPatch {
    SettingsPatch {
        device_name: None,
        device_avatar: None,
        save_dir: None,
        allow_mode: None,
        require_accept: None,
        enable_qr_server: None,
    }
}

fn transfer(id: &str, status: TransferStatus) -> TransferProgress {
    TransferProgress {
        transfer_id: id.to_string(),
        created_at: 1,
        direction: TransferDirection::Incoming,
        peer_id: None,
        peer_name: "p".to_string(),
        files: Vec::new(),
        current_file_index: 0,
        bytes_sent: 0,
        total_bytes: 0,
        status,
        error: None,
    }
}

#[test]
fn the_device_is_shown_with_its_address() {
    let mut state = new_state();
    let me = get_me(&state, Some("10.0.0.5".to_string()));
    assert_eq!((me.id.as_str(), me.name.as_str(), me.avatar.as_str()), ("me", "Desk", "💻"));
    assert_eq!(me.host.as_deref(), Some("10.0.0.5"));
    assert_eq!((me.transfer_port, me.http_port), (50_000, 7878));
    assert_eq!(me.qr_url.as_deref(), Some("http://10.0.0.5:7878/"));
    assert_eq!((me.save_dir.as_str(), me.allow_mode.as_str()), ("/save", "all"));
    assert!(me.require_accept && !me.enable_qr_server);
    state.settings.allow_mode = AllowMode::Contacts;
    let me = get_me(&state, None);
    assert_eq!((me.host, me.qr_url, me.allow_mode.as_str()), (None, None, "contacts"));
}

#[test]
fn settings_are_changed_where_the_change_says_so() {
    let mut state = new_state();
    let s = update_settings(&mut state, nothing());
    assert_eq!((s.device_name.as_str(), s.save_dir.as_str()), ("Desk", "/save"));
    let change = || SettingsPatch {
        device_name: Some(" \u{a0}New name\n".to_string()),
        device_avatar: Some("🐙".to_string()),
        save_dir: Some("".to_string()),
        allow_mode: Some("contacts".to_string()),
        require_accept: Some(false),
        enable_qr_server: Some(true),
    };
    for _ in 0..2 {
        let s = update_settings(&mut state, change());
        assert_eq!((s.device_name.as_str(), s.device_avatar.as_str(), s.save_dir.as_str()), ("New name", "🐙", ""));
        assert_eq!(s.allow_mode, AllowMode::Contacts);
        assert!(!s.require_accept && s.enable_qr_server);
        assert_eq!((s.transfer_port, s.http_port), (50_000, 7878));
    }
    assert_eq!(state.settings.device_name, "New name");
}

#[test]
fn empty_names_and_avatars_do_not_count() {
    let mut state = new_state();
    let mut p = nothing();
    p.device_name = Some(" \t ".to_string());
    p.device_avatar = Some(String::new());
    let s = update_settings(&mut state, p);
    assert_eq!((s.device_name.as_str(), s.device_avatar.as_str()), ("Desk", "💻"));
}

#[test]
fn words_for_the_modes() {
    assert_eq!(word_for_mode(AllowMode::All), "all");
    assert_eq!(word_for_mode(AllowMode::Contacts), "contacts");
    assert_eq!(mode_for_word("contacts"), AllowMode::Contacts);
    assert_eq!(mode_for_word("contacts_only"), AllowMode::Contacts);
    assert_eq!(mode_for_word("all"), AllowMode::All);
    assert_eq!(mode_for_word("allow_all"), AllowMode::All);
    assert_eq!(mode_for_word("Contacts"), AllowMode::All);
}

#[test]
fn everything_is_listed() {
    let mut state = new_state();
    assert!(list_peers(&state).is_empty());
    state.peers.insert(
        "p".to_string(),
        PeerInfo {
            id: "p".to_string(),
            name: "P".to_string(),
            avatar: "a".to_string(),
            host: "h".to_string(),
            transfer_port: 1,
            http_port: 2,
            mobile_web_available: false,
            manual: true,
            last_seen: 3,
        },
    );
    state.update_transfer(transfer("t", TransferStatus::Active));
    state.update_transfer(transfer("t", TransferStatus::Failed));
    assert_eq!(list_peers(&state).len(), 1);
    let t = list_transfers(&state);
    assert_eq!(t.len(), 1);
    assert_eq!(t[0].status, TransferStatus::Failed);
}

#[test]
fn contact_requests_are_decided() {
    let mut state = new_state();
    for id in ["x", "y"] {
        state.contacts.upsert_pending(ContactRequest {
            id: id.to_string(),
            name: id.to_string(),
            avatar: "a".to_string(),
            message: None,
            requested_at: 1,
        });
    }
    assert_eq!(list_pending_contact_requests(&state).len(), 2);
    let c = accept_contact_request(&mut state, "x", 9).unwrap();
    assert_eq!((c.id.as_str(), c.added_at), ("x", 9));
    assert!(accept_contact_request(&mut state, "x", 9).is_none());
    reject_contact_request(&mut state, "y");
    assert!(list_pending_contact_requests(&state).is_empty());
    assert_eq!(list_contacts(&state).len(), 1);
    remove_contact(&mut state, "x");
    assert!(list_contacts(&state).is_empty());
}

#[test]
fn a_decision_reaches_one_waiter() {
    let mut state = new_state();
    state.pending_decisions.insert("t".to_string(), 4);
    state.pending_decisions.insert("u".to_string(), 5);
    assert_eq!(decide_incoming(&mut state, "t", false), Some((4, false)));
    assert_eq!(decide_incoming(&mut state, "t", false), None);
    assert!(state.pending_decisions.contains("u"));
}

#[test]
fn transfers_that_are_over_are_forgotten() {
    let mut state = new_state();
    let all = [
        ("1", TransferStatus::Pending),
        ("2", TransferStatus::Active),
        ("3", TransferStatus::Completed),
        ("4", TransferStatus::Failed),
        ("5", TransferStatus::Rejected),
        ("6", TransferStatus::Cancelled),
    ];
    for (id, status) in all {
        state.update_transfer(transfer(id, status));
    }
    for _ in 0..2 {
        clear_completed_transfers(&mut state);
        let left: Vec<String> = list_transfers(&state).into_iter().map(|t| t.transfer_id).collect();
        assert_eq!(left, vec!["1".to_string(), "2".to_string()]);
    }
}

#[test]
fn the_address_to_show() {
    let named = Some("172.16.0.1".to_string());
    let list = vec![IpAddr::V4(Ipv4Addr::new(127, 0, 0, 1)), IpAddr::V4(Ipv4Addr::new(10, 0, 0, 4))];
    assert_eq!(local_ip(Some(list), named.clone()).as_deref(), Some("10.0.0.4"));
    assert_eq!(local_ip(Some(vec![IpAddr::V6(1)]), named.clone()), named);
    assert_eq!(local_ip(None, named.clone()), named);
    assert_eq!(local_ip(None, None), None);
}
