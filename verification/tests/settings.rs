use localbeam::clock::{nanos_of, secs_of, UnixTime};
use localbeam::settings::{
    initial_base_dir, initial_device_name, pick_port, pick_port_at, AllowMode, Settings,
    DEFAULT_HTTP_PORT, TRANSFER_PORT_TAG,
};

#[test]
fn a_new_installation() {
    let s = Settings::default_with("Desk".to_string(), "/home/x/Documents/LocalBeam".to_string());
    assert_eq!(s.device_name, "Desk");
    assert_eq!(s.device_avatar, "💻");
    assert_eq!(s.save_dir, "/home/x/Documents/LocalBeam");
    assert_eq!(s.allow_mode, AllowMode::All);
    assert!(s.require_accept);
    assert!(!s.enable_qr_server && !s.serves_phones());
    assert_eq!(s.http_port, 7878);
    assert!(s.transfer_port >= 49152 && s.transfer_port < 65535);
    assert!(s.manual_peers.is_empty());
    assert_eq!(DEFAULT_HTTP_PORT, 7878);
    assert_eq!(TRANSFER_PORT_TAG, 0xB1);
}

#[test]
fn ports_are_picked_from_the_clock() {
    assert_eq!(pick_port_at(0, 0), 49152);
    assert_eq!(pick_port_at(0xB1, 0), 49152 + 0xB1);
    assert_eq!(pick_port_at(0xB1, 16382), 49152 + (16382 + 0xB1) % 16383);
    assert_eq!(pick_port_at(2, u64::from(u32::MAX)), 49152 + 1);
    assert_eq!(pick_port_at(1, 1 << 32), 49153);
    let p = pick_port(0xB1);
    assert!(p >= 49152 && p < 65535);
}

#[test]
fn stored_settings_are_kept() {
    let mut stored = Settings::initial("A".to_string(), "/a".to_string(), 50_001);
    stored.enable_qr_server = true;
    let (s, new) = Settings::load_or_create(Some(stored), Some("host".to_string()), "/b".to_string());
    assert!(!new);
    assert_eq!((s.device_name.as_str(), s.save_dir.as_str(), s.transfer_port), ("A", "/a", 50_001));
    assert!(s.serves_phones());
    let (s, new) = Settings::load_or_create(None, Some("host".to_string()), "/b".to_string());
    assert!(new);
    assert_eq!((s.device_name.as_str(), s.save_dir.as_str()), ("host", "/b"));
    let (s, _) = Settings::load_or_create(None, None, "/b".to_string());
    assert_eq!(s.device_name, "My Computer");
}

#[test]
fn names_and_directories_fall_back() {
    assert_eq!(initial_device_name(Some("h".to_string())), "h");
    assert_eq!(initial_device_name(None), "My Computer");
    let s = |x: &str| Some(x.to_string());
    assert_eq!(initial_base_dir(s("/d"), s("/h")), "/d");
    assert_eq!(initial_base_dir(None, s("/h")), "/h");
    assert_eq!(initial_base_dir(None, None), ".");
}

#[test]
fn clock_readings() {
    assert_eq!(secs_of(None), 0);
    assert_eq!(nanos_of(None), 0);
    let t = Some(UnixTime { secs: 3, nanos: 7 });
    assert_eq!(secs_of(t), 3);
    assert_eq!(nanos_of(t), 3_000_000_007);
    let far = Some(UnixTime { secs: 18_446_744_074, nanos: 0 });
    assert_eq!(nanos_of(far), 290_448_384);
}
