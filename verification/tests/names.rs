use localbeam::filename::{
    control, numbered_name, tagged_name, unique_path, NameChoice, NameSearch, SearchAction,
    NAME_TRIES,
};
use localbeam::http_server;
use localbeam::ids::new_id;
use localbeam::transfer;

fn is_uuid(s: &str) -> bool {
    let c: Vec<char> = s.chars().collect();
    c.len() == 36
        && [8, 13, 18, 23].iter().all(|&i| c[i] == '-')
        && c[14] == '4'
        && "89ab".contains(c[19])
        && s.chars().all(|x| x == '-' || x.is_ascii_digit() || ('a'..='f').contains(&x))
}

#[test]
fn control_characters_are_those_of_unicode() {
    for n in 0..=0x10ffffu32 {
        if let Some(c) = char::from_u32(n) {
            assert_eq!(control(c), c.is_control(), "{n:x}");
        }
    }
}

#[test]
fn received_names_are_made_safe() {
    let safe = |s: &str| transfer::sanitize_filename(s);
    assert_eq!(safe("photo.jpg"), "photo.jpg");
    assert_eq!(safe("a/b\\c\0d\u{7}e"), "a_b_c_d_e");
    assert_eq!(safe("../../etc/passwd"), "_.._etc_passwd");
    assert_eq!(safe("...hidden"), "hidden");
    assert_eq!(safe(""), "file");
    assert_eq!(safe("..."), "file");
    assert_eq!(safe("naïve ✓.txt"), "naïve ✓.txt");
}

#[test]
fn uploaded_names_are_made_safe() {
    let safe = |s: &str| http_server::sanitize_filename(s);
    assert_eq!(safe("photo.jpg"), "photo.jpg");
    assert_eq!(safe("a/b\\c\0d\u{7f}e"), "a_b_c_d_e");
    assert_eq!(safe("../../etc/passwd"), "___etc_passwd");
    assert_eq!(safe("a...b"), "a_.b");
    assert_eq!(safe("a....b"), "a__b");
    assert_eq!(safe(""), "file");
    assert_eq!(safe("..."), "");
}

#[test]
fn safe_names_are_kept() {
    for raw in ["x", "a b.c", "..a", "a/../b", "é.tar.gz", "\u{85}"] {
        let once = transfer::sanitize_filename(raw);
        assert_eq!(transfer::sanitize_filename(&once), once);
        assert!(!once.is_empty() && !once.starts_with('.') && !once.contains('/'));
        let up = http_server::sanitize_filename(raw);
        assert_eq!(http_server::sanitize_filename(&up), up);
        assert!(!up.contains(".."));
    }
}

#[test]
fn nameless_uploads_get_a_name() {
    assert_eq!(http_server::nameless_upload("7"), "upload-7");
    let n = http_server::upload_name(None);
    assert!(n.starts_with("upload-"));
    assert!(is_uuid(&n["upload-".len()..]));
    assert_eq!(http_server::upload_name(Some("a/b".to_string())), "a_b");
}

#[test]
fn numbered_names() {
    assert_eq!(numbered_name("a.txt", 0), "a.txt");
    assert_eq!(numbered_name("a.txt", 1), "a (1).txt");
    assert_eq!(numbered_name("a.tar.gz", 12), "a.tar (12).gz");
    assert_eq!(numbered_name("README", 3), "README (3)");
    assert_eq!(numbered_name(".env", 4), " (4).env");
    assert_eq!(numbered_name("x.", 5), "x (5).");
    assert_eq!(tagged_name("a.txt", "id"), "a-id.txt");
    assert_eq!(tagged_name("README", "id"), "README-id");
}

#[test]
fn names_are_tried_in_turn_and_settled_in_the_end() {
    assert_eq!(NAME_TRIES, 10_000);
    assert!(matches!(unique_path("a.txt", 0), NameChoice::IfFree(s) if s == "a.txt"));
    assert!(matches!(unique_path("a.txt", 1), NameChoice::IfFree(s) if s == "a (1).txt"));
    assert!(matches!(unique_path("a.txt", 9_999), NameChoice::IfFree(s) if s == "a (9999).txt"));
    match unique_path("a.txt", 10_000) {
        NameChoice::Settled(s) => {
            assert!(s.starts_with("a-") && s.ends_with(".txt"));
            assert!(is_uuid(&s[2..s.len() - 4]));
        }
        NameChoice::IfFree(s) => panic!("{s}"),
    }
}

#[test]
fn tried_names_differ() {
    let mut seen: Vec<String> = (0..200).map(|n| numbered_name("a.b.c", n)).collect();
    assert!(seen.iter().all(|s| s.ends_with(".c")));
    seen.sort();
    seen.dedup();
    assert_eq!(seen.len(), 200);
}

#[test]
fn identifiers_are_random_uuids() {
    let a = new_id();
    let b = new_id();
    assert!(is_uuid(&a) && is_uuid(&b));
    assert_ne!(a, b);
}

/// Searches a directory that holds these names.
fn search(name: &str, existing: &dyn Fn(&str) -> bool) -> String {
    let (mut search, mut action) = NameSearch::begin(name);
    loop {
        match action {
            SearchAction::Probe(n) => action = search.step(existing(&n)),
            SearchAction::Use(n) => return n,
        }
    }
}

#[test]
fn the_search_ends_at_the_least_free_name() {
    let holds = |names: Vec<&'static str>| move |n: &str| names.contains(&n);
    assert_eq!(search("a.tar.gz", &holds(vec![])), "a.tar.gz");
    assert_eq!(search("a.tar.gz", &holds(vec!["a.tar.gz", "a.tar (1).gz"])), "a.tar (2).gz");
    assert_eq!(search("a.tar.gz", &holds(vec!["a.tar.gz", "a.tar (2).gz"])), "a.tar (1).gz");
    assert_eq!(search("a.tar.gz", &holds(vec!["a.tar (1).gz"])), "a.tar.gz");
    assert_eq!(search("x", &|n| n != "x (9999)"), "x (9999)");
    let settled = search("x.y", &|_| true);
    assert!(settled.starts_with("x-") && settled.ends_with(".y"));
    assert!(is_uuid(&settled[2..settled.len() - 2]));
}

#[test]
fn files_of_one_transfer_share_no_name() {
    let mut held = vec!["a.txt".to_string(), "x".to_string()];
    let mut saved = Vec::new();
    for raw in ["a.txt", "a.txt", "../x", "/etc/passwd", "x"] {
        let name = search(&transfer::sanitize_filename(raw), &|n| held.iter().any(|h| h == n));
        assert!(!held.contains(&name));
        held.push(name.clone());
        saved.push(name);
    }
    assert_eq!(saved, vec!["a (1).txt", "a (2).txt", "_x", "_etc_passwd", "x (1)"]);
}
