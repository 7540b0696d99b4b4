use localbeam::contacts::{now_secs, Contact, ContactBook, ContactRequest};

fn request(id: &str, name: &str, at: u64) -> ContactRequest {
    ContactRequest {
        id: id.to_string(),
        name: name.to_string(),
        avatar: "a".to_string(),
        message: Some("hello".to_string()),
        requested_at: at,
    }
}

fn contact(id: &str) -> Contact {
    Contact { id: id.to_string(), name: "n".to_string(), avatar: "a".to_string(), added_at: 1 }
}

#[test]
fn a_new_book_is_empty() {
    let book = ContactBook::default();
    assert!(book.contacts.is_empty() && book.blocked.is_empty() && book.pending.is_empty());
    assert!(!book.is_contact("x"));
    assert!(!book.is_blocked("x"));
}

#[test]
fn a_stored_book_is_kept() {
    let mut stored = ContactBook::default();
    stored.contacts.push(contact("c"));
    stored.blocked.push("b".to_string());
    let book = ContactBook::load_or_create(Some(stored));
    assert!(book.is_contact("c"));
    assert!(book.is_blocked("b"));
    assert!(ContactBook::load_or_create(None).contacts.is_empty());
}

#[test]
fn a_repeated_request_takes_the_place_of_the_first() {
    let mut book = ContactBook::default();
    book.upsert_pending(request("x", "old", 1));
    book.upsert_pending(request("y", "other", 2));
    book.upsert_pending(request("x", "new", 3));
    let names: Vec<&str> = book.pending.iter().map(|p| p.name.as_str()).collect();
    assert_eq!(names, vec!["new", "other"]);
    assert_eq!(book.pending[0].requested_at, 3);
}

#[test]
fn a_contact_need_not_ask() {
    let mut book = ContactBook::default();
    book.contacts.push(contact("c"));
    book.upsert_pending(request("c", "c", 1));
    assert!(book.pending.is_empty());
}

#[test]
fn accepting_makes_a_contact() {
    let mut book = ContactBook::default();
    book.blocked.push("z".to_string());
    book.upsert_pending(request("x", "X", 1));
    book.upsert_pending(request("y", "Y", 2));
    let c = book.accept_pending_at("x", 77).unwrap();
    assert_eq!((c.id.as_str(), c.name.as_str(), c.avatar.as_str(), c.added_at), ("x", "X", "a", 77));
    assert!(book.is_contact("x"));
    assert_eq!(book.contacts[0].added_at, 77);
    assert_eq!(book.pending.len(), 1);
    assert_eq!(book.pending[0].id, "y");
    assert_eq!(book.blocked, vec!["z".to_string()]);
}

#[test]
fn accepting_without_a_request_does_nothing() {
    let mut book = ContactBook::default();
    book.upsert_pending(request("x", "X", 1));
    assert!(book.accept_pending_at("nobody", 5).is_none());
    assert_eq!(book.pending.len(), 1);
    assert!(book.contacts.is_empty());
}

#[test]
fn accepting_is_dated_by_the_clock() {
    let before = now_secs();
    let mut book = ContactBook::default();
    book.upsert_pending(request("x", "X", 1));
    let c = book.accept_pending("x").unwrap();
    let after = now_secs();
    assert!(before > 1_600_000_000);
    assert!(before <= c.added_at && c.added_at <= after);
}

#[test]
fn rejecting_drops_every_request_of_the_device() {
    let mut book = ContactBook::default();
    book.pending.push(request("x", "1", 1));
    book.pending.push(request("y", "2", 2));
    book.pending.push(request("x", "3", 3));
    book.reject_pending("x");
    assert_eq!(book.pending.len(), 1);
    assert_eq!(book.pending[0].id, "y");
    assert!(book.accept_pending_at("x", 1).is_none());
}

#[test]
fn removing_drops_the_contact_alone() {
    let mut book = ContactBook::default();
    book.contacts.push(contact("x"));
    book.contacts.push(contact("y"));
    book.upsert_pending(request("z", "Z", 1));
    book.remove_contact("x");
    assert!(!book.is_contact("x"));
    assert!(book.is_contact("y"));
    assert_eq!(book.pending.len(), 1);
}

#[test]
fn only_the_first_of_two_open_requests_is_accepted() {
    let mut book = ContactBook::default();
    book.pending.push(request("x", "first", 1));
    book.pending.push(request("x", "second", 2));
    assert_eq!(book.accept_pending_at("x", 3).unwrap().name, "first");
    assert_eq!(book.pending.len(), 1);
    assert_eq!(book.pending[0].name, "second");
}
