//! The contact book: who may send, who is blocked, and who has asked.

use crate::clock::{read_clock, secs_of};
use crate::lists::lemma_filter_step;
use crate::text::{opt_view, same_text, views};
use vstd::prelude::*;

verus! {

/// A device whose files are welcome.
#[derive(Debug)]
pub struct Contact {
    /// Fingerprint of the device.
    pub id: String,
    pub name: String,
    pub avatar: String,
    /// Unix seconds.
    pub added_at: u64,
}

/// A request to become a contact.
#[derive(Debug)]
pub struct ContactRequest {
    pub id: String,
    pub name: String,
    pub avatar: String,
    pub message: Option<String>,
    pub requested_at: u64,
}

/// Contacts, blocked devices and open requests.
#[derive(Debug)]
pub struct ContactBook {
    pub contacts: Vec<Contact>,
    pub blocked: Vec<String>,
    pub pending: Vec<ContactRequest>,
}

/// A contact as a mathematical value.
#[verifier::ext_equal]
pub struct ContactView {
    pub id: Seq<char>,
    pub name: Seq<char>,
    pub avatar: Seq<char>,
    pub added_at: u64,
}

/// A contact request as a mathematical value.
#[verifier::ext_equal]
pub struct RequestView {
    pub id: Seq<char>,
    pub name: Seq<char>,
    pub avatar: Seq<char>,
    pub message: Option<Seq<char>>,
    pub requested_at: u64,
}

/// A contact book as a mathematical value.
#[verifier::ext_equal]
pub struct BookView {
    pub contacts: Seq<ContactView>,
    pub blocked: Seq<Seq<char>>,
    pub pending: Seq<RequestView>,
}

impl View for Contact {
    type V = ContactView;

    open spec fn view(&self) -> ContactView {
        ContactView {
            id: self.id@,
            name: self.name@,
            avatar: self.avatar@,
            added_at: self.added_at,
        }
    }
}

impl View for ContactRequest {
    type V = RequestView;

    open spec fn view(&self) -> RequestView {
        RequestView {
            id: self.id@,
            name: self.name@,
            avatar: self.avatar@,
            message: opt_view(self.message),
            requested_at: self.requested_at,
        }
    }
}

impl View for ContactBook {
    type V = BookView;

    open spec fn view(&self) -> BookView {
        BookView {
            contacts: views(self.contacts@),
            blocked: views(self.blocked@),
            pending: views(self.pending@),
        }
    }
}

impl RequestView {
    /// The contact that accepting this request at `now` makes.
    pub open spec fn accepted_at(self, now: u64) -> ContactView {
        ContactView { id: self.id, name: self.name, avatar: self.avatar, added_at: now }
    }
}

impl BookView {
    /// A book without entries.
    pub open spec fn empty() -> BookView {
        BookView { contacts: Seq::empty(), blocked: Seq::empty(), pending: Seq::empty() }
    }

    /// The ids of the contacts, in order.
    pub open spec fn contact_ids(self) -> Seq<Seq<char>> {
        self.contacts.map_values(|c: ContactView| c.id)
    }

    /// The ids of the open requests, in order.
    pub open spec fn pending_ids(self) -> Seq<Seq<char>> {
        self.pending.map_values(|p: RequestView| p.id)
    }

    /// Whether `id` is a contact.
    pub open spec fn is_contact(self, id: Seq<char>) -> bool {
        self.contact_ids().contains(id)
    }

    /// Whether `id` is blocked.
    pub open spec fn is_blocked(self, id: Seq<char>) -> bool {
        self.blocked.contains(id)
    }

    /// Whether `id` has an open request.
    pub open spec fn is_pending(self, id: Seq<char>) -> bool {
        self.pending_ids().contains(id)
    }

    /// The book after a request has come in: a contact's request changes nothing, a repeated one
    /// takes the place of the first that its sender has open, any other is added at the end.
    pub open spec fn with_request(self, req: RequestView) -> BookView {
        if self.is_contact(req.id) {
            self
        } else {
            match self.pending_ids().index_of_first(req.id) {
                Some(i) => BookView { pending: self.pending.update(i, req), ..self },
                None => BookView { pending: self.pending.push(req), ..self },
            }
        }
    }

    /// The book after the first open request of `id` has been accepted, and the contact it made.
    pub open spec fn with_accepted(self, id: Seq<char>, now: u64) -> (BookView, Option<ContactView>) {
        match self.pending_ids().index_of_first(id) {
            Some(i) => {
                let c = self.pending[i].accepted_at(now);
                (
                    BookView {
                        contacts: self.contacts.push(c),
                        pending: self.pending.remove(i),
                        ..self
                    },
                    Some(c),
                )
            },
            None => (self, None),
        }
    }

    /// The book without open requests of `id`.
    pub open spec fn without_request(self, id: Seq<char>) -> BookView {
        BookView { pending: self.pending.filter(|p: RequestView| p.id != id), ..self }
    }

    /// The book without contacts of that `id`.
    pub open spec fn without_contact(self, id: Seq<char>) -> BookView {
        BookView { contacts: self.contacts.filter(|c: ContactView| c.id != id), ..self }
    }

    /// A device stands in the book once: as one contact or with one open request.
    pub open spec fn coherent(self) -> bool {
        &&& self.contact_ids().no_duplicates()
        &&& self.pending_ids().no_duplicates()
        &&& forall|id: Seq<char>| !(self.is_contact(id) && self.is_pending(id))
    }
}

impl Clone for Contact {
    fn clone(&self) -> (r: Self)
        ensures
            r@ == self@,
    {
        Contact {
            id: self.id.clone(),
            name: self.name.clone(),
            avatar: self.avatar.clone(),
            added_at: self.added_at,
        }
    }
}

impl Clone for ContactRequest {
    fn clone(&self) -> (r: Self)
        ensures
            r@ == self@,
    {
        ContactRequest {
            id: self.id.clone(),
            name: self.name.clone(),
            avatar: self.avatar.clone(),
            message: self.message.clone(),
            requested_at: self.requested_at,
        }
    }
}

impl Clone for ContactBook {
    fn clone(&self) -> (r: Self)
        ensures
            r@ == self@,
    {
        ContactBook {
            contacts: self.contacts.clone(),
            blocked: self.blocked.clone(),
            pending: self.pending.clone(),
        }
    }
}

impl Default for ContactBook {
    fn default() -> (r: Self)
        ensures
            r@ == BookView::empty(),
            r@.coherent(),
    {
        ContactBook { contacts: Vec::new(), blocked: Vec::new(), pending: Vec::new() }
    }
}

impl ContactBook {
    /// The book to start with: the one that was read from the store, or else one without entries.
    pub fn load_or_create(stored: Option<ContactBook>) -> (r: Self)
        ensures
            r@ == (match opt_view(stored) {
                Some(b) => b,
                None => BookView::empty(),
            }),
    {
        match stored {
            Some(b) => b,
            None => ContactBook::default(),
        }
    }

    /// Whether `id` is a contact.
    pub fn is_contact(&self, id: &str) -> (r: bool)
        ensures
            r == self@.is_contact(id@),
    {
        let ghost ids = self@.contact_ids();
        for i in 0..self.contacts.len()
            invariant
                ids == self@.contact_ids(),
                ids.len() == self.contacts@.len(),
                forall|j: int| 0 <= j < i ==> ids[j] != id@,
        {
            if same_text(self.contacts[i].id.as_str(), id) {
                assert(ids[i as int] == id@);
                return true;
            }
        }
        false
    }

    /// Whether `id` is blocked.
    pub fn is_blocked(&self, id: &str) -> (r: bool)
        ensures
            r == self@.is_blocked(id@),
    {
        let ghost ids = self@.blocked;
        for i in 0..self.blocked.len()
            invariant
                ids == self@.blocked,
                ids.len() == self.blocked@.len(),
                forall|j: int| 0 <= j < i ==> ids[j] != id@,
        {
            if same_text(self.blocked[i].as_str(), id) {
                assert(ids[i as int] == id@);
                return true;
            }
        }
        false
    }

    /// The place of the first open request of `id`.
    fn first_pending(&self, id: &str) -> (r: Option<usize>)
        ensures
            match r {
                Some(i) => self@.pending_ids().index_of_first(id@) == Some(i as int),
                None => self@.pending_ids().index_of_first(id@) is None,
            },
            r is Some ==> r->0 < self.pending@.len(),
    {
        let ghost ids = self@.pending_ids();
        proof {
            ids.index_of_first_ensures(id@);
        }
        for i in 0..self.pending.len()
            invariant
                ids == self@.pending_ids(),
                ids.len() == self.pending@.len(),
                forall|j: int| 0 <= j < i ==> ids[j] != id@,
                match ids.index_of_first(id@) {
                    Some(index) => ids.contains(id@) && 0 <= index < ids.len() && ids[index] == id@
                        && forall|j: int| 0 <= j < index < ids.len() ==> ids[j] != id@,
                    None => !ids.contains(id@),
                },
        {
            if same_text(self.pending[i].id.as_str(), id) {
                assert(ids[i as int] == id@);
                return Some(i);
            }
        }
        None
    }

    /// Notes a request: ignored for a contact, otherwise one open request per sender.
    pub fn upsert_pending(&mut self, req: ContactRequest)
        ensures
            final(self)@ == old(self)@.with_request(req@),
            old(self)@.coherent() ==> final(self)@.coherent(),
    {
        proof {
            request_keeps_coherence(self@, req@);
        }
        if self.is_contact(req.id.as_str()) {
            return;
        }
        let ghost before = self@;
        let ghost noted = req@;
        match self.first_pending(req.id.as_str()) {
            Some(i) => {
                self.pending.set(i, req);
                assert(self@.pending =~= before.pending.update(i as int, noted));
            },
            None => {
                self.pending.push(req);
                assert(self@.pending =~= before.pending.push(noted));
            },
        }
    }

    /// Makes a contact, dated `now`, of the first open request of `id`.
    pub fn accept_pending_at(&mut self, id: &str, now: u64) -> (r: Option<Contact>)
        ensures
            (final(self)@, opt_view(r)) == old(self)@.with_accepted(id@, now),
            old(self)@.coherent() ==> final(self)@.coherent(),
    {
        let ghost before = self@;
        proof {
            accepting_keeps_coherence(before, id@, now);
        }
        match self.first_pending(id) {
            Some(i) => {
                let p = self.pending.remove(i);
                assert(p@ == before.pending[i as int]);
                let c = Contact { id: p.id, name: p.name, avatar: p.avatar, added_at: now };
                let copy = c.clone();
                self.contacts.push(copy);
                assert(self@.pending =~= before.pending.remove(i as int));
                assert(self@.contacts =~= before.contacts.push(c@));
                Some(c)
            },
            None => None,
        }
    }

    /// Makes a contact, dated by the clock, of the first open request of `id`.
    pub fn accept_pending(&mut self, id: &str) -> (r: Option<Contact>)
        ensures
            exists|now: u64| (final(self)@, opt_view(r)) == #[trigger] old(self)@.with_accepted(id@, now),
            old(self)@.coherent() ==> final(self)@.coherent(),
    {
        let now: u64 = now_secs();
        self.accept_pending_at(id, now)
    }

    /// Drops the open requests of `id`.
    pub fn reject_pending(&mut self, id: &str)
        ensures
            final(self)@ == old(self)@.without_request(id@),
            old(self)@.coherent() ==> final(self)@.coherent(),
    {
        let ghost before = self@;
        let ghost keep = |p: RequestView| p.id != id@;
        proof {
            rejecting_keeps_coherence(before, id@);
            reveal(Seq::filter);
        }
        let mut i: usize = 0;
        let ghost mut seen: int = 0;
        assert(before.pending.take(0).filter(keep) =~= Seq::<RequestView>::empty());
        while i < self.pending.len()
            invariant
                0 <= seen <= before.pending.len(),
                keep == (|p: RequestView| p.id != id@),
                self@.contacts == before.contacts,
                self@.blocked == before.blocked,
                i == before.pending.take(seen).filter(keep).len(),
                self@.pending == before.pending.take(seen).filter(keep) + before.pending.skip(seen),
            decreases self.pending@.len() - i,
        {
            let ghost now = self@.pending;
            let ghost kept = before.pending.take(seen).filter(keep);
            proof {
                assert(now[i as int] == before.pending.skip(seen)[0]);
                lemma_filter_step(before.pending, keep, seen);
            }
            if same_text(self.pending[i].id.as_str(), id) {
                let _ = self.pending.remove(i);
                assert(self@.pending =~= now.remove(i as int));
                assert(self@.pending =~= kept + before.pending.skip(seen + 1));
            } else {
                i = i + 1;
                assert(self@.pending =~= kept.push(before.pending[seen]) + before.pending.skip(
                    seen + 1,
                ));
            }
            proof {
                seen = seen + 1;
            }
        }
        assert(before.pending.take(seen) =~= before.pending);
        assert(self@.pending =~= before.pending.filter(keep));
    }

    /// Drops the contacts of that `id`.
    pub fn remove_contact(&mut self, id: &str)
        ensures
            final(self)@ == old(self)@.without_contact(id@),
            old(self)@.coherent() ==> final(self)@.coherent(),
    {
        let ghost before = self@;
        let ghost keep = |c: ContactView| c.id != id@;
        proof {
            removing_keeps_coherence(before, id@);
            reveal(Seq::filter);
        }
        let mut i: usize = 0;
        let ghost mut seen: int = 0;
        assert(before.contacts.take(0).filter(keep) =~= Seq::<ContactView>::empty());
        while i < self.contacts.len()
            invariant
                0 <= seen <= before.contacts.len(),
                keep == (|c: ContactView| c.id != id@),
                self@.pending == before.pending,
                self@.blocked == before.blocked,
                i == before.contacts.take(seen).filter(keep).len(),
                self@.contacts == before.contacts.take(seen).filter(keep) + before.contacts.skip(seen),
            decreases self.contacts@.len() - i,
        {
            let ghost now = self@.contacts;
            let ghost kept = before.contacts.take(seen).filter(keep);
            proof {
                assert(now[i as int] == before.contacts.skip(seen)[0]);
                lemma_filter_step(before.contacts, keep, seen);
            }
            if same_text(self.contacts[i].id.as_str(), id) {
                let _ = self.contacts.remove(i);
                assert(self@.contacts =~= now.remove(i as int));
                assert(self@.contacts =~= kept + before.contacts.skip(seen + 1));
            } else {
                i = i + 1;
                assert(self@.contacts =~= kept.push(before.contacts[seen]) + before.contacts.skip(
                    seen + 1,
                ));
            }
            proof {
                seen = seen + 1;
            }
        }
        assert(before.contacts.take(seen) =~= before.contacts);
        assert(self@.contacts =~= before.contacts.filter(keep));
    }
}

/// Unix seconds by the clock, zero for a clock set before the epoch.
pub fn now_secs() -> (r: u64)
{
    secs_of(read_clock())
}

/// A request leaves every device in the book once.
pub proof fn request_keeps_coherence(b: BookView, req: RequestView)
    ensures
        b.coherent() ==> b.with_request(req).coherent(),
{
    if b.coherent() && !b.is_contact(req.id) {
        let after = b.with_request(req);
        let ids = b.pending_ids();
        ids.index_of_first_ensures(req.id);
        assert(after.contact_ids() =~= b.contact_ids());
        match ids.index_of_first(req.id) {
            Some(i) => {
                assert(after.pending_ids() =~= ids);
                assert forall|id: Seq<char>| !(after.is_contact(id) && after.is_pending(id)) by {
                    assert(!(b.is_contact(id) && b.is_pending(id)));
                }
            },
            None => {
                assert(after.pending_ids() =~= ids.push(req.id));
                assert forall|p: int, q: int|
                    0 <= p < after.pending_ids().len() && 0 <= q < after.pending_ids().len() && p
                        != q implies after.pending_ids()[p] != after.pending_ids()[q] by {
                    if p < ids.len() {
                        assert(ids.contains(ids[p]));
                    }
                    if q < ids.len() {
                        assert(ids.contains(ids[q]));
                    }
                }
                assert forall|id: Seq<char>| !(after.is_contact(id) && after.is_pending(id)) by {
                    if after.is_pending(id) {
                        let j = choose|j: int| 0 <= j < ids.push(req.id).len() && ids.push(req.id)[j]
                            == id;
                        if j < ids.len() {
                            assert(ids[j] == id);
                            assert(b.is_pending(id));
                        }
                    }
                }
            },
        }
    }
}

/// Accepting a request leaves every device in the book once.
pub proof fn accepting_keeps_coherence(b: BookView, id: Seq<char>, now: u64)
    ensures
        b.coherent() ==> b.with_accepted(id, now).0.coherent(),
{
    if b.coherent() {
        let after = b.with_accepted(id, now).0;
        let ids = b.pending_ids();
        ids.index_of_first_ensures(id);
        match ids.index_of_first(id) {
            Some(i) => {
                assert(after.pending_ids() =~= ids.remove(i));
                assert(after.contact_ids() =~= b.contact_ids().push(id));
                assert(b.is_pending(id));
                assert(!b.is_contact(id));
                assert forall|x: Seq<char>| !(after.is_contact(x) && after.is_pending(x)) by {
                    if after.is_contact(x) && after.is_pending(x) {
                        let j = choose|j: int| 0 <= j < after.pending_ids().len()
                            && after.pending_ids()[j] == x;
                        let j2 = if j < i { j } else { j + 1 };
                        assert(ids[j2] == x);
                        assert(b.is_pending(x));
                        let k = choose|k: int| 0 <= k < after.contact_ids().len()
                            && after.contact_ids()[k] == x;
                        if k < b.contact_ids().len() {
                            assert(b.contact_ids()[k] == x);
                            assert(b.is_contact(x));
                        }
                    }
                }
                assert forall|p: int, q: int|
                    0 <= p < after.contact_ids().len() && 0 <= q < after.contact_ids().len() && p
                        != q implies after.contact_ids()[p] != after.contact_ids()[q] by {
                    let n = b.contact_ids().len();
                    if p < n {
                        assert(b.contact_ids().contains(b.contact_ids()[p]));
                    }
                    if q < n {
                        assert(b.contact_ids().contains(b.contact_ids()[q]));
                    }
                }
            },
            None => {},
        }
    }
}

/// Distinct ids stay distinct under a filter, and none comes in.
proof fn lemma_filtered_ids<A>(s: Seq<A>, p: spec_fn(A) -> bool, id_of: spec_fn(A) -> Seq<char>)
    requires
        s.map_values(id_of).no_duplicates(),
    ensures
        s.filter(p).map_values(id_of).no_duplicates(),
        forall|id: Seq<char>|
            s.filter(p).map_values(id_of).contains(id) ==> s.map_values(id_of).contains(id),
    decreases s.len(),
{
    reveal(Seq::filter);
    if s.len() > 0 {
        let rest = s.drop_last();
        let ids = s.map_values(id_of);
        assert(rest.map_values(id_of) =~= ids.drop_last());
        lemma_filtered_ids(rest, p, id_of);
        assert forall|id: Seq<char>| rest.map_values(id_of).contains(id) implies ids.contains(id) by {
            let j = choose|j: int| 0 <= j < rest.len() && rest.map_values(id_of)[j] == id;
            assert(ids[j] == id);
        }
        if p(s.last()) {
            let kept = rest.filter(p).map_values(id_of);
            let all = s.filter(p).map_values(id_of);
            let last = id_of(s.last());
            assert(all =~= kept.push(last));
            assert(ids[s.len() - 1] == last);
            assert(!kept.contains(last)) by {
                if kept.contains(last) {
                    assert(rest.map_values(id_of).contains(last));
                    let j = choose|j: int| 0 <= j < rest.len() && rest.map_values(id_of)[j] == last;
                    assert(ids[j] == last);
                }
            }
            assert forall|id: Seq<char>| all.contains(id) implies ids.contains(id) by {
                let j = choose|j: int| 0 <= j < all.len() && all[j] == id;
                if j < kept.len() {
                    assert(kept[j] == id);
                    assert(kept.contains(id));
                }
            }
            assert forall|a: int, b: int|
                0 <= a < all.len() && 0 <= b < all.len() && a != b implies all[a] != all[b] by {
                if a < kept.len() {
                    assert(kept.contains(kept[a]));
                }
                if b < kept.len() {
                    assert(kept.contains(kept[b]));
                }
            }
        }
    }
}

/// Rejecting a request leaves every device in the book once.
pub proof fn rejecting_keeps_coherence(b: BookView, id: Seq<char>)
    ensures
        b.coherent() ==> b.without_request(id).coherent(),
{
    if b.coherent() {
        lemma_filtered_ids(b.pending, |p: RequestView| p.id != id, |p: RequestView| p.id);
        let after = b.without_request(id);
        assert forall|x: Seq<char>| !(after.is_contact(x) && after.is_pending(x)) by {
            if after.is_pending(x) {
                assert(b.is_pending(x));
            }
        }
    }
}

/// Removing a contact leaves every device in the book once.
pub proof fn removing_keeps_coherence(b: BookView, id: Seq<char>)
    ensures
        b.coherent() ==> b.without_contact(id).coherent(),
{
    if b.coherent() {
        lemma_filtered_ids(b.contacts, |c: ContactView| c.id != id, |c: ContactView| c.id);
        let after = b.without_contact(id);
        assert forall|x: Seq<char>| !(after.is_contact(x) && after.is_pending(x)) by {
            if after.is_contact(x) {
                assert(b.is_contact(x));
            }
        }
    }
}

/// What a request changes: its sender has one open, unless it is a contact already; nobody else's
/// standing changes, and nobody becomes a contact or blocked by asking.
pub proof fn request_opens_a_request(b: BookView, req: RequestView, other: Seq<char>)
    ensures
        b.is_contact(req.id) ==> b.with_request(req) == b,
        !b.is_contact(req.id) ==> b.with_request(req).is_pending(req.id),
        other != req.id ==> b.with_request(req).is_pending(other) == b.is_pending(other),
        b.with_request(req).contacts == b.contacts,
        b.with_request(req).blocked == b.blocked,
{
    let after = b.with_request(req);
    let ids = b.pending_ids();
    ids.index_of_first_ensures(req.id);
    if !b.is_contact(req.id) {
        match ids.index_of_first(req.id) {
            Some(i) => {
                assert(after.pending_ids() =~= ids);
            },
            None => {
                assert(after.pending_ids() =~= ids.push(req.id));
                assert(after.pending_ids()[ids.len() as int] == req.id);
                if ids.contains(other) {
                    let j = choose|j: int| 0 <= j < ids.len() && ids[j] == other;
                    assert(after.pending_ids()[j] == other);
                }
                if after.pending_ids().contains(other) && other != req.id {
                    let j = choose|j: int|
                        0 <= j < after.pending_ids().len() && after.pending_ids()[j] == other;
                    assert(ids[j] == other);
                }
            },
        }
    }
}

/// Of several requests of one device only the last counts.
pub proof fn last_request_counts(b: BookView, earlier: RequestView, later: RequestView)
    requires
        earlier.id == later.id,
    ensures
        b.with_request(earlier).with_request(later) == b.with_request(later),
{
    let id = later.id;
    let ids = b.pending_ids();
    let mid = b.with_request(earlier);
    ids.index_of_first_ensures(id);
    mid.pending_ids().index_of_first_ensures(id);
    if !b.is_contact(id) {
        assert(mid.contact_ids() =~= b.contact_ids());
        match ids.index_of_first(id) {
            Some(i) => {
                assert(mid.pending_ids() =~= ids);
                assert(mid.with_request(later).pending =~= b.with_request(later).pending);
            },
            None => {
                let n = ids.len() as int;
                assert(mid.pending_ids() =~= ids.push(id));
                assert(mid.pending_ids()[n] == id);
                let k = mid.pending_ids().index_of_first(id)->0;
                if k < n {
                    assert(ids[k] == id);
                    assert(ids.contains(id));
                }
                assert(mid.with_request(later).pending =~= b.with_request(later).pending);
            },
        }
    }
}

/// A device that asks and is accepted is a contact under the name that it asked with, and its
/// request is no longer open. Nobody is blocked or unblocked by it.
pub proof fn accepted_request_makes_contact(b: BookView, req: RequestView, now: u64)
    requires
        b.coherent(),
        !b.is_contact(req.id),
    ensures
        ({
            let (after, made) = b.with_request(req).with_accepted(req.id, now);
            &&& made == Some(req.accepted_at(now))
            &&& after.contacts == b.contacts.push(req.accepted_at(now))
            &&& after.is_contact(req.id)
            &&& !after.is_pending(req.id)
            &&& after.blocked == b.blocked
        }),
{
    let asked = b.with_request(req);
    let ids = b.pending_ids();
    request_keeps_coherence(b, req);
    accepting_keeps_coherence(asked, req.id, now);
    ids.index_of_first_ensures(req.id);
    asked.pending_ids().index_of_first_ensures(req.id);
    match ids.index_of_first(req.id) {
        Some(i) => {
            assert(asked.pending_ids() =~= ids);
            assert(asked.pending[i] == req);
        },
        None => {
            assert(asked.pending_ids() =~= ids.push(req.id));
            assert(asked.pending_ids()[ids.len() as int] == req.id);
            let k = asked.pending_ids().index_of_first(req.id)->0;
            if k < ids.len() {
                assert(ids[k] == req.id);
                assert(ids.contains(req.id));
            }
        },
    }
    let (after, made) = asked.with_accepted(req.id, now);
    assert(after.contact_ids()[b.contacts.len() as int] == req.id);
    assert(after.is_contact(req.id));
}

/// Without an open request nothing can be accepted.
pub proof fn nothing_to_accept(b: BookView, id: Seq<char>, now: u64)
    requires
        !b.is_pending(id),
    ensures
        b.with_accepted(id, now) == (b, None::<ContactView>),
{
    b.pending_ids().index_of_first_ensures(id);
}

/// A filter on an id drops that id and no other.
proof fn lemma_dropped_id<A>(
    s: Seq<A>,
    keep: spec_fn(A) -> bool,
    id_of: spec_fn(A) -> Seq<char>,
    id: Seq<char>,
)
    requires
        forall|a: A| #[trigger] keep(a) == (id_of(a) != id),
    ensures
        !s.filter(keep).map_values(id_of).contains(id),
        forall|other: Seq<char>|
            other != id ==> #[trigger] s.filter(keep).map_values(id_of).contains(other)
                == s.map_values(id_of).contains(other),
    decreases s.len(),
{
    reveal(Seq::filter);
    if s.len() > 0 {
        let rest = s.drop_last();
        lemma_dropped_id(rest, keep, id_of, id);
        let kept_rest = rest.filter(keep).map_values(id_of);
        let kept = s.filter(keep).map_values(id_of);
        let last = id_of(s.last());
        assert(s.map_values(id_of) =~= rest.map_values(id_of).push(last));
        lemma_push_contains(rest.map_values(id_of), last);
        if keep(s.last()) {
            assert(kept =~= kept_rest.push(last));
            lemma_push_contains(kept_rest, last);
        } else {
            assert(kept =~= kept_rest);
        }
    }
}

/// What a longer list holds.
proof fn lemma_push_contains(s: Seq<Seq<char>>, last: Seq<char>)
    ensures
        forall|x: Seq<char>| #[trigger] s.push(last).contains(x) == (s.contains(x) || x == last),
{
    assert forall|x: Seq<char>| #[trigger] s.push(last).contains(x) == (s.contains(x) || x == last) by {
        if s.contains(x) {
            let j = choose|j: int| 0 <= j < s.len() && s[j] == x;
            assert(s.push(last)[j] == x);
        }
        if x == last {
            assert(s.push(last)[s.len() as int] == x);
        }
        if s.push(last).contains(x) && x != last {
            let j = choose|j: int| 0 <= j < s.push(last).len() && s.push(last)[j] == x;
            assert(s[j] == x);
        }
    }
}

/// A rejected request is gone, and cannot be accepted any more; everybody else's is as it was, and
/// so are the contacts and the blocked.
pub proof fn rejected_request_is_gone(b: BookView, id: Seq<char>, other: Seq<char>, now: u64)
    ensures
        ({
            let after = b.without_request(id);
            &&& !after.is_pending(id)
            &&& after.with_accepted(id, now) == (after, None::<ContactView>)
            &&& other != id ==> after.is_pending(other) == b.is_pending(other)
            &&& after.contacts == b.contacts
            &&& after.blocked == b.blocked
        }),
{
    lemma_dropped_id(b.pending, |p: RequestView| p.id != id, |p: RequestView| p.id, id);
    nothing_to_accept(b.without_request(id), id, now);
}

/// A removed contact is none any more; everybody else is what they were.
pub proof fn removed_contact_is_gone(b: BookView, id: Seq<char>, other: Seq<char>)
    ensures
        ({
            let after = b.without_contact(id);
            &&& !after.is_contact(id)
            &&& other != id ==> after.is_contact(other) == b.is_contact(other)
            &&& after.pending == b.pending
            &&& after.blocked == b.blocked
        }),
{
    lemma_dropped_id(b.contacts, |c: ContactView| c.id != id, |c: ContactView| c.id, id);
}

/// Who is a contact, blocked or asking is what the lists say.
pub proof fn standing_is_in_the_lists(b: BookView, id: Seq<char>)
    ensures
        b.is_contact(id) <==> exists|i: int|
            0 <= i < b.contacts.len() && (#[trigger] b.contacts[i]).id == id,
        b.is_pending(id) <==> exists|i: int|
            0 <= i < b.pending.len() && (#[trigger] b.pending[i]).id == id,
        b.is_blocked(id) <==> exists|i: int| 0 <= i < b.blocked.len() && #[trigger] b.blocked[i] == id,
{
    if exists|i: int| 0 <= i < b.contacts.len() && (#[trigger] b.contacts[i]).id == id {
        let i = choose|i: int| 0 <= i < b.contacts.len() && (#[trigger] b.contacts[i]).id == id;
        assert(b.contact_ids()[i] == id);
    }
    if b.is_contact(id) {
        let i = choose|i: int| 0 <= i < b.contact_ids().len() && b.contact_ids()[i] == id;
        assert(b.contacts[i].id == id);
    }
    if exists|i: int| 0 <= i < b.pending.len() && (#[trigger] b.pending[i]).id == id {
        let i = choose|i: int| 0 <= i < b.pending.len() && (#[trigger] b.pending[i]).id == id;
        assert(b.pending_ids()[i] == id);
    }
    if b.is_pending(id) {
        let i = choose|i: int| 0 <= i < b.pending_ids().len() && b.pending_ids()[i] == id;
        assert(b.pending[i].id == id);
    }
}

/// A request is kept as it was made, and every open request of another device is kept as it is. None is
/// lost or doubled.
pub proof fn request_is_kept_as_made(b: BookView, req: RequestView, other: RequestView)
    requires
        !b.is_contact(req.id),
    ensures
        b.with_request(req).pending.contains(req),
        other.id != req.id ==> b.with_request(req).pending.contains(other) == b.pending.contains(other),
        b.with_request(req).pending.len() == b.pending.len() + (if b.is_pending(req.id) {
            0int
        } else {
            1
        }),
{
    let after = b.with_request(req);
    let ids = b.pending_ids();
    ids.index_of_first_ensures(req.id);
    let at = match ids.index_of_first(req.id) {
        Some(i) => i,
        None => b.pending.len() as int,
    };
    assert(after.pending[at] == req);
    if b.pending.contains(other) && other.id != req.id {
        let j = choose|j: int| 0 <= j < b.pending.len() && b.pending[j] == other;
        assert(ids[j] == other.id);
        assert(after.pending[j] == other);
    }
    if after.pending.contains(other) && other.id != req.id {
        let j = choose|j: int| 0 <= j < after.pending.len() && after.pending[j] == other;
        assert(b.pending[j] == other);
    }
}

/// Accepting an open request makes one contact, added now, with the name and the avatar of the first
/// request that the device has open; that request is no longer open, and every other is as it was.
pub proof fn contact_is_who_asked(b: BookView, id: Seq<char>, now: u64, i: int, other: RequestView)
    requires
        0 <= i < b.pending.len(),
        b.pending[i].id == id,
        forall|j: int| 0 <= j < i ==> (#[trigger] b.pending[j]).id != id,
    ensures
        ({
            let (after, made) = b.with_accepted(id, now);
            &&& made matches Some(c) && c.id == id && c.name == b.pending[i].name && c.avatar
                == b.pending[i].avatar && c.added_at == now && after.contacts == b.contacts.push(c)
            &&& after.pending.len() == b.pending.len() - 1
            &&& other.id != id ==> after.pending.contains(other) == b.pending.contains(other)
            &&& after.blocked == b.blocked
        }),
{
    let ids = b.pending_ids();
    ids.index_of_first_ensures(id);
    assert(ids[i] == id);
    let k = ids.index_of_first(id)->0;
    assert(ids.index_of_first(id) is Some);
    if k < i {
        assert(b.pending[k].id == id);
    }
    let (after, made) = b.with_accepted(id, now);
    if b.pending.contains(other) && other.id != id {
        let j = choose|j: int| 0 <= j < b.pending.len() && b.pending[j] == other;
        if j < i {
            assert(after.pending[j] == other);
        } else {
            assert(after.pending[j - 1] == other);
        }
    }
    if after.pending.contains(other) && other.id != id {
        let j = choose|j: int| 0 <= j < after.pending.len() && after.pending[j] == other;
        if j < i {
            assert(b.pending[j] == other);
        } else {
            assert(b.pending[j + 1] == other);
        }
    }
}

/// Rejecting and removing take out entries of one id and keep every other entry as it is.
pub proof fn other_entries_are_kept(b: BookView, id: Seq<char>, c: ContactView, p: RequestView)
    ensures
        b.without_contact(id).contacts.contains(c) <==> b.contacts.contains(c) && c.id != id,
        b.without_request(id).pending.contains(p) <==> b.pending.contains(p) && p.id != id,
{
    lemma_filter_contains(b.contacts, |c: ContactView| c.id != id, c);
    lemma_filter_contains(b.pending, |p: RequestView| p.id != id, p);
}

proof fn lemma_filter_contains<A>(s: Seq<A>, keep: spec_fn(A) -> bool, x: A)
    ensures
        s.filter(keep).contains(x) <==> s.contains(x) && keep(x),
{
    if s.contains(x) && keep(x) {
        let i = choose|i: int| 0 <= i < s.len() && s[i] == x;
        s.lemma_filter_contains(keep, i);
    }
    if s.filter(keep).contains(x) {
        let i = choose|i: int| 0 <= i < s.filter(keep).len() && s.filter(keep)[i] == x;
        s.lemma_filter_pred(keep, i);
        s.lemma_filter_contains_rev(keep, x);
    }
}

/// Requests keep their places: a new one comes last, and a repeated one takes the place of the first that
/// its sender has open; every other stays where it is.
pub proof fn requests_keep_their_places(b: BookView, req: RequestView, i: int)
    requires
        !b.is_contact(req.id),
        0 <= i < b.pending.len(),
    ensures
        b.pending[i].id != req.id ==> b.with_request(req).pending[i] == b.pending[i],
        b.pending[i].id == req.id && (forall|j: int| 0 <= j < i ==> (#[trigger] b.pending[j]).id != req.id)
            ==> b.with_request(req).pending[i] == req,
        !b.is_pending(req.id) ==> b.with_request(req).pending.last() == req,
{
    let ids = b.pending_ids();
    ids.index_of_first_ensures(req.id);
    assert(ids[i] == b.pending[i].id);
    if b.pending[i].id == req.id {
        assert(ids.contains(req.id));
        let k = ids.index_of_first(req.id)->0;
        assert(b.pending[k].id == req.id);
    }
}

/// Rejecting and removing keep the order of the others: what they do to a list they do to its parts.
pub proof fn others_keep_their_order(
    b: BookView,
    id: Seq<char>,
    contacts: Seq<ContactView>,
    pending: Seq<RequestView>,
)
    ensures
        (BookView { contacts: b.contacts + contacts, ..b }).without_contact(id).contacts
            == b.without_contact(id).contacts + (BookView { contacts, ..b }).without_contact(id).contacts,
        (BookView { pending: b.pending + pending, ..b }).without_request(id).pending
            == b.without_request(id).pending + (BookView { pending, ..b }).without_request(id).pending,
{
    Seq::filter_distributes_over_add(b.contacts, contacts, |c: ContactView| c.id != id);
    Seq::filter_distributes_over_add(b.pending, pending, |p: RequestView| p.id != id);
}

} // verus!
