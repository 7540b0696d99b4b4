//! The commands of the user interface.

use crate::contacts::{BookView, Contact, ContactRequest};
use crate::http_server::{page_address, page_url};
use crate::net::{first_routable, first_routable_ipv4, IpAddr};
use crate::settings::{AllowMode, Settings, SettingsView};
use crate::state::{
    lists, table_view, AppState, PeerInfo, StateView, TransferProgress, TransferStatus,
    TransferView,
};
use crate::text::{opt_view, same_text, trim_text, trimmed, trimming_settles, views};
use crate::transfer::decide_pending;
use vstd::prelude::*;

verus! {

/// What the user interface shows of this device.
#[derive(Debug)]
pub struct MeInfo {
    pub id: String,
    pub name: String,
    pub avatar: String,
    pub host: Option<String>,
    pub transfer_port: u16,
    pub http_port: u16,
    pub save_dir: String,
    pub allow_mode: String,
    pub require_accept: bool,
    pub enable_qr_server: bool,
    pub qr_url: Option<String>,
}

/// What the user interface shows of this device, as a mathematical value.
#[verifier::ext_equal]
pub struct MeView {
    pub id: Seq<char>,
    pub name: Seq<char>,
    pub avatar: Seq<char>,
    pub host: Option<Seq<char>>,
    pub transfer_port: u16,
    pub http_port: u16,
    pub save_dir: Seq<char>,
    pub allow_mode: Seq<char>,
    pub require_accept: bool,
    pub enable_qr_server: bool,
    pub qr_url: Option<Seq<char>>,
}

impl View for MeInfo {
    type V = MeView;

    open spec fn view(&self) -> MeView {
        MeView {
            id: self.id@,
            name: self.name@,
            avatar: self.avatar@,
            host: opt_view(self.host),
            transfer_port: self.transfer_port,
            http_port: self.http_port,
            save_dir: self.save_dir@,
            allow_mode: self.allow_mode@,
            require_accept: self.require_accept,
            enable_qr_server: self.enable_qr_server,
            qr_url: opt_view(self.qr_url),
        }
    }
}

/// What the user wants changed.
#[derive(Debug)]
pub struct SettingsPatch {
    pub device_name: Option<String>,
    pub device_avatar: Option<String>,
    pub save_dir: Option<String>,
    pub allow_mode: Option<String>,
    pub require_accept: Option<bool>,
    pub enable_qr_server: Option<bool>,
}

/// What the user wants changed, as a mathematical value.
#[verifier::ext_equal]
pub struct PatchView {
    pub device_name: Option<Seq<char>>,
    pub device_avatar: Option<Seq<char>>,
    pub save_dir: Option<Seq<char>>,
    pub allow_mode: Option<Seq<char>>,
    pub require_accept: Option<bool>,
    pub enable_qr_server: Option<bool>,
}

impl View for SettingsPatch {
    type V = PatchView;

    open spec fn view(&self) -> PatchView {
        PatchView {
            device_name: opt_view(self.device_name),
            device_avatar: opt_view(self.device_avatar),
            save_dir: opt_view(self.save_dir),
            allow_mode: opt_view(self.allow_mode),
            require_accept: self.require_accept,
            enable_qr_server: self.enable_qr_server,
        }
    }
}

/// The word for a mode.
pub open spec fn mode_word(mode: AllowMode) -> Seq<char> {
    match mode {
        AllowMode::All => "all"@,
        AllowMode::Contacts => "contacts"@,
    }
}

/// The mode that a word stands for: contacts only where the word says so, all otherwise.
pub open spec fn mode_of(word: Seq<char>) -> AllowMode {
    if word == "contacts"@ || word == "contacts_only"@ {
        AllowMode::Contacts
    } else {
        AllowMode::All
    }
}

/// The word for a mode.
pub fn word_for_mode(mode: AllowMode) -> (r: String)
    ensures
        r@ == mode_word(mode),
{
    match mode {
        AllowMode::All => "all".to_string(),
        AllowMode::Contacts => "contacts".to_string(),
    }
}

/// The mode that a word stands for.
pub fn mode_for_word(word: &str) -> (r: AllowMode)
    ensures
        r == mode_of(word@),
{
    if same_text(word, "contacts") || same_text(word, "contacts_only") {
        AllowMode::Contacts
    } else {
        AllowMode::All
    }
}

/// What the user interface shows of a device that is reached at `host`.
pub open spec fn me_of<S>(st: StateView<S>, host: Option<Seq<char>>) -> MeView {
    MeView {
        id: st.identity.fingerprint,
        name: st.settings.device_name,
        avatar: st.settings.device_avatar,
        host,
        transfer_port: st.settings.transfer_port,
        http_port: st.settings.http_port,
        save_dir: st.settings.save_dir,
        allow_mode: mode_word(st.settings.allow_mode),
        require_accept: st.settings.require_accept,
        enable_qr_server: st.settings.enable_qr_server,
        qr_url: match host {
            Some(h) => Some(page_url(h, st.settings.http_port)),
            None => None,
        },
    }
}

/// What the user interface shows of this device, which is reached at `host`.
pub fn get_me<S>(state: &AppState<S>, host: Option<String>) -> (r: MeInfo)
    ensures
        r@ == me_of(state@, opt_view(host)),
{
    let qr_url: Option<String> = match &host {
        Some(h) => Some(page_address(h.as_str(), state.settings.http_port)),
        None => None,
    };
    MeInfo {
        id: state.identity.fingerprint.clone(),
        name: state.settings.device_name.clone(),
        avatar: state.settings.device_avatar.clone(),
        host,
        transfer_port: state.settings.transfer_port,
        http_port: state.settings.http_port,
        save_dir: state.settings.save_dir.clone(),
        allow_mode: word_for_mode(state.settings.allow_mode),
        require_accept: state.settings.require_accept,
        enable_qr_server: state.settings.enable_qr_server,
        qr_url,
    }
}

/// The devices on the network.
pub fn list_peers<S>(state: &AppState<S>) -> (r: Vec<PeerInfo>)
    ensures
        lists(views(r@), state@.peers),
{
    state.peer_list()
}

/// The contacts, in order.
pub fn list_contacts<S>(state: &AppState<S>) -> (r: Vec<Contact>)
    ensures
        views(r@) == state@.contacts.contacts,
{
    let r = state.contacts.contacts.clone();
    assert(views(r@) =~= state@.contacts.contacts);
    r
}

/// The open contact requests, in order.
pub fn list_pending_contact_requests<S>(state: &AppState<S>) -> (r: Vec<ContactRequest>)
    ensures
        views(r@) == state@.contacts.pending,
{
    let r = state.contacts.pending.clone();
    assert(views(r@) =~= state@.contacts.pending);
    r
}

/// The transfers.
pub fn list_transfers<S>(state: &AppState<S>) -> (r: Vec<TransferProgress>)
    ensures
        lists(views(r@), state@.transfers),
{
    state.transfer_list()
}

impl SettingsView {
    /// The settings after a change. A name counts without the white space around it, and neither
    /// an empty name nor an empty avatar counts at all.
    pub open spec fn patched(self, p: PatchView) -> SettingsView {
        SettingsView {
            device_name: match p.device_name {
                Some(n) if trimmed(n).len() > 0 => trimmed(n),
                _ => self.device_name,
            },
            device_avatar: match p.device_avatar {
                Some(a) if a.len() > 0 => a,
                _ => self.device_avatar,
            },
            save_dir: match p.save_dir {
                Some(d) => d,
                None => self.save_dir,
            },
            allow_mode: match p.allow_mode {
                Some(m) => mode_of(m),
                None => self.allow_mode,
            },
            require_accept: match p.require_accept {
                Some(b) => b,
                None => self.require_accept,
            },
            enable_qr_server: match p.enable_qr_server {
                Some(b) => b,
                None => self.enable_qr_server,
            },
            ..self
        }
    }
}

/// Changes the settings and gives them as they are then.
pub fn update_settings<S>(state: &mut AppState<S>, patch: SettingsPatch) -> (r: Settings)
    ensures
        final(state)@ == (StateView {
            settings: old(state)@.settings.patched(patch@),
            ..old(state)@
        }),
        r@ == final(state)@.settings,
{
    match patch.device_name {
        Some(n) => {
            let name = trim_text(n.as_str());
            if !name.as_str().is_empty() {
                state.settings.device_name = name;
            }
        },
        None => {},
    }
    match patch.device_avatar {
        Some(a) => {
            if !a.as_str().is_empty() {
                state.settings.device_avatar = a;
            }
        },
        None => {},
    }
    match patch.save_dir {
        Some(d) => {
            state.settings.save_dir = d;
        },
        None => {},
    }
    match patch.allow_mode {
        Some(m) => {
            state.settings.allow_mode = mode_for_word(m.as_str());
        },
        None => {},
    }
    match patch.require_accept {
        Some(b) => {
            state.settings.require_accept = b;
        },
        None => {},
    }
    match patch.enable_qr_server {
        Some(b) => {
            state.settings.enable_qr_server = b;
        },
        None => {},
    }
    state.settings.clone()
}

/// Takes in the user's decision on a transfer: gives whoever waits for it, with the decision.
pub fn decide_incoming<S>(state: &mut AppState<S>, transfer_id: &str, accept: bool) -> (r: Option<
    (S, bool),
>)
    ensures
        final(state)@ == (StateView {
            pending: old(state)@.pending.remove(transfer_id@),
            ..old(state)@
        }),
        r == (if old(state)@.pending.contains_key(transfer_id@) {
            Some((old(state)@.pending[transfer_id@], accept))
        } else {
            None
        }),
{
    decide_pending(state, transfer_id, accept)
}

/// The state with another contact book.
pub open spec fn with_book<S>(st: StateView<S>, book: BookView) -> StateView<S> {
    StateView { contacts: book, ..st }
}

/// Makes a contact of a device that has asked.
pub fn accept_contact_request<S>(state: &mut AppState<S>, id: &str, now: u64) -> (r: Option<Contact>)
    ensures
        ({
            let (book, contact) = old(state)@.contacts.with_accepted(id@, now);
            &&& final(state)@ == with_book(old(state)@, book)
            &&& opt_view(r) == contact
        }),
        old(state)@.contacts.coherent() ==> final(state)@.contacts.coherent(),
{
    state.contacts.accept_pending_at(id, now)
}

/// Turns a device down that has asked.
pub fn reject_contact_request<S>(state: &mut AppState<S>, id: &str)
    ensures
        final(state)@ == with_book(old(state)@, old(state)@.contacts.without_request(id@)),
        old(state)@.contacts.coherent() ==> final(state)@.contacts.coherent(),
{
    state.contacts.reject_pending(id)
}

/// Ends a contact.
pub fn remove_contact<S>(state: &mut AppState<S>, id: &str)
    ensures
        final(state)@ == with_book(old(state)@, old(state)@.contacts.without_contact(id@)),
        old(state)@.contacts.coherent() ==> final(state)@.contacts.coherent(),
{
    state.contacts.remove_contact(id)
}

/// The transfers that are not over.
pub open spec fn unfinished(m: Map<Seq<char>, TransferView>) -> Map<Seq<char>, TransferView> {
    Map::new(|k: Seq<char>| m.contains_key(k) && !m[k].status.is_final(), |k: Seq<char>| m[k])
}

/// Forgets the transfers that are over.
pub fn clear_completed_transfers<S>(state: &mut AppState<S>)
    ensures
        final(state)@ == (StateView {
            transfers: unfinished(old(state)@.transfers),
            ..old(state)@
        }),
        old(state)@.keyed() ==> final(state)@.keyed(),
{
    let ghost before = state.active_transfers@;
    let ghost listed = state@.transfers;
    let _ = state.active_transfers.retain(|t: &TransferProgress| -> (keep: bool)
        ensures keep == !t@.status.is_final()
        { match t.status {
            TransferStatus::Pending => true,
            TransferStatus::Active => true,
            TransferStatus::Completed => false,
            TransferStatus::Failed => false,
            TransferStatus::Rejected => false,
            TransferStatus::Cancelled => false,
        } });
    proof {
        let after = state.active_transfers@;
        assert forall|k: Seq<char>| after.contains_key(k) <==> (before.contains_key(k)
            && !before[k]@.status.is_final()) by {
            assert(after.contains_key(k) ==> before.contains_key(k));
            assert(before.contains_key(k) && !after.contains_key(k)
                ==> before[k]@.status.is_final());
        }
        assert(table_view(state.active_transfers) =~= unfinished(listed));
    }
}

/// The address to show: the first of the device's addresses that others can use, or else the one
/// that the system names.
pub fn local_ip(listed: Option<Vec<IpAddr>>, named: Option<String>) -> (r: Option<String>)
    ensures
        opt_view(r) == (match listed {
            Some(l) => match first_routable(l@) {
                Some(ip) => Some(ip.dotted()),
                None => opt_view(named),
            },
            None => opt_view(named),
        }),
{
    match listed {
        Some(l) => match first_routable_ipv4(&l) {
            Some(ip) => Some(ip.to_text()),
            None => named,
        },
        None => named,
    }
}

/// The words for the modes are understood.
pub proof fn mode_words_are_understood(mode: AllowMode)
    ensures
        mode_of(mode_word(mode)) == mode,
{
    reveal_strlit("all");
    reveal_strlit("contacts");
    reveal_strlit("contacts_only");
    assert("all"@.len() != "contacts"@.len());
    assert("all"@.len() != "contacts_only"@.len());
}

/// What a change of the settings leaves alone: the ports and the hand-entered devices always, and
/// everything where it names nothing. A device that has a name keeps one, without white space
/// around it if the name is new. Making the same change again makes no difference.
pub proof fn settings_change_is_contained(s: SettingsView, p: PatchView)
    ensures
        s.patched(p).transfer_port == s.transfer_port,
        s.patched(p).http_port == s.http_port,
        s.patched(p).manual_peers == s.manual_peers,
        s.patched(
            PatchView {
                device_name: None,
                device_avatar: None,
                save_dir: None,
                allow_mode: None,
                require_accept: None,
                enable_qr_server: None,
            },
        ) == s,
        s.device_name.len() > 0 ==> s.patched(p).device_name.len() > 0,
        s.device_avatar.len() > 0 ==> s.patched(p).device_avatar.len() > 0,
        s.patched(p).device_name != s.device_name ==> trimmed(s.patched(p).device_name)
            == s.patched(p).device_name,
        s.patched(p).patched(p) == s.patched(p),
{
    match p.device_name {
        Some(n) => {
            trimming_settles(n);
        },
        None => {},
    }
}

/// Forgetting the transfers that are over leaves those that are not, as they are, and nothing else;
/// doing so again makes no difference.
pub proof fn unfinished_transfers_stay(m: Map<Seq<char>, TransferView>, id: Seq<char>)
    ensures
        unfinished(m).contains_key(id) <==> m.contains_key(id) && (m[id].status
            == TransferStatus::Pending || m[id].status == TransferStatus::Active),
        unfinished(m).contains_key(id) ==> unfinished(m)[id] == m[id],
        unfinished(unfinished(m)) == unfinished(m),
{
    assert(unfinished(unfinished(m)) =~= unfinished(m));
}

/// The user interface shows what the settings say and what the device is, and the address of the page
/// where the device has an address.
pub proof fn device_is_shown_as_it_is<S>(st: StateView<S>, host: Option<Seq<char>>)
    ensures
        ({
            let me = me_of(st, host);
            &&& me.id == st.identity.fingerprint
            &&& me.name == st.settings.device_name
            &&& me.avatar == st.settings.device_avatar
            &&& me.host == host
            &&& me.transfer_port == st.settings.transfer_port
            &&& me.http_port == st.settings.http_port
            &&& me.save_dir == st.settings.save_dir
            &&& mode_of(me.allow_mode) == st.settings.allow_mode
            &&& me.require_accept == st.settings.require_accept
            &&& me.enable_qr_server == st.settings.enable_qr_server
            &&& host matches Some(h) ==> me.qr_url == Some(page_url(h, st.settings.http_port))
            &&& host is None ==> me.qr_url is None
        }),
{
    mode_words_are_understood(st.settings.allow_mode);
}

/// Only two words let contacts alone send; every other lets all.
pub proof fn two_words_mean_contacts(word: Seq<char>)
    ensures
        mode_of(word) == AllowMode::Contacts <==> word == "contacts"@ || word == "contacts_only"@,
{
}

/// A change of the settings is taken as it is given: what it names has the new value then, but for a name
/// of nothing but white space and an empty avatar, and what it does not name has the old one.
pub proof fn settings_change_is_taken(s: SettingsView, p: PatchView)
    ensures
        p.save_dir matches Some(d) ==> s.patched(p).save_dir == d,
        p.save_dir is None ==> s.patched(p).save_dir == s.save_dir,
        p.require_accept matches Some(b) ==> s.patched(p).require_accept == b,
        p.require_accept is None ==> s.patched(p).require_accept == s.require_accept,
        p.enable_qr_server matches Some(b) ==> s.patched(p).enable_qr_server == b,
        p.enable_qr_server is None ==> s.patched(p).enable_qr_server == s.enable_qr_server,
        p.allow_mode matches Some(w) ==> s.patched(p).allow_mode == mode_of(w),
        p.allow_mode is None ==> s.patched(p).allow_mode == s.allow_mode,
        p.device_avatar matches Some(a) ==> (a.len() > 0 ==> s.patched(p).device_avatar == a),
        p.device_avatar is None || p.device_avatar->0.len() == 0 ==> s.patched(p).device_avatar
            == s.device_avatar,
        p.device_name matches Some(n) ==> (trimmed(n).len() > 0 ==> s.patched(p).device_name
            == trimmed(n)),
        p.device_name is None || trimmed(p.device_name->0).len() == 0 ==> s.patched(p).device_name
            == s.device_name,
{
}

/// Another contact book changes nothing else.
pub proof fn book_stands_by_itself<S>(st: StateView<S>, book: BookView)
    ensures
        with_book(st, book).contacts == book,
        with_book(with_book(st, book), st.contacts) == st,
{
}

} // verus!
