//! The records that the application keeps, and its state as a whole.

use crate::contacts::{now_secs, BookView, ContactBook};
use crate::identity::{Identity, IdentityView};
use crate::settings::{ManualPeerView, Settings, SettingsView};
use crate::table::KeyedTable;
use crate::text::{opt_view, views};
use vstd::prelude::*;

verus! {

/// A device on the network.
#[derive(Debug)]
pub struct PeerInfo {
    pub id: String,
    pub name: String,
    pub avatar: String,
    /// IPv4 address as text.
    pub host: String,
    pub transfer_port: u16,
    pub http_port: u16,
    pub mobile_web_available: bool,
    /// Entered by the user, and never forgotten.
    pub manual: bool,
    /// Unix seconds.
    pub last_seen: u64,
}

/// What the user is asked about an incoming transfer.
#[derive(Debug)]
pub struct IncomingPrompt {
    pub transfer_id: String,
    pub from_id: String,
    pub from_name: String,
    pub from_avatar: String,
    pub files: Vec<TransferFileMeta>,
    pub total_bytes: u64,
    pub source: TransferSource,
}

/// Where an incoming transfer comes from.
#[derive(Debug, Clone, Copy, PartialEq, Eq, Structural)]
pub enum TransferSource {
    Peer,
    QrUpload,
}

/// Name, size and kind of a file in a transfer.
#[derive(Debug)]
pub struct TransferFileMeta {
    pub name: String,
    pub size: u64,
    pub mime: Option<String>,
}

/// How far a transfer has come.
#[derive(Debug)]
pub struct TransferProgress {
    pub transfer_id: String,
    /// Unix seconds.
    pub created_at: u64,
    pub direction: TransferDirection,
    pub peer_id: Option<String>,
    pub peer_name: String,
    pub files: Vec<TransferFileMeta>,
    pub current_file_index: usize,
    pub bytes_sent: u64,
    pub total_bytes: u64,
    pub status: TransferStatus,
    pub error: Option<String>,
}

/// Which way a transfer goes.
#[derive(Debug, Clone, Copy, PartialEq, Eq, Structural)]
pub enum TransferDirection {
    Outgoing,
    Incoming,
}

/// Where a transfer stands.
#[derive(Debug, Clone, Copy, PartialEq, Eq, Structural)]
pub enum TransferStatus {
    Pending,
    Active,
    Completed,
    Failed,
    Rejected,
    Cancelled,
}

/// A contact request as it is shown to the user.
#[derive(Debug)]
pub struct ContactRequestInbound {
    pub id: String,
    pub name: String,
    pub avatar: String,
    pub message: Option<String>,
}

/// A device as a mathematical value.
#[verifier::ext_equal]
pub struct PeerView {
    pub id: Seq<char>,
    pub name: Seq<char>,
    pub avatar: Seq<char>,
    pub host: Seq<char>,
    pub transfer_port: u16,
    pub http_port: u16,
    pub mobile_web_available: bool,
    pub manual: bool,
    pub last_seen: u64,
}

/// A file description as a mathematical value.
#[verifier::ext_equal]
pub struct FileView {
    pub name: Seq<char>,
    pub size: u64,
    pub mime: Option<Seq<char>>,
}

/// A prompt as a mathematical value.
#[verifier::ext_equal]
pub struct PromptView {
    pub transfer_id: Seq<char>,
    pub from_id: Seq<char>,
    pub from_name: Seq<char>,
    pub from_avatar: Seq<char>,
    pub files: Seq<FileView>,
    pub total_bytes: u64,
    pub source: TransferSource,
}

/// The progress of a transfer as a mathematical value.
#[verifier::ext_equal]
pub struct TransferView {
    pub transfer_id: Seq<char>,
    pub created_at: u64,
    pub direction: TransferDirection,
    pub peer_id: Option<Seq<char>>,
    pub peer_name: Seq<char>,
    pub files: Seq<FileView>,
    pub current_file_index: usize,
    pub bytes_sent: u64,
    pub total_bytes: u64,
    pub status: TransferStatus,
    pub error: Option<Seq<char>>,
}

/// A shown contact request as a mathematical value.
#[verifier::ext_equal]
pub struct InboundView {
    pub id: Seq<char>,
    pub name: Seq<char>,
    pub avatar: Seq<char>,
    pub message: Option<Seq<char>>,
}

impl View for PeerInfo {
    type V = PeerView;

    open spec fn view(&self) -> PeerView {
        PeerView {
            id: self.id@,
            name: self.name@,
            avatar: self.avatar@,
            host: self.host@,
            transfer_port: self.transfer_port,
            http_port: self.http_port,
            mobile_web_available: self.mobile_web_available,
            manual: self.manual,
            last_seen: self.last_seen,
        }
    }
}

impl View for TransferFileMeta {
    type V = FileView;

    open spec fn view(&self) -> FileView {
        FileView { name: self.name@, size: self.size, mime: opt_view(self.mime) }
    }
}

impl View for IncomingPrompt {
    type V = PromptView;

    open spec fn view(&self) -> PromptView {
        PromptView {
            transfer_id: self.transfer_id@,
            from_id: self.from_id@,
            from_name: self.from_name@,
            from_avatar: self.from_avatar@,
            files: views(self.files@),
            total_bytes: self.total_bytes,
            source: self.source,
        }
    }
}

impl View for TransferProgress {
    type V = TransferView;

    open spec fn view(&self) -> TransferView {
        TransferView {
            transfer_id: self.transfer_id@,
            created_at: self.created_at,
            direction: self.direction,
            peer_id: opt_view(self.peer_id),
            peer_name: self.peer_name@,
            files: views(self.files@),
            current_file_index: self.current_file_index,
            bytes_sent: self.bytes_sent,
            total_bytes: self.total_bytes,
            status: self.status,
            error: opt_view(self.error),
        }
    }
}

impl View for ContactRequestInbound {
    type V = InboundView;

    open spec fn view(&self) -> InboundView {
        InboundView {
            id: self.id@,
            name: self.name@,
            avatar: self.avatar@,
            message: opt_view(self.message),
        }
    }
}

impl Clone for PeerInfo {
    fn clone(&self) -> (r: Self)
        ensures
            r@ == self@,
    {
        PeerInfo {
            id: self.id.clone(),
            name: self.name.clone(),
            avatar: self.avatar.clone(),
            host: self.host.clone(),
            transfer_port: self.transfer_port,
            http_port: self.http_port,
            mobile_web_available: self.mobile_web_available,
            manual: self.manual,
            last_seen: self.last_seen,
        }
    }
}

impl Clone for TransferFileMeta {
    fn clone(&self) -> (r: Self)
        ensures
            r@ == self@,
    {
        TransferFileMeta { name: self.name.clone(), size: self.size, mime: self.mime.clone() }
    }
}

impl Clone for IncomingPrompt {
    fn clone(&self) -> (r: Self)
        ensures
            r@ == self@,
    {
        IncomingPrompt {
            transfer_id: self.transfer_id.clone(),
            from_id: self.from_id.clone(),
            from_name: self.from_name.clone(),
            from_avatar: self.from_avatar.clone(),
            files: self.files.clone(),
            total_bytes: self.total_bytes,
            source: self.source,
        }
    }
}

impl Clone for TransferProgress {
    fn clone(&self) -> (r: Self)
        ensures
            r@ == self@,
    {
        TransferProgress {
            transfer_id: self.transfer_id.clone(),
            created_at: self.created_at,
            direction: self.direction,
            peer_id: self.peer_id.clone(),
            peer_name: self.peer_name.clone(),
            files: self.files.clone(),
            current_file_index: self.current_file_index,
            bytes_sent: self.bytes_sent,
            total_bytes: self.total_bytes,
            status: self.status,
            error: self.error.clone(),
        }
    }
}

impl Clone for ContactRequestInbound {
    fn clone(&self) -> (r: Self)
        ensures
            r@ == self@,
    {
        ContactRequestInbound {
            id: self.id.clone(),
            name: self.name.clone(),
            avatar: self.avatar.clone(),
            message: self.message.clone(),
        }
    }
}

impl TransferStatus {
    /// Whether a transfer in this state is over.
    pub open spec fn is_final(self) -> bool {
        self == TransferStatus::Completed || self == TransferStatus::Rejected || self
            == TransferStatus::Failed || self == TransferStatus::Cancelled
    }
}

/// The records of a table, by their views.
pub open spec fn table_view<V: View>(t: KeyedTable<V>) -> Map<Seq<char>, V::V> {
    t@.map_values(|v: V| v@)
}

/// Whether `r` lists the records of `m`, each once, in whatever order.
pub open spec fn lists<V>(r: Seq<V>, m: Map<Seq<char>, V>) -> bool {
    exists|keys: Seq<Seq<char>>| #[trigger] lists_by(r, m, keys)
}

/// Whether `r` lists the records of `m` in the order of `keys`, which are its keys, each once.
pub open spec fn lists_by<V>(r: Seq<V>, m: Map<Seq<char>, V>, keys: Seq<Seq<char>>) -> bool {
    &&& keys.no_duplicates()
    &&& forall|k: Seq<char>| m.contains_key(k) <==> keys.contains(k)
    &&& r == keys.map_values(|k: Seq<char>| m[k])
}

/// The bytes of all the files together.
pub open spec fn total_size(files: Seq<FileView>) -> int
    decreases files.len(),
{
    if files.len() == 0 {
        0
    } else {
        total_size(files.drop_last()) + files.last().size
    }
}

/// No part of the files is larger than the whole.
pub proof fn lemma_total_size_grows(files: Seq<FileView>, i: int)
    requires
        0 <= i <= files.len(),
    ensures
        0 <= total_size(files.take(i)) <= total_size(files),
        i < files.len() ==> total_size(files.take(i + 1)) == total_size(files.take(i))
            + files[i].size,
    decreases files.len() - i,
{
    if i < files.len() {
        assert(files.take(i + 1).drop_last() =~= files.take(i));
        lemma_total_size_grows(files, i + 1);
    } else {
        assert(files.take(i) =~= files);
    }
    lemma_total_size_nonnegative(files.take(i));
}

proof fn lemma_total_size_nonnegative(files: Seq<FileView>)
    ensures
        total_size(files) >= 0,
    decreases files.len(),
{
    if files.len() > 0 {
        lemma_total_size_nonnegative(files.drop_last());
    }
}

/// The bytes of all the files together, where 64 bits can count them.
pub fn checked_total_bytes(files: &Vec<TransferFileMeta>) -> (r: Option<u64>)
    ensures
        match r {
            Some(n) => n == total_size(views(files@)),
            None => total_size(views(files@)) > u64::MAX,
        },
{
    let ghost all = views(files@);
    let mut sum: u64 = 0;
    for i in 0..files.len()
        invariant
            all == views(files@),
            sum == total_size(all.take(i as int)),
    {
        proof {
            lemma_total_size_grows(all, i as int);
            lemma_total_size_grows(all, i + 1);
        }
        match sum.checked_add(files[i].size) {
            Some(s) => {
                sum = s;
            },
            None => {
                return None;
            },
        }
    }
    assert(all.take(all.len() as int) =~= all);
    Some(sum)
}

/// The bytes of all the files together.
pub fn total_bytes(files: &Vec<TransferFileMeta>) -> (r: u64)
    requires
        total_size(views(files@)) <= u64::MAX,
    ensures
        r == total_size(views(files@)),
{
    match checked_total_bytes(files) {
        Some(n) => n,
        None => 0,
    }
}

/// The state of the application. `S` is what hands a decision of the user to whoever waits for it.
pub struct AppState<S> {
    pub data_dir: String,
    pub identity: Identity,
    pub settings: Settings,
    pub contacts: ContactBook,
    pub peers: KeyedTable<PeerInfo>,
    pub pending_decisions: KeyedTable<S>,
    pub active_transfers: KeyedTable<TransferProgress>,
    /// Whether the main window hides when it loses the focus: not while a dialog is open.
    pub auto_hide: bool,
}

/// The state of the application as a mathematical value.
#[verifier::ext_equal]
#[verifier::reject_recursive_types(S)]
pub struct StateView<S> {
    pub data_dir: Seq<char>,
    pub identity: IdentityView,
    pub settings: SettingsView,
    pub contacts: BookView,
    pub peers: Map<Seq<char>, PeerView>,
    pub pending: Map<Seq<char>, S>,
    pub transfers: Map<Seq<char>, TransferView>,
    pub auto_hide: bool,
}

impl<S> View for AppState<S> {
    type V = StateView<S>;

    open spec fn view(&self) -> StateView<S> {
        StateView {
            data_dir: self.data_dir@,
            identity: self.identity@,
            settings: self.settings@,
            contacts: self.contacts@,
            peers: table_view(self.peers),
            pending: self.pending_decisions@,
            transfers: table_view(self.active_transfers),
            auto_hide: self.auto_hide,
        }
    }
}

impl ManualPeerView {
    /// The device that a hand-entered peer stands for at `now`.
    pub open spec fn as_peer(self, now: u64) -> PeerView {
        PeerView {
            id: self.id,
            name: self.name,
            avatar: "💻"@,
            host: self.host,
            transfer_port: self.transfer_port,
            http_port: self.http_port,
            mobile_web_available: true,
            manual: true,
            last_seen: now,
        }
    }
}

/// The devices that hand-entered peers stand for at `now`; of two with one id the later counts.
pub open spec fn manual_table(peers: Seq<ManualPeerView>, now: u64) -> Map<Seq<char>, PeerView>
    decreases peers.len(),
{
    if peers.len() == 0 {
        Map::empty()
    } else {
        manual_table(peers.drop_last(), now).insert(peers.last().id, peers.last().as_peer(now))
    }
}

impl<S> StateView<S> {
    /// The state at the start.
    pub open spec fn initial(
        data_dir: Seq<char>,
        identity: IdentityView,
        settings: SettingsView,
        contacts: BookView,
        now: u64,
    ) -> StateView<S> {
        StateView {
            data_dir,
            identity,
            settings,
            contacts,
            peers: manual_table(settings.manual_peers, now),
            pending: Map::empty(),
            transfers: Map::empty(),
            auto_hide: true,
        }
    }

    /// The state with `t` recorded.
    pub open spec fn with_transfer(self, t: TransferView) -> StateView<S> {
        StateView { transfers: self.transfers.insert(t.transfer_id, t), ..self }
    }

    /// Every device and every transfer stands under its own id.
    pub open spec fn keyed(self) -> bool {
        &&& forall|k: Seq<char>| #[trigger] self.peers.contains_key(k) ==> self.peers[k].id == k
        &&& forall|k: Seq<char>| #[trigger]
            self.transfers.contains_key(k) ==> self.transfers[k].transfer_id == k
    }
}

/// Putting a record in shows in the views alone.
pub(crate) proof fn lemma_table_insert<V: View>(
    before: Map<Seq<char>, V>,
    after: Map<Seq<char>, V>,
    k: Seq<char>,
    v: V,
)
    requires
        after == before.insert(k, v),
    ensures
        after.map_values(|v: V| v@) == before.map_values(|v: V| v@).insert(k, v@),
{
    assert(after.map_values(|v: V| v@) =~= before.map_values(|v: V| v@).insert(k, v@));
}

impl<S> AppState<S> {
    /// The state at the start, when the clock shows `now`.
    pub fn new_at(
        data_dir: String,
        identity: Identity,
        settings: Settings,
        contacts: ContactBook,
        now: u64,
    ) -> (r: Self)
        ensures
            r@ == StateView::<S>::initial(data_dir@, identity@, settings@, contacts@, now),
            r@.keyed(),
    {
        let mut peers: KeyedTable<PeerInfo> = KeyedTable::new();
        let ghost listed = settings@.manual_peers;
        assert(table_view(peers) =~= Map::<Seq<char>, PeerView>::empty());
        assert(listed.take(0) =~= Seq::<ManualPeerView>::empty());
        for i in 0..settings.manual_peers.len()
            invariant
                listed == settings@.manual_peers,
                table_view(peers) == manual_table(listed.take(i as int), now),
        {
            let peer = &settings.manual_peers[i];
            let info = PeerInfo {
                id: peer.id.clone(),
                name: peer.name.clone(),
                avatar: "💻".to_string(),
                host: peer.host.clone(),
                transfer_port: peer.transfer_port,
                http_port: peer.http_port,
                mobile_web_available: true,
                manual: true,
                last_seen: now,
            };
            let ghost before = peers@;
            assert(info@ == listed[i as int].as_peer(now));
            let key = peer.id.clone();
            peers.insert(key, info);
            proof {
                lemma_table_insert(before, peers@, key@, info);
                assert(listed.take(i + 1).drop_last() =~= listed.take(i as int));
            }
        }
        assert(listed.take(listed.len() as int) =~= listed);
        let r = AppState {
            data_dir,
            identity,
            settings,
            contacts,
            peers,
            pending_decisions: KeyedTable::new(),
            active_transfers: KeyedTable::new(),
            auto_hide: true,
        };
        proof {
            assert(r@.transfers =~= Map::<Seq<char>, TransferView>::empty());
            lemma_manual_table_keyed(listed, now);
        }
        r
    }

    /// The state at the start.
    pub fn new(
        data_dir: String,
        identity: Identity,
        settings: Settings,
        contacts: ContactBook,
    ) -> (r: Self)
        ensures
            exists|now: u64|
                r@ == #[trigger] StateView::<S>::initial(
                    data_dir@,
                    identity@,
                    settings@,
                    contacts@,
                    now,
                ),
            r@.keyed(),
    {
        let now: u64 = now_secs();
        AppState::new_at(data_dir, identity, settings, contacts, now)
    }

    /// Records `t` and gives back what is to be announced.
    pub fn update_transfer(&mut self, t: TransferProgress) -> (r: TransferProgress)
        ensures
            final(self)@ == old(self)@.with_transfer(t@),
            r@ == t@,
            old(self)@.keyed() ==> final(self)@.keyed(),
    {
        let copy = t.clone();
        let key = t.transfer_id.clone();
        let ghost before = self.active_transfers@;
        self.active_transfers.insert(key, t);
        proof {
            lemma_table_insert(before, self.active_transfers@, key@, t);
        }
        copy
    }

    /// The devices, in the order in which they came in.
    pub fn peer_list(&self) -> (r: Vec<PeerInfo>)
        ensures
            lists(views(r@), self@.peers),
    {
        let n: usize = self.peers.count();
        let ghost keys = self.peers.order();
        let ghost all = self@.peers;
        let mut r: Vec<PeerInfo> = Vec::new();
        for i in 0..n
            invariant
                n == keys.len(),
                keys == self.peers.order(),
                all == table_view(self.peers),
                r@.len() == i,
                forall|k: Seq<char>| self.peers@.contains_key(k) <==> keys.contains(k),
                forall|j: int| 0 <= j < i ==> (#[trigger] r@[j])@ == all[keys[j]],
        {
            r.push(self.peers.nth(i).clone());
        }
        proof {
            assert(views(r@) =~= keys.map_values(|k: Seq<char>| all[k]));
            assert(lists_by(views(r@), all, keys));
        }
        r
    }

    /// The transfers, in the order in which they came in.
    pub fn transfer_list(&self) -> (r: Vec<TransferProgress>)
        ensures
            lists(views(r@), self@.transfers),
    {
        let n: usize = self.active_transfers.count();
        let ghost keys = self.active_transfers.order();
        let ghost all = self@.transfers;
        let mut r: Vec<TransferProgress> = Vec::new();
        for i in 0..n
            invariant
                n == keys.len(),
                keys == self.active_transfers.order(),
                all == table_view(self.active_transfers),
                r@.len() == i,
                forall|k: Seq<char>| self.active_transfers@.contains_key(k) <==> keys.contains(k),
                forall|j: int| 0 <= j < i ==> (#[trigger] r@[j])@ == all[keys[j]],
        {
            r.push(self.active_transfers.nth(i).clone());
        }
        proof {
            assert(views(r@) =~= keys.map_values(|k: Seq<char>| all[k]));
            assert(lists_by(views(r@), all, keys));
        }
        r
    }

    /// A copy of the record of transfer `id`.
    pub fn transfer(&self, id: &str) -> (r: Option<TransferProgress>)
        ensures
            opt_view(r) == (if self@.transfers.contains_key(id@) {
                Some(self@.transfers[id@])
            } else {
                None
            }),
    {
        match self.active_transfers.get(id) {
            Some(t) => Some(t.clone()),
            None => None,
        }
    }

    /// A copy of the record of device `id`.
    pub fn peer(&self, id: &str) -> (r: Option<PeerInfo>)
        ensures
            opt_view(r) == (if self@.peers.contains_key(id@) {
                Some(self@.peers[id@])
            } else {
                None
            }),
    {
        match self.peers.get(id) {
            Some(p) => Some(p.clone()),
            None => None,
        }
    }
}

/// The devices that the user has entered are there from the start.
pub proof fn entered_devices_are_there(peers: Seq<ManualPeerView>, now: u64, i: int)
    requires
        0 <= i < peers.len(),
    ensures
        manual_table(peers, now).contains_key(peers[i].id),
        manual_table(peers, now)[peers[i].id].manual,
    decreases peers.len(),
{
    if i < peers.len() - 1 {
        entered_devices_are_there(peers.drop_last(), now, i);
    }
}

/// Hand-entered peers stand under their ids.
proof fn lemma_manual_table_keyed(peers: Seq<ManualPeerView>, now: u64)
    ensures
        forall|k: Seq<char>| #[trigger]
            manual_table(peers, now).contains_key(k) ==> manual_table(peers, now)[k].id == k,
    decreases peers.len(),
{
    if peers.len() > 0 {
        lemma_manual_table_keyed(peers.drop_last(), now);
        assert forall|k: Seq<char>| #[trigger]
            manual_table(peers, now).contains_key(k) implies manual_table(peers, now)[k].id == k by {
            if k != peers.last().id {
                assert(manual_table(peers.drop_last(), now).contains_key(k));
            }
        }
    }
}

/// The bytes of two lots of files together are those of the one and those of the other; those of a
/// single file are its size.
pub proof fn sizes_add_up(a: Seq<FileView>, b: Seq<FileView>, f: FileView)
    ensures
        total_size(a + b) == total_size(a) + total_size(b),
        total_size(seq![f]) == f.size,
        total_size(Seq::empty()) == 0,
    decreases b.len(),
{
    reveal_with_fuel(total_size, 2);
    assert(seq![f].drop_last() =~= Seq::<FileView>::empty());
    if b.len() == 0 {
        assert(a + b =~= a);
    } else {
        sizes_add_up(a, b.drop_last(), f);
        assert((a + b).drop_last() =~= a + b.drop_last());
    }
}

/// Recording a transfer puts it in under its id; everything else is as it was.
pub proof fn recording_touches_one<S>(st: StateView<S>, t: TransferView, other: Seq<char>)
    ensures
        ({
            let after = st.with_transfer(t);
            &&& after.transfers.contains_key(t.transfer_id)
            &&& after.transfers[t.transfer_id] == t
            &&& other != t.transfer_id ==> after.transfers.contains_key(other)
                == st.transfers.contains_key(other) && after.transfers[other] == st.transfers[other]
            &&& after.peers == st.peers && after.pending == st.pending && after.contacts
                == st.contacts && after.settings == st.settings && after.identity == st.identity
                && after.data_dir == st.data_dir && after.auto_hide == st.auto_hide
        }),
{
}

/// A listing has every record of the table, nothing else, and nothing twice.
pub proof fn listing_is_complete<V>(r: Seq<V>, m: Map<Seq<char>, V>)
    requires
        lists(r, m),
    ensures
        forall|k: Seq<char>| #[trigger] m.contains_key(k) ==> r.contains(m[k]),
        forall|i: int| 0 <= i < r.len() ==> m.contains_value(#[trigger] r[i]),
        m.dom().finite(),
        r.len() == m.dom().len(),
{
    let keys = choose|keys: Seq<Seq<char>>| #[trigger] lists_by(r, m, keys);
    assert forall|k: Seq<char>| #[trigger] m.contains_key(k) implies r.contains(m[k]) by {
        assert(keys.contains(k));
        let i = choose|i: int| 0 <= i < keys.len() && keys[i] == k;
        assert(r[i] == m[k]);
    }
    assert forall|i: int| 0 <= i < r.len() implies m.contains_value(#[trigger] r[i]) by {
        assert(keys.contains(keys[i]));
        assert(m.dom().contains(keys[i]) && m[keys[i]] == r[i]);
    }
    keys.unique_seq_to_set();
    assert(m.dom() =~= keys.to_set());
}

/// A device that the user has entered is there as entered, seen now, and taken to serve phones; of two
/// entries with one id the later counts.
pub proof fn start_has_the_entered_devices<S>(
    data_dir: Seq<char>,
    identity: IdentityView,
    settings: SettingsView,
    contacts: BookView,
    now: u64,
    i: int,
)
    requires
        0 <= i < settings.manual_peers.len(),
        forall|j: int| i < j < settings.manual_peers.len() ==> settings.manual_peers[j].id
            != settings.manual_peers[i].id,
    ensures
        ({
            let st = StateView::<S>::initial(data_dir, identity, settings, contacts, now);
            let entry = settings.manual_peers[i];
            let p = st.peers[entry.id];
            &&& st.peers.contains_key(entry.id)
            &&& p.id == entry.id
            &&& p.name == entry.name
            &&& p.host == entry.host
            &&& p.transfer_port == entry.transfer_port
            &&& p.http_port == entry.http_port
            &&& p.avatar == "💻"@
            &&& p.mobile_web_available
            &&& p.manual
            &&& p.last_seen == now
        }),
{
    lemma_manual_entry(settings.manual_peers, now, i);
}

proof fn lemma_manual_entry(peers: Seq<ManualPeerView>, now: u64, i: int)
    requires
        0 <= i < peers.len(),
        forall|j: int| i < j < peers.len() ==> peers[j].id != peers[i].id,
    ensures
        manual_table(peers, now).contains_key(peers[i].id),
        manual_table(peers, now)[peers[i].id] == peers[i].as_peer(now),
    decreases peers.len(),
{
    if i < peers.len() - 1 {
        assert(peers.last().id != peers[i].id);
        lemma_manual_entry(peers.drop_last(), now, i);
    }
}

/// At the start no device is known but those that the user has entered, there is no transfer, nobody
/// waits for a decision, and the window hides by itself. The rest is what it was started with.
pub proof fn start_has_nothing_else<S>(
    data_dir: Seq<char>,
    identity: IdentityView,
    settings: SettingsView,
    contacts: BookView,
    now: u64,
    id: Seq<char>,
)
    ensures
        ({
            let st = StateView::<S>::initial(data_dir, identity, settings, contacts, now);
            &&& st.peers.contains_key(id) ==> exists|i: int|
                0 <= i < settings.manual_peers.len() && (#[trigger] settings.manual_peers[i]).id == id
            &&& !st.transfers.contains_key(id)
            &&& !st.pending.contains_key(id)
            &&& st.auto_hide
            &&& st.settings == settings
            &&& st.contacts == contacts
            &&& st.identity == identity
            &&& st.data_dir == data_dir
        }),
{
    lemma_manual_ids(settings.manual_peers, now, id);
}

proof fn lemma_manual_ids(peers: Seq<ManualPeerView>, now: u64, id: Seq<char>)
    ensures
        manual_table(peers, now).contains_key(id) ==> exists|i: int|
            0 <= i < peers.len() && (#[trigger] peers[i]).id == id,
    decreases peers.len(),
{
    if peers.len() > 0 {
        let front = peers.drop_last();
        lemma_manual_ids(front, now, id);
        if peers.last().id == id {
            assert(peers[peers.len() - 1].id == id);
        } else if manual_table(peers, now).contains_key(id) {
            let i = choose|i: int| 0 <= i < front.len() && (#[trigger] front[i]).id == id;
            assert(peers[i].id == id);
        }
    }
}

} // verus!
