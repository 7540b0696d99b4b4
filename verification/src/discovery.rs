//! Discovery: probes, answers to them, and the devices that follow from the answers.

use crate::net::{
    best_local_host_for_remote, broadcast_of, directed_broadcast, is_usable_broadcast,
    in_same_subnet, local_host_for, nearest_interface_is_found, Ipv4Addr, IpAddr, LocalIpv4Interface,
};
use crate::state::{lemma_table_insert, lists, table_view, AppState, PeerInfo, PeerView, StateView};
use crate::table::KeyedTable;
use crate::text::{opt_view, same_text, views};
use vstd::prelude::*;

verus! {

/// The port on which probes are answered.
pub const DISCOVERY_PORT: u16 = 9987;

/// What a probe and its answer carry, so that other traffic is not taken for one.
pub const DISCOVERY_PROTOCOL: &'static str = "localbeam-discovery-v1";

/// How long a scan waits for answers, in milliseconds.
pub const SCAN_TIMEOUT_MS: u64 = 1400;

/// How long to wait between two scans, in seconds.
pub const SCAN_INTERVAL_SECS: u64 = 5;

/// How long a device is remembered after it was last heard of, in seconds; longer than the time
/// between two scans.
pub const PEER_TTL_SECS: u64 = 30;

/// A question for other devices.
#[derive(Debug)]
pub struct DiscoveryProbe {
    pub protocol: String,
    pub instance_id: String,
}

/// A device's answer to a probe.
#[derive(Debug)]
pub struct DiscoveryPeer {
    pub protocol: String,
    pub instance_id: String,
    pub id: String,
    pub name: String,
    pub avatar: String,
    pub host: String,
    pub transfer_port: u16,
    pub http_port: u16,
    pub mobile_web_available: bool,
}

/// Where a probe is sent.
#[derive(Debug, Clone, Copy, PartialEq, Eq, Structural)]
pub struct Target {
    pub ip: Ipv4Addr,
    pub port: u16,
}

/// A probe as a mathematical value.
#[verifier::ext_equal]
pub struct ProbeView {
    pub protocol: Seq<char>,
    pub instance_id: Seq<char>,
}

/// An answer as a mathematical value.
#[verifier::ext_equal]
pub struct AnswerView {
    pub protocol: Seq<char>,
    pub instance_id: Seq<char>,
    pub id: Seq<char>,
    pub name: Seq<char>,
    pub avatar: Seq<char>,
    pub host: Seq<char>,
    pub transfer_port: u16,
    pub http_port: u16,
    pub mobile_web_available: bool,
}

impl View for DiscoveryProbe {
    type V = ProbeView;

    open spec fn view(&self) -> ProbeView {
        ProbeView { protocol: self.protocol@, instance_id: self.instance_id@ }
    }
}

impl View for DiscoveryPeer {
    type V = AnswerView;

    open spec fn view(&self) -> AnswerView {
        AnswerView {
            protocol: self.protocol@,
            instance_id: self.instance_id@,
            id: self.id@,
            name: self.name@,
            avatar: self.avatar@,
            host: self.host@,
            transfer_port: self.transfer_port,
            http_port: self.http_port,
            mobile_web_available: self.mobile_web_available,
        }
    }
}

/// Whether an answer that does not say so comes from a device with an upload page. Devices of
/// earlier releases do not say, and are to be found and reached all the same.
pub fn default_mobile_web_available() -> (r: bool)
    ensures
        r,
{
    true
}

/// What an answer says of the upload page, with the default where it does not say.
pub fn mobile_web_or_default(said: Option<bool>) -> (r: bool)
    ensures
        r == (match said {
            Some(b) => b,
            None => true,
        }),
{
    match said {
        Some(b) => b,
        None => default_mobile_web_available(),
    }
}

/// Whether a message belongs to this protocol and comes from another run than `own`.
pub open spec fn is_foreign(protocol: Seq<char>, instance_id: Seq<char>, own: Seq<char>) -> bool {
    protocol == DISCOVERY_PROTOCOL@ && instance_id != own
}

/// The probe of the run `own`.
pub fn make_probe(own: &str) -> (r: DiscoveryProbe)
    ensures
        r@ == (ProbeView { protocol: DISCOVERY_PROTOCOL@, instance_id: own@ }),
{
    DiscoveryProbe { protocol: DISCOVERY_PROTOCOL.to_string(), instance_id: own.to_string() }
}

/// The text of the first of three sources that has one: the address of the interface near the
/// asker, the address of the device as a whole, the asker's own address.
pub open spec fn announced_host(
    near: Option<Ipv4Addr>,
    local: Option<Seq<char>>,
    fallback: Seq<char>,
) -> Seq<char> {
    match (near, local) {
        (Some(ip), _) => ip.dotted(),
        (None, Some(l)) => l,
        (None, None) => fallback,
    }
}

/// The address of the interface near `remote`, where there is a remote.
pub open spec fn near_host(ifaces: Seq<LocalIpv4Interface>, remote: Option<IpAddr>) -> Option<
    Ipv4Addr,
> {
    match remote {
        Some(ip) => local_host_for(ifaces, ip),
        None => None,
    }
}

/// What this device says of itself to an asker who reaches it at `host`.
pub open spec fn answer_of<S>(st: StateView<S>, own: Seq<char>, host: Seq<char>) -> AnswerView {
    AnswerView {
        protocol: DISCOVERY_PROTOCOL@,
        instance_id: own,
        id: st.identity.fingerprint,
        name: st.settings.device_name,
        avatar: st.settings.device_avatar,
        host,
        transfer_port: st.settings.transfer_port,
        http_port: st.settings.http_port,
        mobile_web_available: st.settings.enable_qr_server,
    }
}

/// What this device says of itself. `remote` is the asker's address, `fallback_ip` its text,
/// `local` the address of the device as a whole where it has one.
pub fn build_peer_snapshot<S>(
    state: &AppState<S>,
    own: &str,
    ifaces: &Vec<LocalIpv4Interface>,
    remote: Option<IpAddr>,
    local: Option<String>,
    fallback_ip: String,
) -> (r: DiscoveryPeer)
    ensures
        r@ == answer_of(
            state@,
            own@,
            announced_host(near_host(ifaces@, remote), opt_view(local), fallback_ip@),
        ),
{
    let near: Option<Ipv4Addr> = match remote {
        Some(ip) => best_local_host_for_remote(ifaces, ip),
        None => None,
    };
    let host: String = match near {
        Some(ip) => ip.to_text(),
        None => match local {
            Some(l) => l,
            None => fallback_ip,
        },
    };
    DiscoveryPeer {
        protocol: DISCOVERY_PROTOCOL.to_string(),
        instance_id: own.to_string(),
        id: state.identity.fingerprint.clone(),
        name: state.settings.device_name.clone(),
        avatar: state.settings.device_avatar.clone(),
        host,
        transfer_port: state.settings.transfer_port,
        http_port: state.settings.http_port,
        mobile_web_available: state.settings.enable_qr_server,
    }
}

/// The answer to a probe: none to a probe of another protocol or of this very run.
pub fn answer_probe<S>(
    state: &AppState<S>,
    probe: &DiscoveryProbe,
    own: &str,
    ifaces: &Vec<LocalIpv4Interface>,
    remote: Option<IpAddr>,
    local: Option<String>,
    fallback_ip: String,
) -> (r: Option<DiscoveryPeer>)
    ensures
        opt_view(r) == (if is_foreign(probe@.protocol, probe@.instance_id, own@) {
            Some(
                answer_of(
                    state@,
                    own@,
                    announced_host(near_host(ifaces@, remote), opt_view(local), fallback_ip@),
                ),
            )
        } else {
            None
        }),
{
    if !same_text(probe.protocol.as_str(), DISCOVERY_PROTOCOL) || same_text(
        probe.instance_id.as_str(),
        own,
    ) {
        return None;
    }
    Some(build_peer_snapshot(state, own, ifaces, remote, local, fallback_ip))
}

/// The answer as it counts: none of another protocol or of this very run, and with the sender's
/// address where the answer names no host or the asker's own.
pub open spec fn counted_answer(a: AnswerView, own: Seq<char>, sender_ip: Seq<char>) -> Option<
    AnswerView,
> {
    if !is_foreign(a.protocol, a.instance_id, own) {
        None
    } else if a.host.len() == 0 || a.host == "127.0.0.1"@ {
        Some(AnswerView { host: sender_ip, ..a })
    } else {
        Some(a)
    }
}

/// The answer as it counts.
pub fn accept_answer(answer: DiscoveryPeer, own: &str, sender_ip: String) -> (r: Option<DiscoveryPeer>)
    ensures
        opt_view(r) == counted_answer(answer@, own@, sender_ip@),
{
    if !same_text(answer.protocol.as_str(), DISCOVERY_PROTOCOL) || same_text(
        answer.instance_id.as_str(),
        own,
    ) {
        return None;
    }
    let mut peer = answer;
    if peer.host.as_str().is_empty() || same_text(peer.host.as_str(), "127.0.0.1") {
        peer.host = sender_ip;
    }
    Some(peer)
}

/// The device that an answer heard at `now` stands for.
pub open spec fn heard_peer(a: AnswerView, now: u64) -> PeerView {
    PeerView {
        id: a.id,
        name: a.name,
        avatar: a.avatar,
        host: a.host,
        transfer_port: a.transfer_port,
        http_port: a.http_port,
        mobile_web_available: a.mobile_web_available,
        manual: false,
        last_seen: now,
    }
}

/// The devices after the answers have been taken in: each sender but this device itself, of two
/// answers with one id the later.
pub open spec fn with_heard(
    m: Map<Seq<char>, PeerView>,
    found: Seq<AnswerView>,
    self_id: Seq<char>,
    now: u64,
) -> Map<Seq<char>, PeerView>
    decreases found.len(),
{
    if found.len() == 0 {
        m
    } else {
        let before = with_heard(m, found.drop_last(), self_id, now);
        let a = found.last();
        if a.id == self_id {
            before
        } else {
            before.insert(a.id, heard_peer(a, now))
        }
    }
}

/// Whether a device is still remembered at `now`: it was entered by hand, or heard of not too long
/// ago.
pub open spec fn is_remembered(p: PeerView, now: u64) -> bool {
    p.manual || now - p.last_seen < PEER_TTL_SECS
}

/// The devices still remembered at `now`.
pub open spec fn remembered(m: Map<Seq<char>, PeerView>, now: u64) -> Map<Seq<char>, PeerView> {
    Map::new(|k: Seq<char>| m.contains_key(k) && is_remembered(m[k], now), |k: Seq<char>| m[k])
}

/// Forgets the devices that are due and tells whether one was.
fn forget_due(peers: &mut KeyedTable<PeerInfo>, now: u64) -> (gone: bool)
    ensures
        table_view(*final(peers)) == remembered(table_view(*old(peers)), now),
        gone == (table_view(*final(peers)) != table_view(*old(peers))),
{
    let ghost before = peers@;
    let gone = peers.retain(|p: &PeerInfo| -> (keep: bool)
        ensures keep == is_remembered(p@, now)
        { p.manual || now.saturating_sub(p.last_seen) < PEER_TTL_SECS });
    proof {
        let after = peers@;
        assert forall|k: Seq<char>| after.contains_key(k) <==> (before.contains_key(k)
            && is_remembered(before[k]@, now)) by {
            assert(after.contains_key(k) ==> before.contains_key(k));
            assert(before.contains_key(k) && !after.contains_key(k) ==> !is_remembered(
                before[k]@,
                now,
            ));
        }
        assert(table_view(*peers) =~= remembered(table_view(*old(peers)), now));
        if gone {
            if forall|k: Seq<char>| before.contains_key(k) ==> after.contains_key(k) {
                assert(after =~= before);
            }
            let k = choose|k: Seq<char>| before.contains_key(k) && !after.contains_key(k);
            assert(table_view(*old(peers)).contains_key(k));
            assert(!table_view(*peers).contains_key(k));
        }
    }
    gone
}

/// Forgets the devices that are due; where one was, the devices left are to be announced.
pub fn expire_peers<S>(state: &mut AppState<S>, now: u64) -> (r: Option<Vec<PeerInfo>>)
    ensures
        final(state)@ == (StateView { peers: remembered(old(state)@.peers, now), ..old(state)@ }),
        r is Some <==> final(state)@.peers != old(state)@.peers,
        r is Some ==> lists(views(r->0@), final(state)@.peers),
        old(state)@.keyed() ==> final(state)@.keyed(),
{
    if forget_due(&mut state.peers, now) {
        Some(state.peer_list())
    } else {
        None
    }
}

/// Takes in the answers of a scan and forgets the devices that are due.
pub fn merge_answers<S>(state: &mut AppState<S>, found: Vec<DiscoveryPeer>, now: u64)
    ensures
        final(state)@ == (StateView {
            peers: remembered(
                with_heard(
                    old(state)@.peers,
                    views(found@),
                    old(state)@.identity.fingerprint,
                    now,
                ),
                now,
            ),
            ..old(state)@
        }),
        old(state)@.keyed() ==> final(state)@.keyed(),
{
    let ghost all = views(found@);
    let ghost start = state@;
    let ghost self_id = state@.identity.fingerprint;
    assert(all.take(0) =~= Seq::<AnswerView>::empty());
    for i in 0..found.len()
        invariant
            all == views(found@),
            self_id == start.identity.fingerprint,
            state@ == (StateView {
                peers: with_heard(start.peers, all.take(i as int), self_id, now),
                ..start
            }),
    {
        let a = &found[i];
        assert(all.take(i + 1).drop_last() =~= all.take(i as int));
        assert(all.take(i + 1).last() == a@);
        if !same_text(a.id.as_str(), state.identity.fingerprint.as_str()) {
            let info = PeerInfo {
                id: a.id.clone(),
                name: a.name.clone(),
                avatar: a.avatar.clone(),
                host: a.host.clone(),
                transfer_port: a.transfer_port,
                http_port: a.http_port,
                mobile_web_available: a.mobile_web_available,
                manual: false,
                last_seen: now,
            };
            assert(info@ == heard_peer(a@, now));
            let ghost before = state.peers@;
            let key = a.id.clone();
            state.peers.insert(key, info);
            proof {
                lemma_table_insert(before, state.peers@, key@, info);
            }
        }
    }
    assert(all.take(all.len() as int) =~= all);
    let _ = forget_due(&mut state.peers, now);
    proof {
        if start.keyed() {
            lemma_heard_keyed(start.peers, all, self_id, now);
        }
    }
}

/// Answers stand under their ids.
proof fn lemma_heard_keyed(
    m: Map<Seq<char>, PeerView>,
    found: Seq<AnswerView>,
    self_id: Seq<char>,
    now: u64,
)
    requires
        forall|k: Seq<char>| #[trigger] m.contains_key(k) ==> m[k].id == k,
    ensures
        forall|k: Seq<char>| #[trigger]
            with_heard(m, found, self_id, now).contains_key(k) ==> with_heard(
                m,
                found,
                self_id,
                now,
            )[k].id == k,
    decreases found.len(),
{
    if found.len() > 0 {
        lemma_heard_keyed(m, found.drop_last(), self_id, now);
        assert forall|k: Seq<char>| #[trigger]
            with_heard(m, found, self_id, now).contains_key(k) implies with_heard(
            m,
            found,
            self_id,
            now,
        )[k].id == k by {
            let before = with_heard(m, found.drop_last(), self_id, now);
            if found.last().id == self_id || k != found.last().id {
                assert(before.contains_key(k));
            }
        }
    }
}

/// Ends a scan that reached `sent` targets and brought the answers `found`. Without a target or an
/// answer only the devices that are due go, and the devices are announced if one went; otherwise
/// the answers are taken in, and the devices are announced in any case.
pub fn finish_scan<S>(
    state: &mut AppState<S>,
    sent: usize,
    found: Vec<DiscoveryPeer>,
    now: u64,
) -> (r: Option<Vec<PeerInfo>>)
    ensures
        final(state)@ == (StateView {
            peers: remembered(
                if sent == 0 {
                    old(state)@.peers
                } else {
                    with_heard(
                        old(state)@.peers,
                        views(found@),
                        old(state)@.identity.fingerprint,
                        now,
                    )
                },
                now,
            ),
            ..old(state)@
        }),
        r is Some <==> (sent > 0 && found@.len() > 0) || final(state)@.peers != old(state)@.peers,
        r is Some ==> lists(views(r->0@), final(state)@.peers),
        old(state)@.keyed() ==> final(state)@.keyed(),
{
    if sent == 0 || found.len() == 0 {
        return expire_peers(state, now);
    }
    merge_answers(state, found, now);
    Some(state.peer_list())
}

/// An answer and the address that it came from.
#[derive(Debug)]
pub struct Heard {
    pub answer: DiscoveryPeer,
    pub sender_ip: String,
}

/// An answer and the address that it came from, as a mathematical value.
#[verifier::ext_equal]
pub struct HeardView {
    pub answer: AnswerView,
    pub sender_ip: Seq<char>,
}

impl View for Heard {
    type V = HeardView;

    open spec fn view(&self) -> HeardView {
        HeardView { answer: self.answer@, sender_ip: self.sender_ip@ }
    }
}

/// The answers that count, in the order in which they came in.
pub open spec fn counted_answers(heard: Seq<HeardView>, own: Seq<char>) -> Seq<AnswerView>
    decreases heard.len(),
{
    if heard.len() == 0 {
        Seq::empty()
    } else {
        let before = counted_answers(heard.drop_last(), own);
        match counted_answer(heard.last().answer, own, heard.last().sender_ip) {
            Some(a) => before.push(a),
            None => before,
        }
    }
}

/// The answers that count, in the order in which they came in.
pub fn collect_answers(heard: Vec<Heard>, own: &str) -> (r: Vec<DiscoveryPeer>)
    ensures
        views(r@) == counted_answers(views(heard@), own@),
{
    let ghost all = views(heard@);
    let mut r: Vec<DiscoveryPeer> = Vec::new();
    assert(all.take(0) =~= Seq::<HeardView>::empty());
    for h in it: heard
        invariant
            it.seq() == heard@,
            all == views(heard@),
            views(r@) == counted_answers(all.take(it.index() as int), own@),
    {
        let ghost i = it.index() as int;
        assert(h@ == all[i]);
        assert(all.take(i + 1).drop_last() =~= all.take(i));
        assert(all.take(i + 1).last() == all[i]);
        let ghost before = views(r@);
        match accept_answer(h.answer, own, h.sender_ip) {
            Some(a) => {
                r.push(a);
                assert(views(r@) =~= before.push(a@));
            },
            None => {},
        }
    }
    assert(all.take(all.len() as int) =~= all);
    r
}

/// Ends a scan of the run `own` that reached `sent` targets and heard these answers: takes in the
/// answers that count, and gives the devices where they are to be announced.
pub fn scan_once<S>(
    state: &mut AppState<S>,
    own: &str,
    sent: usize,
    heard: Vec<Heard>,
    now: u64,
) -> (r: Option<Vec<PeerInfo>>)
    ensures
        ({
            let found = counted_answers(views(heard@), own@);
            &&& final(state)@ == (StateView {
                peers: remembered(
                    if sent == 0 {
                        old(state)@.peers
                    } else {
                        with_heard(old(state)@.peers, found, old(state)@.identity.fingerprint, now)
                    },
                    now,
                ),
                ..old(state)@
            })
            &&& r is Some <==> (sent > 0 && found.len() > 0) || final(state)@.peers
                != old(state)@.peers
        }),
        r is Some ==> lists(views(r->0@), final(state)@.peers),
        old(state)@.keyed() ==> final(state)@.keyed(),
{
    let found = collect_answers(heard, own);
    finish_scan(state, sent, found, now)
}

/// The targets with `ip` added, unless it is no use for a broadcast or already there.
pub open spec fn with_target(targets: Seq<Target>, ip: Ipv4Addr) -> Seq<Target> {
    let t = Target { ip, port: DISCOVERY_PORT };
    if !ip.usable() || targets.contains(t) {
        targets
    } else {
        targets.push(t)
    }
}

/// The targets with those of one interface added.
pub open spec fn with_iface(targets: Seq<Target>, iface: LocalIpv4Interface) -> Seq<Target> {
    let stated = match iface.broadcast {
        Some(b) => with_target(targets, b),
        None => targets,
    };
    match broadcast_of(iface) {
        Some(b) => with_target(stated, b),
        None => stated,
    }
}

/// The targets of a scan: the broadcast address for all, then those of the interfaces.
pub open spec fn targets_of(ifaces: Seq<LocalIpv4Interface>) -> Seq<Target>
    decreases ifaces.len(),
{
    if ifaces.len() == 0 {
        with_target(Seq::empty(), Ipv4Addr::of(255, 255, 255, 255))
    } else {
        with_iface(targets_of(ifaces.drop_last()), ifaces.last())
    }
}

/// Adds `ip` to the targets, unless it is no use for a broadcast or already there.
pub fn add_target(targets: &mut Vec<Target>, ip: Ipv4Addr)
    ensures
        final(targets)@ == with_target(old(targets)@, ip),
{
    if !is_usable_broadcast(ip) {
        return;
    }
    let t = Target { ip, port: DISCOVERY_PORT };
    for i in 0..targets.len()
        invariant
            targets@ == old(targets)@,
            t == (Target { ip, port: DISCOVERY_PORT }),
            ip.usable(),
            forall|j: int| 0 <= j < i ==> targets@[j] != t,
    {
        if targets[i] == t {
            assert(targets@[i as int] == t);
            return;
        }
    }
    targets.push(t);
}

/// The targets of a scan.
pub fn discovery_targets(ifaces: &Vec<LocalIpv4Interface>) -> (r: Vec<Target>)
    ensures
        r@ == targets_of(ifaces@),
{
    let mut targets: Vec<Target> = Vec::new();
    add_target(&mut targets, Ipv4Addr::new(255, 255, 255, 255));
    assert(ifaces@.take(0) =~= Seq::<LocalIpv4Interface>::empty());
    for i in 0..ifaces.len()
        invariant
            targets@ == targets_of(ifaces@.take(i as int)),
    {
        let iface: LocalIpv4Interface = ifaces[i];
        assert(ifaces@.take(i + 1).drop_last() =~= ifaces@.take(i as int));
        assert(ifaces@.take(i + 1).last() == iface);
        match iface.broadcast {
            Some(b) => {
                add_target(&mut targets, b);
            },
            None => {},
        }
        match directed_broadcast(&iface) {
            Some(b) => {
                add_target(&mut targets, b);
            },
            None => {},
        }
    }
    assert(ifaces@.take(ifaces@.len() as int) =~= ifaces@);
    targets
}

/// What one more target changes.
proof fn lemma_with_target(targets: Seq<Target>, ip: Ipv4Addr)
    requires
        good_targets(targets),
    ensures
        good_targets(with_target(targets, ip)),
        targets.is_prefix_of(with_target(targets, ip)),
        ip.usable() ==> with_target(targets, ip).contains(Target { ip, port: DISCOVERY_PORT }),
{
    let t = Target { ip, port: DISCOVERY_PORT };
    let after = with_target(targets, ip);
    if ip.usable() && !targets.contains(t) {
        assert(after =~= targets.push(t));
        assert(after[targets.len() as int] == t);
        assert(targets =~= after.take(targets.len() as int));
        assert forall|i: int, j: int|
            0 <= i < after.len() && 0 <= j < after.len() && i != j implies after[i] != after[j] by {
            if i < targets.len() {
                assert(targets.contains(targets[i]));
            }
            if j < targets.len() {
                assert(targets.contains(targets[j]));
            }
        }
    } else {
        assert(targets =~= after.take(targets.len() as int));
    }
}

/// Whether no target stands twice and all can be used.
pub open spec fn good_targets(targets: Seq<Target>) -> bool {
    &&& targets.no_duplicates()
    &&& forall|i: int|
        0 <= i < targets.len() ==> (#[trigger] targets[i]).ip.usable() && targets[i].port
            == DISCOVERY_PORT
}

/// A scan reaches everybody once: its targets are all different and usable, the first of them is
/// the address for all, and the stated and the directed broadcast address of every interface, where
/// they can be used, are among them.
pub proof fn targets_reach_every_subnet(ifaces: Seq<LocalIpv4Interface>)
    ensures
        good_targets(targets_of(ifaces)),
        targets_of(ifaces).len() > 0,
        targets_of(ifaces)[0] == (Target {
            ip: Ipv4Addr::of(255, 255, 255, 255),
            port: DISCOVERY_PORT,
        }),
        forall|i: int|
            0 <= i < ifaces.len() ==> {
                &&& (#[trigger] ifaces[i]).broadcast matches Some(b) ==> b.usable() ==> targets_of(
                    ifaces,
                ).contains(Target { ip: b, port: DISCOVERY_PORT })
                &&& broadcast_of(ifaces[i]) matches Some(b) ==> b.usable() ==> targets_of(
                    ifaces,
                ).contains(Target { ip: b, port: DISCOVERY_PORT })
            },
    decreases ifaces.len(),
{
    let all = targets_of(ifaces);
    if ifaces.len() == 0 {
        let ip = Ipv4Addr::of(255, 255, 255, 255);
        assert(ip.bits == 0xffff_ffff);
        assert(ip.usable());
        lemma_with_target(Seq::empty(), ip);
    } else {
        let rest = ifaces.drop_last();
        let last = ifaces.last();
        let before = targets_of(rest);
        targets_reach_every_subnet(rest);
        let stated = match last.broadcast {
            Some(b) => with_target(before, b),
            None => before,
        };
        match last.broadcast {
            Some(b) => {
                lemma_with_target(before, b);
            },
            None => {},
        }
        match broadcast_of(last) {
            Some(b) => {
                lemma_with_target(stated, b);
            },
            None => {},
        }
        assert forall|x: Target| before.contains(x) || stated.contains(x) implies all.contains(x) by {
            if before.contains(x) {
                let j = choose|j: int| 0 <= j < before.len() && before[j] == x;
                assert(stated[j] == x);
            }
            let j = choose|j: int| 0 <= j < stated.len() && stated[j] == x;
            assert(all[j] == x);
        }
        assert forall|i: int| 0 <= i < ifaces.len() implies {
            &&& (#[trigger] ifaces[i]).broadcast matches Some(b) ==> b.usable() ==> all.contains(
                Target { ip: b, port: DISCOVERY_PORT },
            )
            &&& broadcast_of(ifaces[i]) matches Some(b) ==> b.usable() ==> all.contains(
                Target { ip: b, port: DISCOVERY_PORT },
            )
        } by {
            if i < rest.len() {
                assert(rest[i] == ifaces[i]);
            }
        }
    }
}

/// Devices find each other: a probe of one run is answered by another, and the answer counts, with
/// the identity, the name and the ports of the device that gave it, and with the address that it was
/// heard from where it names none that the asker could use. A device neither answers nor counts
/// itself.
pub proof fn probed_device_is_found<S>(
    other: StateView<S>,
    asker_run: Seq<char>,
    other_run: Seq<char>,
    host: Seq<char>,
    sender_ip: Seq<char>,
    now: u64,
)
    ensures
        is_foreign(DISCOVERY_PROTOCOL@, asker_run, other_run) <==> asker_run != other_run,
        counted_answer(answer_of(other, other_run, host), asker_run, sender_ip) is Some <==> asker_run
            != other_run,
        counted_answer(answer_of(other, other_run, host), asker_run, sender_ip) matches Some(a) ==> {
            let p = heard_peer(a, now);
            &&& p.id == other.identity.fingerprint
            &&& p.name == other.settings.device_name
            &&& p.avatar == other.settings.device_avatar
            &&& p.transfer_port == other.settings.transfer_port
            &&& p.http_port == other.settings.http_port
            &&& p.mobile_web_available == other.settings.enable_qr_server
            &&& p.host == (if host.len() == 0 || host == "127.0.0.1"@ {
                sender_ip
            } else {
                host
            })
            &&& p.last_seen == now
            &&& !p.manual
        },
{
}

/// Whether an answer has this id.
pub open spec fn is_heard(found: Seq<AnswerView>, id: Seq<char>) -> bool {
    exists|i: int| 0 <= i < found.len() && (#[trigger] found[i]).id == id
}

/// Whether answer number `i` is the last with this id.
pub open spec fn is_last_of(found: Seq<AnswerView>, id: Seq<char>, i: int) -> bool {
    &&& 0 <= i < found.len()
    &&& found[i].id == id
    &&& forall|j: int| i < j < found.len() ==> (#[trigger] found[j]).id != id
}

/// What the answers of a scan do to a device: one that was heard stands with its last answer,
/// one that was not stands as it did, and this device itself does not come in.
pub proof fn scan_follows_answers(
    m: Map<Seq<char>, PeerView>,
    found: Seq<AnswerView>,
    self_id: Seq<char>,
    now: u64,
    id: Seq<char>,
)
    ensures
        ({
            let after = remembered(with_heard(m, found, self_id, now), now);
            if is_heard(found, id) && id != self_id {
                &&& after.contains_key(id)
                &&& exists|i: int| #[trigger]
                    is_last_of(found, id, i) && after[id] == heard_peer(found[i], now)
            } else {
                &&& after.contains_key(id) <==> m.contains_key(id) && is_remembered(m[id], now)
                &&& after.contains_key(id) ==> after[id] == m[id]
            }
        }),
{
    lemma_with_heard(m, found, self_id, now, id);
}

proof fn lemma_with_heard(
    m: Map<Seq<char>, PeerView>,
    found: Seq<AnswerView>,
    self_id: Seq<char>,
    now: u64,
    id: Seq<char>,
)
    ensures
        ({
            let after = with_heard(m, found, self_id, now);
            if is_heard(found, id) && id != self_id {
                &&& after.contains_key(id)
                &&& exists|i: int| #[trigger]
                    is_last_of(found, id, i) && after[id] == heard_peer(found[i], now)
            } else {
                &&& after.contains_key(id) == m.contains_key(id)
                &&& after.contains_key(id) ==> after[id] == m[id]
            }
        }),
    decreases found.len(),
{
    if found.len() > 0 {
        let rest = found.drop_last();
        lemma_with_heard(m, rest, self_id, now, id);
        let n = found.len() - 1;
        assert(found[n] == found.last());
        if is_heard(rest, id) {
            let i = choose|i: int| 0 <= i < rest.len() && (#[trigger] rest[i]).id == id;
            assert(found[i].id == id);
            assert(is_heard(found, id));
        } else if is_heard(found, id) {
            let i = choose|i: int| 0 <= i < found.len() && (#[trigger] found[i]).id == id;
            if i < n {
                assert(rest[i].id == id);
            }
        }
        if is_heard(found, id) && id != self_id {
            if found[n].id == id {
                assert(is_last_of(found, id, n));
            } else {
                let before = with_heard(m, rest, self_id, now);
                let j = choose|j: int| #[trigger]
                    is_last_of(rest, id, j) && before[id] == heard_peer(rest[j], now);
                assert forall|k: int| j < k < found.len() implies (#[trigger] found[k]).id != id by {
                    if k < n {
                        assert(rest[k] == found[k]);
                    }
                }
                assert(is_last_of(found, id, j));
            }
        }
    }
}

/// A device that the user has entered stays, however long it is silent and whatever other devices
/// answer.
pub proof fn manual_device_stays(
    m: Map<Seq<char>, PeerView>,
    found: Seq<AnswerView>,
    self_id: Seq<char>,
    now: u64,
    id: Seq<char>,
)
    requires
        m.contains_key(id),
        m[id].manual,
        !is_heard(found, id),
    ensures
        remembered(with_heard(m, found, self_id, now), now).contains_key(id),
        remembered(with_heard(m, found, self_id, now), now)[id] == m[id],
{
    scan_follows_answers(m, found, self_id, now, id);
}

/// A device that was found is forgotten when it has been silent for the time set, and not before;
/// forgetting again at the same time changes nothing.
pub proof fn silent_device_is_forgotten(m: Map<Seq<char>, PeerView>, now: u64, id: Seq<char>)
    requires
        m.contains_key(id),
        !m[id].manual,
    ensures
        remembered(m, now).contains_key(id) <==> now < m[id].last_seen + PEER_TTL_SECS,
        remembered(remembered(m, now), now) == remembered(m, now),
{
    assert(remembered(remembered(m, now), now) =~= remembered(m, now));
}

/// The address of an interface in the asker's subnet goes before every other: where there is one, it is
/// what the asker is told, whatever other address the device has. Where there is none, the asker is told
/// the address of the device, and its own only where the device has none.
pub proof fn near_address_is_announced(
    ifaces: Seq<LocalIpv4Interface>,
    asker: Ipv4Addr,
    local: Option<Seq<char>>,
    fallback: Seq<char>,
)
    ensures
        ({
            let near = near_host(ifaces, Some(IpAddr::V4(asker)));
            let told = announced_host(near, local, fallback);
            &&& near matches Some(ip) ==> told == ip.dotted()
            &&& (exists|i: int|
                0 <= i < ifaces.len() && in_same_subnet(
                    (#[trigger] ifaces[i]).ip,
                    asker,
                    ifaces[i].netmask,
                )) ==> exists|i: int|
                0 <= i < ifaces.len() && in_same_subnet(
                    (#[trigger] ifaces[i]).ip,
                    asker,
                    ifaces[i].netmask,
                ) && told == ifaces[i].ip.dotted() && forall|j: int|
                    0 <= j < i ==> !in_same_subnet(
                        (#[trigger] ifaces[j]).ip,
                        asker,
                        ifaces[j].netmask,
                    )
            &&& (forall|i: int|
                0 <= i < ifaces.len() ==> !in_same_subnet(
                    (#[trigger] ifaces[i]).ip,
                    asker,
                    ifaces[i].netmask,
                )) ==> told == (match local {
                Some(l) => l,
                None => fallback,
            })
        }),
{
    nearest_interface_is_found(ifaces, asker);
}

/// An asker without an IPv4 address is near to no interface: it is told the address of the device, and
/// its own where the device has none.
pub proof fn far_asker_is_told_the_device_address(
    ifaces: Seq<LocalIpv4Interface>,
    remote: Option<IpAddr>,
    local: Option<Seq<char>>,
    fallback: Seq<char>,
)
    requires
        !(remote matches Some(IpAddr::V4(_))),
    ensures
        local matches Some(l) ==> announced_host(near_host(ifaces, remote), local, fallback) == l,
        local is None ==> announced_host(near_host(ifaces, remote), local, fallback) == fallback,
{
}

/// An answer counts just when it is of this protocol and of another run, and it counts as it came; only
/// where it names no host, or the asker's own, does the address that it was heard from take its place.
pub proof fn answer_counts_as_it_came(a: AnswerView, own: Seq<char>, sender_ip: Seq<char>)
    ensures
        counted_answer(a, own, sender_ip) is Some <==> a.protocol == "localbeam-discovery-v1"@
            && a.instance_id != own,
        counted_answer(a, own, sender_ip) matches Some(c) ==> {
            &&& c.protocol == a.protocol
            &&& c.instance_id == a.instance_id
            &&& c.id == a.id
            &&& c.name == a.name
            &&& c.avatar == a.avatar
            &&& c.transfer_port == a.transfer_port
            &&& c.http_port == a.http_port
            &&& c.mobile_web_available == a.mobile_web_available
            &&& a.host.len() > 0 && a.host != "127.0.0.1"@ ==> c.host == a.host
            &&& a.host.len() == 0 || a.host == "127.0.0.1"@ ==> c.host == sender_ip
        },
{
}

/// A device that was heard stands as its answer says, seen now and not entered by hand.
pub proof fn heard_device_is_what_it_says(a: AnswerView, now: u64)
    ensures
        ({
            let p = heard_peer(a, now);
            &&& p.id == a.id
            &&& p.name == a.name
            &&& p.avatar == a.avatar
            &&& p.host == a.host
            &&& p.transfer_port == a.transfer_port
            &&& p.http_port == a.http_port
            &&& p.mobile_web_available == a.mobile_web_available
            &&& p.last_seen == now
            &&& !p.manual
        }),
{
}

/// What is heard in two parts of a scan counts as the one and then the other; a single answer counts by
/// itself.
pub proof fn answers_count_one_by_one(a: Seq<HeardView>, b: Seq<HeardView>, h: HeardView, own: Seq<char>)
    ensures
        counted_answers(a + b, own) == counted_answers(a, own) + counted_answers(b, own),
        counted_answers(Seq::empty(), own).len() == 0,
        counted_answer(h.answer, own, h.sender_ip) matches Some(c) ==> counted_answers(seq![h], own)
            == seq![c],
        counted_answer(h.answer, own, h.sender_ip) is None ==> counted_answers(seq![h], own).len()
            == 0,
    decreases b.len(),
{
    reveal_with_fuel(counted_answers, 2);
    assert(seq![h].drop_last() =~= Seq::<HeardView>::empty());
    if b.len() == 0 {
        assert(a + b =~= a);
        assert(counted_answers(a, own) + counted_answers(b, own) =~= counted_answers(a, own));
    } else {
        answers_count_one_by_one(a, b.drop_last(), h, own);
        assert((a + b).drop_last() =~= a + b.drop_last());
        assert(counted_answers(a + b, own) =~= counted_answers(a, own) + counted_answers(b, own));
    }
}

/// A scan goes nowhere else: every target is the address for all, or the stated or the directed
/// broadcast address of an interface.
pub proof fn targets_are_broadcast_addresses(ifaces: Seq<LocalIpv4Interface>, t: Target)
    requires
        targets_of(ifaces).contains(t),
    ensures
        t.ip == Ipv4Addr::of(255, 255, 255, 255) || exists|i: int|
            0 <= i < ifaces.len() && ((#[trigger] ifaces[i]).broadcast == Some(t.ip) || broadcast_of(
                ifaces[i],
            ) == Some(t.ip)),
    decreases ifaces.len(),
{
    if ifaces.len() > 0 {
        let rest = ifaces.drop_last();
        let last = ifaces.last();
        if targets_of(rest).contains(t) {
            targets_are_broadcast_addresses(rest, t);
            if t.ip != Ipv4Addr::of(255, 255, 255, 255) {
                let i = choose|i: int|
                    0 <= i < rest.len() && ((#[trigger] rest[i]).broadcast == Some(t.ip)
                        || broadcast_of(rest[i]) == Some(t.ip));
                assert(ifaces[i] == rest[i]);
            }
        } else {
            assert(ifaces[ifaces.len() - 1] == last);
        }
    }
}

/// A device is not forgotten between two scans: one that was heard in the last scan is still there when
/// the next one begins.
pub proof fn device_outlasts_the_interval(m: Map<Seq<char>, PeerView>, now: u64, id: Seq<char>)
    requires
        m.contains_key(id),
        now <= m[id].last_seen + SCAN_INTERVAL_SECS,
    ensures
        remembered(m, now).contains_key(id),
        remembered(m, now)[id] == m[id],
{
}

} // verus!
