//! The steps of sending files to another device.

use crate::state::{
    lemma_total_size_grows, total_bytes, total_size, AppState, FileView, PeerInfo, PeerView, StateView, TransferDirection,
    TransferFileMeta, TransferProgress, TransferStatus, TransferView,
};
use crate::text::{opt_view, views};
use crate::transfer::{
    ident_of, is_report_due, joined, own_ident, report_due, HeaderMsg, HeaderView, ResponseMsg,
    ResponseView,
};
use vstd::prelude::*;

verus! {

/// How far the sending side has come.
#[derive(Debug, Clone, Copy, PartialEq, Eq, Structural)]
pub enum SendPhase {
    /// The files have been offered; the answer is awaited.
    Offered,
    /// File number `index` is being sent, or all are; `sent` bytes are out.
    Streaming { index: usize, sent: u64 },
    /// Nothing is left to do.
    Closed,
}

/// A transfer to another device.
#[derive(Debug)]
pub struct Outgoing {
    pub transfer_id: String,
    pub peer_name: String,
    pub file_count: usize,
    pub total_bytes: u64,
    pub phase: SendPhase,
}

/// What has happened on the sending side.
#[derive(Debug)]
pub enum SendEvent {
    /// The other device has answered.
    Answered(ResponseMsg),
    /// So many bytes of the current file have been sent.
    Sent(usize),
    /// The current file has no more bytes.
    FileEnded,
    /// Everything that was sent has left.
    Flushed,
    /// The connection or a file has failed; how.
    Broken(String),
}

/// What is to be done next on the sending side.
#[derive(Debug)]
pub enum SendAction {
    /// Send from the file of this number.
    Stream(usize),
    /// Make sure that everything has left.
    Flush,
    /// The transfer has succeeded.
    Succeed,
    /// The transfer has failed; how.
    Fail(String),
}

/// What a step on the sending side comes to.
#[derive(Debug)]
pub struct SendStep {
    /// What is to be announced, in order.
    pub reports: Vec<TransferProgress>,
    pub action: SendAction,
}

/// A transfer to another device as a mathematical value.
#[verifier::ext_equal]
pub struct OutgoingView {
    pub transfer_id: Seq<char>,
    pub peer_name: Seq<char>,
    pub file_count: usize,
    pub total_bytes: u64,
    pub phase: SendPhase,
}

/// An event on the sending side as a mathematical value.
#[verifier::ext_equal]
pub enum SendEventView {
    Answered(ResponseView),
    Sent(usize),
    FileEnded,
    Flushed,
    Broken(Seq<char>),
}

/// An action on the sending side as a mathematical value.
#[verifier::ext_equal]
pub enum SendActionView {
    Stream(usize),
    Flush,
    Succeed,
    Fail(Seq<char>),
}

impl View for Outgoing {
    type V = OutgoingView;

    open spec fn view(&self) -> OutgoingView {
        OutgoingView {
            transfer_id: self.transfer_id@,
            peer_name: self.peer_name@,
            file_count: self.file_count,
            total_bytes: self.total_bytes,
            phase: self.phase,
        }
    }
}

impl View for SendEvent {
    type V = SendEventView;

    open spec fn view(&self) -> SendEventView {
        match *self {
            SendEvent::Answered(r) => SendEventView::Answered(r@),
            SendEvent::Sent(n) => SendEventView::Sent(n),
            SendEvent::FileEnded => SendEventView::FileEnded,
            SendEvent::Flushed => SendEventView::Flushed,
            SendEvent::Broken(m) => SendEventView::Broken(m@),
        }
    }
}

impl View for SendAction {
    type V = SendActionView;

    open spec fn view(&self) -> SendActionView {
        match *self {
            SendAction::Stream(i) => SendActionView::Stream(i),
            SendAction::Flush => SendActionView::Flush,
            SendAction::Succeed => SendActionView::Succeed,
            SendAction::Fail(m) => SendActionView::Fail(m@),
        }
    }
}

/// What a step on the sending side makes of the transfer and of the state.
#[verifier::ext_equal]
#[verifier::reject_recursive_types(S)]
pub struct SendOutcome<S> {
    pub phase: SendPhase,
    pub state: StateView<S>,
    pub reports: Seq<TransferView>,
    pub action: SendActionView,
}

/// The record of a transfer that has just been offered to `peer`.
pub open spec fn offered_record(
    transfer_id: Seq<char>,
    peer: PeerView,
    files: Seq<FileView>,
    now: u64,
) -> TransferView {
    TransferView {
        transfer_id,
        created_at: now,
        direction: TransferDirection::Outgoing,
        peer_id: Some(peer.id),
        peer_name: peer.name,
        files,
        current_file_index: 0,
        bytes_sent: 0,
        total_bytes: total_size(files) as u64,
        status: TransferStatus::Pending,
        error: None,
    }
}

/// The step after the current file, or after the answer: the file of number `index` where there
/// is one, otherwise everything is made sure of.
pub open spec fn from_file(m: OutgoingView, index: usize) -> SendActionView {
    if index < m.file_count {
        SendActionView::Stream(index)
    } else {
        SendActionView::Flush
    }
}

impl OutgoingView {
    /// Whether the event can happen now, and the record that it bears on is there.
    pub open spec fn can_step<S>(self, st: StateView<S>, e: SendEventView) -> bool {
        let known = st.transfers.contains_key(self.transfer_id);
        match (self.phase, e) {
            (SendPhase::Offered, SendEventView::Answered(_)) => known,
            (SendPhase::Streaming { index, sent }, SendEventView::Sent(n)) => {
                &&& index < self.file_count
                &&& 0 < n
                &&& sent + n <= u64::MAX
                &&& is_report_due(sent + n, self.total_bytes as int) ==> known
            },
            (SendPhase::Streaming { index, sent }, SendEventView::FileEnded) => index
                < self.file_count,
            (SendPhase::Streaming { index, sent }, SendEventView::Flushed) => index
                >= self.file_count && known,
            (SendPhase::Offered, SendEventView::Broken(_)) => known,
            (SendPhase::Streaming { .. }, SendEventView::Broken(_)) => known,
            _ => false,
        }
    }

    /// The end of a transfer that has failed.
    pub open spec fn failed<S>(
        self,
        st: StateView<S>,
        earlier: Seq<TransferView>,
        message: Seq<char>,
    ) -> SendOutcome<S> {
        let t = TransferView {
            status: TransferStatus::Failed,
            error: Some(message),
            ..st.transfers[self.transfer_id]
        };
        SendOutcome {
            phase: SendPhase::Closed,
            state: st.with_transfer(t),
            reports: earlier.push(t),
            action: SendActionView::Fail(message),
        }
    }

    /// What an event leads to.
    pub open spec fn stepped<S>(self, st: StateView<S>, e: SendEventView) -> SendOutcome<S> {
        let t = st.transfers[self.transfer_id];
        let none = Seq::<TransferView>::empty();
        match (self.phase, e) {
            (SendPhase::Offered, SendEventView::Answered(r)) => if r.accepted {
                let active = TransferView { status: TransferStatus::Active, ..t };
                SendOutcome {
                    phase: SendPhase::Streaming { index: 0, sent: 0 },
                    state: st.with_transfer(active),
                    reports: none.push(active),
                    action: from_file(self, 0),
                }
            } else {
                let rejected = TransferView {
                    status: TransferStatus::Rejected,
                    error: r.reason,
                    ..t
                };
                self.failed(
                    st.with_transfer(rejected),
                    none.push(rejected),
                    match r.reason {
                        Some(m) => m,
                        None => "rejected"@,
                    },
                )
            },
            (SendPhase::Streaming { index, sent }, SendEventView::Sent(n)) => {
                let now_sent = (sent + n) as u64;
                let moved = TransferView {
                    current_file_index: index,
                    bytes_sent: now_sent,
                    peer_name: self.peer_name,
                    ..t
                };
                let due = is_report_due(now_sent as int, self.total_bytes as int);
                SendOutcome {
                    phase: SendPhase::Streaming { index, sent: now_sent },
                    state: if due {
                        st.with_transfer(moved)
                    } else {
                        st
                    },
                    reports: if due {
                        none.push(moved)
                    } else {
                        none
                    },
                    action: SendActionView::Stream(index),
                }
            },
            (SendPhase::Streaming { index, sent }, SendEventView::FileEnded) => SendOutcome {
                phase: SendPhase::Streaming { index: (index + 1) as usize, sent },
                state: st,
                reports: none,
                action: from_file(self, (index + 1) as usize),
            },
            (SendPhase::Streaming { index, sent }, SendEventView::Flushed) => {
                let done = TransferView {
                    status: TransferStatus::Completed,
                    bytes_sent: t.total_bytes,
                    ..t
                };
                SendOutcome {
                    phase: SendPhase::Closed,
                    state: st.with_transfer(done),
                    reports: none.push(done),
                    action: SendActionView::Succeed,
                }
            },
            (_, SendEventView::Broken(m)) => self.failed(st, none, m),
            _ => SendOutcome {
                phase: self.phase,
                state: st,
                reports: none,
                action: SendActionView::Flush,
            },
        }
    }
}

/// A transfer that has been recorded, and what is to be sent first to whom.
#[derive(Debug)]
pub struct Offer {
    pub outgoing: Outgoing,
    pub header: HeaderMsg,
    /// What is to be announced.
    pub report: TransferProgress,
}

/// Records a transfer of `files` to `peer` and makes the message that offers it.
pub fn send_files<S>(
    state: &mut AppState<S>,
    peer: &PeerInfo,
    transfer_id: String,
    files: Vec<TransferFileMeta>,
    now: u64,
) -> (r: Offer)
    requires
        total_size(views(files@)) <= u64::MAX,
    ensures
        r.report@ == offered_record(transfer_id@, peer@, views(files@), now),
        final(state)@ == old(state)@.with_transfer(r.report@),
        r.outgoing@ == (OutgoingView {
            transfer_id: transfer_id@,
            peer_name: peer@.name,
            file_count: files@.len() as usize,
            total_bytes: total_size(views(files@)) as u64,
            phase: SendPhase::Offered,
        }),
        r.header@ == (HeaderView::Send {
            from: own_ident(old(state)@),
            transfer_id: transfer_id@,
            files: views(files@),
        }),
        old(state)@.keyed() ==> final(state)@.keyed(),
{
    let total: u64 = total_bytes(&files);
    let header = HeaderMsg::Send {
        from: ident_of(state),
        transfer_id: transfer_id.clone(),
        files: files.clone(),
    };
    let outgoing = Outgoing {
        transfer_id: transfer_id.clone(),
        peer_name: peer.name.clone(),
        file_count: files.len(),
        total_bytes: total,
        phase: SendPhase::Offered,
    };
    assert(header@->Send_files =~= views(files@));
    let report = state.update_transfer(
        TransferProgress {
            transfer_id,
            created_at: now,
            direction: TransferDirection::Outgoing,
            peer_id: Some(peer.id.clone()),
            peer_name: peer.name.clone(),
            files,
            current_file_index: 0,
            bytes_sent: 0,
            total_bytes: total,
            status: TransferStatus::Pending,
            error: None,
        },
    );
    Offer { outgoing, header, report }
}

impl Outgoing {
    /// Whether the event can happen now, and the record that it bears on is there.
    pub fn ready<S>(&self, state: &AppState<S>, event: &SendEvent) -> (r: bool)
        ensures
            r == self@.can_step(state@, event@),
    {
        let known = state.active_transfers.contains(self.transfer_id.as_str());
        match (self.phase, event) {
            (SendPhase::Offered, SendEvent::Answered(_)) => known,
            (SendPhase::Streaming { index, sent }, SendEvent::Sent(n)) => {
                if index >= self.file_count || *n == 0 {
                    return false;
                }
                match sent.checked_add(*n as u64) {
                    Some(total) => !report_due(total, self.total_bytes) || known,
                    None => false,
                }
            },
            (SendPhase::Streaming { index, sent: _ }, SendEvent::FileEnded) => index
                < self.file_count,
            (SendPhase::Streaming { index, sent: _ }, SendEvent::Flushed) => index
                >= self.file_count && known,
            (SendPhase::Offered, SendEvent::Broken(_)) => known,
            (SendPhase::Streaming { index: _, sent: _ }, SendEvent::Broken(_)) => known,
            _ => false,
        }
    }

    /// Records that the transfer has failed.
    fn fail<S>(&mut self, state: &mut AppState<S>, earlier: Vec<TransferProgress>, message: String) -> (r:
        SendStep)
        requires
            old(state)@.transfers.contains_key(old(self)@.transfer_id),
        ensures
            final(self)@ == (OutgoingView { phase: SendPhase::Closed, ..old(self)@ }),
            ({
                let o = old(self)@.failed(old(state)@, views(earlier@), message@);
                &&& final(state)@ == o.state
                &&& views(r.reports@) == o.reports
                &&& r.action@ == o.action
            }),
            old(state)@.keyed() ==> final(state)@.keyed(),
    {
        let mut reports = earlier;
        let mut t = state.transfer(self.transfer_id.as_str()).unwrap();
        t.status = TransferStatus::Failed;
        t.error = Some(message.clone());
        let report = state.update_transfer(t);
        reports.push(report);
        assert(views(reports@) =~= views(earlier@).push(report@));
        self.phase = SendPhase::Closed;
        SendStep { reports, action: SendAction::Fail(message) }
    }

    /// The step after the current file, or after the answer.
    fn proceed(&self, index: usize) -> (r: SendAction)
        ensures
            r@ == from_file(self@, index),
    {
        if index < self.file_count {
            SendAction::Stream(index)
        } else {
            SendAction::Flush
        }
    }

    /// Takes in what has happened: records the progress and tells what is to be done next.
    pub fn step<S>(&mut self, state: &mut AppState<S>, event: SendEvent) -> (r: SendStep)
        requires
            old(self)@.can_step(old(state)@, event@),
        ensures
            ({
                let o = old(self)@.stepped(old(state)@, event@);
                &&& final(self)@ == (OutgoingView { phase: o.phase, ..old(self)@ })
                &&& final(state)@ == o.state
                &&& views(r.reports@) == o.reports
                &&& r.action@ == o.action
            }),
            old(state)@.keyed() ==> final(state)@.keyed(),
    {
        let ghost m = self@;
        let ghost st = state@;
        let mut reports: Vec<TransferProgress> = Vec::new();
        assert(views(reports@) =~= Seq::<TransferView>::empty());
        match (self.phase, event) {
            (SendPhase::Offered, SendEvent::Answered(answer)) => {
                let mut t = state.transfer(self.transfer_id.as_str()).unwrap();
                if answer.accepted {
                    t.status = TransferStatus::Active;
                    let report = state.update_transfer(t);
                    reports.push(report);
                    assert(views(reports@) =~= seq![report@]);
                    self.phase = SendPhase::Streaming { index: 0, sent: 0 };
                    let action = self.proceed(0);
                    SendStep { reports, action }
                } else {
                    t.status = TransferStatus::Rejected;
                    t.error = answer.reason.clone();
                    let report = state.update_transfer(t);
                    reports.push(report);
                    assert(views(reports@) =~= seq![report@]);
                    let message: String = match answer.reason {
                        Some(m) => m,
                        None => "rejected".to_string(),
                    };
                    self.fail(state, reports, message)
                }
            },
            (SendPhase::Streaming { index, sent }, SendEvent::Sent(n)) => {
                let now_sent: u64 = sent + n as u64;
                if report_due(now_sent, self.total_bytes) {
                    let mut t = state.transfer(self.transfer_id.as_str()).unwrap();
                    t.current_file_index = index;
                    t.bytes_sent = now_sent;
                    t.peer_name = self.peer_name.clone();
                    let report = state.update_transfer(t);
                    reports.push(report);
                    assert(views(reports@) =~= seq![report@]);
                }
                self.phase = SendPhase::Streaming { index, sent: now_sent };
                SendStep { reports, action: SendAction::Stream(index) }
            },
            (SendPhase::Streaming { index, sent }, SendEvent::FileEnded) => {
                self.phase = SendPhase::Streaming { index: index + 1, sent };
                let action = self.proceed(index + 1);
                SendStep { reports, action }
            },
            (SendPhase::Streaming { index: _, sent: _ }, SendEvent::Flushed) => {
                let mut t = state.transfer(self.transfer_id.as_str()).unwrap();
                t.status = TransferStatus::Completed;
                t.bytes_sent = t.total_bytes;
                let report = state.update_transfer(t);
                reports.push(report);
                assert(views(reports@) =~= seq![report@]);
                self.phase = SendPhase::Closed;
                SendStep { reports, action: SendAction::Succeed }
            },
            (_, SendEvent::Broken(message)) => self.fail(state, reports, message),
            _ => SendStep { reports, action: SendAction::Flush },
        }
    }
}

/// Nothing is sent before the other device has accepted, and nothing happens after the end.
pub proof fn nothing_is_sent_unasked<S>(m: OutgoingView, st: StateView<S>, e: SendEventView)
    requires
        m.can_step(st, e),
    ensures
        m.phase != SendPhase::Closed,
        m.phase == SendPhase::Offered && m.stepped(st, e).action is Stream ==> (e
            matches SendEventView::Answered(r) && r.accepted),
{
}

/// A refused offer ends at once: the record says why, first as rejected and then as failed, and so
/// does the failure.
pub proof fn refused_offer_fails<S>(m: OutgoingView, st: StateView<S>, r: ResponseView)
    requires
        st.keyed(),
        m.phase == SendPhase::Offered,
        m.can_step(st, SendEventView::Answered(r)),
        !r.accepted,
    ensures
        ({
            let o = m.stepped(st, SendEventView::Answered(r));
            let why = match r.reason {
                Some(reason) => reason,
                None => "rejected"@,
            };
            &&& o.phase == SendPhase::Closed
            &&& o.action == SendActionView::Fail(why)
            &&& o.reports.len() == 2
            &&& o.reports[0].status == TransferStatus::Rejected
            &&& o.reports[0].error == r.reason
            &&& o.reports[1].status == TransferStatus::Failed
            &&& o.state.transfers[m.transfer_id] == o.reports[1]
            &&& o.reports[1].error == Some(why)
        }),
{
}

/// A transfer succeeds only when all files have been sent and have left; its record is then
/// complete.
pub proof fn success_means_everything_left<S>(m: OutgoingView, st: StateView<S>, e: SendEventView)
    requires
        st.keyed(),
        m.can_step(st, e),
        m.stepped(st, e).action == SendActionView::Succeed,
    ensures
        e == SendEventView::Flushed,
        m.phase matches SendPhase::Streaming { index, sent } && index >= m.file_count,
        m.stepped(st, e).phase == SendPhase::Closed,
        m.stepped(st, e).state.transfers[m.transfer_id].status == TransferStatus::Completed,
        m.stepped(st, e).state.transfers[m.transfer_id].bytes_sent
            == m.stepped(st, e).state.transfers[m.transfer_id].total_bytes,
{
}

/// A step bears on the record of its own transfer alone, and on no other part of the state.
pub proof fn sending_touches_own_record<S>(
    m: OutgoingView,
    st: StateView<S>,
    e: SendEventView,
    other: Seq<char>,
)
    requires
        st.keyed(),
        m.can_step(st, e),
        other != m.transfer_id,
    ensures
        ({
            let after = m.stepped(st, e).state;
            &&& after == (StateView { transfers: after.transfers, ..st })
            &&& after.transfers.contains_key(other) == st.transfers.contains_key(other)
            &&& st.transfers.contains_key(other) ==> after.transfers[other] == st.transfers[other]
        }),
{
}

/// Whether `wire` is what has been sent of the files: those before the current one, and `off` bytes
/// of it.
pub open spec fn wire_holds(m: OutgoingView, contents: Seq<Seq<u8>>, off: int, wire: Seq<u8>) -> bool {
    match m.phase {
        SendPhase::Offered => wire.len() == 0,
        SendPhase::Streaming { index, sent } => {
            &&& sent == wire.len()
            &&& index <= contents.len()
            &&& if index < contents.len() {
                &&& 0 <= off <= contents[index as int].len()
                &&& wire == joined(contents.take(index as int)) + contents[index as int].take(off)
            } else {
                wire == joined(contents)
            }
        },
        SendPhase::Closed => true,
    }
}

/// What stands on the wire, and how much of the current file, when `e` has happened.
pub open spec fn wire_after(
    m: OutgoingView,
    contents: Seq<Seq<u8>>,
    off: int,
    wire: Seq<u8>,
    e: SendEventView,
) -> (Seq<u8>, int) {
    match (m.phase, e) {
        (SendPhase::Streaming { index, sent }, SendEventView::Sent(n)) => (
            wire + contents[index as int].subrange(off, off + n),
            off + n,
        ),
        (SendPhase::Streaming { index, sent }, SendEventView::FileEnded) => (wire, 0),
        (SendPhase::Offered, _) => (wire, 0),
        _ => (wire, off),
    }
}

/// However the files are cut up in sending, what stands on the wire is the files one after the
/// other; all of them when the transfer succeeds.
pub proof fn files_stand_on_the_wire<S>(
    m: OutgoingView,
    st: StateView<S>,
    e: SendEventView,
    contents: Seq<Seq<u8>>,
    off: int,
    wire: Seq<u8>,
)
    requires
        m.can_step(st, e),
        m.file_count == contents.len(),
        wire_holds(m, contents, off, wire),
        m.phase matches SendPhase::Streaming { index, sent } ==> match e {
            SendEventView::Sent(n) => off + n <= contents[index as int].len(),
            SendEventView::FileEnded => off == contents[index as int].len(),
            _ => true,
        },
    ensures
        ({
            let o = m.stepped(st, e);
            let (wire_now, off_now) = wire_after(m, contents, off, wire, e);
            &&& wire_holds(OutgoingView { phase: o.phase, ..m }, contents, off_now, wire_now)
            &&& o.action == SendActionView::Succeed ==> wire_now == joined(contents)
        }),
{
    match (m.phase, e) {
        (SendPhase::Offered, SendEventView::Answered(r)) => {
            assert(contents.take(0) =~= Seq::<Seq<u8>>::empty());
            if contents.len() > 0 {
                assert(wire =~= joined(contents.take(0)) + contents[0].take(0));
            } else {
                assert(contents =~= contents.take(0));
                assert(wire =~= joined(contents));
            }
        },
        (SendPhase::Streaming { index, sent }, SendEventView::Sent(n)) => {
            let c = contents[index as int];
            assert(c.take(off) + c.subrange(off, off + n) =~= c.take(off + n));
            assert(wire + c.subrange(off, off + n) =~= joined(contents.take(index as int)) + c.take(
                off + n,
            ));
        },
        (SendPhase::Streaming { index, sent }, SendEventView::FileEnded) => {
            let c = contents[index as int];
            let next = contents.take(index + 1);
            assert(c.take(off) =~= c);
            assert(next.drop_last() =~= contents.take(index as int));
            assert(wire =~= joined(next));
            if index + 1 < contents.len() {
                assert(wire =~= joined(next) + contents[index + 1].take(0));
            } else {
                assert(next =~= contents);
            }
        },
        _ => {},
    }
}

/// What happens to a transfer: each time the state as it is then, whatever else has changed it, and
/// the event.
pub type Course<S> = Seq<(StateView<S>, SendEventView)>;

/// The transfer when all of this has happened.
pub open spec fn after_course<S>(m: OutgoingView, course: Course<S>) -> OutgoingView
    decreases course.len(),
{
    if course.len() == 0 {
        m
    } else {
        let before = after_course(m, course.drop_last());
        OutgoingView { phase: before.stepped(course.last().0, course.last().1).phase, ..before }
    }
}

/// What stands on the wire, and how much of the current file, when all of this has happened.
pub open spec fn sent_after<S>(m: OutgoingView, contents: Seq<Seq<u8>>, course: Course<S>) -> (
    Seq<u8>,
    int,
)
    decreases course.len(),
{
    if course.len() == 0 {
        (Seq::empty(), 0)
    } else {
        let (wire, off) = sent_after(m, contents, course.drop_last());
        wire_after(after_course(m, course.drop_last()), contents, off, wire, course.last().1)
    }
}

/// Whether all of this can happen, one after the other, when the files hold `contents`: no more of a
/// file is sent than it holds, and it ends when all of it has been.
pub open spec fn can_happen<S>(m: OutgoingView, contents: Seq<Seq<u8>>, course: Course<S>) -> bool
    decreases course.len(),
{
    course.len() > 0 ==> {
        let before = after_course(m, course.drop_last());
        let off = sent_after(m, contents, course.drop_last()).1;
        &&& can_happen(m, contents, course.drop_last())
        &&& before.can_step(course.last().0, course.last().1)
        &&& before.phase matches SendPhase::Streaming { index, sent } ==> match course.last().1 {
            SendEventView::Sent(n) => off + n <= contents[index as int].len(),
            SendEventView::FileEnded => off == contents[index as int].len(),
            _ => true,
        }
    }
}

/// From the offer to the end, whatever else goes on: when a transfer succeeds, the files have been
/// put on the wire one after the other, and nothing else.
pub proof fn whole_transfer_is_sent<S>(m: OutgoingView, contents: Seq<Seq<u8>>, course: Course<S>)
    requires
        m.phase == SendPhase::Offered,
        m.file_count == contents.len(),
        can_happen(m, contents, course),
        course.len() > 0,
        after_course(m, course.drop_last()).stepped(course.last().0, course.last().1).action
            == SendActionView::Succeed,
    ensures
        sent_after(m, contents, course).0 == joined(contents),
{
    let earlier = course.drop_last();
    lemma_course(m, contents, earlier);
    let (wire, off) = sent_after(m, contents, earlier);
    files_stand_on_the_wire(
        after_course(m, earlier),
        course.last().0,
        course.last().1,
        contents,
        off,
        wire,
    );
}

/// What holds of the transfer and of the wire holds all along.
proof fn lemma_course<S>(m: OutgoingView, contents: Seq<Seq<u8>>, course: Course<S>)
    requires
        m.phase == SendPhase::Offered,
        m.file_count == contents.len(),
        can_happen(m, contents, course),
    ensures
        ({
            let after = after_course(m, course);
            let (wire, off) = sent_after(m, contents, course);
            &&& after == (OutgoingView { phase: after.phase, ..m })
            &&& wire_holds(after, contents, off, wire)
        }),
    decreases course.len(),
{
    if course.len() > 0 {
        let earlier = course.drop_last();
        lemma_course(m, contents, earlier);
        let (wire, off) = sent_after(m, contents, earlier);
        files_stand_on_the_wire(
            after_course(m, earlier),
            course.last().0,
            course.last().1,
            contents,
            off,
            wire,
        );
    }
}

/// Whatever it breaks off on, a transfer that fails is closed, and what is announced last and stays
/// recorded is that it has failed, and why. A failure that comes from outside is passed on in its own
/// words.
pub proof fn failure_is_recorded<S>(m: OutgoingView, st: StateView<S>, e: SendEventView)
    requires
        st.keyed(),
        m.can_step(st, e),
    ensures
        ({
            let o = m.stepped(st, e);
            &&& o.action matches SendActionView::Fail(why) ==> o.phase is Closed && o.reports.len() > 0
                && o.state.transfers.contains_key(m.transfer_id)
                && o.state.transfers[m.transfer_id] == o.reports.last() && o.reports.last().status
                == TransferStatus::Failed && o.reports.last().error == Some(why)
            &&& e matches SendEventView::Broken(why) ==> o.action == SendActionView::Fail(why)
            &&& o.phase is Closed ==> o.action is Fail || o.action is Succeed
        }),
{
}

/// A transfer that was not complete becomes so in no step but the one that succeeds, and that one
/// records all its bytes as sent; no record is taken to have failed in a step that goes on.
pub proof fn only_success_completes<S>(m: OutgoingView, st: StateView<S>, e: SendEventView)
    requires
        st.keyed(),
        m.can_step(st, e),
    ensures
        ({
            let o = m.stepped(st, e);
            let before = st.transfers[m.transfer_id];
            let after = o.state.transfers[m.transfer_id];
            &&& o.action is Succeed <==> e is Flushed
            &&& o.action is Succeed ==> o.phase is Closed && after.status
                == TransferStatus::Completed && after.bytes_sent == after.total_bytes && after.error
                == before.error
            &&& after.status == TransferStatus::Completed && before.status
                != TransferStatus::Completed ==> o.action is Succeed
            &&& after.status == TransferStatus::Failed && before.status != TransferStatus::Failed
                ==> o.action is Fail
            &&& after.status == TransferStatus::Rejected ==> before.status == TransferStatus::Rejected
        }),
{
}

/// What is announced last is what stays recorded, and where nothing is announced nothing changes. What
/// a transfer is, when it began and where it goes never changes.
pub proof fn announced_is_recorded<S>(m: OutgoingView, st: StateView<S>, e: SendEventView, i: int)
    requires
        st.keyed(),
        m.can_step(st, e),
    ensures
        ({
            let o = m.stepped(st, e);
            let before = st.transfers[m.transfer_id];
            &&& o.reports.len() == 0 ==> o.state == st
            &&& o.reports.len() > 0 ==> o.state.transfers.contains_key(m.transfer_id)
                && o.state.transfers[m.transfer_id] == o.reports.last()
            &&& 0 <= i < o.reports.len() ==> o.reports[i].transfer_id == m.transfer_id
                && o.reports[i].files == before.files && o.reports[i].total_bytes
                == before.total_bytes && o.reports[i].direction == before.direction
                && o.reports[i].created_at == before.created_at && o.reports[i].peer_id
                == before.peer_id
            &&& 0 <= i < o.reports.len() && !(e is Sent) ==> o.reports[i].peer_name
                == before.peer_name && o.reports[i].current_file_index == before.current_file_index
            &&& 0 <= i < o.reports.len() && !(e is Sent) && !(e is Flushed)
                ==> o.reports[i].bytes_sent == before.bytes_sent
            &&& o.state.settings == st.settings && o.state.contacts == st.contacts
                && o.state.identity == st.identity && o.state.data_dir == st.data_dir
                && o.state.auto_hide == st.auto_hide
        }),
{
}

/// Sending counts every byte once: the count grows by what was sent, and a report, which comes just
/// when one is due, gives the count, the file at hand and the receiver, and leaves the rest of the
/// record alone. The end of a file leads to the next one, and after the last to the end.
pub proof fn sending_counts_every_byte<S>(m: OutgoingView, st: StateView<S>, e: SendEventView)
    requires
        st.keyed(),
        m.can_step(st, e),
        m.phase is Streaming,
        e is Sent || e is FileEnded,
    ensures
        ({
            let o = m.stepped(st, e);
            let index = m.phase->Streaming_index;
            let sent = m.phase->sent;
            let before = st.transfers[m.transfer_id];
            &&& o.phase is Streaming
            &&& e matches SendEventView::Sent(n) ==> {
                &&& o.phase->sent == sent + n
                &&& o.phase->Streaming_index == index
                &&& o.action == SendActionView::Stream(index)
                &&& o.reports.len() == (if is_report_due(sent + n, m.total_bytes as int) {
                    1int
                } else {
                    0
                })
                &&& o.reports.len() > 0 ==> o.reports[0].bytes_sent == sent + n
                    && o.reports[0].current_file_index == index && o.reports[0].peer_name
                    == m.peer_name && o.reports[0].status == before.status && o.reports[0].error
                    == before.error
            }
            &&& e is FileEnded ==> {
                &&& o.phase->sent == sent
                &&& o.phase->Streaming_index == index + 1
                &&& o.reports.len() == 0
                &&& index + 1 < m.file_count ==> o.action == SendActionView::Stream(
                    (index + 1) as usize,
                )
                &&& index + 1 >= m.file_count ==> o.action is Flush
            }
        }),
{
}

/// The answer decides: a yes makes the transfer active and starts with the first file, or with the
/// end where there is none; a no is announced as a rejection with its reason, and fails the transfer
/// for that reason.
pub proof fn answer_decides<S>(m: OutgoingView, st: StateView<S>, r: ResponseView)
    requires
        st.keyed(),
        m.can_step(st, SendEventView::Answered(r)),
    ensures
        ({
            let o = m.stepped(st, SendEventView::Answered(r));
            let before = st.transfers[m.transfer_id];
            &&& r.accepted ==> {
                &&& o.phase == SendPhase::Streaming { index: 0, sent: 0 }
                &&& o.reports.len() == 1
                &&& o.reports[0].status == TransferStatus::Active
                &&& o.reports[0].error == before.error
                &&& m.file_count > 0 ==> o.action == SendActionView::Stream(0)
                &&& m.file_count == 0 ==> o.action is Flush
            }
            &&& !r.accepted ==> {
                &&& o.phase is Closed
                &&& o.reports.len() == 2
                &&& o.reports[0].status == TransferStatus::Rejected
                &&& o.reports[0].error == r.reason
                &&& o.reports[1].status == TransferStatus::Failed
                &&& r.reason is Some ==> o.action == SendActionView::Fail(r.reason->0)
                &&& r.reason is None ==> o.action == SendActionView::Fail("rejected"@)
            }
        }),
{
}

/// The record of an offered transfer names the receiver, lists the offered files with the sum of their
/// sizes, and says that it goes out, that it was offered now, and that nothing has been sent.
pub proof fn offer_is_recorded_as_made(
    transfer_id: Seq<char>,
    peer: PeerView,
    files: Seq<FileView>,
    now: u64,
)
    requires
        total_size(files) <= u64::MAX,
    ensures
        ({
            let t = offered_record(transfer_id, peer, files, now);
            &&& t.transfer_id == transfer_id
            &&& t.peer_id == Some(peer.id)
            &&& t.peer_name == peer.name
            &&& t.files == files
            &&& t.total_bytes == total_size(t.files)
            &&& t.direction == TransferDirection::Outgoing
            &&& t.created_at == now
            &&& t.status == TransferStatus::Pending
            &&& t.bytes_sent == 0
            &&& t.current_file_index == 0
            &&& t.error is None
        }),
{
    lemma_total_size_grows(files, 0);
}

/// What can happen when: an answer while one is awaited, bytes and the end of a file while there is one,
/// the last word when all files are out, a failure at any time before the end, and nothing after it.
pub proof fn sending_is_ready_for<S>(m: OutgoingView, st: StateView<S>, e: SendEventView)
    requires
        st.transfers.contains_key(m.transfer_id),
    ensures
        m.phase is Offered ==> (m.can_step(st, e) <==> e is Answered || e is Broken),
        m.phase is Closed ==> !m.can_step(st, e),
        m.phase matches SendPhase::Streaming { index, sent } ==> {
            &&& e is Answered ==> !m.can_step(st, e)
            &&& e is Broken ==> m.can_step(st, e)
            &&& e is FileEnded ==> (m.can_step(st, e) <==> index < m.file_count)
            &&& e is Flushed ==> (m.can_step(st, e) <==> index >= m.file_count)
            &&& e matches SendEventView::Sent(n) ==> (m.can_step(st, e) <==> index < m.file_count && n
                > 0 && sent + n <= u64::MAX)
        },
{
}

} // verus!
