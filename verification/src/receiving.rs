//! The steps of receiving files from another device.

use crate::commands::with_book;
use crate::contacts::{
    accepted_request_makes_contact, removed_contact_is_gone, request_opens_a_request,
};
use crate::filename::{found_name_is_free_and_safe, has_room, SearchView};
use crate::folder::{is_added_to, lemma_more_bytes, lemma_new_file, Folder};
use crate::ids::is_random_uuid;
use crate::sending::{self, OutgoingView, SendActionView, SendPhase};
use crate::settings::AllowMode;
use crate::state::{
    lemma_total_size_grows, total_bytes, total_size, AppState, ContactRequestInbound, FileView,
    InboundView, IncomingPrompt, PromptView, StateView, TransferDirection, TransferFileMeta, TransferProgress,
    TransferSource, TransferStatus, TransferView,
};
use crate::text::{opt_view, views};
use crate::transfer::{
    fits, inbound_of, is_report_due, is_safe, joined, lemma_joined, note_request, report_due,
    request_of, safe_name, safe_name_is_safe, sanitize_filename, with_contact_request, IdentView,
    PeerIdent, ResponseMsg, ResponseView, CHUNK_SIZE,
};
use vstd::prelude::*;

verus! {

/// What is made of a device that wants to send.
#[derive(Debug, Clone, Copy, PartialEq, Eq, Structural)]
pub enum Admission {
    /// It is blocked.
    Blocked,
    /// Only contacts may send, and it is none.
    Stranger,
    /// It may ask.
    Admitted,
}

/// Who may send: no blocked device, and where only contacts may, contacts.
pub open spec fn admission<S>(st: StateView<S>, id: Seq<char>) -> Admission {
    if st.contacts.is_blocked(id) {
        Admission::Blocked
    } else if st.settings.allow_mode == AllowMode::Contacts && !st.contacts.is_contact(id) {
        Admission::Stranger
    } else {
        Admission::Admitted
    }
}

/// Who may send.
pub fn gate<S>(state: &AppState<S>, id: &str) -> (r: Admission)
    ensures
        r == admission(state@, id@),
{
    if state.contacts.is_blocked(id) {
        return Admission::Blocked;
    }
    match state.settings.allow_mode {
        AllowMode::All => Admission::Admitted,
        AllowMode::Contacts => {
            if state.contacts.is_contact(id) {
                Admission::Admitted
            } else {
                Admission::Stranger
            }
        },
    }
}

/// The record of a transfer that another device has just offered.
pub open spec fn incoming_record(
    from: IdentView,
    transfer_id: Seq<char>,
    files: Seq<FileView>,
    now: u64,
) -> TransferView {
    TransferView {
        transfer_id,
        created_at: now,
        direction: TransferDirection::Incoming,
        peer_id: Some(from.id),
        peer_name: from.name,
        files,
        current_file_index: 0,
        bytes_sent: 0,
        total_bytes: total_size(files) as u64,
        status: TransferStatus::Pending,
        error: None,
    }
}

/// What the user is asked about a transfer that another device offers.
pub open spec fn peer_prompt(from: IdentView, transfer_id: Seq<char>, files: Seq<FileView>) -> PromptView {
    PromptView {
        transfer_id,
        from_id: from.id,
        from_name: from.name,
        from_avatar: from.avatar,
        files,
        total_bytes: total_size(files) as u64,
        source: TransferSource::Peer,
    }
}

/// What a device that may only ask for contact is told.
pub const STRANGER_REASON: &'static str = "Not in contacts. A contact request was created.";

/// How far the receiving side has come. `received` counts the bytes of all files.
#[derive(Debug, Clone, Copy, PartialEq, Eq, Structural)]
pub enum ReceivePhase {
    /// The user is asked.
    Deciding,
    /// The refusal is being sent.
    Declining,
    /// The acceptance is being sent.
    Accepting,
    /// File number `index` is being created.
    Creating { index: usize, received: u64 },
    /// File number `index` lacks `remaining` bytes.
    Reading { index: usize, remaining: u64, received: u64 },
    /// File number `index` is complete and is being made sure of.
    Flushing { index: usize, received: u64 },
    /// Nothing is left to do.
    Closed,
}

/// A transfer from another device.
#[derive(Debug)]
pub struct Incoming {
    pub transfer_id: String,
    /// Where the files are saved: the directory of the settings when the offer came.
    pub save_dir: String,
    pub files: Vec<TransferFileMeta>,
    pub total_bytes: u64,
    pub phase: ReceivePhase,
}

/// What has happened on the receiving side.
#[derive(Debug)]
pub enum ReceiveEvent {
    /// The user has decided.
    Decided(bool),
    /// The user has not decided in time, or nobody can any more.
    Undecided,
    /// The answer has been sent.
    Replied,
    /// The file has been created.
    Created,
    /// So many bytes have come in and are in the file; none when the connection was closed.
    Got(usize),
    /// The file has been made sure of.
    Flushed,
}

/// What is to be done next on the receiving side.
#[derive(Debug)]
pub enum ReceiveAction {
    /// Send this answer.
    Reply(ResponseMsg),
    /// Create a file with this name.
    Create(String),
    /// Read at most so many bytes into the file.
    Read(usize),
    /// Make sure of the file.
    Flush,
    /// The transfer is complete.
    Complete,
    /// The transfer was declined.
    Declined,
    /// The transfer has broken off; how.
    Abort(String),
}

/// What a step on the receiving side comes to.
#[derive(Debug)]
pub struct ReceiveStep {
    /// What is to be announced.
    pub report: Option<TransferProgress>,
    pub action: ReceiveAction,
}

/// A transfer from another device as a mathematical value.
#[verifier::ext_equal]
pub struct IncomingView {
    pub transfer_id: Seq<char>,
    pub save_dir: Seq<char>,
    pub files: Seq<FileView>,
    pub total_bytes: u64,
    pub phase: ReceivePhase,
}

/// An action on the receiving side as a mathematical value.
#[verifier::ext_equal]
pub enum ReceiveActionView {
    Reply(ResponseView),
    Create(Seq<char>),
    Read(usize),
    Flush,
    Complete,
    Declined,
    Abort(Seq<char>),
}

impl View for Incoming {
    type V = IncomingView;

    open spec fn view(&self) -> IncomingView {
        IncomingView {
            transfer_id: self.transfer_id@,
            save_dir: self.save_dir@,
            files: views(self.files@),
            total_bytes: self.total_bytes,
            phase: self.phase,
        }
    }
}

impl View for ReceiveAction {
    type V = ReceiveActionView;

    open spec fn view(&self) -> ReceiveActionView {
        match *self {
            ReceiveAction::Reply(r) => ReceiveActionView::Reply(r@),
            ReceiveAction::Create(n) => ReceiveActionView::Create(n@),
            ReceiveAction::Read(n) => ReceiveActionView::Read(n),
            ReceiveAction::Flush => ReceiveActionView::Flush,
            ReceiveAction::Complete => ReceiveActionView::Complete,
            ReceiveAction::Declined => ReceiveActionView::Declined,
            ReceiveAction::Abort(m) => ReceiveActionView::Abort(m@),
        }
    }
}

/// What a step on the receiving side makes of the transfer and of the state.
#[verifier::ext_equal]
#[verifier::reject_recursive_types(S)]
pub struct ReceiveOutcome<S> {
    pub phase: ReceivePhase,
    pub state: StateView<S>,
    pub report: Option<TransferView>,
    pub action: ReceiveActionView,
}

/// How many bytes are read at once when `remaining` are missing.
pub open spec fn chunk_of(remaining: int) -> int {
    if remaining < CHUNK_SIZE {
        remaining
    } else {
        CHUNK_SIZE as int
    }
}

impl IncomingView {
    /// The count of received bytes is that of the files before the current one and of what has
    /// come in of it.
    pub open spec fn consistent(self) -> bool {
        &&& self.total_bytes == total_size(self.files)
        &&& self.files.len() <= usize::MAX
        &&& match self.phase {
            ReceivePhase::Creating { index, received } => index < self.files.len() && received
                == total_size(self.files.take(index as int)),
            ReceivePhase::Reading { index, remaining, received } => index < self.files.len() && 0
                < remaining <= self.files[index as int].size && received == total_size(
                self.files.take(index as int),
            ) + self.files[index as int].size - remaining,
            ReceivePhase::Flushing { index, received } => index < self.files.len() && received
                == total_size(self.files.take(index + 1)),
            _ => true,
        }
    }

    /// Whether file number `index` is there.
    pub open spec fn has_file(self, index: int) -> bool {
        index < self.files.len()
    }

    /// Whether the event can happen now, and the record that it bears on is there.
    pub open spec fn can_step<S>(self, st: StateView<S>, e: ReceiveEvent) -> bool {
        let known = st.transfers.contains_key(self.transfer_id);
        match (self.phase, e) {
            (ReceivePhase::Deciding, ReceiveEvent::Decided(_)) => true,
            (ReceivePhase::Deciding, ReceiveEvent::Undecided) => true,
            (ReceivePhase::Declining, ReceiveEvent::Replied) => known,
            (ReceivePhase::Accepting, ReceiveEvent::Replied) => self.has_file(0) || known,
            (ReceivePhase::Creating { .. }, ReceiveEvent::Created) => true,
            (ReceivePhase::Reading { index, remaining, received }, ReceiveEvent::Got(n)) => {
                &&& n <= chunk_of(remaining as int)
                &&& n > 0 && is_report_due(received + n, self.total_bytes as int) ==> known
            },
            (ReceivePhase::Flushing { index, received }, ReceiveEvent::Flushed) => self.has_file(
                index + 1,
            ) || known,
            _ => false,
        }
    }

    /// What follows when `index` files are complete: the next one is created, or the transfer is
    /// complete.
    pub open spec fn onward<S>(self, st: StateView<S>, index: int, received: u64) -> ReceiveOutcome<S> {
        if self.has_file(index) {
            ReceiveOutcome {
                phase: ReceivePhase::Creating { index: index as usize, received },
                state: st,
                report: None,
                action: ReceiveActionView::Create(safe_name(self.files[index].name)),
            }
        } else {
            let t = st.transfers[self.transfer_id];
            let done = TransferView {
                status: TransferStatus::Completed,
                bytes_sent: t.total_bytes,
                ..t
            };
            ReceiveOutcome {
                phase: ReceivePhase::Closed,
                state: st.with_transfer(done),
                report: Some(done),
                action: ReceiveActionView::Complete,
            }
        }
    }

    /// The outcome that changes nothing but the phase.
    pub open spec fn quiet<S>(self, st: StateView<S>, phase: ReceivePhase, action: ReceiveActionView) -> ReceiveOutcome<S> {
        ReceiveOutcome { phase, state: st, report: None, action }
    }

    /// What an event leads to.
    pub open spec fn stepped<S>(self, st: StateView<S>, e: ReceiveEvent) -> ReceiveOutcome<S> {
        match (self.phase, e) {
            (ReceivePhase::Deciding, ReceiveEvent::Decided(accept)) => if accept {
                self.quiet(
                    st,
                    ReceivePhase::Accepting,
                    ReceiveActionView::Reply(ResponseView::yes()),
                )
            } else {
                self.quiet(
                    st,
                    ReceivePhase::Declining,
                    ReceiveActionView::Reply(ResponseView::no("declined"@)),
                )
            },
            (ReceivePhase::Deciding, ReceiveEvent::Undecided) => self.quiet(
                StateView { pending: st.pending.remove(self.transfer_id), ..st },
                ReceivePhase::Declining,
                ReceiveActionView::Reply(ResponseView::no("declined"@)),
            ),
            (ReceivePhase::Declining, ReceiveEvent::Replied) => {
                let rejected = TransferView {
                    status: TransferStatus::Rejected,
                    ..st.transfers[self.transfer_id]
                };
                ReceiveOutcome {
                    phase: ReceivePhase::Closed,
                    state: st.with_transfer(rejected),
                    report: Some(rejected),
                    action: ReceiveActionView::Declined,
                }
            },
            (ReceivePhase::Accepting, ReceiveEvent::Replied) => self.onward(st, 0, 0),
            (ReceivePhase::Creating { index, received }, ReceiveEvent::Created) => {
                let size = self.files[index as int].size;
                if size > 0 {
                    self.quiet(
                        st,
                        ReceivePhase::Reading { index, remaining: size, received },
                        ReceiveActionView::Read(chunk_of(size as int) as usize),
                    )
                } else {
                    self.quiet(
                        st,
                        ReceivePhase::Flushing { index, received },
                        ReceiveActionView::Flush,
                    )
                }
            },
            (ReceivePhase::Reading { index, remaining, received }, ReceiveEvent::Got(n)) => if n
                == 0 {
                self.quiet(
                    st,
                    ReceivePhase::Closed,
                    ReceiveActionView::Abort("connection closed mid-transfer"@),
                )
            } else {
                let left = (remaining - n) as u64;
                let now_received = (received + n) as u64;
                let moved = TransferView {
                    current_file_index: index,
                    bytes_sent: now_received,
                    status: TransferStatus::Active,
                    ..st.transfers[self.transfer_id]
                };
                let due = is_report_due(now_received as int, self.total_bytes as int);
                ReceiveOutcome {
                    phase: if left > 0 {
                        ReceivePhase::Reading { index, remaining: left, received: now_received }
                    } else {
                        ReceivePhase::Flushing { index, received: now_received }
                    },
                    state: if due {
                        st.with_transfer(moved)
                    } else {
                        st
                    },
                    report: if due {
                        Some(moved)
                    } else {
                        None
                    },
                    action: if left > 0 {
                        ReceiveActionView::Read(chunk_of(left as int) as usize)
                    } else {
                        ReceiveActionView::Flush
                    },
                }
            },
            (ReceivePhase::Flushing { index, received }, ReceiveEvent::Flushed) => self.onward(
                st,
                index + 1,
                received,
            ),
            _ => self.quiet(st, self.phase, ReceiveActionView::Flush),
        }
    }
}

/// What comes of an offer.
#[derive(Debug)]
pub enum IncomingStart {
    /// It is refused with this answer. Where the offer counts as a contact request, the user is
    /// shown it.
    Refused { response: ResponseMsg, inbound: Option<ContactRequestInbound> },
    /// The user is asked.
    Asked { incoming: Incoming, report: TransferProgress, prompt: IncomingPrompt },
    /// It is accepted with this answer.
    Welcome { incoming: Incoming, report: TransferProgress, response: ResponseMsg },
}

/// The transfer at its start.
pub open spec fn started(
    transfer_id: Seq<char>,
    save_dir: Seq<char>,
    files: Seq<FileView>,
    phase: ReceivePhase,
) -> IncomingView {
    IncomingView { transfer_id, save_dir, files, total_bytes: total_size(files) as u64, phase }
}

/// What comes of an offer as a mathematical value.
#[verifier::ext_equal]
pub enum StartView {
    Refused { response: ResponseView, inbound: Option<InboundView> },
    Asked { incoming: IncomingView, report: TransferView, prompt: PromptView },
    Welcome { incoming: IncomingView, report: TransferView, response: ResponseView },
}

impl View for IncomingStart {
    type V = StartView;

    open spec fn view(&self) -> StartView {
        match *self {
            IncomingStart::Refused { response, inbound } => StartView::Refused {
                response: response@,
                inbound: opt_view(inbound),
            },
            IncomingStart::Asked { incoming, report, prompt } => StartView::Asked {
                incoming: incoming@,
                report: report@,
                prompt: prompt@,
            },
            IncomingStart::Welcome { incoming, report, response } => StartView::Welcome {
                incoming: incoming@,
                report: report@,
                response: response@,
            },
        }
    }
}

impl StartView {
    /// The transfer that has begun, where one has.
    pub open spec fn begun(self) -> Option<IncomingView> {
        match self {
            StartView::Refused { response, inbound } => None,
            StartView::Asked { incoming, report, prompt } => Some(incoming),
            StartView::Welcome { incoming, report, response } => Some(incoming),
        }
    }
}

/// What an offer leads to. A blocked device is refused; where only contacts may send, so is any
/// other device that is none, and its offer counts as a contact request. From all others the
/// transfer is recorded, and the user is asked, with `waiter` to be told of the decision, unless the
/// settings have every transfer accepted.
pub open spec fn offered<S>(
    st: StateView<S>,
    from: IdentView,
    transfer_id: Seq<char>,
    files: Seq<FileView>,
    now: u64,
    waiter: S,
) -> (StateView<S>, StartView) {
    let record = incoming_record(from, transfer_id, files, now);
    let recorded = st.with_transfer(record);
    match admission(st, from.id) {
        Admission::Blocked => (
            st,
            StartView::Refused { response: ResponseView::no("blocked"@), inbound: None },
        ),
        Admission::Stranger => (
            with_contact_request(st, from, None, now),
            StartView::Refused {
                response: ResponseView::no(STRANGER_REASON@),
                inbound: Some(inbound_of(from, None)),
            },
        ),
        Admission::Admitted => if st.settings.require_accept {
            (
                StateView { pending: recorded.pending.insert(transfer_id, waiter), ..recorded },
                StartView::Asked {
                    incoming: started(
                        transfer_id,
                        st.settings.save_dir,
                        files,
                        ReceivePhase::Deciding,
                    ),
                    report: record,
                    prompt: peer_prompt(from, transfer_id, files),
                },
            )
        } else {
            (
                recorded,
                StartView::Welcome {
                    incoming: started(
                        transfer_id,
                        st.settings.save_dir,
                        files,
                        ReceivePhase::Accepting,
                    ),
                    report: record,
                    response: ResponseView::yes(),
                },
            )
        },
    }
}

/// Takes an offer in: refuses it, has the user asked about it, or accepts it.
pub fn handle_incoming_send<S>(
    state: &mut AppState<S>,
    from: PeerIdent,
    transfer_id: String,
    files: Vec<TransferFileMeta>,
    now: u64,
    waiter: S,
) -> (r: IncomingStart)
    requires
        admission(old(state)@, from@.id) is Admitted ==> total_size(views(files@)) <= u64::MAX,
    ensures
        (final(state)@, r@) == offered(
            old(state)@,
            from@,
            transfer_id@,
            views(files@),
            now,
            waiter,
        ),
        r@.begun() matches Some(m) ==> m.consistent(),
        old(state)@.keyed() ==> final(state)@.keyed(),
        old(state)@.contacts.coherent() ==> final(state)@.contacts.coherent(),
{
    match gate(state, from.id.as_str()) {
        Admission::Blocked => {
            return IncomingStart::Refused { response: ResponseMsg::no("blocked"), inbound: None };
        },
        Admission::Stranger => {
            let shown = note_request(state, from, None, now);
            return IncomingStart::Refused {
                response: ResponseMsg::no(STRANGER_REASON),
                inbound: Some(shown),
            };
        },
        Admission::Admitted => {},
    }
    let total: u64 = total_bytes(&files);
    let listed = files.clone();
    assert(views(listed@) =~= views(files@));
    let kept = files.clone();
    assert(views(kept@) =~= views(files@));
    let require_accept = state.settings.require_accept;
    let phase: ReceivePhase = if require_accept {
        ReceivePhase::Deciding
    } else {
        ReceivePhase::Accepting
    };
    let incoming = Incoming {
        transfer_id: transfer_id.clone(),
        save_dir: state.settings.save_dir.clone(),
        files: kept,
        total_bytes: total,
        phase,
    };
    let id = transfer_id.clone();
    let report = state.update_transfer(
        TransferProgress {
            transfer_id,
            created_at: now,
            direction: TransferDirection::Incoming,
            peer_id: Some(from.id.clone()),
            peer_name: from.name.clone(),
            files: listed,
            current_file_index: 0,
            bytes_sent: 0,
            total_bytes: total,
            status: TransferStatus::Pending,
            error: None,
        },
    );
    if require_accept {
        let prompt = IncomingPrompt {
            transfer_id: id.clone(),
            from_id: from.id,
            from_name: from.name,
            from_avatar: from.avatar,
            files,
            total_bytes: total,
            source: TransferSource::Peer,
        };
        state.pending_decisions.insert(id, waiter);
        IncomingStart::Asked { incoming, report, prompt }
    } else {
        IncomingStart::Welcome { incoming, report, response: ResponseMsg::yes() }
    }
}

/// How many bytes are read at once when `remaining` are missing.
pub fn chunk_len(remaining: u64) -> (r: usize)
    ensures
        r as int == chunk_of(remaining as int),
        r <= CHUNK_SIZE,
{
    if remaining < CHUNK_SIZE as u64 {
        remaining as usize
    } else {
        CHUNK_SIZE
    }
}

impl Incoming {
    /// Whether the event can happen now, and the record that it bears on is there.
    pub fn ready<S>(&self, state: &AppState<S>, event: &ReceiveEvent) -> (r: bool)
        requires
            self@.consistent(),
        ensures
            r == self@.can_step(state@, *event),
    {
        let known = state.active_transfers.contains(self.transfer_id.as_str());
        match (self.phase, event) {
            (ReceivePhase::Deciding, ReceiveEvent::Decided(_)) => true,
            (ReceivePhase::Deciding, ReceiveEvent::Undecided) => true,
            (ReceivePhase::Declining, ReceiveEvent::Replied) => known,
            (ReceivePhase::Accepting, ReceiveEvent::Replied) => 0 < self.files.len() || known,
            (ReceivePhase::Creating { index: _, received: _ }, ReceiveEvent::Created) => true,
            (ReceivePhase::Reading { index, remaining, received }, ReceiveEvent::Got(n)) => {
                proof {
                    lemma_total_size_grows(self@.files, index as int);
                    lemma_total_size_grows(self@.files, index + 1);
                }
                if *n > chunk_len(remaining) {
                    return false;
                }
                *n == 0 || !report_due(received + *n as u64, self.total_bytes) || known
            },
            (ReceivePhase::Flushing { index, received: _ }, ReceiveEvent::Flushed) => index
                + 1 < self.files.len() || known,
            _ => false,
        }
    }

    /// Goes on when `index` files are complete.
    fn go_on<S>(&mut self, state: &mut AppState<S>, index: usize, received: u64) -> (r: ReceiveStep)
        requires
            index < old(self).files@.len() || old(state)@.transfers.contains_key(
                old(self)@.transfer_id,
            ),
        ensures
            ({
                let o = old(self)@.onward(old(state)@, index as int, received);
                &&& final(self)@ == (IncomingView { phase: o.phase, ..old(self)@ })
                &&& final(state)@ == o.state
                &&& opt_view(r.report) == o.report
                &&& r.action@ == o.action
            }),
            old(state)@.keyed() ==> final(state)@.keyed(),
    {
        if index < self.files.len() {
            let name = sanitize_filename(self.files[index].name.as_str());
            self.phase = ReceivePhase::Creating { index, received };
            ReceiveStep { report: None, action: ReceiveAction::Create(name) }
        } else {
            let mut t = state.transfer(self.transfer_id.as_str()).unwrap();
            t.status = TransferStatus::Completed;
            t.bytes_sent = t.total_bytes;
            let report = state.update_transfer(t);
            self.phase = ReceivePhase::Closed;
            ReceiveStep { report: Some(report), action: ReceiveAction::Complete }
        }
    }

    /// Takes in what has happened: records the progress and tells what is to be done next.
    pub fn step<S>(&mut self, state: &mut AppState<S>, event: ReceiveEvent) -> (r: ReceiveStep)
        requires
            old(self)@.consistent(),
            old(self)@.can_step(old(state)@, event),
        ensures
            ({
                let o = old(self)@.stepped(old(state)@, event);
                &&& final(self)@ == (IncomingView { phase: o.phase, ..old(self)@ })
                &&& final(state)@ == o.state
                &&& opt_view(r.report) == o.report
                &&& r.action@ == o.action
            }),
            final(self)@.consistent(),
            old(state)@.keyed() ==> final(state)@.keyed(),
    {
        proof {
            receiving_stays_consistent(self@, state@, event);
        }
        match (self.phase, event) {
            (ReceivePhase::Deciding, ReceiveEvent::Decided(accept)) => {
                if accept {
                    self.phase = ReceivePhase::Accepting;
                    ReceiveStep { report: None, action: ReceiveAction::Reply(ResponseMsg::yes()) }
                } else {
                    self.phase = ReceivePhase::Declining;
                    ReceiveStep {
                        report: None,
                        action: ReceiveAction::Reply(ResponseMsg::no("declined")),
                    }
                }
            },
            (ReceivePhase::Deciding, ReceiveEvent::Undecided) => {
                let _ = state.pending_decisions.remove(self.transfer_id.as_str());
                self.phase = ReceivePhase::Declining;
                ReceiveStep {
                    report: None,
                    action: ReceiveAction::Reply(ResponseMsg::no("declined")),
                }
            },
            (ReceivePhase::Declining, ReceiveEvent::Replied) => {
                let mut t = state.transfer(self.transfer_id.as_str()).unwrap();
                t.status = TransferStatus::Rejected;
                let report = state.update_transfer(t);
                self.phase = ReceivePhase::Closed;
                ReceiveStep { report: Some(report), action: ReceiveAction::Declined }
            },
            (ReceivePhase::Accepting, ReceiveEvent::Replied) => self.go_on(state, 0, 0),
            (ReceivePhase::Creating { index, received }, ReceiveEvent::Created) => {
                let size: u64 = self.files[index].size;
                if size > 0 {
                    self.phase = ReceivePhase::Reading { index, remaining: size, received };
                    ReceiveStep { report: None, action: ReceiveAction::Read(chunk_len(size)) }
                } else {
                    self.phase = ReceivePhase::Flushing { index, received };
                    ReceiveStep { report: None, action: ReceiveAction::Flush }
                }
            },
            (ReceivePhase::Reading { index, remaining, received }, ReceiveEvent::Got(n)) => {
                if n == 0 {
                    self.phase = ReceivePhase::Closed;
                    return ReceiveStep {
                        report: None,
                        action: ReceiveAction::Abort("connection closed mid-transfer".to_string()),
                    };
                }
                proof {
                    lemma_total_size_grows(self@.files, index as int);
                    lemma_total_size_grows(self@.files, index + 1);
                }
                let left: u64 = remaining - n as u64;
                let now_received: u64 = received + n as u64;
                let mut report: Option<TransferProgress> = None;
                if report_due(now_received, self.total_bytes) {
                    let mut t = state.transfer(self.transfer_id.as_str()).unwrap();
                    t.current_file_index = index;
                    t.bytes_sent = now_received;
                    t.status = TransferStatus::Active;
                    report = Some(state.update_transfer(t));
                }
                if left > 0 {
                    self.phase = ReceivePhase::Reading {
                        index,
                        remaining: left,
                        received: now_received,
                    };
                    ReceiveStep { report, action: ReceiveAction::Read(chunk_len(left)) }
                } else {
                    self.phase = ReceivePhase::Flushing { index, received: now_received };
                    ReceiveStep { report, action: ReceiveAction::Flush }
                }
            },
            (ReceivePhase::Flushing { index, received }, ReceiveEvent::Flushed) => {
                let next: usize = index + 1;
                self.go_on(state, next, received)
            },
            _ => ReceiveStep { report: None, action: ReceiveAction::Flush },
        }
    }
}

/// The count of received bytes stays right through every step.
pub proof fn receiving_stays_consistent<S>(m: IncomingView, st: StateView<S>, e: ReceiveEvent)
    requires
        m.consistent(),
        m.can_step(st, e),
    ensures
        (IncomingView { phase: m.stepped(st, e).phase, ..m }).consistent(),
{
    match (m.phase, e) {
        (ReceivePhase::Accepting, ReceiveEvent::Replied) => {
            assert(m.files.take(0) =~= Seq::<FileView>::empty());
        },
        (ReceivePhase::Creating { index, received }, ReceiveEvent::Created) => {
            lemma_total_size_grows(m.files, index as int);
        },
        (ReceivePhase::Reading { index, remaining, received }, ReceiveEvent::Got(n)) => {
            lemma_total_size_grows(m.files, index as int);
            lemma_total_size_grows(m.files, index + 1);
        },
        _ => {},
    }
}

/// Nothing is saved before the offer has been accepted, and nothing happens after the end.
pub proof fn nothing_is_saved_unasked<S>(m: IncomingView, st: StateView<S>, e: ReceiveEvent)
    requires
        m.can_step(st, e),
    ensures
        m.phase != ReceivePhase::Closed,
        m.phase == ReceivePhase::Deciding ==> m.stepped(st, e).action is Reply,
        m.phase == ReceivePhase::Declining ==> m.stepped(st, e).phase == ReceivePhase::Closed,
        m.phase == ReceivePhase::Deciding && m.stepped(st, e).phase == ReceivePhase::Accepting
            ==> e == ReceiveEvent::Decided(true),
{
}

/// A declined offer, and one that nobody decides on in time, is answered with a refusal and recorded
/// as rejected.
pub proof fn declined_offer_is_rejected<S>(m: IncomingView, st: StateView<S>, e: ReceiveEvent)
    requires
        st.keyed(),
        st.transfers.contains_key(m.transfer_id),
        m.phase == ReceivePhase::Deciding,
        m.can_step(st, e),
        e != ReceiveEvent::Decided(true),
    ensures
        ({
            let first = m.stepped(st, e);
            let answered = IncomingView { phase: first.phase, ..m };
            let last = answered.stepped(first.state, ReceiveEvent::Replied);
            &&& first.action == ReceiveActionView::Reply(ResponseView::no("declined"@))
            &&& answered.can_step(first.state, ReceiveEvent::Replied)
            &&& last.phase == ReceivePhase::Closed
            &&& last.action == ReceiveActionView::Declined
            &&& last.state.transfers[m.transfer_id].status == TransferStatus::Rejected
        }),
{
}

/// Files are saved under safe names only, and never more is read than the current file lacks.
pub proof fn actions_are_bounded<S>(m: IncomingView, st: StateView<S>, e: ReceiveEvent)
    requires
        m.consistent(),
        m.can_step(st, e),
    ensures
        m.stepped(st, e).action matches ReceiveActionView::Create(name) ==> is_safe(name) && (m.stepped(
            st,
            e,
        ).phase matches ReceivePhase::Creating { index, received } && name == safe_name(
            m.files[index as int].name,
        )),
        m.stepped(st, e).action matches ReceiveActionView::Read(n) ==> 0 < n <= CHUNK_SIZE && (m.stepped(
            st,
            e,
        ).phase matches ReceivePhase::Reading { index, remaining, received } && n <= remaining),
{
    match m.stepped(st, e).action {
        ReceiveActionView::Create(name) => {
            match m.phase {
                ReceivePhase::Flushing { index, received } => {
                    safe_name_is_safe(m.files[index + 1].name);
                },
                _ => {
                    safe_name_is_safe(m.files[0].name);
                },
            }
        },
        _ => {},
    }
}

/// How many bytes have come in.
pub open spec fn received_of(phase: ReceivePhase) -> int {
    match phase {
        ReceivePhase::Creating { index, received } => received as int,
        ReceivePhase::Reading { index, remaining, received } => received as int,
        ReceivePhase::Flushing { index, received } => received as int,
        _ => 0,
    }
}

/// No more bytes come in than were announced, and a transfer is complete only when all have.
pub proof fn completion_means_all_bytes<S>(m: IncomingView, st: StateView<S>, e: ReceiveEvent)
    requires
        st.keyed(),
        m.consistent(),
        m.can_step(st, e),
    ensures
        received_of(m.phase) <= m.total_bytes,
        m.stepped(st, e).action == ReceiveActionView::Complete ==> {
            let t = m.stepped(st, e).state.transfers[m.transfer_id];
            &&& received_of(m.phase) == m.total_bytes
            &&& t.status == TransferStatus::Completed
            &&& t.bytes_sent == t.total_bytes
        },
{
    match m.phase {
        ReceivePhase::Creating { index, received } => {
            lemma_total_size_grows(m.files, index as int);
        },
        ReceivePhase::Reading { index, remaining, received } => {
            lemma_total_size_grows(m.files, index as int);
            lemma_total_size_grows(m.files, index + 1);
        },
        ReceivePhase::Flushing { index, received } => {
            lemma_total_size_grows(m.files, index + 1);
            if index + 1 == m.files.len() {
                assert(m.files.take(index + 1) =~= m.files);
            }
        },
        _ => {
            lemma_total_size_grows(m.files, 0);
            if m.files.len() == 0 {
                assert(total_size(m.files) == 0);
            }
        },
    }
}

/// A step bears on the record of its own transfer alone, and on no other part of the state but for
/// whoever waited for the decision on it.
pub proof fn receiving_touches_own_record<S>(
    m: IncomingView,
    st: StateView<S>,
    e: ReceiveEvent,
    other: Seq<char>,
)
    requires
        st.keyed(),
        m.can_step(st, e),
        other != m.transfer_id,
    ensures
        ({
            let after = m.stepped(st, e).state;
            &&& after == (StateView { transfers: after.transfers, pending: after.pending, ..st })
            &&& after.transfers.contains_key(other) == st.transfers.contains_key(other)
            &&& st.transfers.contains_key(other) ==> after.transfers[other] == st.transfers[other]
            &&& after.pending.contains_key(other) == st.pending.contains_key(other)
            &&& st.pending.contains_key(other) ==> after.pending[other] == st.pending[other]
        }),
{
}

/// Whether the saved files are the first of `contents`, and of the current one as much as has come
/// in.
pub open spec fn disk_holds(m: IncomingView, contents: Seq<Seq<u8>>, disk: Seq<Seq<u8>>) -> bool {
    match m.phase {
        ReceivePhase::Creating { index, received } => disk == contents.take(index as int),
        ReceivePhase::Reading { index, remaining, received } => disk == contents.take(
            index as int,
        ).push(contents[index as int].take(m.files[index as int].size - remaining)),
        ReceivePhase::Flushing { index, received } => disk == contents.take(index + 1),
        ReceivePhase::Closed => true,
        _ => disk.len() == 0,
    }
}

/// The saved files when `e` has happened: a new one has been created, or the bytes that stand next
/// on the wire are at the end of the current one.
pub open spec fn disk_after(
    m: IncomingView,
    wire: Seq<u8>,
    disk: Seq<Seq<u8>>,
    e: ReceiveEvent,
) -> Seq<Seq<u8>> {
    match (m.phase, e) {
        (ReceivePhase::Creating { index, received }, ReceiveEvent::Created) => disk.push(
            Seq::empty(),
        ),
        (
            ReceivePhase::Reading { index, remaining, received },
            ReceiveEvent::Got(n),
        ) => disk.drop_last().push(
            disk.last() + wire.subrange(received as int, received + n),
        ),
        _ => disk,
    }
}

/// However the bytes on the wire are cut up on their way, every file comes out as it went in; all
/// files are there when the transfer is complete.
pub proof fn received_files_are_those_sent<S>(
    m: IncomingView,
    st: StateView<S>,
    e: ReceiveEvent,
    contents: Seq<Seq<u8>>,
    disk: Seq<Seq<u8>>,
)
    requires
        m.consistent(),
        m.can_step(st, e),
        fits(m.files, contents),
        disk_holds(m, contents, disk),
    ensures
        ({
            let o = m.stepped(st, e);
            let disk_now = disk_after(m, joined(contents), disk, e);
            &&& disk_holds(IncomingView { phase: o.phase, ..m }, contents, disk_now)
            &&& o.action == ReceiveActionView::Complete ==> disk_now == contents
        }),
{
    let wire = joined(contents);
    match (m.phase, e) {
        (ReceivePhase::Accepting, ReceiveEvent::Replied) => {
            assert(disk =~= contents.take(0));
            if contents.len() == 0 {
                assert(disk =~= contents);
            }
        },
        (ReceivePhase::Creating { index, received }, ReceiveEvent::Created) => {
            let c = contents[index as int];
            assert(c.take(0) =~= Seq::<u8>::empty());
            if m.files[index as int].size == 0 {
                assert(c =~= Seq::<u8>::empty());
                assert(contents.take(index + 1) =~= contents.take(index as int).push(c));
            }
        },
        (ReceivePhase::Reading { index, remaining, received }, ReceiveEvent::Got(n)) => {
            let i = index as int;
            let c = contents[i];
            let size = m.files[i].size as int;
            let off = size - remaining;
            let start = total_size(m.files.take(i));
            lemma_joined(m.files, contents, i);
            assert(received == start + off);
            assert(wire.subrange(start, start + size).subrange(off, off + n) =~= wire.subrange(
                received as int,
                received + n,
            ));
            assert(c.take(off) + c.subrange(off, off + n) =~= c.take(off + n));
            assert(disk.drop_last() =~= contents.take(i));
            assert(disk.last() == c.take(off));
            let disk_now = disk_after(m, wire, disk, e);
            assert(disk_now =~= contents.take(i).push(c.take(off + n)));
            if n == remaining {
                assert(c.take(off + n) =~= c);
                assert(contents.take(i + 1) =~= contents.take(i).push(c));
            }
        },
        (ReceivePhase::Flushing { index, received }, ReceiveEvent::Flushed) => {
            if index + 1 == contents.len() {
                assert(contents.take(index + 1) =~= contents);
            }
        },
        _ => {},
    }
}

/// What happens to a transfer: each time the state as it is then, whatever else has changed it, and
/// the event.
pub type Course<S> = Seq<(StateView<S>, ReceiveEvent)>;

/// The transfer when all of this has happened.
pub open spec fn after_course<S>(m: IncomingView, course: Course<S>) -> IncomingView
    decreases course.len(),
{
    if course.len() == 0 {
        m
    } else {
        let before = after_course(m, course.drop_last());
        IncomingView { phase: before.stepped(course.last().0, course.last().1).phase, ..before }
    }
}

/// Whether all of this can happen, one after the other.
pub open spec fn can_happen<S>(m: IncomingView, course: Course<S>) -> bool
    decreases course.len(),
{
    course.len() > 0 ==> can_happen(m, course.drop_last()) && after_course(
        m,
        course.drop_last(),
    ).can_step(course.last().0, course.last().1)
}

/// The saved files when all of this has happened.
pub open spec fn saved_after<S>(m: IncomingView, wire: Seq<u8>, course: Course<S>) -> Seq<Seq<u8>>
    decreases course.len(),
{
    if course.len() == 0 {
        Seq::empty()
    } else {
        disk_after(
            after_course(m, course.drop_last()),
            wire,
            saved_after(m, wire, course.drop_last()),
            course.last().1,
        )
    }
}

/// From the offer to the end, whatever else goes on: when a transfer is complete, the saved files are
/// the files that stood on the wire.
pub proof fn whole_transfer_arrives<S>(m: IncomingView, contents: Seq<Seq<u8>>, course: Course<S>)
    requires
        m.consistent(),
        m.phase == ReceivePhase::Deciding || m.phase == ReceivePhase::Accepting,
        fits(m.files, contents),
        can_happen(m, course),
        course.len() > 0,
        after_course(m, course.drop_last()).stepped(course.last().0, course.last().1).action
            == ReceiveActionView::Complete,
    ensures
        saved_after(m, joined(contents), course) == contents,
{
    let earlier = course.drop_last();
    lemma_course(m, contents, earlier);
    received_files_are_those_sent(
        after_course(m, earlier),
        course.last().0,
        course.last().1,
        contents,
        saved_after(m, joined(contents), earlier),
    );
}

/// What one device sends is what another receives: when the one has succeeded, and the other, of which
/// the files were offered as long as they are, is complete over the same wire, the saved files are
/// the files that were sent.
pub proof fn files_go_through<S, T>(
    sender: OutgoingView,
    sent: sending::Course<S>,
    receiver: IncomingView,
    received: Course<T>,
    contents: Seq<Seq<u8>>,
)
    requires
        sender.phase == SendPhase::Offered,
        sender.file_count == contents.len(),
        sending::can_happen(sender, contents, sent),
        sent.len() > 0,
        sending::after_course(sender, sent.drop_last()).stepped(sent.last().0, sent.last().1).action
            == SendActionView::Succeed,
        receiver.consistent(),
        receiver.phase == ReceivePhase::Deciding || receiver.phase == ReceivePhase::Accepting,
        fits(receiver.files, contents),
        can_happen(receiver, received),
        received.len() > 0,
        after_course(receiver, received.drop_last()).stepped(
            received.last().0,
            received.last().1,
        ).action == ReceiveActionView::Complete,
    ensures
        saved_after(receiver, sending::sent_after(sender, contents, sent).0, received) == contents,
{
    sending::whole_transfer_is_sent(sender, contents, sent);
    whole_transfer_arrives(receiver, contents, received);
}

/// What holds of the transfer and of the saved files holds all along.
proof fn lemma_course<S>(m: IncomingView, contents: Seq<Seq<u8>>, course: Course<S>)
    requires
        m.consistent(),
        m.phase == ReceivePhase::Deciding || m.phase == ReceivePhase::Accepting,
        fits(m.files, contents),
        can_happen(m, course),
    ensures
        ({
            let after = after_course(m, course);
            &&& after == (IncomingView { phase: after.phase, ..m })
            &&& after.consistent()
            &&& disk_holds(after, contents, saved_after(m, joined(contents), course))
        }),
    decreases course.len(),
{
    if course.len() > 0 {
        let earlier = course.drop_last();
        lemma_course(m, contents, earlier);
        let before = after_course(m, earlier);
        receiving_stays_consistent(before, course.last().0, course.last().1);
        received_files_are_those_sent(
            before,
            course.last().0,
            course.last().1,
            contents,
            saved_after(m, joined(contents), earlier),
        );
    }
}

/// The answers that are sent when all of this happens.
pub open spec fn course_replies<S>(m: IncomingView, course: Course<S>) -> Seq<ResponseView>
    decreases course.len(),
{
    if course.len() == 0 {
        Seq::empty()
    } else {
        let before = course_replies(m, course.drop_last());
        let at = after_course(m, course.drop_last());
        match at.stepped(course.last().0, course.last().1).action {
            ReceiveActionView::Reply(r) => before.push(r),
            _ => before,
        }
    }
}

/// Whether a file is created or bytes of one are read when all of this happens.
pub open spec fn touches_files<S>(m: IncomingView, course: Course<S>) -> bool
    decreases course.len(),
{
    course.len() > 0 && {
        let at = after_course(m, course.drop_last());
        let action = at.stepped(course.last().0, course.last().1).action;
        touches_files(m, course.drop_last()) || action is Create || action is Read
    }
}

/// The answers to an offer: the one that it is refused or welcomed with, and those that follow.
pub open spec fn replies_to<S>(start: StartView, course: Course<S>) -> Seq<ResponseView> {
    match start {
        StartView::Refused { response, inbound } => seq![response],
        StartView::Asked { incoming, report, prompt } => course_replies(incoming, course),
        StartView::Welcome { incoming, report, response } => seq![response] + course_replies(
            incoming,
            course,
        ),
    }
}

/// Whether this can come after an offer: nothing after a refusal, and the decision, or that there
/// was none in time, where the user is asked.
pub open spec fn can_follow<S>(start: StartView, course: Course<S>) -> bool {
    match start {
        StartView::Refused { response, inbound } => course.len() == 0,
        StartView::Asked { incoming, report, prompt } => can_happen(incoming, course)
            && course.len() > 0,
        StartView::Welcome { incoming, report, response } => can_happen(incoming, course),
    }
}

/// The decision of the user, where there was one in time.
pub open spec fn decision_in<S>(course: Course<S>) -> Option<bool> {
    if course.len() == 0 {
        None
    } else {
        match course[0].1 {
            ReceiveEvent::Decided(accept) => Some(accept),
            _ => None,
        }
    }
}

/// An offer gets exactly one answer. It is accepted exactly where its sender is not blocked, is a
/// contact or need not be, and the user has agreed or need not be asked; and nothing is read or
/// saved unless it is.
pub proof fn offer_gets_one_answer<S>(
    st: StateView<S>,
    from: IdentView,
    transfer_id: Seq<char>,
    files: Seq<FileView>,
    now: u64,
    waiter: S,
    course: Course<S>,
)
    requires
        can_follow(offered(st, from, transfer_id, files, now, waiter).1, course),
    ensures
        ({
            let start = offered(st, from, transfer_id, files, now, waiter).1;
            let replies = replies_to(start, course);
            &&& replies.len() == 1
            &&& replies[0].accepted <==> {
                &&& !st.contacts.is_blocked(from.id)
                &&& st.settings.allow_mode == AllowMode::All || st.contacts.is_contact(from.id)
                &&& !st.settings.require_accept || decision_in(course) == Some(true)
            }
            &&& !replies[0].accepted ==> (start.begun() matches Some(m) ==> !touches_files(m, course))
        }),
{
    match offered(st, from, transfer_id, files, now, waiter).1 {
        StartView::Refused { response, inbound } => {},
        StartView::Asked { incoming, report, prompt } => {
            lemma_asked_course(incoming, course);
        },
        StartView::Welcome { incoming, report, response } => {
            lemma_welcome_course(incoming, course);
        },
    }
}

/// An accepted transfer sends no further answer.
proof fn lemma_welcome_course<S>(m: IncomingView, course: Course<S>)
    requires
        m.phase == ReceivePhase::Accepting,
        can_happen(m, course),
    ensures
        course_replies(m, course) == Seq::<ResponseView>::empty(),
        after_course(m, course).phase != ReceivePhase::Deciding,
        after_course(m, course).phase != ReceivePhase::Declining,
    decreases course.len(),
{
    if course.len() > 0 {
        lemma_welcome_course(m, course.drop_last());
    }
}

/// The decision makes the answer, and it is the only one.
proof fn lemma_asked_course<S>(m: IncomingView, course: Course<S>)
    requires
        m.phase == ReceivePhase::Deciding,
        can_happen(m, course),
        course.len() > 0,
    ensures
        course_replies(m, course) == seq![
            if decision_in(course) == Some(true) {
                ResponseView::yes()
            } else {
                ResponseView::no("declined"@)
            },
        ],
        after_course(m, course).phase != ReceivePhase::Deciding,
        decision_in(course) == Some(true) ==> after_course(m, course).phase
            != ReceivePhase::Declining,
        decision_in(course) != Some(true) ==> !touches_files(m, course) && (after_course(
            m,
            course,
        ).phase == ReceivePhase::Declining || after_course(m, course).phase
            == ReceivePhase::Closed),
    decreases course.len(),
{
    let earlier = course.drop_last();
    if course.len() == 1 {
        assert(course[0] == course.last());
        assert(after_course(m, earlier) == m);
        assert(course_replies(m, earlier) =~= Seq::<ResponseView>::empty());
        assert(!touches_files(m, earlier));
    } else {
        assert(earlier[0] == course[0]);
        lemma_asked_course(m, earlier);
    }
}

/// The name that file number `index` is saved under: the search's outcome for its safe name.
pub open spec fn target_for(m: IncomingView, folder: Folder, ids: Seq<Seq<char>>, index: int) -> Seq<
    char,
> {
    SearchView::begun(safe_name(m.files[index].name)).outcome(folder.files.dom(), ids[index])
}

/// The directory when `e` has happened: a new file has been created under the name that the search
/// came to, or the bytes that stand next on the wire are at the end of the last one.
pub open spec fn folder_after(
    m: IncomingView,
    wire: Seq<u8>,
    folder: Folder,
    ids: Seq<Seq<char>>,
    e: ReceiveEvent,
) -> Folder {
    match (m.phase, e) {
        (ReceivePhase::Creating { index, received }, ReceiveEvent::Created) => {
            folder.with_new(target_for(m, folder, ids, index as int))
        },
        (ReceivePhase::Reading { index, remaining, received }, ReceiveEvent::Got(n)) => {
            folder.with_more(wire.subrange(received as int, received + n))
        },
        _ => folder,
    }
}

/// The directory, which held `files` before, when all of this has happened.
pub open spec fn folder_after_course<S>(
    m: IncomingView,
    wire: Seq<u8>,
    files: Map<Seq<char>, Seq<u8>>,
    ids: Seq<Seq<char>>,
    course: Course<S>,
) -> Folder
    decreases course.len(),
{
    if course.len() == 0 {
        Folder { files, targets: Seq::empty() }
    } else {
        folder_after(
            after_course(m, course.drop_last()),
            wire,
            folder_after_course(m, wire, files, ids, course.drop_last()),
            ids,
            course.last().1,
        )
    }
}

/// Whether the directory had room for every file at the time that it was created, with `ids` for
/// those that no number was free for.
pub open spec fn had_room<S>(
    m: IncomingView,
    wire: Seq<u8>,
    files: Map<Seq<char>, Seq<u8>>,
    ids: Seq<Seq<char>>,
    course: Course<S>,
) -> bool
    decreases course.len(),
{
    course.len() > 0 ==> {
        let at = after_course(m, course.drop_last());
        let folder = folder_after_course(m, wire, files, ids, course.drop_last());
        &&& had_room(m, wire, files, ids, course.drop_last())
        &&& (at.phase, course.last().1) matches (
            ReceivePhase::Creating { index, received },
            ReceiveEvent::Created,
        ) ==> is_random_uuid(ids[index as int]) && has_room(
            safe_name(m.files[index as int].name),
            folder.files.dom(),
            ids[index as int],
        )
    }
}

/// How many files have been created.
pub open spec fn created_of(phase: ReceivePhase) -> int {
    match phase {
        ReceivePhase::Creating { index, received } => index as int,
        ReceivePhase::Reading { index, remaining, received } => index + 1,
        ReceivePhase::Flushing { index, received } => index + 1,
        _ => 0,
    }
}

/// Receiving overwrites nothing: every file is saved directly in the directory, under a safe name
/// that was not there before and that no other file of the transfer has; and every file that was
/// there before is there as it was.
pub proof fn received_files_overwrite_nothing<S>(
    m: IncomingView,
    wire: Seq<u8>,
    files: Map<Seq<char>, Seq<u8>>,
    ids: Seq<Seq<char>>,
    course: Course<S>,
)
    requires
        m.consistent(),
        m.phase == ReceivePhase::Deciding || m.phase == ReceivePhase::Accepting,
        can_happen(m, course),
        had_room(m, wire, files, ids, course),
    ensures
        is_added_to(
            files,
            folder_after_course(m, wire, files, ids, course),
            saved_after(m, wire, course),
        ),
{
    lemma_folder_course(m, wire, files, ids, course);
}

/// Through a whole transfer: when it is complete, the directory holds what it held before, and beside
/// it the files that stood on the wire, each under a safe name of its own.
pub proof fn whole_transfer_is_saved<S>(
    m: IncomingView,
    contents: Seq<Seq<u8>>,
    files: Map<Seq<char>, Seq<u8>>,
    ids: Seq<Seq<char>>,
    course: Course<S>,
)
    requires
        m.consistent(),
        m.phase == ReceivePhase::Deciding || m.phase == ReceivePhase::Accepting,
        fits(m.files, contents),
        can_happen(m, course),
        had_room(m, joined(contents), files, ids, course),
        course.len() > 0,
        after_course(m, course.drop_last()).stepped(course.last().0, course.last().1).action
            == ReceiveActionView::Complete,
    ensures
        is_added_to(
            files,
            folder_after_course(m, joined(contents), files, ids, course),
            contents,
        ),
{
    lemma_folder_course(m, joined(contents), files, ids, course);
    whole_transfer_arrives(m, contents, course);
}

/// What is true of the directory is true all along.
proof fn lemma_folder_course<S>(
    m: IncomingView,
    wire: Seq<u8>,
    files: Map<Seq<char>, Seq<u8>>,
    ids: Seq<Seq<char>>,
    course: Course<S>,
)
    requires
        m.consistent(),
        m.phase == ReceivePhase::Deciding || m.phase == ReceivePhase::Accepting,
        can_happen(m, course),
        had_room(m, wire, files, ids, course),
    ensures
        ({
            let after = after_course(m, course);
            let saved = saved_after(m, wire, course);
            &&& after == (IncomingView { phase: after.phase, ..m })
            &&& after.consistent()
            &&& after.phase != ReceivePhase::Closed ==> saved.len() == created_of(after.phase)
            &&& is_added_to(files, folder_after_course(m, wire, files, ids, course), saved)
        }),
    decreases course.len(),
{
    if course.len() > 0 {
        let earlier = course.drop_last();
        let e = course.last().1;
        lemma_folder_course(m, wire, files, ids, earlier);
        let at = after_course(m, earlier);
        let before = folder_after_course(m, wire, files, ids, earlier);
        let after = folder_after_course(m, wire, files, ids, course);
        let saved = saved_after(m, wire, earlier);
        let saved_now = saved_after(m, wire, course);
        receiving_stays_consistent(at, course.last().0, e);
        match (at.phase, e) {
            (ReceivePhase::Creating { index, received }, ReceiveEvent::Created) => {
                let name = safe_name(m.files[index as int].name);
                let t = target_for(at, before, ids, index as int);
                safe_name_is_safe(m.files[index as int].name);
                found_name_is_free_and_safe(name, before.files.dom(), ids[index as int]);
                assert(is_safe(t));
                lemma_new_file(files, before, saved, t);
            },
            (ReceivePhase::Reading { index, remaining, received }, ReceiveEvent::Got(n)) => {
                lemma_more_bytes(
                    files,
                    before,
                    saved,
                    wire.subrange(received as int, received + n),
                );
            },
            _ => {
                assert(after == before);
                assert(saved_now == saved);
            },
        }
    }
}

/// Where only contacts may send, a device that is none gets in by way of the user: its offer is
/// refused and noted as a request, and once the user has accepted that, its next offer is admitted.
pub proof fn accepted_stranger_is_admitted<S>(
    st: StateView<S>,
    from: IdentView,
    asked: u64,
    accepted: u64,
)
    requires
        st.contacts.coherent(),
        admission(st, from.id) is Stranger,
    ensures
        ({
            let noted = with_contact_request(st, from, None, asked);
            let after = with_book(noted, noted.contacts.with_accepted(from.id, accepted).0);
            &&& admission(noted, from.id) is Stranger
            &&& admission(after, from.id) is Admitted
        }),
{
    let req = request_of(from, None, asked);
    request_opens_a_request(st.contacts, req, from.id);
    accepted_request_makes_contact(st.contacts, req, accepted);
    assert(with_contact_request(st, from, None, asked).contacts.contact_ids()
        =~= st.contacts.contact_ids());
}

/// Who may send follows the settings and the contact book: where all may, only the blocked may not;
/// a removed contact may not where only contacts may; and a blocked device never may, whether it is
/// a contact or not.
pub proof fn admission_follows_the_book<S>(st: StateView<S>, id: Seq<char>)
    ensures
        st.settings.allow_mode == AllowMode::All ==> (admission(st, id) is Admitted
            <==> !st.contacts.is_blocked(id)),
        st.settings.allow_mode == AllowMode::Contacts ==> !(admission(
            with_book(st, st.contacts.without_contact(id)),
            id,
        ) is Admitted),
        st.contacts.is_blocked(id) ==> admission(st, id) is Blocked,
{
    removed_contact_is_gone(st.contacts, id, id);
}

/// Every transfer that an offer begins, whether the user is asked or it is welcomed at once, is the
/// offered one: it has the offered files, with the sum of their sizes, and its files go to the
/// directory of the settings.
pub proof fn begun_transfer_is_the_offered_one<S>(
    st: StateView<S>,
    from: IdentView,
    transfer_id: Seq<char>,
    files: Seq<FileView>,
    now: u64,
    waiter: S,
)
    requires
        total_size(files) <= u64::MAX,
    ensures
        offered(st, from, transfer_id, files, now, waiter).1.begun() matches Some(m) ==> m.transfer_id
            == transfer_id && m.save_dir == st.settings.save_dir && m.files == files && m.total_bytes
            == total_size(m.files),
{
    lemma_total_size_grows(files, 0);
}

/// An offer that begins a transfer is announced and recorded as made: by whom, of what, when, and that
/// nothing has come in yet. Every other record is as it was.
pub proof fn begun_transfer_is_recorded<S>(
    st: StateView<S>,
    from: IdentView,
    transfer_id: Seq<char>,
    files: Seq<FileView>,
    now: u64,
    waiter: S,
    other: Seq<char>,
)
    requires
        total_size(files) <= u64::MAX,
    ensures
        ({
            let (after, start) = offered(st, from, transfer_id, files, now, waiter);
            let t = after.transfers[transfer_id];
            &&& start.begun() is Some ==> {
                &&& after.transfers.contains_key(transfer_id)
                &&& t.transfer_id == transfer_id
                &&& t.peer_id == Some(from.id)
                &&& t.peer_name == from.name
                &&& t.files == files
                &&& t.total_bytes == total_size(t.files)
                &&& t.direction == TransferDirection::Incoming
                &&& t.created_at == now
                &&& t.status == TransferStatus::Pending
                &&& t.bytes_sent == 0
                &&& t.current_file_index == 0
                &&& t.error is None
                &&& after.contacts == st.contacts
            }
            &&& start matches StartView::Asked { incoming, report, prompt } ==> report == t
            &&& start matches StartView::Welcome { incoming, report, response } ==> report == t
            &&& start.begun() is None ==> after.transfers == st.transfers
            &&& other != transfer_id ==> after.transfers.contains_key(other)
                == st.transfers.contains_key(other) && (st.transfers.contains_key(other)
                ==> after.transfers[other] == st.transfers[other])
            &&& after.settings == st.settings && after.peers == st.peers && after.identity
                == st.identity && after.data_dir == st.data_dir && after.auto_hide == st.auto_hide
        }),
{
    lemma_total_size_grows(files, 0);
}

/// The user is asked about what was offered: the question names the sender, lists the offered files
/// with the sum of their sizes, and whoever waits under that transfer is the one who is to be told. A
/// welcomed offer leaves nobody waiting anew. The user is asked just when the settings want it.
pub proof fn question_is_about_the_offer<S>(
    st: StateView<S>,
    from: IdentView,
    transfer_id: Seq<char>,
    files: Seq<FileView>,
    now: u64,
    waiter: S,
    other: Seq<char>,
)
    requires
        total_size(files) <= u64::MAX,
    ensures
        ({
            let (after, start) = offered(st, from, transfer_id, files, now, waiter);
            &&& start matches StartView::Asked { incoming, report, prompt } ==> {
                &&& st.settings.require_accept
                &&& incoming.phase is Deciding
                &&& prompt.transfer_id == transfer_id
                &&& prompt.from_id == from.id
                &&& prompt.from_name == from.name
                &&& prompt.from_avatar == from.avatar
                &&& prompt.files == files
                &&& prompt.total_bytes == total_size(prompt.files)
                &&& prompt.source == TransferSource::Peer
                &&& after.pending.contains_key(transfer_id)
                &&& after.pending[transfer_id] == waiter
            }
            &&& start matches StartView::Welcome { incoming, report, response } ==> {
                &&& !st.settings.require_accept
                &&& incoming.phase is Accepting
                &&& response.accepted
                &&& response.reason is None
            }
            &&& !(start is Asked) ==> after.pending == st.pending
            &&& other != transfer_id ==> after.pending.contains_key(other)
                == st.pending.contains_key(other) && (st.pending.contains_key(other)
                ==> after.pending[other] == st.pending[other])
        }),
{
    lemma_total_size_grows(files, 0);
}

/// Who is refused, and what a refusal leaves behind: a blocked device is told so, and nothing changes;
/// where only contacts may send, a device that is none is told that it was taken to ask for contact,
/// and the user is shown its request, which carries its name and avatar and no message.
pub proof fn refusal_says_why<S>(
    st: StateView<S>,
    from: IdentView,
    transfer_id: Seq<char>,
    files: Seq<FileView>,
    now: u64,
    waiter: S,
)
    ensures
        ({
            let (after, start) = offered(st, from, transfer_id, files, now, waiter);
            let blocked = st.contacts.blocked.contains(from.id);
            let known = exists|i: int|
                0 <= i < st.contacts.contacts.len() && (#[trigger] st.contacts.contacts[i]).id
                    == from.id;
            let stranger = !blocked && st.settings.allow_mode == AllowMode::Contacts && !known;
            &&& start is Refused <==> blocked || stranger
            &&& start matches StartView::Refused { response, inbound } ==> {
                &&& !response.accepted
                &&& blocked ==> response.reason == Some("blocked"@) && inbound is None && after == st
                &&& stranger ==> response.reason == Some(
                    "Not in contacts. A contact request was created."@,
                )
                &&& stranger ==> (inbound matches Some(shown) && shown.id == from.id && shown.name
                    == from.name && shown.avatar == from.avatar && shown.message is None)
                &&& stranger ==> after.contacts.is_pending(from.id)
            }
        }),
{
    request_opens_a_request(st.contacts, request_of(from, None, now), from.id);
    let ids = st.contacts.contact_ids();
    if st.contacts.is_contact(from.id) {
        let i = choose|i: int| 0 <= i < ids.len() && ids[i] == from.id;
        assert(st.contacts.contacts[i].id == from.id);
    }
    if exists|i: int|
        0 <= i < st.contacts.contacts.len() && (#[trigger] st.contacts.contacts[i]).id == from.id {
        let i = choose|i: int|
            0 <= i < st.contacts.contacts.len() && (#[trigger] st.contacts.contacts[i]).id == from.id;
        assert(ids[i] == from.id);
    }
}

/// What is announced is what is recorded, and where nothing is announced no record changes. What a
/// transfer is, when it began and where it comes from never changes.
pub proof fn announced_is_recorded<S>(m: IncomingView, st: StateView<S>, e: ReceiveEvent)
    requires
        st.keyed(),
        m.can_step(st, e),
    ensures
        ({
            let o = m.stepped(st, e);
            let before = st.transfers[m.transfer_id];
            &&& o.report matches Some(t) ==> o.state.transfers.contains_key(m.transfer_id)
                && o.state.transfers[m.transfer_id] == t && t.transfer_id == m.transfer_id && t.files
                == before.files && t.total_bytes == before.total_bytes && t.direction
                == before.direction && t.created_at == before.created_at && t.peer_id
                == before.peer_id && t.peer_name == before.peer_name && t.error == before.error
            &&& o.report is None ==> o.state.transfers == st.transfers
            &&& o.state.settings == st.settings && o.state.contacts == st.contacts && o.state.peers
                == st.peers && o.state.identity == st.identity && o.state.data_dir == st.data_dir
                && o.state.auto_hide == st.auto_hide
        }),
{
}

/// Each end of a transfer is recorded as what it is: a complete one with all its bytes, a declined one
/// as rejected, and one that broke off is left as it stood. A step that goes on records at most that
/// the transfer is active.
pub proof fn end_is_recorded<S>(m: IncomingView, st: StateView<S>, e: ReceiveEvent)
    requires
        st.keyed(),
        m.can_step(st, e),
    ensures
        ({
            let o = m.stepped(st, e);
            let before = st.transfers[m.transfer_id];
            &&& o.action is Complete ==> o.phase is Closed && (o.report matches Some(t) && t.status
                == TransferStatus::Completed && t.bytes_sent == before.total_bytes
                && t.current_file_index == before.current_file_index)
            &&& o.action is Declined ==> o.phase is Closed && (o.report matches Some(t) && t.status
                == TransferStatus::Rejected && t.bytes_sent == before.bytes_sent
                && t.current_file_index == before.current_file_index)
            &&& o.action is Abort ==> o.phase is Closed && o.state == st
            &&& o.phase is Closed ==> o.action is Complete || o.action is Declined || o.action is Abort
            &&& o.action is Abort <==> e == ReceiveEvent::Got(0)
            &&& o.report matches Some(t) ==> (t.status == TransferStatus::Completed <==> o.action is Complete)
                && (t.status == TransferStatus::Rejected <==> o.action is Declined) && (t.status
                == TransferStatus::Active <==> e is Got)
        }),
{
}

/// The user's word is what the sender is told: a yes is passed on as one, and a no, or no word in time,
/// as a refusal. Only where no word came in time is the one who waited for it let go.
pub proof fn decision_is_passed_on<S>(m: IncomingView, st: StateView<S>, e: ReceiveEvent, other: Seq<char>)
    requires
        m.can_step(st, e),
    ensures
        ({
            let o = m.stepped(st, e);
            &&& o.action is Reply <==> e is Decided || e is Undecided
            &&& o.action matches ReceiveActionView::Reply(r) ==> {
                &&& r.accepted == (e == ReceiveEvent::Decided(true))
                &&& r.reason == (if r.accepted {
                    None
                } else {
                    Some("declined"@)
                })
                &&& r.accepted ==> o.phase is Accepting
                &&& !r.accepted ==> o.phase is Declining
                &&& o.report is None
            }
            &&& e is Undecided ==> !o.state.pending.contains_key(m.transfer_id)
            &&& other != m.transfer_id || !(e is Undecided) ==> o.state.pending.contains_key(other)
                == st.pending.contains_key(other) && (st.pending.contains_key(other)
                ==> o.state.pending[other] == st.pending[other])
        }),
{
}

/// Receiving counts every byte once: what came in is added to the count and taken from what the file
/// lacks, and a report, which comes just when one is due, gives the count and the file at hand. The file
/// is read on until it lacks nothing, and then made sure of.
pub proof fn receiving_counts_every_byte<S>(m: IncomingView, st: StateView<S>, e: ReceiveEvent)
    requires
        m.consistent(),
        m.can_step(st, e),
        m.phase is Reading,
        e matches ReceiveEvent::Got(n) && n > 0,
    ensures
        ({
            let o = m.stepped(st, e);
            let n = e->Got_0;
            let index = m.phase->Reading_index;
            let remaining = m.phase->remaining;
            let received = m.phase->Reading_received;
            &&& o.report is Some <==> is_report_due(received + n, m.total_bytes as int)
            &&& o.report matches Some(t) ==> t.bytes_sent == received + n && t.current_file_index
                == index
            &&& n < remaining ==> (o.phase matches ReceivePhase::Reading {
                index: i,
                remaining: left,
                received: all,
            } && i == index && left == remaining - n && all == received + n)
            &&& n < remaining ==> (o.action matches ReceiveActionView::Read(k) && 0 < k <= remaining - n
                && k <= 65_536 && (k < 65_536 ==> k == remaining - n))
            &&& n == remaining ==> (o.phase matches ReceivePhase::Flushing { index: i, received: all }
                && i == index && all == received + n) && o.action is Flush
        }),
{
    lemma_total_size_grows(m.files, m.phase->Reading_index as int);
    lemma_total_size_grows(m.files, m.phase->Reading_index + 1);
}

/// The files come one after the other: an accepted transfer begins with the first, each is read to its
/// described size, and made sure of before the next, which is saved under its own name made safe. After
/// the last the transfer is complete.
pub proof fn files_come_in_order<S>(m: IncomingView, st: StateView<S>, e: ReceiveEvent)
    requires
        m.consistent(),
        m.can_step(st, e),
    ensures
        ({
            let o = m.stepped(st, e);
            &&& o.phase matches ReceivePhase::Creating { index, received } ==> {
                &&& index < m.files.len()
                &&& o.action == ReceiveActionView::Create(safe_name(m.files[index as int].name))
                &&& m.phase is Accepting ==> index == 0 && received == 0
                &&& m.phase matches ReceivePhase::Flushing { index: last, received: all } ==> index
                    == last + 1 && received == all
                &&& m.phase is Accepting || m.phase is Flushing
            }
            &&& m.phase is Accepting ==> (o.action is Complete <==> m.files.len() == 0)
            &&& m.phase matches ReceivePhase::Flushing { index, received } ==> (o.action is Complete
                <==> index + 1 == m.files.len())
            &&& m.phase matches ReceivePhase::Creating { index, received } ==> {
                let size = m.files[index as int].size;
                &&& o.report is None
                &&& size > 0 ==> (o.phase matches ReceivePhase::Reading {
                    index: i,
                    remaining,
                    received: all,
                } && i == index && remaining == size && all == received)
                &&& size > 0 ==> (o.action matches ReceiveActionView::Read(k) && 0 < k <= size && k
                    <= 65_536 && (k < 65_536 ==> k == size))
                &&& size == 0 ==> (o.phase matches ReceivePhase::Flushing { index: i, received: all } && i
                    == index && all == received) && o.action is Flush
            }
        }),
{
}

/// What can happen when: a decision, or none in time, while the user is asked; that an answer is out while
/// it is being sent; that a file is there while it is created; bytes, no more than were asked for, while a
/// file lacks some; that it is made sure of while that is done; and nothing after the end.
pub proof fn receiving_is_ready_for<S>(m: IncomingView, st: StateView<S>, e: ReceiveEvent)
    requires
        st.transfers.contains_key(m.transfer_id),
    ensures
        m.phase is Deciding ==> (m.can_step(st, e) <==> e is Decided || e is Undecided),
        m.phase is Declining ==> (m.can_step(st, e) <==> e is Replied),
        m.phase is Accepting ==> (m.can_step(st, e) <==> e is Replied),
        m.phase is Creating ==> (m.can_step(st, e) <==> e is Created),
        m.phase matches ReceivePhase::Reading { index, remaining, received } ==> {
            &&& !(e is Got) ==> !m.can_step(st, e)
            &&& e matches ReceiveEvent::Got(n) ==> (m.can_step(st, e) <==> n <= remaining && n
                <= 65_536)
        },
        m.phase is Flushing ==> (m.can_step(st, e) <==> e is Flushed),
        m.phase is Closed ==> !m.can_step(st, e),
{
}

} // verus!
