//! Transfers between devices: what is said on the wire, what is sent, contact requests, and the
//! decisions of the user.

use crate::contacts::{
    accepted_request_makes_contact, request_is_kept_as_made, ContactRequest, RequestView,
};
use crate::filename::{
    drop_leading_dots, is_unsafe, lemma_without_leading_dots, mask, masked, masked_is_safe,
    without_leading_dots,
};
use crate::identity::{fingerprint, is_certificate_of, result_view};
use crate::state::{
    total_size, AppState, ContactRequestInbound, FileView, InboundView, PeerInfo, StateView,
    TransferFileMeta,
};
use crate::text::{opt_view, views};
use vstd::prelude::*;

verus! {

/// The most bytes that are read at once.
pub const CHUNK_SIZE: usize = 65_536;

/// The distance, in bytes, between two progress reports.
pub const REPORT_INTERVAL: u64 = 262_144;

/// How long, in seconds, the user may take to decide on a transfer from another device.
pub const DECISION_SECS: u64 = 120;

/// The first message on a connection.
#[derive(Debug)]
pub enum HeaderMsg {
    Send { from: PeerIdent, transfer_id: String, files: Vec<TransferFileMeta> },
    ContactRequest { from: PeerIdent, message: Option<String> },
}

/// Who is at the other end.
#[derive(Debug)]
pub struct PeerIdent {
    pub id: String,
    pub name: String,
    pub avatar: String,
}

/// The answer to the first message.
#[derive(Debug)]
pub struct ResponseMsg {
    pub accepted: bool,
    pub reason: Option<String>,
}

/// A sender as a mathematical value.
#[verifier::ext_equal]
pub struct IdentView {
    pub id: Seq<char>,
    pub name: Seq<char>,
    pub avatar: Seq<char>,
}

/// A first message as a mathematical value.
#[verifier::ext_equal]
pub enum HeaderView {
    Send { from: IdentView, transfer_id: Seq<char>, files: Seq<FileView> },
    ContactRequest { from: IdentView, message: Option<Seq<char>> },
}

/// An answer as a mathematical value.
#[verifier::ext_equal]
pub struct ResponseView {
    pub accepted: bool,
    pub reason: Option<Seq<char>>,
}

impl View for PeerIdent {
    type V = IdentView;

    open spec fn view(&self) -> IdentView {
        IdentView { id: self.id@, name: self.name@, avatar: self.avatar@ }
    }
}

impl View for HeaderMsg {
    type V = HeaderView;

    open spec fn view(&self) -> HeaderView {
        match *self {
            HeaderMsg::Send { from, transfer_id, files } => HeaderView::Send {
                from: from@,
                transfer_id: transfer_id@,
                files: views(files@),
            },
            HeaderMsg::ContactRequest { from, message } => HeaderView::ContactRequest {
                from: from@,
                message: opt_view(message),
            },
        }
    }
}

impl HeaderView {
    /// Who sends the message.
    pub open spec fn sender(self) -> IdentView {
        match self {
            HeaderView::Send { from, transfer_id, files } => from,
            HeaderView::ContactRequest { from, message } => from,
        }
    }
}

/// Whether the device that presented this certificate is the one that the message says it is from.
pub fn is_sent_by(header: &HeaderMsg, cert_der: &[u8]) -> (r: bool)
    ensures
        r == (fingerprint(cert_der@) == header@.sender().id),
{
    match header {
        HeaderMsg::Send { from, transfer_id: _, files: _ } => is_certificate_of(
            cert_der,
            from.id.as_str(),
        ),
        HeaderMsg::ContactRequest { from, message: _ } => is_certificate_of(
            cert_der,
            from.id.as_str(),
        ),
    }
}

impl View for ResponseMsg {
    type V = ResponseView;

    open spec fn view(&self) -> ResponseView {
        ResponseView { accepted: self.accepted, reason: opt_view(self.reason) }
    }
}

impl Clone for PeerIdent {
    fn clone(&self) -> (r: Self)
        ensures
            r@ == self@,
    {
        PeerIdent { id: self.id.clone(), name: self.name.clone(), avatar: self.avatar.clone() }
    }
}

impl ResponseView {
    /// The answer that lets a request pass.
    pub open spec fn yes() -> ResponseView {
        ResponseView { accepted: true, reason: None }
    }

    /// The answer that refuses a request, and why.
    pub open spec fn no(reason: Seq<char>) -> ResponseView {
        ResponseView { accepted: false, reason: Some(reason) }
    }
}

impl ResponseMsg {
    /// The answer that lets a request pass.
    pub fn yes() -> (r: Self)
        ensures
            r@ == ResponseView::yes(),
    {
        ResponseMsg { accepted: true, reason: None }
    }

    /// The answer that refuses a request, and why.
    pub fn no(reason: &str) -> (r: Self)
        ensures
            r@ == ResponseView::no(reason@),
    {
        ResponseMsg { accepted: false, reason: Some(reason.to_string()) }
    }
}

// ---- File names ----

/// The name that a received file is saved under: no separator, no control character, no leading
/// dot, and never empty.
pub open spec fn safe_name(name: Seq<char>) -> Seq<char> {
    let trimmed = without_leading_dots(masked(name));
    if trimmed.len() == 0 {
        "file"@
    } else {
        trimmed
    }
}

/// The name that a received file is saved under.
pub fn sanitize_filename(name: &str) -> (r: String)
    ensures
        r@ == safe_name(name@),
{
    let chars = mask(name);
    let trimmed = drop_leading_dots(&chars);
    if trimmed.as_str().is_empty() {
        "file".to_string()
    } else {
        trimmed
    }
}

/// The name that a received file is saved under is not empty, does not begin with a dot and holds
/// nothing that would lead out of the directory; and a name that is like that already is kept.
pub proof fn safe_name_is_safe(name: Seq<char>)
    ensures
        is_safe(safe_name(name)),
        is_safe(name) ==> safe_name(name) == name,
        safe_name(safe_name(name)) == safe_name(name),
{
    lemma_safe_name(name);
    lemma_safe_name_kept(name);
    lemma_safe_name_kept(safe_name(name));
}

/// Whether a name can stand in a directory as it is.
pub open spec fn is_safe(name: Seq<char>) -> bool {
    &&& name.len() > 0
    &&& name[0] != '.'
    &&& forall|i: int| 0 <= i < name.len() ==> !is_unsafe(#[trigger] name[i])
}

proof fn lemma_safe_name(name: Seq<char>)
    ensures
        is_safe(safe_name(name)),
{
    reveal_strlit("file");
    masked_is_safe(name);
    lemma_without_leading_dots(masked(name));
    let rest = without_leading_dots(masked(name));
    let n = choose|n: int| 0 <= n <= masked(name).len() && rest == #[trigger] masked(name).skip(n);
    assert forall|i: int| 0 <= i < rest.len() implies !is_unsafe(#[trigger] rest[i]) by {
        assert(rest[i] == masked(name)[n + i]);
    }
}

proof fn lemma_safe_name_kept(name: Seq<char>)
    ensures
        is_safe(name) ==> safe_name(name) == name,
{
    if is_safe(name) {
        assert(masked(name) =~= name);
    }
}

// ---- What is to be sent ----

/// A file that the user wants to send, as the file system shows it.
#[derive(Debug)]
pub struct SourceFile {
    /// The path as it appears in messages.
    pub shown: String,
    pub is_file: bool,
    /// The last part of the path, where it has one.
    pub file_name: Option<String>,
    /// The extension of the path, where it has one that is text.
    pub extension: Option<String>,
    pub size: u64,
}

/// A file to be sent as a mathematical value.
#[verifier::ext_equal]
pub struct SourceView {
    pub shown: Seq<char>,
    pub is_file: bool,
    pub file_name: Option<Seq<char>>,
    pub extension: Option<Seq<char>>,
    pub size: u64,
}

impl View for SourceFile {
    type V = SourceView;

    open spec fn view(&self) -> SourceView {
        SourceView {
            shown: self.shown@,
            is_file: self.is_file,
            file_name: opt_view(self.file_name),
            extension: opt_view(self.extension),
            size: self.size,
        }
    }
}

/// Why nothing can be sent.
#[derive(Debug)]
pub enum TransferError {
    /// The device to send files to is not known.
    NotOnNetwork,
    /// The device to ask for contact is not known.
    NotFound,
    /// A path does not lead to a regular file; the path as it appears in messages.
    NotAFile(String),
}

/// A sending error as a mathematical value.
#[verifier::ext_equal]
pub enum TransferErrorView {
    NotOnNetwork,
    NotFound,
    NotAFile(Seq<char>),
}

impl View for TransferError {
    type V = TransferErrorView;

    open spec fn view(&self) -> TransferErrorView {
        match *self {
            TransferError::NotOnNetwork => TransferErrorView::NotOnNetwork,
            TransferError::NotFound => TransferErrorView::NotFound,
            TransferError::NotAFile(p) => TransferErrorView::NotAFile(p@),
        }
    }
}

impl TransferError {
    /// The error in words.
    pub fn message(&self) -> (r: String)
        ensures
            r@ == (match self@ {
                TransferErrorView::NotOnNetwork => "peer not found on the network"@,
                TransferErrorView::NotFound => "peer not found"@,
                TransferErrorView::NotAFile(p) => p + " is not a regular file"@,
            }),
    {
        match self {
            TransferError::NotOnNetwork => "peer not found on the network".to_string(),
            TransferError::NotFound => "peer not found".to_string(),
            TransferError::NotAFile(p) => p.clone().concat(" is not a regular file"),
        }
    }
}

/// The media type that goes with a file extension, where one is known.
pub uninterp spec fn guessed_mime(extension: Seq<char>) -> Option<Seq<char>>;

/// Calls `mime_guess::from_ext` and takes the essence of its first guess. The outcome is named
/// `guessed_mime` of the extension: it comes from a fixed table.
#[verifier::external_body]
pub(crate) fn guess_mime(extension: &str) -> (r: Option<String>)
    ensures
        opt_view(r) == guessed_mime(extension@),
{
    mime_guess::from_ext(extension).first().map(|m| m.essence_str().to_string())
}

/// The description of a file of which the media type has been looked up.
pub fn file_meta(file_name: Option<String>, size: u64, mime: Option<String>) -> (r: TransferFileMeta)
    ensures
        r@ == (FileView {
            name: match opt_view(file_name) {
                Some(n) => n,
                None => "file"@,
            },
            size,
            mime: opt_view(mime),
        }),
{
    TransferFileMeta {
        name: match file_name {
            Some(n) => n,
            None => "file".to_string(),
        },
        size,
        mime,
    }
}

/// The description of a file that is to be sent.
pub open spec fn described(source: SourceView) -> Result<FileView, TransferErrorView> {
    if !source.is_file {
        Err(TransferErrorView::NotAFile(source.shown))
    } else {
        Ok(
            FileView {
                name: match source.file_name {
                    Some(n) => n,
                    None => "file"@,
                },
                size: source.size,
                mime: match source.extension {
                    Some(e) => guessed_mime(e),
                    None => None,
                },
            },
        )
    }
}

/// The description of a file that is to be sent, where it is a regular one.
pub fn describe_file(source: SourceFile) -> (r: Result<TransferFileMeta, TransferError>)
    ensures
        result_view(r) == described(source@),
{
    if !source.is_file {
        return Err(TransferError::NotAFile(source.shown));
    }
    let mime: Option<String> = match &source.extension {
        Some(e) => guess_mime(e.as_str()),
        None => None,
    };
    Ok(file_meta(source.file_name, source.size, mime))
}

/// The descriptions of files that are to be sent, in order, or what is wrong with the first that
/// cannot be.
pub open spec fn described_all(sources: Seq<SourceView>) -> Result<Seq<FileView>, TransferErrorView>
    decreases sources.len(),
{
    if sources.len() == 0 {
        Ok(Seq::empty())
    } else {
        match described_all(sources.drop_last()) {
            Ok(files) => match described(sources.last()) {
                Ok(f) => Ok(files.push(f)),
                Err(e) => Err(e),
            },
            Err(e) => Err(e),
        }
    }
}

/// The first file that cannot be sent decides.
proof fn lemma_first_error_stays(sources: Seq<SourceView>, i: int)
    requires
        0 <= i <= sources.len(),
        described_all(sources.take(i)) is Err,
    ensures
        described_all(sources) == described_all(sources.take(i)),
    decreases sources.len() - i,
{
    if i < sources.len() {
        assert(sources.take(i + 1).drop_last() =~= sources.take(i));
        lemma_first_error_stays(sources, i + 1);
    } else {
        assert(sources.take(i) =~= sources);
    }
}

/// The descriptions of files that are to be sent, where all are regular ones.
pub fn describe_files(sources: Vec<SourceFile>) -> (r: Result<Vec<TransferFileMeta>, TransferError>)
    ensures
        match r {
            Ok(files) => described_all(views(sources@)) == Ok::<Seq<FileView>, TransferErrorView>(
                views(files@),
            ),
            Err(e) => described_all(views(sources@)) == Err::<Seq<FileView>, TransferErrorView>(e@),
        },
{
    let ghost all = views(sources@);
    let mut files: Vec<TransferFileMeta> = Vec::new();
    assert(all.take(0) =~= Seq::<SourceView>::empty());
    assert(views(files@) =~= Seq::<FileView>::empty());
    for source in it: sources
        invariant
            it.seq() == sources@,
            all == views(sources@),
            described_all(all.take(it.index() as int)) == Ok::<Seq<FileView>, TransferErrorView>(
                views(files@),
            ),
    {
        let ghost i = it.index() as int;
        assert(source@ == all[i]);
        assert(all.take(i + 1).drop_last() =~= all.take(i));
        assert(all.take(i + 1).last() == all[i]);
        let ghost before = views(files@);
        match describe_file(source) {
            Ok(f) => {
                files.push(f);
                assert(views(files@) =~= before.push(f@));
            },
            Err(e) => {
                proof {
                    lemma_first_error_stays(all, i + 1);
                }
                return Err(e);
            },
        }
    }
    assert(all.take(all.len() as int) =~= all);
    Ok(files)
}

/// The device to send files to.
pub fn find_peer<S>(state: &AppState<S>, peer_id: &str) -> (r: Result<PeerInfo, TransferError>)
    ensures
        result_view(r) == (if state@.peers.contains_key(peer_id@) {
            Ok(state@.peers[peer_id@])
        } else {
            Err(TransferErrorView::NotOnNetwork)
        }),
{
    match state.peer(peer_id) {
        Some(p) => Ok(p),
        None => Err(TransferError::NotOnNetwork),
    }
}

/// How this device presents itself on the wire.
pub open spec fn own_ident<S>(st: StateView<S>) -> IdentView {
    IdentView {
        id: st.identity.fingerprint,
        name: st.settings.device_name,
        avatar: st.settings.device_avatar,
    }
}

/// How this device presents itself on the wire.
pub fn ident_of<S>(state: &AppState<S>) -> (r: PeerIdent)
    ensures
        r@ == own_ident(state@),
{
    PeerIdent {
        id: state.identity.fingerprint.clone(),
        name: state.settings.device_name.clone(),
        avatar: state.settings.device_avatar.clone(),
    }
}

// ---- Contact requests ----

/// The device to ask for contact, and the message that asks.
pub fn send_contact_request<S>(
    state: &AppState<S>,
    peer_id: &str,
    message: Option<String>,
) -> (r: Result<(PeerInfo, HeaderMsg), TransferError>)
    ensures
        match r {
            Ok((peer, header)) => state@.peers.contains_key(peer_id@) && peer@
                == state@.peers[peer_id@] && header@ == (HeaderView::ContactRequest {
                from: own_ident(state@),
                message: opt_view(message),
            }),
            Err(e) => !state@.peers.contains_key(peer_id@) && e@ == TransferErrorView::NotFound,
        },
{
    match state.peer(peer_id) {
        Some(peer) => Ok((peer, HeaderMsg::ContactRequest { from: ident_of(state), message })),
        None => Err(TransferError::NotFound),
    }
}

/// The request that `from` makes at `now`.
pub open spec fn request_of(from: IdentView, message: Option<Seq<char>>, now: u64) -> RequestView {
    RequestView {
        id: from.id,
        name: from.name,
        avatar: from.avatar,
        message,
        requested_at: now,
    }
}

/// The request of `from` as the user is shown it.
pub open spec fn inbound_of(from: IdentView, message: Option<Seq<char>>) -> InboundView {
    InboundView { id: from.id, name: from.name, avatar: from.avatar, message }
}

/// The state after `from` has made a request at `now`.
pub open spec fn with_contact_request<S>(
    st: StateView<S>,
    from: IdentView,
    message: Option<Seq<char>>,
    now: u64,
) -> StateView<S> {
    StateView { contacts: st.contacts.with_request(request_of(from, message, now)), ..st }
}

/// Notes the request of `from` and gives what the user is shown of it.
pub(crate) fn note_request<S>(
    state: &mut AppState<S>,
    from: PeerIdent,
    message: Option<String>,
    now: u64,
) -> (r: ContactRequestInbound)
    ensures
        final(state)@ == with_contact_request(old(state)@, from@, opt_view(message), now),
        r@ == inbound_of(from@, opt_view(message)),
        old(state)@.contacts.coherent() ==> final(state)@.contacts.coherent(),
{
    let shown = ContactRequestInbound {
        id: from.id.clone(),
        name: from.name.clone(),
        avatar: from.avatar.clone(),
        message: message.clone(),
    };
    state.contacts.upsert_pending(
        ContactRequest {
            id: from.id,
            name: from.name,
            avatar: from.avatar,
            message,
            requested_at: now,
        },
    );
    shown
}

/// What comes of a contact request.
#[derive(Debug)]
pub struct ContactReply {
    pub response: ResponseMsg,
    /// What the user is shown, where the request was noted.
    pub inbound: Option<ContactRequestInbound>,
}

/// Takes a contact request in: a blocked device is refused, any other is told that its request was
/// taken, and the user is shown it.
pub fn handle_contact_request<S>(
    state: &mut AppState<S>,
    from: PeerIdent,
    message: Option<String>,
    now: u64,
) -> (r: ContactReply)
    ensures
        final(state)@ == (if old(state)@.contacts.is_blocked(from@.id) {
            old(state)@
        } else {
            with_contact_request(old(state)@, from@, opt_view(message), now)
        }),
        r.response@ == (if old(state)@.contacts.is_blocked(from@.id) {
            ResponseView::no("blocked"@)
        } else {
            ResponseView::yes()
        }),
        opt_view(r.inbound) == (if old(state)@.contacts.is_blocked(from@.id) {
            None
        } else {
            Some(inbound_of(from@, opt_view(message)))
        }),
        old(state)@.contacts.coherent() ==> final(state)@.contacts.coherent(),
{
    if state.contacts.is_blocked(from.id.as_str()) {
        return ContactReply { response: ResponseMsg::no("blocked"), inbound: None };
    }
    let shown = note_request(state, from, message, now);
    ContactReply { response: ResponseMsg::yes(), inbound: Some(shown) }
}

// ---- Decisions of the user ----

/// Takes out whoever waits for the decision on a transfer, together with the decision.
pub fn decide_pending<S>(state: &mut AppState<S>, transfer_id: &str, accept: bool) -> (r: Option<
    (S, bool),
>)
    ensures
        final(state)@ == (StateView {
            pending: old(state)@.pending.remove(transfer_id@),
            ..old(state)@
        }),
        r == (if old(state)@.pending.contains_key(transfer_id@) {
            Some((old(state)@.pending[transfer_id@], accept))
        } else {
            None
        }),
{
    match state.pending_decisions.remove(transfer_id) {
        Some(waiter) => Some((waiter, accept)),
        None => None,
    }
}

/// Whether progress is reported at `bytes` of `total`: in the first chunk of every interval, and
/// at the end.
pub open spec fn is_report_due(bytes: int, total: int) -> bool {
    bytes % (REPORT_INTERVAL as int) < CHUNK_SIZE || bytes == total
}

/// Whether progress is reported at `bytes` of `total`.
pub fn report_due(bytes: u64, total: u64) -> (r: bool)
    ensures
        r == is_report_due(bytes as int, total as int),
{
    bytes % REPORT_INTERVAL < CHUNK_SIZE as u64 || bytes == total
}

/// Where chunks come in, progress is reported at least once in every interval, and at the end.
pub proof fn progress_is_reported(before: int, n: int, total: int)
    requires
        0 <= before,
        0 < n <= CHUNK_SIZE,
    ensures
        before / (REPORT_INTERVAL as int) < (before + n) / (REPORT_INTERVAL as int) ==> is_report_due(
            before + n,
            total,
        ),
        before + n == total ==> is_report_due(before + n, total),
{
}

/// The bytes of all files one after the other: what stands on the wire after the answer.
pub open spec fn joined(contents: Seq<Seq<u8>>) -> Seq<u8>
    decreases contents.len(),
{
    if contents.len() == 0 {
        Seq::empty()
    } else {
        joined(contents.drop_last()) + contents.last()
    }
}

/// Whether the files are as long as they are described.
pub open spec fn fits(files: Seq<FileView>, contents: Seq<Seq<u8>>) -> bool {
    &&& contents.len() == files.len()
    &&& forall|i: int| 0 <= i < files.len() ==> (#[trigger] contents[i]).len() == files[i].size
}

/// Where a file stands on the wire.
pub(crate) proof fn lemma_joined(files: Seq<FileView>, contents: Seq<Seq<u8>>, i: int)
    requires
        fits(files, contents),
        0 <= i < files.len(),
    ensures
        joined(contents.take(i)).len() == total_size(files.take(i)),
        total_size(files.take(i)) + files[i].size <= joined(contents).len(),
        joined(contents).subrange(
            total_size(files.take(i)),
            total_size(files.take(i)) + files[i].size,
        ) == contents[i],
    decreases contents.len() - i,
{
    lemma_joined_len(files, contents, i);
    let start = total_size(files.take(i));
    let end = start + files[i].size;
    assert(contents.take(i + 1).drop_last() =~= contents.take(i));
    lemma_joined_prefix(contents, i + 1);
    let whole = joined(contents);
    let part = joined(contents.take(i + 1));
    assert(part =~= joined(contents.take(i)) + contents[i]);
    assert(whole.subrange(start, end) =~= part.subrange(start, end));
    assert(part.subrange(start, end) =~= contents[i]);
}

/// The first files together are as long as they are described.
proof fn lemma_joined_len(files: Seq<FileView>, contents: Seq<Seq<u8>>, i: int)
    requires
        fits(files, contents),
        0 <= i <= files.len(),
    ensures
        joined(contents.take(i)).len() == total_size(files.take(i)),
    decreases i,
{
    if i > 0 {
        lemma_joined_len(files, contents, i - 1);
        assert(contents.take(i).drop_last() =~= contents.take(i - 1));
        assert(files.take(i).drop_last() =~= files.take(i - 1));
    }
}

/// The first files stand first.
pub(crate) proof fn lemma_joined_prefix(contents: Seq<Seq<u8>>, i: int)
    requires
        0 <= i <= contents.len(),
    ensures
        joined(contents.take(i)).len() <= joined(contents).len(),
        joined(contents.take(i)) == joined(contents).take(joined(contents.take(i)).len() as int),
    decreases contents.len() - i,
{
    if i < contents.len() {
        lemma_joined_prefix(contents, i + 1);
        assert(contents.take(i + 1).drop_last() =~= contents.take(i));
        let longer = joined(contents.take(i + 1));
        let shorter = joined(contents.take(i));
        assert(shorter =~= longer.take(shorter.len() as int));
        assert(shorter =~= joined(contents).take(shorter.len() as int));
    } else {
        assert(contents.take(i) =~= contents);
        assert(joined(contents) =~= joined(contents).take(joined(contents).len() as int));
    }
}

/// A decision reaches whoever waits for it, once: after it nobody waits for a decision on that
/// transfer, and for any other transfer everything is as it was.
pub proof fn decision_reaches_one<S>(st: StateView<S>, id: Seq<char>, other: Seq<char>)
    requires
        other != id,
    ensures
        !st.pending.remove(id).contains_key(id),
        st.pending.remove(id).contains_key(other) == st.pending.contains_key(other),
        st.pending.contains_key(other) ==> st.pending.remove(id)[other] == st.pending[other],
{
}

/// A received file keeps its name as far as that can stand: its leading dots go, separators and
/// control characters become underscores, and all else is kept. A name of nothing but dots becomes
/// "file".
pub proof fn safe_name_keeps_the_rest(name: Seq<char>, n: int)
    requires
        0 <= n <= name.len(),
        forall|k: int| 0 <= k < n ==> name[k] == '.',
        n < name.len() ==> name[n] != '.',
    ensures
        n == name.len() ==> safe_name(name) == "file"@,
        n < name.len() ==> safe_name(name).len() == name.len() - n,
        forall|i: int|
            n <= i < name.len() ==> #[trigger] safe_name(name)[i - n] == (if name[i] == '/' || name[i]
                == '\\' || name[i] as int <= 0x1f || 0x7f <= name[i] as int <= 0x9f {
                '_'
            } else {
                name[i]
            }),
{
    let m = masked(name);
    lemma_without_leading_dots(m);
    let k = choose|k: int|
        0 <= k <= m.len() && without_leading_dots(m) == #[trigger] m.skip(k) && forall|j: int|
            0 <= j < k ==> m[j] == '.';
    assert forall|j: int| 0 <= j < name.len() implies (m[j] == '.' <==> name[j] == '.') by {}
    if k < n {
        assert(m.skip(k)[0] == m[k]);
        assert(m[k] == '.');
    } else if k > n {
        assert(m[n] == '.');
    }
    assert(k == n);
    assert forall|i: int| n <= i < name.len() implies #[trigger] safe_name(name)[i - n] == m[i] by {
        assert(m.skip(n)[i - n] == m[i]);
    }
}

/// A request is noted under the name, the avatar and with the message of the one who makes it, and the
/// user is shown just that; nothing but the open requests changes.
pub proof fn noted_request_names_its_sender<S>(
    st: StateView<S>,
    from: IdentView,
    message: Option<Seq<char>>,
    now: u64,
)
    requires
        !st.contacts.is_contact(from.id),
    ensures
        ({
            let after = with_contact_request(st, from, message, now);
            let shown = inbound_of(from, message);
            &&& exists|i: int|
                0 <= i < after.contacts.pending.len() && (#[trigger] after.contacts.pending[i]).id
                    == from.id && after.contacts.pending[i].name == from.name
                    && after.contacts.pending[i].avatar == from.avatar
                    && after.contacts.pending[i].message == message
                    && after.contacts.pending[i].requested_at == now
            &&& shown.id == from.id
            &&& shown.name == from.name
            &&& shown.avatar == from.avatar
            &&& shown.message == message
            &&& after.contacts.contacts == st.contacts.contacts
            &&& after.contacts.blocked == st.contacts.blocked
            &&& after.transfers == st.transfers && after.pending == st.pending && after.peers
                == st.peers && after.settings == st.settings && after.identity == st.identity
                && after.data_dir == st.data_dir && after.auto_hide == st.auto_hide
        }),
{
    let req = request_of(from, message, now);
    request_is_kept_as_made(st.contacts, req, req);
    let pending = with_contact_request(st, from, message, now).contacts.pending;
    let i = choose|i: int| 0 <= i < pending.len() && pending[i] == req;
    assert(pending[i].id == from.id);
}

/// In a book in which nobody stands twice, the one open request of a device that has asked is the one it
/// made last, and the contact that accepting it makes has that device's name and avatar.
pub proof fn accepted_sender_keeps_its_name<S>(
    st: StateView<S>,
    from: IdentView,
    message: Option<Seq<char>>,
    now: u64,
    later: u64,
)
    requires
        st.contacts.coherent(),
        !st.contacts.is_contact(from.id),
    ensures
        ({
            let (after, made) = with_contact_request(st, from, message, now).contacts.with_accepted(
                from.id,
                later,
            );
            &&& made matches Some(c) && c.id == from.id && c.name == from.name && c.avatar
                == from.avatar && c.added_at == later && after.contacts == st.contacts.contacts.push(c)
            &&& !after.is_pending(from.id)
        }),
{
    accepted_request_makes_contact(st.contacts, request_of(from, message, now), later);
}

/// This device presents itself by its fingerprint, and with the name and avatar of its settings.
pub proof fn device_presents_itself<S>(st: StateView<S>)
    ensures
        own_ident(st).id == st.identity.fingerprint,
        own_ident(st).name == st.settings.device_name,
        own_ident(st).avatar == st.settings.device_avatar,
{
}

/// A request passes with a yes that has no reason, and is refused with a no that says why.
pub proof fn answers_say_yes_or_why_not(reason: Seq<char>)
    ensures
        ResponseView::yes().accepted,
        ResponseView::yes().reason is None,
        !ResponseView::no(reason).accepted,
        ResponseView::no(reason).reason == Some(reason),
{
}

/// A regular file is described by its own name and size, and by the media type of its extension where it
/// has one; anything else is refused by the name that it is shown under.
pub proof fn description_is_of_the_file(source: SourceView)
    ensures
        described(source) is Ok <==> source.is_file,
        described(source) matches Ok(f) ==> f.size == source.size && (source.file_name matches Some(n)
            ==> f.name == n) && (source.file_name is None ==> f.name == "file"@) && (
        source.extension matches Some(e) ==> f.mime == guessed_mime(e)) && (source.extension is None
            ==> f.mime is None),
        described(source) matches Err(e) ==> e == TransferErrorView::NotAFile(source.shown),
{
}

/// Files are described one for one and in order where all are regular ones; otherwise the first that is
/// not is the one that is named.
pub proof fn files_are_described_in_order(sources: Seq<SourceView>)
    ensures
        match described_all(sources) {
            Ok(files) => files.len() == sources.len() && forall|i: int|
                0 <= i < sources.len() ==> (#[trigger] sources[i]).is_file && described(sources[i])
                    == Ok::<FileView, TransferErrorView>(files[i]),
            Err(e) => exists|i: int|
                0 <= i < sources.len() && !(#[trigger] sources[i]).is_file && e
                    == TransferErrorView::NotAFile(sources[i].shown) && forall|j: int|
                    0 <= j < i ==> (#[trigger] sources[j]).is_file,
        },
    decreases sources.len(),
{
    if sources.len() > 0 {
        let front = sources.drop_last();
        let n = sources.len() - 1;
        files_are_described_in_order(front);
        assert(sources[n] == sources.last());
        match described_all(front) {
            Ok(files) => {
                assert forall|i: int| 0 <= i < n implies (#[trigger] sources[i]).is_file && described(
                    sources[i],
                ) == Ok::<FileView, TransferErrorView>(files[i]) by {
                    assert(front[i] == sources[i]);
                }
            },
            Err(e) => {
                let i = choose|i: int|
                    0 <= i < front.len() && !(#[trigger] front[i]).is_file && e
                        == TransferErrorView::NotAFile(front[i].shown) && forall|j: int|
                        0 <= j < i ==> (#[trigger] front[j]).is_file;
                assert(sources[i] == front[i]);
                assert forall|j: int| 0 <= j < i implies (#[trigger] sources[j]).is_file by {
                    assert(front[j] == sources[j]);
                }
            },
        }
    }
}

/// Progress is not reported more than it must be: of four full chunks in a row, none of them the last,
/// just one is reported.
pub proof fn progress_is_reported_sparingly(bytes: int, total: int)
    requires
        0 <= bytes,
        total < bytes || bytes + 3 * 65_536 < total,
    ensures
        ({
            let a = is_report_due(bytes, total);
            let b = is_report_due(bytes + 65_536, total);
            let c = is_report_due(bytes + 2 * 65_536, total);
            let d = is_report_due(bytes + 3 * 65_536, total);
            &&& a || b || c || d
            &&& a ==> !b && !c && !d
            &&& b ==> !a && !c && !d
            &&& c ==> !a && !b && !d
            &&& d ==> !a && !b && !c
        }),
{
}

} // verus!
