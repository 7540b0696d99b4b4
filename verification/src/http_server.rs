//! The upload page for phones: what it shows, and the steps of an upload.

use crate::filename::{
    drop_leading_dots, found_name_is_free_and_safe, has_room, is_unsafe, lemma_without_leading_dots,
    mask, masked, masked_is_safe, without_leading_dots, SearchView,
};
use crate::folder::{is_added_to, lemma_more_bytes, lemma_new_file, Folder};
use crate::ids::{is_random_uuid, lemma_some_uuid, new_id};
use crate::state::{
    lemma_table_insert, lemma_total_size_grows, lists, table_view, total_bytes, total_size, AppState, FileView,
    IncomingPrompt, PeerInfo, PeerView, PromptView, StateView, TransferDirection, TransferFileMeta,
    TransferProgress, TransferSource, TransferStatus, TransferView,
};
use crate::table::KeyedTable;
use crate::text::{
    chars_of, decimal, decimal_reads_back, first_place_is_replaced, in_order, lowercase,
    lowercase_text, opt_view, push_decimal, replace_text, replaced, same_text, text_in_order, value_of,
    views,
};
use crate::transfer::{is_safe, joined, REPORT_INTERVAL};
use vstd::prelude::*;

verus! {

/// How long, in seconds, the user may take to decide on an upload.
pub const UPLOAD_DECISION_SECS: u64 = 180;

/// The largest upload that is taken, in bytes.
pub const UPLOAD_LIMIT: u64 = 8_589_934_592;

/// The place of the device's name in the page.
pub const NAME_MARKER: &'static str = "{{DEVICE_NAME}}";

// ---- The page ----

/// The text that stands for `c` in a page.
pub open spec fn escaped_char(c: char) -> Seq<char> {
    if c == '&' {
        "&amp;"@
    } else if c == '<' {
        "&lt;"@
    } else if c == '>' {
        "&gt;"@
    } else if c == '"' {
        "&quot;"@
    } else {
        seq![c]
    }
}

/// The text that stands for `s` in a page, character by character.
pub open spec fn escaped(s: Seq<char>) -> Seq<char>
    decreases s.len(),
{
    if s.len() == 0 {
        Seq::empty()
    } else {
        escaped(s.drop_last()) + escaped_char(s.last())
    }
}

/// The text that stands for `s` in a page.
pub fn html_escape(s: &str) -> (r: String)
    ensures
        r@ == escaped(s@),
{
    let chars = chars_of(s);
    let mut r = String::new();
    assert(s@.take(0) =~= Seq::<char>::empty());
    for i in 0..chars.len()
        invariant
            chars@ == s@,
            r@ == escaped(s@.take(i as int)),
    {
        let c: char = chars[i];
        assert(s@.take(i + 1).drop_last() =~= s@.take(i as int));
        assert(s@.take(i + 1).last() == c);
        if c == '&' {
            r.append("&amp;");
        } else if c == '<' {
            r.append("&lt;");
        } else if c == '>' {
            r.append("&gt;");
        } else if c == '"' {
            r.append("&quot;");
        } else {
            r.push(c);
            assert(r@ =~= escaped(s@.take(i as int)) + seq![c]);
        }
    }
    assert(s@.take(s@.len() as int) =~= s@);
    r
}

/// Escaping goes from the front as well.
proof fn lemma_escaped_front(s: Seq<char>)
    requires
        s.len() > 0,
    ensures
        escaped(s) == escaped_char(s[0]) + escaped(s.drop_first()),
    decreases s.len(),
{
    if s.len() == 1 {
        assert(s.drop_last() =~= Seq::<char>::empty());
        assert(s.drop_first() =~= Seq::<char>::empty());
        assert(escaped(s.drop_last()) =~= Seq::<char>::empty());
        assert(escaped(s) =~= escaped_char(s[0]));
    } else {
        lemma_escaped_front(s.drop_last());
        assert(s.drop_last().drop_first() =~= s.drop_first().drop_last());
        assert(escaped(s) =~= escaped_char(s[0]) + (escaped(s.drop_first().drop_last())
            + escaped_char(s.last())));
    }
}

/// What stands for a character: never markup, and by its first two characters only for this one.
proof fn lemma_escaped_char(c: char)
    ensures
        escaped_char(c).len() > 0,
        escaped_char(c)[0] == '&' <==> escaped_char(c).len() > 1,
        escaped_char(c).len() == 1 ==> escaped_char(c)[0] == c,
        escaped_char(c).len() > 1 ==> escaped_char(c)[1] == (if c == '&' {
            'a'
        } else if c == '<' {
            'l'
        } else if c == '>' {
            'g'
        } else {
            'q'
        }) && (c == '&' || c == '<' || c == '>' || c == '"'),
        forall|i: int|
            0 <= i < escaped_char(c).len() ==> #[trigger] escaped_char(c)[i] != '<' && escaped_char(
                c,
            )[i] != '>' && escaped_char(c)[i] != '"',
{
    reveal_strlit("&amp;");
    reveal_strlit("&lt;");
    reveal_strlit("&gt;");
    reveal_strlit("&quot;");
}

/// A device's name cannot add markup to the page.
pub proof fn escaped_text_has_no_markup(s: Seq<char>)
    ensures
        forall|i: int|
            0 <= i < escaped(s).len() ==> #[trigger] escaped(s)[i] != '<' && escaped(s)[i] != '>'
                && escaped(s)[i] != '"',
    decreases s.len(),
{
    if s.len() > 0 {
        let before = escaped(s.drop_last());
        let last = escaped_char(s.last());
        escaped_text_has_no_markup(s.drop_last());
        lemma_escaped_char(s.last());
        assert forall|i: int| 0 <= i < escaped(s).len() implies #[trigger] escaped(s)[i] != '<'
            && escaped(s)[i] != '>' && escaped(s)[i] != '"' by {
            if i < before.len() {
                assert(escaped(s)[i] == before[i]);
            } else {
                assert(escaped(s)[i] == last[i - before.len()]);
            }
        }
    }
}

/// Texts that stand one after the other stand so in the page.
pub proof fn escaping_goes_piece_by_piece(a: Seq<char>, b: Seq<char>)
    ensures
        escaped(a + b) == escaped(a) + escaped(b),
    decreases b.len(),
{
    if b.len() == 0 {
        assert(a + b =~= a);
        assert(escaped(b) =~= Seq::<char>::empty());
        assert(escaped(a) + escaped(b) =~= escaped(a));
    } else {
        escaping_goes_piece_by_piece(a, b.drop_last());
        assert((a + b).drop_last() =~= a + b.drop_last());
        assert(escaped(a + b) =~= escaped(a) + escaped(b));
    }
}

/// Different names stand differently in the page.
pub proof fn escaping_is_injective(a: Seq<char>, b: Seq<char>)
    requires
        escaped(a) == escaped(b),
    ensures
        a == b,
    decreases a.len() + b.len(),
{
    if a.len() > 0 {
        lemma_escaped_front(a);
        lemma_escaped_char(a[0]);
    }
    if b.len() > 0 {
        lemma_escaped_front(b);
        lemma_escaped_char(b[0]);
    }
    if a.len() == 0 || b.len() == 0 {
        assert(a.len() > 0 ==> escaped(a).len() >= escaped_char(a[0]).len());
        assert(b.len() > 0 ==> escaped(b).len() >= escaped_char(b[0]).len());
        assert(a.len() == 0 ==> escaped(a).len() == 0);
        assert(b.len() == 0 ==> escaped(b).len() == 0);
        assert(a =~= b);
    } else {
        let ca = escaped_char(a[0]);
        let cb = escaped_char(b[0]);
        assert(escaped(a)[0] == ca[0]);
        assert(escaped(b)[0] == cb[0]);
        if ca.len() > 1 {
            assert(escaped(a)[1] == ca[1]);
            assert(escaped(b)[1] == cb[1]);
        }
        assert(a[0] == b[0]);
        let n = ca.len() as int;
        assert(escaped(a.drop_first()) =~= escaped(a).skip(n));
        assert(escaped(b.drop_first()) =~= escaped(b).skip(n));
        escaping_is_injective(a.drop_first(), b.drop_first());
        assert(a =~= seq![a[0]] + a.drop_first());
        assert(b =~= seq![b[0]] + b.drop_first());
    }
}

/// Replacing one character goes piece by piece.
proof fn lemma_replaced_apart(a: Seq<char>, b: Seq<char>, pat: Seq<char>, with: Seq<char>)
    requires
        pat.len() == 1,
    ensures
        replaced(a + b, pat, with) == replaced(a, pat, with) + replaced(b, pat, with),
    decreases a.len(),
{
    if a.len() == 0 {
        assert(a + b =~= b);
        assert(replaced(a, pat, with) + replaced(b, pat, with) =~= replaced(b, pat, with));
    } else {
        lemma_replaced_apart(a.drop_first(), b, pat, with);
        assert((a + b).drop_first() =~= a.drop_first() + b);
        assert((a + b).skip(1) =~= a.skip(1) + b);
        assert(a.skip(1) =~= a.drop_first());
        assert(a.subrange(0, 1)[0] == (a + b).subrange(0, 1)[0]);
        assert(pat.is_prefix_of(a) == (pat[0] == a[0])) by {
            assert(pat =~= a.subrange(0, 1) <==> pat[0] == a[0]);
        }
        assert(pat.is_prefix_of(a + b) == (pat[0] == a[0])) by {
            assert(pat =~= (a + b).subrange(0, 1) <==> pat[0] == a[0]);
        }
        assert(replaced(a + b, pat, with) =~= replaced(a, pat, with) + replaced(b, pat, with));
    }
}

/// Replacing one character in a text that does not hold it changes nothing; and it is replaced
/// where it stands alone.
proof fn lemma_replaced_piece(s: Seq<char>, pat: Seq<char>, with: Seq<char>)
    requires
        pat.len() == 1,
    ensures
        !s.contains(pat[0]) ==> replaced(s, pat, with) == s,
        s == pat ==> replaced(s, pat, with) == with,
    decreases s.len(),
{
    if s.len() > 0 {
        assert(pat.is_prefix_of(s) == (pat[0] == s[0])) by {
            assert(pat =~= s.subrange(0, 1) <==> pat[0] == s[0]);
        }
        assert(s.contains(s[0]));
        lemma_replaced_piece(s.drop_first(), pat, with);
        if !s.contains(pat[0]) {
            if s.drop_first().contains(pat[0]) {
                let i = choose|i: int| 0 <= i < s.len() - 1 && s.drop_first()[i] == pat[0];
                assert(s[i + 1] == pat[0]);
            }
            assert(replaced(s, pat, with) =~= s);
        }
        if s == pat {
            assert(s.skip(1) =~= Seq::<char>::empty());
            assert(replaced(s, pat, with) =~= with);
        }
    }
}

/// What four replacements in turn make of a text.
pub open spec fn replaced_in_turn(s: Seq<char>) -> Seq<char> {
    replaced(
        replaced(replaced(replaced(s, "&"@, "&amp;"@), "<"@, "&lt;"@), ">"@, "&gt;"@),
        "\""@,
        "&quot;"@,
    )
}

/// Escaping is replacing the four characters one after the other, the ampersand first.
pub proof fn escaping_is_replacing_in_turn(s: Seq<char>)
    ensures
        escaped(s) == replaced_in_turn(s),
    decreases s.len(),
{
    reveal_strlit("&");
    reveal_strlit("<");
    reveal_strlit(">");
    reveal_strlit("\"");
    if s.len() > 0 {
        let front = s.drop_last();
        let c = seq![s.last()];
        escaping_is_replacing_in_turn(front);
        assert(s =~= front + c);
        let f1 = replaced(front, "&"@, "&amp;"@);
        let f2 = replaced(f1, "<"@, "&lt;"@);
        let f3 = replaced(f2, ">"@, "&gt;"@);
        let c1 = replaced(c, "&"@, "&amp;"@);
        let c2 = replaced(c1, "<"@, "&lt;"@);
        let c3 = replaced(c2, ">"@, "&gt;"@);
        lemma_replaced_apart(front, c, "&"@, "&amp;"@);
        lemma_replaced_apart(f1, c1, "<"@, "&lt;"@);
        lemma_replaced_apart(f2, c2, ">"@, "&gt;"@);
        lemma_replaced_apart(f3, c3, "\""@, "&quot;"@);
        lemma_one_replaced_in_turn(s.last());
    }
}

/// What four replacements in turn make of one character.
proof fn lemma_one_replaced_in_turn(x: char)
    ensures
        replaced_in_turn(seq![x]) == escaped_char(x),
{
    reveal_strlit("&");
    reveal_strlit("<");
    reveal_strlit(">");
    reveal_strlit("\"");
    reveal_strlit("&amp;");
    reveal_strlit("&lt;");
    reveal_strlit("&gt;");
    reveal_strlit("&quot;");
    let c = seq![x];
    let c1 = replaced(c, "&"@, "&amp;"@);
    let c2 = replaced(c1, "<"@, "&lt;"@);
    let c3 = replaced(c2, ">"@, "&gt;"@);
    lemma_replaced_piece(c, "&"@, "&amp;"@);
    lemma_replaced_piece(c1, "<"@, "&lt;"@);
    lemma_replaced_piece(c2, ">"@, "&gt;"@);
    lemma_replaced_piece(c3, "\""@, "&quot;"@);
    assert(x == '&' ==> c =~= "&"@);
    assert(x == '<' ==> c =~= "<"@);
    assert(x == '>' ==> c =~= ">"@);
    assert(x == '"' ==> c =~= "\""@);
}

/// The page made of `template` for a device of this name.
pub fn index(template: &str, device_name: &str) -> (r: String)
    ensures
        r@ == replaced(template@, NAME_MARKER@, escaped(device_name@)),
{
    proof {
        reveal_strlit("{{DEVICE_NAME}}");
    }
    let name = html_escape(device_name);
    replace_text(template, NAME_MARKER, name.as_str())
}

/// What a caller who asks whether the server is there is told.
pub fn health() -> (r: String)
    ensures
        r@ == "ok"@,
{
    "ok".to_string()
}

/// A device as the page lists it.
#[derive(Debug)]
pub struct MobilePeerSummary {
    pub id: String,
    pub name: String,
    pub host: String,
    pub http_port: u16,
    pub mobile_web_available: bool,
    pub url: String,
}

/// A listed device as a mathematical value.
#[verifier::ext_equal]
pub struct SummaryView {
    pub id: Seq<char>,
    pub name: Seq<char>,
    pub host: Seq<char>,
    pub http_port: u16,
    pub mobile_web_available: bool,
    pub url: Seq<char>,
}

impl View for MobilePeerSummary {
    type V = SummaryView;

    open spec fn view(&self) -> SummaryView {
        SummaryView {
            id: self.id@,
            name: self.name@,
            host: self.host@,
            http_port: self.http_port,
            mobile_web_available: self.mobile_web_available,
            url: self.url@,
        }
    }
}

/// The address of the page on a host.
pub open spec fn page_url(host: Seq<char>, port: u16) -> Seq<char> {
    "http://"@ + host + ":"@ + decimal(port as nat) + "/"@
}

/// The address of the page on a host.
pub fn page_address(host: &str, port: u16) -> (r: String)
    ensures
        r@ == page_url(host@, port),
{
    let mut r = String::new();
    r.append("http://");
    r.append(host);
    r.append(":");
    push_decimal(&mut r, port as u64);
    r.append("/");
    assert(r@ =~= page_url(host@, port));
    r
}

/// A device as the page lists it.
pub open spec fn summary_of(p: PeerView) -> SummaryView {
    SummaryView {
        id: p.id,
        name: p.name,
        host: p.host,
        http_port: p.http_port,
        mobile_web_available: p.mobile_web_available,
        url: page_url(p.host, p.http_port),
    }
}

/// A device as the page lists it.
pub fn summarize(p: PeerInfo) -> (r: MobilePeerSummary)
    ensures
        r@ == summary_of(p@),
{
    let url = page_address(p.host.as_str(), p.http_port);
    MobilePeerSummary {
        id: p.id,
        name: p.name,
        host: p.host,
        http_port: p.http_port,
        mobile_web_available: p.mobile_web_available,
        url,
    }
}

/// Whether `a` may stand before `b` in the list, given the lower-case forms of their names: by
/// those, then by host.
pub open spec fn sorted_before(
    a: SummaryView,
    a_lower: Seq<char>,
    b: SummaryView,
    b_lower: Seq<char>,
) -> bool {
    if a_lower == b_lower {
        in_order(a.host, b.host)
    } else {
        in_order(a_lower, b_lower)
    }
}

/// Whether `a` may stand before `b` in the list.
pub open spec fn listed_before(a: SummaryView, b: SummaryView) -> bool {
    sorted_before(a, lowercase(a.name), b, lowercase(b.name))
}

/// Whether the list is in order.
pub open spec fn is_sorted(s: Seq<SummaryView>) -> bool {
    forall|i: int, j: int| 0 <= i < j < s.len() ==> listed_before(#[trigger] s[i], #[trigger] s[j])
}

/// Whether `a` may stand before `b`, given the lower-case forms of their names.
pub fn goes_before(
    a: &MobilePeerSummary,
    a_lower: &str,
    b: &MobilePeerSummary,
    b_lower: &str,
) -> (r: bool)
    ensures
        r == sorted_before(a@, a_lower@, b@, b_lower@),
{
    if same_text(a_lower, b_lower) {
        text_in_order(a.host.as_str(), b.host.as_str())
    } else {
        text_in_order(a_lower, b_lower)
    }
}

/// Code point order has no gaps and no circles.
proof fn lemma_in_order(a: Seq<char>, b: Seq<char>, c: Seq<char>)
    ensures
        in_order(a, b) || in_order(b, a),
        in_order(a, b) && in_order(b, a) ==> a == b,
        in_order(a, b) && in_order(b, c) ==> in_order(a, c),
    decreases a.len() + b.len() + c.len(),
{
    if a.len() > 0 && b.len() > 0 && c.len() > 0 {
        lemma_in_order(a.drop_first(), b.drop_first(), c.drop_first());
        if in_order(a, b) && in_order(b, a) {
            assert(a =~= seq![a[0]] + a.drop_first());
            assert(b =~= seq![b[0]] + b.drop_first());
        }
    } else if a.len() > 0 && b.len() > 0 {
        lemma_in_order(a.drop_first(), b.drop_first(), c);
        if in_order(a, b) && in_order(b, a) {
            assert(a =~= seq![a[0]] + a.drop_first());
            assert(b =~= seq![b[0]] + b.drop_first());
        }
    } else {
        if a.len() == 0 && b.len() == 0 {
            assert(a =~= b);
        }
    }
}

/// The order of the list has no gaps and no circles.
pub proof fn list_order_is_total(a: SummaryView, b: SummaryView, c: SummaryView)
    ensures
        listed_before(a, b) || listed_before(b, a),
        listed_before(a, b) && listed_before(b, c) ==> listed_before(a, c),
{
    lemma_in_order(lowercase(a.name), lowercase(b.name), lowercase(c.name));
    lemma_in_order(lowercase(b.name), lowercase(c.name), lowercase(a.name));
    lemma_in_order(lowercase(c.name), lowercase(a.name), lowercase(b.name));
    lemma_in_order(a.host, b.host, c.host);
}

/// Puts `x` into an ordered list, at a place that keeps it in order.
fn insert_sorted(list: &mut Vec<MobilePeerSummary>, x: MobilePeerSummary)
    requires
        is_sorted(views(old(list)@)),
    ensures
        is_sorted(views(final(list)@)),
        views(final(list)@).to_multiset() == views(old(list)@).to_multiset().insert(x@),
        final(list)@.len() == old(list)@.len() + 1,
{
    let ghost start = views(list@);
    let ghost v = x@;
    let lower = lowercase_text(x.name.as_str());
    let mut i: usize = list.len();
    while i > 0
        invariant
            i <= list@.len(),
            views(list@) == start,
            is_sorted(start),
            lower@ == lowercase(v.name),
            v == x@,
            forall|j: int| i <= j < start.len() ==> listed_before(v, #[trigger] start[j]),
        ensures
            i <= list@.len(),
            views(list@) == start,
            forall|j: int| i <= j < start.len() ==> listed_before(v, #[trigger] start[j]),
            i > 0 ==> listed_before(start[i - 1], v),
        decreases i,
    {
        let other = &list[i - 1];
        let other_lower = lowercase_text(other.name.as_str());
        if goes_before(other, other_lower.as_str(), &x, lower.as_str()) {
            break;
        }
        proof {
            list_order_is_total(v, start[i - 1], v);
        }
        i = i - 1;
    }
    list.insert(i, x);
    proof {
        let after = views(list@);
        assert(after =~= start.insert(i as int, v));
        start.to_multiset_ensures();
        vstd::seq_lib::to_multiset_insert(start, i as int, v);
        assert forall|a: int, b: int| 0 <= a < b < after.len() implies listed_before(
            #[trigger] after[a],
            #[trigger] after[b],
        ) by {
            if a < i && b == i && a < i - 1 {
                assert(listed_before(start[a], start[i - 1]));
                list_order_is_total(start[a], start[i - 1], v);
            } else if b < i {
                assert(after[a] == start[a] && after[b] == start[b]);
            } else if a < i && b > i {
                assert(after[a] == start[a] && after[b] == start[b - 1]);
            } else if a > i {
                assert(after[a] == start[a - 1] && after[b] == start[b - 1]);
            } else if a == i {
                assert(after[b] == start[b - 1]);
            }
        }
    }
}

/// The other devices as the page lists them.
pub fn peers<S>(state: &AppState<S>) -> (r: Vec<MobilePeerSummary>)
    ensures
        is_sorted(views(r@)),
        exists|listing: Seq<PeerView>| #[trigger]
            lists(listing, state@.peers) && views(r@).to_multiset() == listing.map_values(
                |p: PeerView| summary_of(p),
            ).to_multiset(),
{
    let all = state.peer_list();
    let ghost listing = views(all@);
    let ghost summaries = listing.map_values(|p: PeerView| summary_of(p));
    let mut r: Vec<MobilePeerSummary> = Vec::new();
    assert(views(r@) =~= summaries.take(0));
    for i in 0..all.len()
        invariant
            listing == views(all@),
            summaries == listing.map_values(|p: PeerView| summary_of(p)),
            is_sorted(views(r@)),
            views(r@).to_multiset() == summaries.take(i as int).to_multiset(),
    {
        let s = summarize(all[i].clone());
        proof {
            assert(s@ == summaries[i as int]);
            assert(summaries.take(i + 1) =~= summaries.take(i as int).push(s@));
            summaries.take(i as int).to_multiset_ensures();
        }
        insert_sorted(&mut r, s);
    }
    assert(summaries.take(summaries.len() as int) =~= summaries);
    r
}

// ---- File names ----

/// The name that an uploaded file is saved under: no separator, no control character, no leading
/// dot, and no two dots in a row.
pub open spec fn safe_upload_name(name: Seq<char>) -> Seq<char> {
    if name.len() == 0 {
        "file"@
    } else {
        replaced(without_leading_dots(masked(name)), ".."@, "_"@)
    }
}

/// The name that an uploaded file is saved under.
pub fn sanitize_filename(name: &str) -> (r: String)
    ensures
        r@ == safe_upload_name(name@),
{
    let chars = mask(name);
    if chars.len() == 0 {
        return "file".to_string();
    }
    let trimmed = drop_leading_dots(&chars);
    proof {
        reveal_strlit("..");
    }
    replace_text(trimmed.as_str(), "..", "_")
}

/// Whether an uploaded file can be saved under a name without leading out of the directory.
pub open spec fn is_safe_upload(name: Seq<char>) -> bool {
    &&& name.len() > 0 ==> name[0] != '.'
    &&& forall|i: int| 0 <= i < name.len() ==> !is_unsafe(#[trigger] name[i])
    &&& forall|i: int| 0 <= i < name.len() - 1 ==> !(#[trigger] name[i] == '.' && name[i + 1] == '.')
}

/// Replacing pairs of dots leaves none, and brings in nothing that a file name may not hold.
proof fn lemma_dots_replaced(s: Seq<char>)
    requires
        forall|i: int| 0 <= i < s.len() ==> !is_unsafe(#[trigger] s[i]),
    ensures
        ({
            let r = replaced(s, ".."@, "_"@);
            &&& forall|i: int| 0 <= i < r.len() ==> !is_unsafe(#[trigger] r[i])
            &&& forall|i: int| 0 <= i < r.len() - 1 ==> !(#[trigger] r[i] == '.' && r[i + 1] == '.')
            &&& r.len() > 0 && r[0] == '.' ==> s.len() > 0 && s[0] == '.' && !(".."@).is_prefix_of(s)
            &&& r.len() == 0 <==> s.len() == 0
        }),
    decreases s.len(),
{
    reveal_strlit("..");
    reveal_strlit("_");
    let r = replaced(s, ".."@, "_"@);
    if s.len() > 0 {
        if (".."@).is_prefix_of(s) {
            let rest = s.skip(2);
            assert forall|i: int| 0 <= i < rest.len() implies !is_unsafe(#[trigger] rest[i]) by {
                assert(rest[i] == s[i + 2]);
            }
            lemma_dots_replaced(rest);
            let tail = replaced(rest, ".."@, "_"@);
            assert(r =~= "_"@ + tail);
            assert forall|i: int| 0 <= i < r.len() implies !is_unsafe(#[trigger] r[i]) by {
                if i > 0 {
                    assert(r[i] == tail[i - 1]);
                }
            }
            assert forall|i: int| 0 <= i < r.len() - 1 implies !(#[trigger] r[i] == '.' && r[i + 1]
                == '.') by {
                if i > 0 {
                    assert(r[i] == tail[i - 1] && r[i + 1] == tail[i]);
                }
            }
        } else {
            let rest = s.drop_first();
            assert forall|i: int| 0 <= i < rest.len() implies !is_unsafe(#[trigger] rest[i]) by {
                assert(rest[i] == s[i + 1]);
            }
            lemma_dots_replaced(rest);
            let tail = replaced(rest, ".."@, "_"@);
            assert(r =~= seq![s[0]] + tail);
            assert forall|i: int| 0 <= i < r.len() implies !is_unsafe(#[trigger] r[i]) by {
                if i > 0 {
                    assert(r[i] == tail[i - 1]);
                } else {
                    assert(r[i] == s[0]);
                }
            }
            assert forall|i: int| 0 <= i < r.len() - 1 implies !(#[trigger] r[i] == '.' && r[i + 1]
                == '.') by {
                if i > 0 {
                    assert(r[i] == tail[i - 1] && r[i + 1] == tail[i]);
                } else if r[0] == '.' && r[1] == '.' {
                    assert(tail[0] == '.');
                    assert(rest[0] == '.' && s[1] == '.');
                    assert(".."@ =~= s.subrange(0, 2));
                }
            }
        }
    }
}

/// A text without pairs of dots is left as it is.
proof fn lemma_no_dots_to_replace(s: Seq<char>)
    requires
        forall|i: int| 0 <= i < s.len() - 1 ==> !(#[trigger] s[i] == '.' && s[i + 1] == '.'),
    ensures
        replaced(s, ".."@, "_"@) == s,
    decreases s.len(),
{
    reveal_strlit("..");
    if s.len() > 0 {
        let rest = s.drop_first();
        if (".."@).is_prefix_of(s) {
            assert(s.subrange(0, 2)[0] == '.' && s.subrange(0, 2)[1] == '.');
            assert(s[0] == '.' && s[1] == '.');
        }
        assert forall|i: int| 0 <= i < rest.len() - 1 implies !(#[trigger] rest[i] == '.' && rest[i
            + 1] == '.') by {
            assert(rest[i] == s[i + 1] && rest[i + 1] == s[i + 2]);
        }
        lemma_no_dots_to_replace(rest);
        assert(replaced(s, ".."@, "_"@) =~= s);
    }
}

/// The name that an uploaded file is saved under leads nowhere else; and such a name, if it is not
/// empty, is kept.
pub proof fn safe_upload_name_is_safe(name: Seq<char>)
    ensures
        is_safe_upload(safe_upload_name(name)),
        name.len() > 0 && is_safe_upload(name) ==> safe_upload_name(name) == name,
        safe_upload_name(name).len() > 0 ==> safe_upload_name(safe_upload_name(name))
            == safe_upload_name(name),
{
    lemma_upload_name(name);
    lemma_upload_name_kept(name);
    lemma_upload_name_kept(safe_upload_name(name));
}

proof fn lemma_upload_name(name: Seq<char>)
    ensures
        is_safe_upload(safe_upload_name(name)),
{
    reveal_strlit("file");
    masked_is_safe(name);
    lemma_without_leading_dots(masked(name));
    let rest = without_leading_dots(masked(name));
    let n = choose|n: int| 0 <= n <= masked(name).len() && rest == #[trigger] masked(name).skip(n);
    assert forall|i: int| 0 <= i < rest.len() implies !is_unsafe(#[trigger] rest[i]) by {
        assert(rest[i] == masked(name)[n + i]);
    }
    lemma_dots_replaced(rest);
}

proof fn lemma_upload_name_kept(name: Seq<char>)
    ensures
        name.len() > 0 && is_safe_upload(name) ==> safe_upload_name(name) == name,
{
    if name.len() > 0 && is_safe_upload(name) {
        assert(masked(name) =~= name);
        lemma_no_dots_to_replace(name);
    }
}

/// The name of an uploaded file that came without one.
pub fn nameless_upload(id: &str) -> (r: String)
    ensures
        r@ == "upload-"@ + id@,
{
    let mut r = String::new();
    r.append("upload-");
    r.append(id);
    assert(r@ =~= "upload-"@ + id@);
    r
}

/// The name that an uploaded file is saved under, whether it came with one or not.
pub fn upload_name(raw: Option<String>) -> (r: String)
    ensures
        raw is Some ==> r@ == safe_upload_name(raw->0@),
        raw is None ==> exists|id: Seq<char>| #[trigger]
            is_random_uuid(id) && r@ == safe_upload_name("upload-"@ + id),
{
    match raw {
        Some(n) => sanitize_filename(n.as_str()),
        None => {
            let id = new_id();
            let n = nameless_upload(id.as_str());
            sanitize_filename(n.as_str())
        },
    }
}

// ---- Replies ----

/// What a phone is told.
#[derive(Debug)]
pub enum HttpReply {
    /// The user has declined the upload.
    Rejected,
    /// There is no accepted upload of that number.
    SessionNotAccepted,
    /// There is no transfer of that number.
    TransferNotFound,
    /// The upload is not well-formed; how.
    Malformed(String),
    /// A file could not be created; why.
    NotCreated(String),
    /// A file could not be written; why.
    NotWritten(String),
    /// The upload is complete.
    Done,
}

/// A reply as a mathematical value.
#[verifier::ext_equal]
pub enum ReplyView {
    Rejected,
    SessionNotAccepted,
    TransferNotFound,
    Malformed(Seq<char>),
    NotCreated(Seq<char>),
    NotWritten(Seq<char>),
    Done,
}

impl View for HttpReply {
    type V = ReplyView;

    open spec fn view(&self) -> ReplyView {
        match *self {
            HttpReply::Rejected => ReplyView::Rejected,
            HttpReply::SessionNotAccepted => ReplyView::SessionNotAccepted,
            HttpReply::TransferNotFound => ReplyView::TransferNotFound,
            HttpReply::Malformed(m) => ReplyView::Malformed(m@),
            HttpReply::NotCreated(m) => ReplyView::NotCreated(m@),
            HttpReply::NotWritten(m) => ReplyView::NotWritten(m@),
            HttpReply::Done => ReplyView::Done,
        }
    }
}

impl HttpReply {
    /// The status code of the reply.
    pub fn status(&self) -> (r: u16)
        ensures
            r == (match self@ {
                ReplyView::Rejected => 403u16,
                ReplyView::SessionNotAccepted => 403,
                ReplyView::TransferNotFound => 404,
                ReplyView::Malformed(_) => 400,
                ReplyView::NotCreated(_) => 500,
                ReplyView::NotWritten(_) => 500,
                ReplyView::Done => 200,
            }),
    {
        match self {
            HttpReply::Rejected => 403,
            HttpReply::SessionNotAccepted => 403,
            HttpReply::TransferNotFound => 404,
            HttpReply::Malformed(_) => 400,
            HttpReply::NotCreated(_) => 500,
            HttpReply::NotWritten(_) => 500,
            HttpReply::Done => 200,
        }
    }

    /// The text of the reply.
    pub fn text(&self) -> (r: String)
        ensures
            r@ == (match self@ {
                ReplyView::Rejected => "rejected"@,
                ReplyView::SessionNotAccepted => "session not accepted"@,
                ReplyView::TransferNotFound => "transfer not found"@,
                ReplyView::Malformed(m) => "multipart err: "@ + m,
                ReplyView::NotCreated(m) => "create: "@ + m,
                ReplyView::NotWritten(m) => "write: "@ + m,
                ReplyView::Done => "ok"@,
            }),
    {
        match self {
            HttpReply::Rejected => "rejected".to_string(),
            HttpReply::SessionNotAccepted => "session not accepted".to_string(),
            HttpReply::TransferNotFound => "transfer not found".to_string(),
            HttpReply::Malformed(m) => "multipart err: ".to_string().concat(m.as_str()),
            HttpReply::NotCreated(m) => "create: ".to_string().concat(m.as_str()),
            HttpReply::NotWritten(m) => "write: ".to_string().concat(m.as_str()),
            HttpReply::Done => "ok".to_string(),
        }
    }
}

// ---- Announcing an upload ----

/// An upload that the user has accepted.
#[derive(Debug)]
pub struct UploadSession {
    pub transfer_id: String,
    pub from_name: String,
    pub save_dir: String,
    pub accepted: bool,
}

/// An accepted upload as a mathematical value.
#[verifier::ext_equal]
pub struct SessionView {
    pub transfer_id: Seq<char>,
    pub from_name: Seq<char>,
    pub save_dir: Seq<char>,
    pub accepted: bool,
}

impl View for UploadSession {
    type V = SessionView;

    open spec fn view(&self) -> SessionView {
        SessionView {
            transfer_id: self.transfer_id@,
            from_name: self.from_name@,
            save_dir: self.save_dir@,
            accepted: self.accepted,
        }
    }
}

/// The record of an upload that has just been announced.
pub open spec fn announced_record(
    transfer_id: Seq<char>,
    from_name: Seq<char>,
    files: Seq<FileView>,
    now: u64,
) -> TransferView {
    TransferView {
        transfer_id,
        created_at: now,
        direction: TransferDirection::Incoming,
        peer_id: None,
        peer_name: from_name,
        files,
        current_file_index: 0,
        bytes_sent: 0,
        total_bytes: total_size(files) as u64,
        status: TransferStatus::Pending,
        error: None,
    }
}

/// What the user is asked about an upload.
pub open spec fn upload_prompt(
    transfer_id: Seq<char>,
    from_name: Seq<char>,
    files: Seq<FileView>,
) -> PromptView {
    PromptView {
        transfer_id,
        from_id: "qr-mobile"@,
        from_name,
        from_avatar: "📱"@,
        files,
        total_bytes: total_size(files) as u64,
        source: TransferSource::QrUpload,
    }
}

/// An upload that has been recorded, and what the user is asked.
#[derive(Debug)]
pub struct Announced {
    pub report: TransferProgress,
    pub prompt: IncomingPrompt,
}

/// Records an announced upload and has the user asked, with `waiter` to be told of the decision.
pub fn announce<S>(
    state: &mut AppState<S>,
    transfer_id: String,
    from_name: String,
    files: Vec<TransferFileMeta>,
    now: u64,
    waiter: S,
) -> (r: Announced)
    requires
        total_size(views(files@)) <= u64::MAX,
    ensures
        r.report@ == announced_record(transfer_id@, from_name@, views(files@), now),
        r.prompt@ == upload_prompt(transfer_id@, from_name@, views(files@)),
        ({
            let recorded = old(state)@.with_transfer(r.report@);
            final(state)@ == (StateView {
                pending: recorded.pending.insert(transfer_id@, waiter),
                ..recorded
            })
        }),
        old(state)@.keyed() ==> final(state)@.keyed(),
{
    let total: u64 = total_bytes(&files);
    let listed = files.clone();
    assert(views(listed@) =~= views(files@));
    let prompt = IncomingPrompt {
        transfer_id: transfer_id.clone(),
        from_id: "qr-mobile".to_string(),
        from_name: from_name.clone(),
        from_avatar: "📱".to_string(),
        files: listed,
        total_bytes: total,
        source: TransferSource::QrUpload,
    };
    let id = transfer_id.clone();
    let report = state.update_transfer(
        TransferProgress {
            transfer_id,
            created_at: now,
            direction: TransferDirection::Incoming,
            peer_id: None,
            peer_name: from_name,
            files,
            current_file_index: 0,
            bytes_sent: 0,
            total_bytes: total,
            status: TransferStatus::Pending,
            error: None,
        },
    );
    state.pending_decisions.insert(id, waiter);
    Announced { report, prompt }
}

/// What comes of the decision on an upload.
#[derive(Debug)]
pub enum AnnounceOutcome {
    /// The phone may upload.
    Accepted,
    /// The phone may not.
    Refused { reply: HttpReply, report: TransferProgress },
}

/// Takes in the decision on an upload, or that none was made in time: opens a session for it, or
/// records that it was rejected.
pub fn announce_decided<S>(
    state: &mut AppState<S>,
    sessions: &mut KeyedTable<UploadSession>,
    transfer_id: &str,
    from_name: String,
    decision: Option<bool>,
) -> (r: AnnounceOutcome)
    requires
        decision == Some(true) || old(state)@.transfers.contains_key(transfer_id@),
    ensures
        decision == Some(true) ==> {
            &&& r is Accepted
            &&& final(state)@ == old(state)@
            &&& table_view(*final(sessions)) == with_session(
                table_view(*old(sessions)),
                transfer_id@,
                from_name@,
                old(state)@.settings.save_dir,
            )
        },
        decision != Some(true) ==> {
            let rejected = TransferView {
                status: TransferStatus::Rejected,
                ..old(state)@.transfers[transfer_id@]
            };
            let recorded = old(state)@.with_transfer(rejected);
            &&& r matches AnnounceOutcome::Refused { reply, report }
            &&& reply@ == ReplyView::Rejected
            &&& report@ == rejected
            &&& final(state)@ == (StateView {
                pending: if decision is None {
                    recorded.pending.remove(transfer_id@)
                } else {
                    recorded.pending
                },
                ..recorded
            })
            &&& table_view(*final(sessions)) == table_view(*old(sessions))
        },
        old(state)@.keyed() ==> final(state)@.keyed(),
{
    let accepted = match decision {
        Some(b) => b,
        None => {
            let _ = state.pending_decisions.remove(transfer_id);
            false
        },
    };
    if !accepted {
        let mut t = state.transfer(transfer_id).unwrap();
        t.status = TransferStatus::Rejected;
        let report = state.update_transfer(t);
        return AnnounceOutcome::Refused { reply: HttpReply::Rejected, report };
    }
    let session = UploadSession {
        transfer_id: transfer_id.to_string(),
        from_name,
        save_dir: state.settings.save_dir.clone(),
        accepted: true,
    };
    let ghost before = sessions@;
    let key = transfer_id.to_string();
    sessions.insert(key, session);
    proof {
        lemma_table_insert(before, sessions@, key@, session);
    }
    AnnounceOutcome::Accepted
}

// ---- Uploading ----

/// How far an upload has come.
#[derive(Debug, Clone, Copy, PartialEq, Eq, Structural)]
pub enum UploadPhase {
    /// The next file of the form is awaited, or the end of the form.
    Between,
    /// The current file is being created.
    Creating,
    /// The current file is coming in.
    Reading,
    /// The current file is complete and is being made sure of.
    Flushing,
    /// Nothing is left to do.
    Closed,
}

/// An upload under way.
#[derive(Debug)]
pub struct Upload {
    pub transfer_id: String,
    pub save_dir: String,
    /// The record as it was when the upload began.
    pub begun: TransferProgress,
    pub file_index: usize,
    pub received: u64,
    pub phase: UploadPhase,
}

/// An upload under way as a mathematical value.
#[verifier::ext_equal]
pub struct UploadView {
    pub transfer_id: Seq<char>,
    pub save_dir: Seq<char>,
    pub begun: TransferView,
    pub file_index: usize,
    pub received: u64,
    pub phase: UploadPhase,
}

impl View for Upload {
    type V = UploadView;

    open spec fn view(&self) -> UploadView {
        UploadView {
            transfer_id: self.transfer_id@,
            save_dir: self.save_dir@,
            begun: self.begun@,
            file_index: self.file_index,
            received: self.received,
            phase: self.phase,
        }
    }
}

/// What has happened in an upload.
#[derive(Debug)]
pub enum UploadEvent {
    /// A file of the form has begun; its name, where it has one.
    Field(Option<String>),
    /// The file has been created.
    Created,
    /// So many bytes have come in and are in the file.
    Chunk(usize),
    /// The file has no more bytes.
    FieldEnded,
    /// The rest of the file cannot be read.
    FieldBroken,
    /// The file has been made sure of, as far as that can be done.
    Flushed,
    /// The form has no more files.
    FormEnded,
    /// The form is not well-formed; how.
    Malformed(String),
    /// The file could not be created; why.
    NotCreated(String),
    /// Bytes could not be written to the file; why.
    NotWritten(String),
}

/// An event of an upload as a mathematical value.
#[verifier::ext_equal]
pub enum UploadEventView {
    Field(Option<Seq<char>>),
    Created,
    Chunk(usize),
    FieldEnded,
    FieldBroken,
    Flushed,
    FormEnded,
    Malformed(Seq<char>),
    NotCreated(Seq<char>),
    NotWritten(Seq<char>),
}

impl View for UploadEvent {
    type V = UploadEventView;

    open spec fn view(&self) -> UploadEventView {
        match *self {
            UploadEvent::Field(name) => UploadEventView::Field(opt_view(name)),
            UploadEvent::Created => UploadEventView::Created,
            UploadEvent::Chunk(n) => UploadEventView::Chunk(n),
            UploadEvent::FieldEnded => UploadEventView::FieldEnded,
            UploadEvent::FieldBroken => UploadEventView::FieldBroken,
            UploadEvent::Flushed => UploadEventView::Flushed,
            UploadEvent::FormEnded => UploadEventView::FormEnded,
            UploadEvent::Malformed(m) => UploadEventView::Malformed(m@),
            UploadEvent::NotCreated(m) => UploadEventView::NotCreated(m@),
            UploadEvent::NotWritten(m) => UploadEventView::NotWritten(m@),
        }
    }
}

/// What is to be done next in an upload.
#[derive(Debug)]
pub enum UploadAction {
    /// Go on to the next file of the form.
    Next,
    /// Create a file with this name.
    Create(String),
    /// Read more bytes into the file.
    Read,
    /// Make sure of the file.
    Flush,
    /// Send this reply: the upload is over.
    Reply(HttpReply),
}

/// An action of an upload as a mathematical value.
#[verifier::ext_equal]
pub enum UploadActionView {
    Next,
    Create(Seq<char>),
    Read,
    Flush,
    Reply(ReplyView),
}

impl View for UploadAction {
    type V = UploadActionView;

    open spec fn view(&self) -> UploadActionView {
        match *self {
            UploadAction::Next => UploadActionView::Next,
            UploadAction::Create(n) => UploadActionView::Create(n@),
            UploadAction::Read => UploadActionView::Read,
            UploadAction::Flush => UploadActionView::Flush,
            UploadAction::Reply(r) => UploadActionView::Reply(r@),
        }
    }
}

/// What a step of an upload comes to.
#[derive(Debug)]
pub struct UploadStep {
    /// What is to be announced.
    pub report: Option<TransferProgress>,
    pub action: UploadAction,
}

/// What a step makes of the upload, of the state and of the open sessions.
#[verifier::ext_equal]
#[verifier::reject_recursive_types(S)]
pub struct UploadOutcome<S> {
    pub upload: UploadView,
    pub state: StateView<S>,
    pub open: Map<Seq<char>, SessionView>,
    pub report: Option<TransferView>,
    pub action: UploadActionView,
}

/// The name that a file of the form is saved under; `id` stands in for a name that is missing.
pub open spec fn field_name(name: Option<Seq<char>>, id: Seq<char>) -> Seq<char> {
    match name {
        Some(n) => safe_upload_name(n),
        None => safe_upload_name("upload-"@ + id),
    }
}

impl UploadView {
    /// The record of the upload: the one that is kept, or the first one where none is.
    pub open spec fn record<S>(self, st: StateView<S>) -> TransferView {
        if st.transfers.contains_key(self.transfer_id) {
            st.transfers[self.transfer_id]
        } else {
            self.begun
        }
    }

    /// Whether progress is reported now: at every full interval, and at the announced end.
    pub open spec fn due(self) -> bool {
        self.received as int % (REPORT_INTERVAL as int) == 0 || self.received
            == self.begun.total_bytes
    }

    /// The record with the progress of the upload.
    pub open spec fn moved<S>(self, st: StateView<S>) -> TransferView {
        TransferView {
            current_file_index: self.file_index,
            bytes_sent: self.received,
            ..self.record(st)
        }
    }

    /// Whether the event can happen now, and can be counted.
    pub open spec fn can_step(self, e: UploadEventView) -> bool {
        match (self.phase, e) {
            (UploadPhase::Between, UploadEventView::Field(_)) => true,
            (UploadPhase::Between, UploadEventView::FormEnded) => true,
            (UploadPhase::Between, UploadEventView::Malformed(_)) => true,
            (UploadPhase::Creating, UploadEventView::Created) => true,
            (UploadPhase::Creating, UploadEventView::NotCreated(_)) => true,
            (UploadPhase::Reading, UploadEventView::Chunk(n)) => self.received + n <= u64::MAX,
            (UploadPhase::Reading, UploadEventView::FieldEnded) => true,
            (UploadPhase::Reading, UploadEventView::FieldBroken) => true,
            (UploadPhase::Reading, UploadEventView::NotWritten(_)) => true,
            (UploadPhase::Flushing, UploadEventView::Flushed) => self.file_index < usize::MAX,
            _ => false,
        }
    }

    /// The outcome that changes nothing but the phase.
    pub open spec fn quiet<S>(
        self,
        st: StateView<S>,
        open: Map<Seq<char>, SessionView>,
        phase: UploadPhase,
        action: UploadActionView,
    ) -> UploadOutcome<S> {
        UploadOutcome {
            upload: UploadView { phase, ..self },
            state: st,
            open,
            report: None,
            action,
        }
    }

    /// What an event leads to. Every file of the form is created under its safe name, read to its
    /// end, and made sure of; a file that breaks off is kept as far as it came in. A fault ends the
    /// upload with a reply, and leaves its session open; the end of the form completes it and closes
    /// the session.
    pub open spec fn stepped<S>(
        self,
        st: StateView<S>,
        open: Map<Seq<char>, SessionView>,
        e: UploadEventView,
        id: Seq<char>,
    ) -> UploadOutcome<S> {
        match e {
            UploadEventView::Field(name) => self.quiet(
                st,
                open,
                UploadPhase::Creating,
                UploadActionView::Create(field_name(name, id)),
            ),
            UploadEventView::Created => self.quiet(
                st,
                open,
                UploadPhase::Reading,
                UploadActionView::Read,
            ),
            UploadEventView::Chunk(n) => {
                let after = UploadView { received: (self.received + n) as u64, ..self };
                UploadOutcome {
                    upload: after,
                    state: if after.due() {
                        st.with_transfer(after.moved(st))
                    } else {
                        st
                    },
                    open,
                    report: if after.due() {
                        Some(after.moved(st))
                    } else {
                        None
                    },
                    action: UploadActionView::Read,
                }
            },
            UploadEventView::FieldEnded => self.quiet(
                st,
                open,
                UploadPhase::Flushing,
                UploadActionView::Flush,
            ),
            UploadEventView::FieldBroken => self.quiet(
                st,
                open,
                UploadPhase::Flushing,
                UploadActionView::Flush,
            ),
            UploadEventView::Flushed => UploadOutcome {
                upload: UploadView {
                    file_index: (self.file_index + 1) as usize,
                    phase: UploadPhase::Between,
                    ..self
                },
                state: st,
                open,
                report: None,
                action: UploadActionView::Next,
            },
            UploadEventView::FormEnded => UploadOutcome {
                upload: UploadView { phase: UploadPhase::Closed, ..self },
                state: st.with_transfer(self.ended(st)),
                open: open.remove(self.transfer_id),
                report: Some(self.ended(st)),
                action: UploadActionView::Reply(ReplyView::Done),
            },
            UploadEventView::Malformed(m) => self.quiet(
                st,
                open,
                UploadPhase::Closed,
                UploadActionView::Reply(ReplyView::Malformed(m)),
            ),
            UploadEventView::NotCreated(m) => self.quiet(
                st,
                open,
                UploadPhase::Closed,
                UploadActionView::Reply(ReplyView::NotCreated(m)),
            ),
            UploadEventView::NotWritten(m) => self.quiet(
                st,
                open,
                UploadPhase::Closed,
                UploadActionView::Reply(ReplyView::NotWritten(m)),
            ),
        }
    }

    /// The record at the end of the upload.
    pub open spec fn ended<S>(self, st: StateView<S>) -> TransferView {
        let t = self.record(st);
        TransferView {
            status: TransferStatus::Completed,
            bytes_sent: if t.total_bytes > self.received {
                t.total_bytes
            } else {
                self.received
            },
            ..t
        }
    }
}

/// What comes of a request to upload.
#[derive(Debug)]
pub enum UploadStart {
    Refused(HttpReply),
    Begun { upload: Upload, report: TransferProgress },
}

/// Begins an upload, where the user has accepted it and it is recorded.
pub fn begin_upload<S>(
    state: &mut AppState<S>,
    sessions: &KeyedTable<UploadSession>,
    transfer_id: &str,
) -> (r: UploadStart)
    ensures
        ({
            let open = table_view(*sessions);
            let st = old(state)@;
            if !open.contains_key(transfer_id@) || !open[transfer_id@].accepted {
                &&& final(state)@ == st
                &&& r matches UploadStart::Refused(reply)
                &&& reply@ == ReplyView::SessionNotAccepted
            } else if !st.transfers.contains_key(transfer_id@) {
                &&& final(state)@ == st
                &&& r matches UploadStart::Refused(reply)
                &&& reply@ == ReplyView::TransferNotFound
            } else {
                let active = TransferView {
                    status: TransferStatus::Active,
                    ..st.transfers[transfer_id@]
                };
                &&& final(state)@ == st.with_transfer(active)
                &&& r matches UploadStart::Begun { upload, report }
                &&& report@ == active
                &&& upload@ == (UploadView {
                    transfer_id: transfer_id@,
                    save_dir: open[transfer_id@].save_dir,
                    begun: active,
                    file_index: 0,
                    received: 0,
                    phase: UploadPhase::Between,
                })
            }
        }),
        old(state)@.keyed() ==> final(state)@.keyed(),
{
    let save_dir: String = match sessions.get(transfer_id) {
        Some(s) => {
            if !s.accepted {
                return UploadStart::Refused(HttpReply::SessionNotAccepted);
            }
            s.save_dir.clone()
        },
        None => {
            return UploadStart::Refused(HttpReply::SessionNotAccepted);
        },
    };
    match state.transfer(transfer_id) {
        Some(found) => {
            let mut t = found;
            t.status = TransferStatus::Active;
            let begun = t.clone();
            let report = state.update_transfer(t);
            UploadStart::Begun {
                upload: Upload {
                    transfer_id: transfer_id.to_string(),
                    save_dir,
                    begun,
                    file_index: 0,
                    received: 0,
                    phase: UploadPhase::Between,
                },
                report,
            }
        },
        None => UploadStart::Refused(HttpReply::TransferNotFound),
    }
}

impl Upload {
    /// The record of the upload.
    fn current<S>(&self, state: &AppState<S>) -> (r: TransferProgress)
        ensures
            r@ == self@.record(state@),
    {
        match state.transfer(self.transfer_id.as_str()) {
            Some(t) => t,
            None => self.begun.clone(),
        }
    }

    /// Whether the event can happen now, and can be counted.
    pub fn ready(&self, event: &UploadEvent) -> (r: bool)
        ensures
            r == self@.can_step(event@),
    {
        match (self.phase, event) {
            (UploadPhase::Between, UploadEvent::Field(_)) => true,
            (UploadPhase::Between, UploadEvent::FormEnded) => true,
            (UploadPhase::Between, UploadEvent::Malformed(_)) => true,
            (UploadPhase::Creating, UploadEvent::Created) => true,
            (UploadPhase::Creating, UploadEvent::NotCreated(_)) => true,
            (UploadPhase::Reading, UploadEvent::Chunk(n)) => match self.received.checked_add(
                *n as u64,
            ) {
                Some(_) => true,
                None => false,
            },
            (UploadPhase::Reading, UploadEvent::FieldEnded) => true,
            (UploadPhase::Reading, UploadEvent::FieldBroken) => true,
            (UploadPhase::Reading, UploadEvent::NotWritten(_)) => true,
            (UploadPhase::Flushing, UploadEvent::Flushed) => self.file_index < usize::MAX,
            _ => false,
        }
    }

    /// Counts `n` bytes that are in the current file; gives what is to be announced, if it is time.
    fn chunk<S>(&mut self, state: &mut AppState<S>, n: usize) -> (r: Option<TransferProgress>)
        requires
            old(self)@.received + n <= u64::MAX,
        ensures
            final(self)@ == (UploadView {
                received: (old(self)@.received + n) as u64,
                ..old(self)@
            }),
            opt_view(r) == (if final(self)@.due() {
                Some(final(self)@.moved(old(state)@))
            } else {
                None
            }),
            final(state)@ == (if final(self)@.due() {
                old(state)@.with_transfer(final(self)@.moved(old(state)@))
            } else {
                old(state)@
            }),
            old(state)@.keyed() ==> final(state)@.keyed(),
    {
        self.received = self.received + n as u64;
        if self.received % REPORT_INTERVAL == 0 || self.received == self.begun.total_bytes {
            let mut t = self.current(state);
            t.current_file_index = self.file_index;
            t.bytes_sent = self.received;
            Some(state.update_transfer(t))
        } else {
            None
        }
    }

    /// Ends the upload: records it as complete and closes its session.
    fn finish<S>(&self, state: &mut AppState<S>, sessions: &mut KeyedTable<UploadSession>) -> (r:
        TransferProgress)
        ensures
            r@ == self@.ended(old(state)@),
            final(state)@ == old(state)@.with_transfer(self@.ended(old(state)@)),
            table_view(*final(sessions)) == table_view(*old(sessions)).remove(self@.transfer_id),
            old(state)@.keyed() ==> final(state)@.keyed(),
    {
        let mut t = self.current(state);
        t.status = TransferStatus::Completed;
        t.bytes_sent = if t.total_bytes > self.received {
            t.total_bytes
        } else {
            self.received
        };
        let report = state.update_transfer(t);
        let ghost before = table_view(*sessions);
        let _ = sessions.remove(self.transfer_id.as_str());
        assert(table_view(*sessions) =~= before.remove(self@.transfer_id));
        report
    }

    /// Takes in what has happened: records the progress and tells what is to be done next.
    pub fn step<S>(
        &mut self,
        state: &mut AppState<S>,
        sessions: &mut KeyedTable<UploadSession>,
        event: UploadEvent,
    ) -> (r: UploadStep)
        requires
            old(self)@.can_step(event@),
        ensures
            exists|id: Seq<char>|
                is_random_uuid(id) && (UploadOutcome {
                    upload: final(self)@,
                    state: final(state)@,
                    open: table_view(*final(sessions)),
                    report: opt_view(r.report),
                    action: r.action@,
                }) == #[trigger] old(self)@.stepped(
                    old(state)@,
                    table_view(*old(sessions)),
                    event@,
                    id,
                ),
            old(state)@.keyed() ==> final(state)@.keyed(),
    {
        let ghost u = self@;
        let ghost st = state@;
        let ghost open = table_view(*sessions);
        let ghost e = event@;
        let ghost mut id = lemma_some_uuid();
        let r: UploadStep = match event {
            UploadEvent::Field(name) => {
                let ghost given = opt_view(name);
                let name = upload_name(name);
                proof {
                    if given is None {
                        id = choose|x: Seq<char>| #[trigger]
                            is_random_uuid(x) && name@ == safe_upload_name("upload-"@ + x);
                    }
                }
                self.phase = UploadPhase::Creating;
                UploadStep { report: None, action: UploadAction::Create(name) }
            },
            UploadEvent::Created => {
                self.phase = UploadPhase::Reading;
                UploadStep { report: None, action: UploadAction::Read }
            },
            UploadEvent::Chunk(n) => {
                let report = self.chunk(state, n);
                UploadStep { report, action: UploadAction::Read }
            },
            UploadEvent::FieldEnded => {
                self.phase = UploadPhase::Flushing;
                UploadStep { report: None, action: UploadAction::Flush }
            },
            UploadEvent::FieldBroken => {
                self.phase = UploadPhase::Flushing;
                UploadStep { report: None, action: UploadAction::Flush }
            },
            UploadEvent::Flushed => {
                self.file_index = self.file_index + 1;
                self.phase = UploadPhase::Between;
                UploadStep { report: None, action: UploadAction::Next }
            },
            UploadEvent::FormEnded => {
                let report = self.finish(state, sessions);
                self.phase = UploadPhase::Closed;
                UploadStep { report: Some(report), action: UploadAction::Reply(HttpReply::Done) }
            },
            UploadEvent::Malformed(m) => {
                self.phase = UploadPhase::Closed;
                UploadStep { report: None, action: UploadAction::Reply(HttpReply::Malformed(m)) }
            },
            UploadEvent::NotCreated(m) => {
                self.phase = UploadPhase::Closed;
                UploadStep { report: None, action: UploadAction::Reply(HttpReply::NotCreated(m)) }
            },
            UploadEvent::NotWritten(m) => {
                self.phase = UploadPhase::Closed;
                UploadStep { report: None, action: UploadAction::Reply(HttpReply::NotWritten(m)) }
            },
        };
        proof {
            let outcome = UploadOutcome {
                upload: self@,
                state: state@,
                open: table_view(*sessions),
                report: opt_view(r.report),
                action: r.action@,
            };
            assert(outcome =~= u.stepped(st, open, e, id));
        }
        r
    }
}

/// The open sessions when the upload of this number has been accepted.
pub open spec fn with_session(
    open: Map<Seq<char>, SessionView>,
    id: Seq<char>,
    from_name: Seq<char>,
    save_dir: Seq<char>,
) -> Map<Seq<char>, SessionView> {
    open.insert(id, SessionView { transfer_id: id, from_name, save_dir, accepted: true })
}

/// Whether an upload of this number can begin.
pub open spec fn may_upload<S>(
    st: StateView<S>,
    open: Map<Seq<char>, SessionView>,
    id: Seq<char>,
) -> bool {
    open.contains_key(id) && open[id].accepted && st.transfers.contains_key(id)
}

/// An announced upload can begin once it is accepted, and no more once it has ended; no other upload
/// is let in or shut out by it.
pub proof fn session_lasts_from_acceptance_to_end<S>(
    st: StateView<S>,
    open: Map<Seq<char>, SessionView>,
    id: Seq<char>,
    from_name: Seq<char>,
    files: Seq<FileView>,
    now: u64,
    save_dir: Seq<char>,
    other: Seq<char>,
)
    ensures
        ({
            let announced = st.with_transfer(announced_record(id, from_name, files, now));
            let accepted = with_session(open, id, from_name, save_dir);
            &&& may_upload(announced, accepted, id)
            &&& !may_upload(announced, accepted.remove(id), id)
            &&& !open.contains_key(id) ==> !may_upload(announced, open, id)
            &&& other != id ==> may_upload(announced, accepted, other) == may_upload(st, open, other)
            &&& other != id ==> may_upload(announced, accepted.remove(id), other) == may_upload(
                st,
                open,
                other,
            )
        }),
{
}

/// An upload that has ended is recorded as complete, with no fewer bytes than were announced or than
/// have come in; the records of other transfers are as they were.
pub proof fn ended_upload_is_complete<S>(u: UploadView, st: StateView<S>, other: Seq<char>)
    requires
        st.keyed(),
        u.begun.transfer_id == u.transfer_id,
        other != u.transfer_id,
    ensures
        ({
            let after = st.with_transfer(u.ended(st));
            let t = after.transfers[u.transfer_id];
            &&& t.status == TransferStatus::Completed
            &&& t.bytes_sent >= t.total_bytes
            &&& t.bytes_sent >= u.received
            &&& after.transfers.contains_key(other) == st.transfers.contains_key(other)
            &&& st.transfers.contains_key(other) ==> after.transfers[other] == st.transfers[other]
        }),
{
}

/// An upload ends once, with one reply. It says that the upload is complete exactly at the end of
/// the form, and only that closes the session: after a fault the phone may try again.
pub proof fn upload_ends_once<S>(
    u: UploadView,
    st: StateView<S>,
    open: Map<Seq<char>, SessionView>,
    e: UploadEventView,
    id: Seq<char>,
)
    requires
        u.can_step(e),
    ensures
        ({
            let o = u.stepped(st, open, e, id);
            &&& u.phase != UploadPhase::Closed
            &&& o.action is Reply <==> o.upload.phase == UploadPhase::Closed
            &&& o.action == UploadActionView::Reply(ReplyView::Done) <==> e
                == UploadEventView::FormEnded
            &&& e != UploadEventView::FormEnded ==> o.open == open
            &&& o.action is Reply && e != UploadEventView::FormEnded ==> o.state == st
        }),
{
}

/// A step of an upload bears on the record of its own transfer and on its own session alone.
pub proof fn uploading_touches_own_record<S>(
    u: UploadView,
    st: StateView<S>,
    open: Map<Seq<char>, SessionView>,
    e: UploadEventView,
    id: Seq<char>,
    other: Seq<char>,
)
    requires
        st.keyed(),
        u.begun.transfer_id == u.transfer_id,
        other != u.transfer_id,
    ensures
        ({
            let o = u.stepped(st, open, e, id);
            &&& o.state == (StateView { transfers: o.state.transfers, ..st })
            &&& o.state.transfers.contains_key(other) == st.transfers.contains_key(other)
            &&& st.transfers.contains_key(other) ==> o.state.transfers[other] == st.transfers[other]
            &&& o.open.contains_key(other) == open.contains_key(other)
            &&& open.contains_key(other) ==> o.open[other] == open[other]
        }),
{
}

/// One thing that happens in an upload: the state and the open sessions as they are then, whatever
/// else has changed them, the event, the bytes of a chunk, and the identifier for a missing name.
#[verifier::ext_equal]
#[verifier::reject_recursive_types(S)]
pub struct UploadTurn<S> {
    pub st: StateView<S>,
    pub open: Map<Seq<char>, SessionView>,
    pub event: UploadEventView,
    pub bytes: Seq<u8>,
    pub id: Seq<char>,
}

/// The upload when all of this has happened.
pub open spec fn upload_after<S>(u: UploadView, turns: Seq<UploadTurn<S>>) -> UploadView
    decreases turns.len(),
{
    if turns.len() == 0 {
        u
    } else {
        let t = turns.last();
        upload_after(u, turns.drop_last()).stepped(t.st, t.open, t.event, t.id).upload
    }
}

/// Whether all of this can happen, one after the other.
pub open spec fn upload_can_happen<S>(u: UploadView, turns: Seq<UploadTurn<S>>) -> bool
    decreases turns.len(),
{
    turns.len() > 0 ==> {
        &&& upload_can_happen(u, turns.drop_last())
        &&& upload_after(u, turns.drop_last()).can_step(turns.last().event)
        &&& turns.last().event matches UploadEventView::Chunk(n) ==> turns.last().bytes.len() == n
    }
}

/// The bytes of the saved files when all of this has happened.
pub open spec fn uploaded<S>(turns: Seq<UploadTurn<S>>) -> Seq<Seq<u8>>
    decreases turns.len(),
{
    if turns.len() == 0 {
        Seq::empty()
    } else {
        let before = uploaded(turns.drop_last());
        match turns.last().event {
            UploadEventView::Created => before.push(Seq::empty()),
            UploadEventView::Chunk(n) => before.drop_last().push(
                before.last() + turns.last().bytes,
            ),
            _ => before,
        }
    }
}

/// The name that the last file of the form is to be saved under.
pub open spec fn last_name<S>(turns: Seq<UploadTurn<S>>) -> Seq<char>
    decreases turns.len(),
{
    if turns.len() == 0 {
        Seq::empty()
    } else {
        match turns.last().event {
            UploadEventView::Field(name) => field_name(name, turns.last().id),
            _ => last_name(turns.drop_last()),
        }
    }
}

/// The names that are taken in a directory: those of its files, and the empty one, which stands for
/// the directory itself.
pub open spec fn taken_names(folder: Folder) -> Set<Seq<char>> {
    folder.files.dom().insert(Seq::empty())
}

/// The directory, which held `files` before, when all of this has happened: a file is created under
/// the name that the search comes to, with `ids` for those that no number is free for.
pub open spec fn upload_folder<S>(
    files: Map<Seq<char>, Seq<u8>>,
    ids: Seq<Seq<char>>,
    turns: Seq<UploadTurn<S>>,
) -> Folder
    decreases turns.len(),
{
    if turns.len() == 0 {
        Folder { files, targets: Seq::empty() }
    } else {
        let before = upload_folder(files, ids, turns.drop_last());
        match turns.last().event {
            UploadEventView::Created => before.with_new(
                SearchView::begun(last_name(turns.drop_last())).outcome(
                    taken_names(before),
                    ids[before.targets.len() as int],
                ),
            ),
            UploadEventView::Chunk(n) => before.with_more(turns.last().bytes),
            _ => before,
        }
    }
}

/// Whether the directory had room for every file at the time that it was created.
pub open spec fn upload_had_room<S>(
    files: Map<Seq<char>, Seq<u8>>,
    ids: Seq<Seq<char>>,
    turns: Seq<UploadTurn<S>>,
) -> bool
    decreases turns.len(),
{
    turns.len() > 0 ==> {
        let before = upload_folder(files, ids, turns.drop_last());
        let id = ids[before.targets.len() as int];
        &&& upload_had_room(files, ids, turns.drop_last())
        &&& turns.last().event == UploadEventView::Created ==> is_random_uuid(id) && has_room(
            last_name(turns.drop_last()),
            taken_names(before),
            id,
        )
    }
}

/// Uploading overwrites nothing: every file is saved directly in the directory, under a safe name
/// that was free and that no other file of the upload has, with all the bytes that came in of it;
/// every file that was there before is there as it was; and the bytes are counted.
pub proof fn uploaded_files_overwrite_nothing<S>(
    u: UploadView,
    files: Map<Seq<char>, Seq<u8>>,
    ids: Seq<Seq<char>>,
    turns: Seq<UploadTurn<S>>,
)
    requires
        u.phase == UploadPhase::Between,
        u.file_index == 0,
        u.received == 0,
        upload_can_happen(u, turns),
        upload_had_room(files, ids, turns),
    ensures
        is_added_to(files, upload_folder(files, ids, turns), uploaded(turns)),
        upload_after(u, turns).received == joined(uploaded(turns)).len(),
{
    lemma_upload_course(u, files, ids, turns);
}

/// What is true of the upload and of the directory is true all along.
proof fn lemma_upload_course<S>(
    u: UploadView,
    files: Map<Seq<char>, Seq<u8>>,
    ids: Seq<Seq<char>>,
    turns: Seq<UploadTurn<S>>,
)
    requires
        u.phase == UploadPhase::Between,
        u.file_index == 0,
        u.received == 0,
        upload_can_happen(u, turns),
        upload_had_room(files, ids, turns),
    ensures
        ({
            let after = upload_after(u, turns);
            let saved = uploaded(turns);
            &&& is_added_to(files, upload_folder(files, ids, turns), saved)
            &&& after.received == joined(saved).len()
            &&& after.phase == UploadPhase::Reading ==> saved.len() > 0
            &&& is_safe_upload(last_name(turns))
        }),
    decreases turns.len(),
{
    if turns.len() > 0 {
        let earlier = turns.drop_last();
        let turn = turns.last();
        lemma_upload_course(u, files, ids, earlier);
        let at = upload_after(u, earlier);
        let before = upload_folder(files, ids, earlier);
        let saved = uploaded(earlier);
        match turn.event {
            UploadEventView::Field(name) => {
                match name {
                    Some(n) => {
                        safe_upload_name_is_safe(n);
                    },
                    None => {
                        safe_upload_name_is_safe("upload-"@ + turn.id);
                    },
                }
            },
            UploadEventView::Created => {
                let name = last_name(earlier);
                let id = ids[before.targets.len() as int];
                let t = SearchView::begun(name).outcome(taken_names(before), id);
                found_name_is_free_and_safe(name, taken_names(before), id);
                assert(t.len() > 0) by {
                    if t.len() == 0 {
                        assert(t =~= Seq::<char>::empty());
                    }
                }
                assert(is_safe(t));
                lemma_new_file(files, before, saved, t);
                let grown = saved.push(Seq::empty());
                assert(grown.drop_last() =~= saved);
            },
            UploadEventView::Chunk(n) => {
                lemma_more_bytes(files, before, saved, turn.bytes);
                let grown = saved.drop_last().push(saved.last() + turn.bytes);
                assert(grown.drop_last() =~= saved.drop_last());
            },
            _ => {},
        }
    }
}

/// The user is asked about the very upload that was announced: the question names the phone's user, lists
/// the announced files with the sum of their sizes, and says that it comes from the page.
pub proof fn question_is_about_the_upload(
    transfer_id: Seq<char>,
    from_name: Seq<char>,
    files: Seq<FileView>,
)
    requires
        total_size(files) <= u64::MAX,
    ensures
        ({
            let prompt = upload_prompt(transfer_id, from_name, files);
            &&& prompt.transfer_id == transfer_id
            &&& prompt.from_name == from_name
            &&& prompt.files == files
            &&& prompt.total_bytes == total_size(prompt.files)
            &&& prompt.source == TransferSource::QrUpload
            &&& prompt.from_id == "qr-mobile"@
            &&& prompt.from_avatar == "📱"@
        }),
{
    lemma_total_size_grows(files, 0);
}

/// An announced upload is recorded as announced: by whom, of what files and how many bytes, when, that it
/// comes in from no known device, and that nothing has come in yet.
pub proof fn announced_upload_is_recorded(
    transfer_id: Seq<char>,
    from_name: Seq<char>,
    files: Seq<FileView>,
    now: u64,
)
    requires
        total_size(files) <= u64::MAX,
    ensures
        ({
            let t = announced_record(transfer_id, from_name, files, now);
            &&& t.transfer_id == transfer_id
            &&& t.peer_name == from_name
            &&& t.peer_id is None
            &&& t.files == files
            &&& t.total_bytes == total_size(t.files)
            &&& t.direction == TransferDirection::Incoming
            &&& t.created_at == now
            &&& t.status == TransferStatus::Pending
            &&& t.bytes_sent == 0
            &&& t.current_file_index == 0
            &&& t.error is None
        }),
{
    lemma_total_size_grows(files, 0);
}

/// The session of an accepted upload is that of its transfer: its files go to the given directory. Every
/// other session is as it was.
pub proof fn session_is_the_accepted_one(
    open: Map<Seq<char>, SessionView>,
    id: Seq<char>,
    from_name: Seq<char>,
    save_dir: Seq<char>,
    other: Seq<char>,
)
    ensures
        ({
            let after = with_session(open, id, from_name, save_dir);
            &&& after.contains_key(id)
            &&& after[id].transfer_id == id
            &&& after[id].from_name == from_name
            &&& after[id].save_dir == save_dir
            &&& after[id].accepted
            &&& other != id ==> after.contains_key(other) == open.contains_key(other)
                && (open.contains_key(other) ==> after[other] == open[other])
        }),
{
}

/// What is announced of an upload is what is recorded of it, and where nothing is announced nothing
/// changes. What the upload is, when it was announced and by whom never changes.
pub proof fn upload_announced_is_recorded<S>(
    u: UploadView,
    st: StateView<S>,
    open: Map<Seq<char>, SessionView>,
    e: UploadEventView,
    id: Seq<char>,
)
    requires
        st.keyed(),
        u.begun.transfer_id == u.transfer_id,
        u.can_step(e),
    ensures
        ({
            let o = u.stepped(st, open, e, id);
            let before = if st.transfers.contains_key(u.transfer_id) {
                st.transfers[u.transfer_id]
            } else {
                u.begun
            };
            &&& o.report is None ==> o.state == st
            &&& o.report matches Some(t) ==> {
                &&& o.state.transfers.contains_key(u.transfer_id)
                &&& o.state.transfers[u.transfer_id] == t
                &&& t.transfer_id == u.transfer_id
                &&& t.files == before.files
                &&& t.total_bytes == before.total_bytes
                &&& t.direction == before.direction
                &&& t.created_at == before.created_at
                &&& t.peer_id == before.peer_id
                &&& t.peer_name == before.peer_name
                &&& t.error == before.error
                &&& e is Chunk ==> t.status == before.status
                &&& e is FormEnded ==> t.current_file_index == before.current_file_index
                &&& e is Chunk || e is FormEnded
            }
            &&& o.upload.transfer_id == u.transfer_id
            &&& o.upload.save_dir == u.save_dir
            &&& o.upload.begun == u.begun
        }),
{
}

/// An upload counts every byte once: what came in is added to the count, and a report comes just at the
/// full intervals and at the announced end, with the count and the file at hand. Nothing else moves the
/// count.
pub proof fn upload_counts_every_byte<S>(
    u: UploadView,
    st: StateView<S>,
    open: Map<Seq<char>, SessionView>,
    e: UploadEventView,
    id: Seq<char>,
)
    requires
        u.can_step(e),
    ensures
        ({
            let o = u.stepped(st, open, e, id);
            &&& e matches UploadEventView::Chunk(n) ==> {
                &&& o.upload.received == u.received + n
                &&& o.upload.phase == u.phase
                &&& o.upload.file_index == u.file_index
                &&& o.action is Read
                &&& o.report is Some <==> (u.received + n) % 262_144 == 0 || u.received + n
                    == u.begun.total_bytes
                &&& o.report matches Some(t) ==> t.bytes_sent == u.received + n
                    && t.current_file_index == u.file_index
            }
            &&& !(e is Chunk) ==> o.upload.received == u.received
        }),
{
}

/// The files of the form are taken one after the other: each is created, read to its end, or as far as it
/// comes in, and made sure of, and then the next is asked for. Only then does the number of the file move
/// on, by one.
pub proof fn form_is_taken_in_order<S>(
    u: UploadView,
    st: StateView<S>,
    open: Map<Seq<char>, SessionView>,
    e: UploadEventView,
    id: Seq<char>,
)
    requires
        u.can_step(e),
    ensures
        ({
            let o = u.stepped(st, open, e, id);
            &&& o.upload.file_index == u.file_index + (if e is Flushed {
                1int
            } else {
                0
            })
            &&& o.action is Create <==> o.upload.phase is Creating
            &&& o.action is Read <==> o.upload.phase is Reading
            &&& o.action is Flush <==> o.upload.phase is Flushing
            &&& o.action is Next <==> o.upload.phase is Between
            &&& o.upload.phase is Creating ==> u.phase is Between && e is Field
            &&& e is Field ==> o.upload.phase is Creating
            &&& e is Created ==> o.upload.phase is Reading
            &&& e is FieldEnded || e is FieldBroken ==> o.upload.phase is Flushing
            &&& e is Flushed ==> o.upload.phase is Between
        }),
{
}

/// A file of the form is created under its own name made safe, and under a name made of the identifier
/// where it has none.
pub proof fn field_is_created_under_its_name<S>(
    u: UploadView,
    st: StateView<S>,
    open: Map<Seq<char>, SessionView>,
    name: Option<Seq<char>>,
    id: Seq<char>,
)
    ensures
        ({
            let o = u.stepped(st, open, UploadEventView::Field(name), id);
            &&& name matches Some(n) ==> o.action == UploadActionView::Create(safe_upload_name(n))
            &&& name is None && is_safe_upload("upload-"@ + id) ==> o.action
                == UploadActionView::Create("upload-"@ + id)
        }),
{
    reveal_strlit("upload-");
    safe_upload_name_is_safe("upload-"@ + id);
}

/// A fault is answered with what it was, and leaves the record and the session as they were; only the end
/// of the form is answered as done, and it closes the session and completes the record with the larger of
/// what was announced and what came in.
pub proof fn fault_is_answered_as_it_was<S>(
    u: UploadView,
    st: StateView<S>,
    open: Map<Seq<char>, SessionView>,
    e: UploadEventView,
    id: Seq<char>,
)
    requires
        u.can_step(e),
    ensures
        ({
            let o = u.stepped(st, open, e, id);
            &&& e matches UploadEventView::Malformed(m) ==> o.action == UploadActionView::Reply(
                ReplyView::Malformed(m),
            )
            &&& e matches UploadEventView::NotCreated(m) ==> o.action == UploadActionView::Reply(
                ReplyView::NotCreated(m),
            )
            &&& e matches UploadEventView::NotWritten(m) ==> o.action == UploadActionView::Reply(
                ReplyView::NotWritten(m),
            )
            &&& e is Malformed || e is NotCreated || e is NotWritten ==> o.upload.phase is Closed
                && o.state == st && o.open == open && o.report is None
            &&& e is FormEnded ==> {
                &&& o.action == UploadActionView::Reply(ReplyView::Done)
                &&& o.upload.phase is Closed
                &&& !o.open.contains_key(u.transfer_id)
                &&& o.report matches Some(t) && t.status == TransferStatus::Completed && t.bytes_sent
                    >= t.total_bytes && t.bytes_sent >= u.received && (t.bytes_sent == t.total_bytes
                    || t.bytes_sent == u.received)
            }
        }),
{
}

/// The page of a device is at its host, behind the number of its port.
pub proof fn page_is_at_host_and_port(host: Seq<char>, port: u16)
    ensures
        exists|digits: Seq<char>|
            page_url(host, port) == "http://"@ + host + ":"@ + digits + "/"@ && #[trigger] value_of(
                digits,
            ) == port,
{
    decimal_reads_back(port as nat);
}

/// A device is listed as it is known, with the address of its own page.
pub proof fn listed_device_is_the_known_one(p: PeerView)
    ensures
        ({
            let s = summary_of(p);
            &&& s.id == p.id
            &&& s.name == p.name
            &&& s.host == p.host
            &&& s.http_port == p.http_port
            &&& s.mobile_web_available == p.mobile_web_available
            &&& s.url == page_url(p.host, p.http_port)
        }),
{
}

/// The list goes by name, whatever the case of its letters, and by host where that leaves two devices
/// level.
pub proof fn list_goes_by_name_and_host(a: SummaryView, b: SummaryView)
    ensures
        lowercase(a.name) != lowercase(b.name) ==> listed_before(a, b) == in_order(
            lowercase(a.name),
            lowercase(b.name),
        ),
        lowercase(a.name) == lowercase(b.name) ==> listed_before(a, b) == in_order(a.host, b.host),
{
}

/// An uploaded file keeps its name as far as that can stand: where it has no leading dot and no two dots
/// in a row, separators and control characters become underscores, and all else is kept.
pub proof fn upload_name_keeps_the_rest(name: Seq<char>, i: int)
    requires
        0 <= i < name.len(),
        name[0] != '.',
        forall|k: int| 0 <= k < name.len() - 1 ==> !(#[trigger] name[k] == '.' && name[k + 1] == '.'),
    ensures
        safe_upload_name(name).len() == name.len(),
        safe_upload_name(name)[i] == (if name[i] == '/' || name[i] == '\\' || name[i] as int <= 0x1f
            || 0x7f <= name[i] as int <= 0x9f {
            '_'
        } else {
            name[i]
        }),
{
    let m = masked(name);
    assert(m[0] != '.');
    assert(without_leading_dots(m) == m);
    assert forall|k: int| 0 <= k < m.len() - 1 implies !(#[trigger] m[k] == '.' && m[k + 1] == '.') by {
        assert(m[k] == '.' ==> name[k] == '.');
        assert(m[k + 1] == '.' ==> name[k + 1] == '.');
    }
    lemma_no_dots_to_replace(m);
}

/// A leading dot makes no difference to the name that an uploaded file is saved under, unless nothing
/// follows it.
pub proof fn leading_dot_is_dropped(name: Seq<char>)
    requires
        name.len() > 0,
    ensures
        safe_upload_name(seq!['.'] + name) == safe_upload_name(name),
{
    let longer = seq!['.'] + name;
    assert(masked(longer) =~= seq!['.'] + masked(name));
    assert(masked(longer).drop_first() =~= masked(name));
}

/// The first pair of dots within the name of an uploaded file becomes one underscore; what stands before
/// it is treated by itself, and what stands after it in the same way.
pub proof fn pair_of_dots_is_replaced(a: Seq<char>, b: Seq<char>)
    requires
        a.len() > 0,
        a[0] != '.',
        a.last() != '.',
        forall|k: int| 0 <= k < a.len() - 1 ==> !(#[trigger] a[k] == '.' && a[k + 1] == '.'),
    ensures
        safe_upload_name(a + ".."@ + b) == safe_upload_name(a) + "_"@ + replaced(
            masked(b),
            ".."@,
            "_"@,
        ),
{
    reveal_strlit("..");
    reveal_strlit("_");
    let name = a + ".."@ + b;
    let m = masked(a);
    assert(masked(name) =~= m + ".."@ + masked(b));
    assert(masked(name)[0] == m[0]);
    assert(m[0] != '.');
    assert(without_leading_dots(masked(name)) == masked(name));
    assert(without_leading_dots(m) == m);
    assert forall|k: int| 0 <= k < m.len() - 1 implies !(#[trigger] m[k] == '.' && m[k + 1] == '.') by {
        assert(m[k] == '.' ==> a[k] == '.');
        assert(m[k + 1] == '.' ==> a[k + 1] == '.');
    }
    lemma_no_dots_to_replace(m);
    let s = m + ".."@ + masked(b);
    assert forall|i: int| 0 <= i < m.len() implies #[trigger] s.subrange(i, i + (".."@).len())
        != ".."@ by {
        let sub = s.subrange(i, i + (".."@).len());
        if sub == ".."@ {
            assert(sub[0] == '.' && sub[1] == '.');
            assert(s[i] == '.' && s[i + 1] == '.');
            assert(m[i] == '.');
            if i + 1 < m.len() {
                assert(m[i + 1] == '.');
            } else {
                assert(a[i] == '.');
            }
        }
    }
    first_place_is_replaced(m, masked(b), ".."@, "_"@);
}

/// What can happen when: the next file, the end of the form or a fault in it between two files; that a
/// file is there, or could not be made, while it is created; bytes that can be counted, the end of the file,
/// or a fault while it comes in; that it is made sure of while that is done; and nothing after the end.
pub proof fn upload_is_ready_for(u: UploadView, e: UploadEventView)
    ensures
        u.phase is Between ==> (u.can_step(e) <==> e is Field || e is FormEnded || e is Malformed),
        u.phase is Creating ==> (u.can_step(e) <==> e is Created || e is NotCreated),
        u.phase is Reading ==> {
            &&& e matches UploadEventView::Chunk(n) ==> (u.can_step(e) <==> u.received + n <= u64::MAX)
            &&& !(e is Chunk) ==> (u.can_step(e) <==> e is FieldEnded || e is FieldBroken || e is NotWritten)
        },
        u.phase is Flushing ==> (u.can_step(e) <==> e is Flushed && u.file_index < usize::MAX),
        u.phase is Closed ==> !u.can_step(e),
{
}

/// In an ordered list no device stands before one that is to stand before it, unless the two are level.
pub proof fn ordered_list_is_in_order(s: Seq<SummaryView>, i: int, j: int)
    requires
        is_sorted(s),
        0 <= i < j < s.len(),
    ensures
        lowercase(s[i].name) != lowercase(s[j].name) ==> in_order(
            lowercase(s[i].name),
            lowercase(s[j].name),
        ),
        lowercase(s[i].name) == lowercase(s[j].name) ==> in_order(s[i].host, s[j].host),
{
    assert(listed_before(s[i], s[j]));
}

} // verus!
