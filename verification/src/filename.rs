//! Names for received files: safe in themselves, and free in their directory.

use crate::ids::{is_hex_char, is_random_uuid, lemma_some_uuid, new_id};
use crate::text::{chars_of, code_point, decimal, decimal_is_injective, push_decimal};
use vstd::prelude::*;

verus! {

/// The control characters of Unicode.
pub open spec fn is_control(c: char) -> bool {
    c as int <= 0x1f || 0x7f <= c as int <= 0x9f
}

/// Whether a file name may not hold `c`.
pub open spec fn is_unsafe(c: char) -> bool {
    c == '/' || c == '\\' || is_control(c)
}

/// `c`, or an underscore where a file name may not hold it.
pub open spec fn masked_char(c: char) -> char {
    if is_unsafe(c) {
        '_'
    } else {
        c
    }
}

/// `name` with an underscore for every character that a file name may not hold.
pub open spec fn masked(name: Seq<char>) -> Seq<char> {
    name.map_values(|c: char| masked_char(c))
}

/// `s` without its leading dots.
pub open spec fn without_leading_dots(s: Seq<char>) -> Seq<char>
    decreases s.len(),
{
    if s.len() > 0 && s[0] == '.' {
        without_leading_dots(s.drop_first())
    } else {
        s
    }
}

/// Whether `c` is a control character.
pub fn control(c: char) -> (r: bool)
    ensures
        r == is_control(c),
{
    let n: u32 = code_point(c);
    n <= 0x1f || (0x7f <= n && n <= 0x9f)
}

/// The characters of `name`, with an underscore for every one that a file name may not hold.
pub(crate) fn mask(name: &str) -> (r: Vec<char>)
    ensures
        r@ == masked(name@),
{
    let chars = chars_of(name);
    let mut r: Vec<char> = Vec::new();
    for i in 0..chars.len()
        invariant
            chars@ == name@,
            r@ == masked(name@.take(i as int)),
    {
        let c: char = chars[i];
        assert(masked(name@.take(i + 1)) =~= masked(name@.take(i as int)).push(masked_char(c)));
        if c == '/' || c == '\\' || control(c) {
            r.push('_');
        } else {
            r.push(c);
        }
    }
    assert(name@.take(name@.len() as int) =~= name@);
    r
}

/// The text of `chars` without its leading dots.
pub(crate) fn drop_leading_dots(chars: &Vec<char>) -> (r: String)
    ensures
        r@ == without_leading_dots(chars@),
{
    let mut lo: usize = 0;
    assert(chars@.skip(0) =~= chars@);
    while lo < chars.len() && chars[lo] == '.'
        invariant
            lo <= chars@.len(),
            without_leading_dots(chars@) == without_leading_dots(chars@.skip(lo as int)),
        decreases chars@.len() - lo,
    {
        assert(chars@.skip(lo as int).drop_first() =~= chars@.skip(lo + 1));
        lo = lo + 1;
    }
    let mut r = String::new();
    let mut i: usize = lo;
    while i < chars.len()
        invariant
            lo <= i <= chars@.len(),
            r@ == chars@.subrange(lo as int, i as int),
        decreases chars@.len() - i,
    {
        r.push(chars[i]);
        i = i + 1;
    }
    assert(chars@.subrange(lo as int, chars@.len() as int) =~= chars@.skip(lo as int));
    r
}

/// The part of a name before its last dot; all of it where it has none.
pub open spec fn stem(name: Seq<char>) -> Seq<char> {
    match name.index_of_last('.') {
        Some(i) => name.take(i),
        None => name,
    }
}

/// The part of a name from its last dot on; nothing where it has none.
pub open spec fn extension(name: Seq<char>) -> Seq<char> {
    match name.index_of_last('.') {
        Some(i) => name.skip(i),
        None => Seq::empty(),
    }
}

/// The name to use when `n` others were taken: the name itself, then numbered ones.
pub open spec fn numbered(name: Seq<char>, n: nat) -> Seq<char> {
    if n == 0 {
        name
    } else {
        stem(name) + " ("@ + decimal(n) + ")"@ + extension(name)
    }
}

/// The name with an identifier before its extension.
pub open spec fn tagged(name: Seq<char>, id: Seq<char>) -> Seq<char> {
    stem(name) + "-"@ + id + extension(name)
}

/// The place of the last dot in `chars`.
fn last_dot(chars: &Vec<char>) -> (r: Option<usize>)
    ensures
        match r {
            Some(i) => chars@.index_of_last('.') == Some(i as int) && i < chars@.len(),
            None => chars@.index_of_last('.') is None,
        },
{
    proof {
        chars@.index_of_last_ensures('.');
    }
    let mut i: usize = chars.len();
    while i > 0
        invariant
            i <= chars@.len(),
            forall|j: int| i <= j < chars@.len() ==> chars@[j] != '.',
            match chars@.index_of_last('.') {
                Some(index) => chars@.contains('.') && 0 <= index < chars@.len() && chars@[index]
                    == '.' && forall|j: int|
                    0 <= index < j < chars@.len() ==> chars@[j] != '.',
                None => !chars@.contains('.'),
            },
        decreases i,
    {
        if chars[i - 1] == '.' {
            return Some(i - 1);
        }
        i = i - 1;
    }
    None
}

/// Appends `chars[lo..hi]`.
fn push_chars(out: &mut String, chars: &Vec<char>, lo: usize, hi: usize)
    requires
        lo <= hi <= chars@.len(),
    ensures
        final(out)@ == old(out)@ + chars@.subrange(lo as int, hi as int),
{
    let ghost before = out@;
    let mut i: usize = lo;
    while i < hi
        invariant
            lo <= i <= hi <= chars@.len(),
            out@ == before + chars@.subrange(lo as int, i as int),
        decreases hi - i,
    {
        out.push(chars[i]);
        i = i + 1;
    }
}

/// A name with `middle` between its stem and its extension.
fn with_middle(name: &str, middle: &str) -> (r: String)
    ensures
        r@ == stem(name@) + middle@ + extension(name@),
{
    let chars = chars_of(name);
    let mut out = String::new();
    match last_dot(&chars) {
        Some(i) => {
            push_chars(&mut out, &chars, 0, i);
            out.append(middle);
            push_chars(&mut out, &chars, i, chars.len());
            assert(chars@.subrange(0, i as int) =~= name@.take(i as int));
            assert(chars@.subrange(i as int, chars@.len() as int) =~= name@.skip(i as int));
        },
        None => {
            push_chars(&mut out, &chars, 0, chars.len());
            out.append(middle);
            assert(chars@.subrange(0, chars@.len() as int) =~= name@);
        },
    }
    out
}

/// The name to use when `n` others were taken.
pub fn numbered_name(name: &str, n: u32) -> (r: String)
    ensures
        r@ == numbered(name@, n as nat),
{
    if n == 0 {
        return name.to_string();
    }
    let mut middle = String::new();
    middle.append(" (");
    push_decimal(&mut middle, n as u64);
    middle.append(")");
    let r = with_middle(name, middle.as_str());
    assert(r@ =~= numbered(name@, n as nat));
    r
}

/// The name with an identifier before its extension.
pub fn tagged_name(name: &str, id: &str) -> (r: String)
    ensures
        r@ == tagged(name@, id@),
{
    let mut middle = String::new();
    middle.append("-");
    middle.append(id);
    let r = with_middle(name, middle.as_str());
    assert(r@ =~= tagged(name@, id@));
    r
}

/// How many names are tried before an identifier settles the matter.
pub const NAME_TRIES: u32 = 10_000;

/// A name to save a file under.
#[derive(Debug)]
pub enum NameChoice {
    /// To be used if the directory does not hold it yet.
    IfFree(String),
    /// To be used as it is.
    Settled(String),
}

/// The next name for a file when the directory already held the `taken` names before it.
pub fn unique_path(name: &str, taken: u32) -> (r: NameChoice)
    ensures
        taken < NAME_TRIES ==> (r matches NameChoice::IfFree(s) && s@ == numbered(
            name@,
            taken as nat,
        )),
        taken >= NAME_TRIES ==> (r matches NameChoice::Settled(s) && exists|id: Seq<char>| #[trigger]
            is_random_uuid(id) && s@ == tagged(name@, id)),
{
    if taken < NAME_TRIES {
        NameChoice::IfFree(numbered_name(name, taken))
    } else {
        let id = new_id();
        NameChoice::Settled(tagged_name(name, id.as_str()))
    }
}

/// The search for a name that a directory does not hold yet.
#[derive(Debug)]
pub struct NameSearch {
    pub name: String,
    /// How many names were taken.
    pub taken: u32,
}

/// A search as a mathematical value.
#[verifier::ext_equal]
pub struct SearchView {
    pub name: Seq<char>,
    pub taken: nat,
}

/// What is to be done next in a search.
#[derive(Debug)]
pub enum SearchAction {
    /// See whether the directory holds this name.
    Probe(String),
    /// Use this name.
    Use(String),
}

/// An action of a search as a mathematical value.
#[verifier::ext_equal]
pub enum SearchActionView {
    Probe(Seq<char>),
    Use(Seq<char>),
}

impl View for NameSearch {
    type V = SearchView;

    open spec fn view(&self) -> SearchView {
        SearchView { name: self.name@, taken: self.taken as nat }
    }
}

impl View for SearchAction {
    type V = SearchActionView;

    open spec fn view(&self) -> SearchActionView {
        match *self {
            SearchAction::Probe(s) => SearchActionView::Probe(s@),
            SearchAction::Use(s) => SearchActionView::Use(s@),
        }
    }
}

impl SearchView {
    /// A search at its start.
    pub open spec fn begun(name: Seq<char>) -> SearchView {
        SearchView { name, taken: 0 }
    }

    /// The name that is being looked for in the directory.
    pub open spec fn candidate(self) -> Seq<char> {
        numbered(self.name, self.taken)
    }

    /// Where it leads that the directory holds the candidate, or does not: a free candidate is used,
    /// after a taken one comes the next, and after the last of them `id` settles the matter.
    pub open spec fn stepped(self, exists: bool, id: Seq<char>) -> (SearchView, SearchActionView) {
        if !exists {
            (self, SearchActionView::Use(self.candidate()))
        } else {
            let next = SearchView { taken: self.taken + 1, ..self };
            if next.taken < NAME_TRIES {
                (next, SearchActionView::Probe(next.candidate()))
            } else {
                (next, SearchActionView::Use(tagged(self.name, id)))
            }
        }
    }

    /// The name that the search comes to in a directory that holds `existing`.
    pub open spec fn outcome(self, existing: Set<Seq<char>>, id: Seq<char>) -> Seq<char>
        decreases NAME_TRIES - self.taken,
    {
        let (next, action) = self.stepped(existing.contains(self.candidate()), id);
        match action {
            SearchActionView::Use(s) => s,
            SearchActionView::Probe(_) => next.outcome(existing, id),
        }
    }
}

impl NameSearch {
    /// Begins a search: the name itself is looked for first.
    pub fn begin(name: &str) -> (r: (NameSearch, SearchAction))
        ensures
            r.0@ == SearchView::begun(name@),
            r.1@ == SearchActionView::Probe(SearchView::begun(name@).candidate()),
    {
        let search = NameSearch { name: name.to_string(), taken: 0 };
        (search, SearchAction::Probe(name.to_string()))
    }

    /// Takes in whether the directory holds the candidate.
    pub fn step(&mut self, exists: bool) -> (r: SearchAction)
        requires
            old(self)@.taken < NAME_TRIES,
        ensures
            exists|id: Seq<char>|
                is_random_uuid(id) && (final(self)@, r@) == #[trigger] old(self)@.stepped(
                    exists,
                    id,
                ),
            final(self)@.taken < NAME_TRIES || r@ is Use,
    {
        let ghost before = self@;
        if !exists {
            let r = SearchAction::Use(numbered_name(self.name.as_str(), self.taken));
            proof {
                let id = lemma_some_uuid();
                assert((self@, r@) == before.stepped(exists, id));
            }
            return r;
        }
        self.taken = self.taken + 1;
        match unique_path(self.name.as_str(), self.taken) {
            NameChoice::IfFree(s) => {
                let r = SearchAction::Probe(s);
                proof {
                    let id = lemma_some_uuid();
                    assert((self@, r@) == before.stepped(exists, id));
                }
                r
            },
            NameChoice::Settled(s) => {
                proof {
                    let id = choose|id: Seq<char>| #[trigger]
                        is_random_uuid(id) && s@ == tagged(before.name, id);
                    assert((self@, SearchActionView::Use(s@)) == before.stepped(exists, id));
                }
                SearchAction::Use(s)
            },
        }
    }
}

/// In a directory that holds `existing`, the search comes to the name itself where that is free,
/// otherwise to the numbered name with the least number that is; never to a name that is there
/// already. Where all of them are taken, it comes to the name with the identifier.
pub proof fn search_finds_least_free_name(
    name: Seq<char>,
    existing: Set<Seq<char>>,
    id: Seq<char>,
    n: nat,
)
    requires
        n <= NAME_TRIES,
        forall|i: nat| i < n ==> existing.contains(#[trigger] numbered(name, i)),
        n < NAME_TRIES ==> !existing.contains(numbered(name, n)),
    ensures
        SearchView::begun(name).outcome(existing, id) == (if n < NAME_TRIES {
            numbered(name, n)
        } else {
            tagged(name, id)
        }),
        n < NAME_TRIES ==> !existing.contains(SearchView::begun(name).outcome(existing, id)),
{
    lemma_search_from(SearchView::begun(name), existing, id, n);
}

proof fn lemma_search_from(v: SearchView, existing: Set<Seq<char>>, id: Seq<char>, n: nat)
    requires
        v.taken <= n <= NAME_TRIES,
        v.taken < NAME_TRIES,
        forall|i: nat| i < n ==> existing.contains(#[trigger] numbered(v.name, i)),
        n < NAME_TRIES ==> !existing.contains(numbered(v.name, n)),
    ensures
        v.outcome(existing, id) == (if n < NAME_TRIES {
            numbered(v.name, n)
        } else {
            tagged(v.name, id)
        }),
    decreases n - v.taken,
{
    if v.taken < n {
        assert(existing.contains(numbered(v.name, v.taken)));
        let next = SearchView { taken: v.taken + 1, ..v };
        if next.taken < NAME_TRIES {
            lemma_search_from(next, existing, id, n);
        }
    }
}

/// Whether a search in a directory that holds `existing` can come to a free name: some candidate is
/// free, or the name with the identifier is.
pub open spec fn has_room(name: Seq<char>, existing: Set<Seq<char>>, id: Seq<char>) -> bool {
    ||| exists|n: nat| n < NAME_TRIES && !existing.contains(#[trigger] numbered(name, n))
    ||| !existing.contains(tagged(name, id))
}

/// The least number from `from` on whose name is free, where there is one below the limit.
spec fn least_free(name: Seq<char>, existing: Set<Seq<char>>, from: nat) -> nat
    decreases NAME_TRIES - from,
{
    if from >= NAME_TRIES || !existing.contains(numbered(name, from)) {
        from
    } else {
        least_free(name, existing, from + 1)
    }
}

proof fn lemma_least_free(name: Seq<char>, existing: Set<Seq<char>>, from: nat)
    requires
        from <= NAME_TRIES,
    ensures
        from <= least_free(name, existing, from) <= NAME_TRIES,
        forall|i: nat|
            from <= i < least_free(name, existing, from) ==> existing.contains(
                #[trigger] numbered(name, i),
            ),
        least_free(name, existing, from) < NAME_TRIES ==> !existing.contains(
            numbered(name, least_free(name, existing, from)),
        ),
    decreases NAME_TRIES - from,
{
    if from < NAME_TRIES && existing.contains(numbered(name, from)) {
        lemma_least_free(name, existing, from + 1);
        assert forall|i: nat| from <= i < least_free(name, existing, from) implies existing.contains(
            #[trigger] numbered(name, i),
        ) by {
            if i > from {
                assert(from + 1 <= i);
            }
        }
    }
}

/// Where there is room, the search comes to a name that the directory does not hold; and it is as
/// safe as the name that was asked for.
pub proof fn found_name_is_free_and_safe(name: Seq<char>, existing: Set<Seq<char>>, id: Seq<char>)
    requires
        is_random_uuid(id),
        has_room(name, existing, id),
    ensures
        ({
            let r = SearchView::begun(name).outcome(existing, id);
            &&& !existing.contains(r)
            &&& name.len() > 0 && name[0] != '.' ==> r.len() > 0 && r[0] == name[0]
            &&& name.len() == 0 && r.len() > 0 ==> r[0] != '.'
            &&& (forall|i: int| 0 <= i < name.len() ==> !is_unsafe(#[trigger] name[i])) ==> (forall|
                i: int,
            |
                0 <= i < r.len() ==> !is_unsafe(#[trigger] r[i]))
        }),
{
    let n = least_free(name, existing, 0);
    lemma_least_free(name, existing, 0);
    search_finds_least_free_name(name, existing, id, n);
    if n < NAME_TRIES {
        numbered_name_is_as_safe(name, n);
    } else {
        lemma_tagged_is_as_safe(name, id);
    }
    if name.len() == 0 {
        name.index_of_last_ensures('.');
        reveal_strlit(" (");
        reveal_strlit("-");
        assert(n > 0 ==> numbered(name, n)[0] == ' ');
        assert(tagged(name, id)[0] == '-');
    }
}

/// A name with an identifier in it is as safe as the name.
proof fn lemma_tagged_is_as_safe(name: Seq<char>, id: Seq<char>)
    requires
        is_random_uuid(id),
    ensures
        ({
            let r = tagged(name, id);
            &&& name.len() > 0 && name[0] != '.' ==> r.len() > 0 && r[0] == name[0]
            &&& (forall|i: int| 0 <= i < name.len() ==> !is_unsafe(#[trigger] name[i])) ==> (forall|
                i: int,
            |
                0 <= i < r.len() ==> !is_unsafe(#[trigger] r[i]))
        }),
{
    reveal_strlit("-");
    name.index_of_last_ensures('.');
    name_is_stem_and_extension(name);
    let r = tagged(name, id);
    let st = stem(name);
    let e = extension(name);
    let middle = "-"@ + id;
    assert(r =~= st + middle + e);
    let a = st.len() as int;
    let b = a + middle.len();
    assert forall|j: int| 0 <= j < middle.len() implies !is_unsafe(#[trigger] middle[j]) by {
        if j > 0 {
            assert(middle[j] == id[j - 1]);
            if j - 1 != 8 && j - 1 != 13 && j - 1 != 18 && j - 1 != 23 {
                assert(is_hex_char(id[j - 1]));
            }
        }
    }
    assert forall|i: int| 0 <= i < r.len() implies #[trigger] r[i] == (if i < a {
        name[i]
    } else if i < b {
        middle[i - a]
    } else {
        name[i - middle.len()]
    }) by {
        if i < a {
            assert(name[i] == st[i]);
        } else if i >= b {
            assert(name[i - middle.len()] == e[i - b]);
        }
    }
}

/// A name is its stem and its extension together.
pub proof fn name_is_stem_and_extension(name: Seq<char>)
    ensures
        stem(name) + extension(name) == name,
{
    name.index_of_last_ensures('.');
    assert(stem(name) + extension(name) =~= name);
}

/// No name is tried twice: different numbers of taken names lead to different names.
pub proof fn numbered_names_differ(name: Seq<char>, a: nat, b: nat)
    requires
        a != b,
    ensures
        numbered(name, a) != numbered(name, b),
{
    name_is_stem_and_extension(name);
    let s = stem(name);
    let e = extension(name);
    if a == 0 || b == 0 {
        let n = if a == 0 { b } else { a };
        reveal_strlit(" (");
        assert(numbered(name, n).len() > (s + e).len());
    } else if numbered(name, a) == numbered(name, b) {
        let pre = s + " ("@;
        let post = ")"@ + e;
        assert(numbered(name, a) =~= pre + decimal(a) + post);
        assert(numbered(name, b) =~= pre + decimal(b) + post);
        assert(decimal(a).len() == decimal(b).len());
        let lo = pre.len() as int;
        let hi = lo + decimal(a).len();
        assert(numbered(name, a).subrange(lo, hi) =~= decimal(a));
        assert(numbered(name, b).subrange(lo, hi) =~= decimal(b));
        decimal_is_injective(a, b);
    }
}

/// A numbered name keeps the extension of the name.
pub proof fn numbered_name_keeps_extension(name: Seq<char>, n: nat)
    ensures
        extension(name).is_suffix_of(numbered(name, n)),
{
    name_is_stem_and_extension(name);
    let e = extension(name);
    let whole = numbered(name, n);
    assert(whole.subrange(whole.len() - e.len(), whole.len() as int) =~= e);
}

/// Digits are no trouble in a file name.
proof fn lemma_decimal_is_plain(n: nat)
    ensures
        forall|i: int|
            0 <= i < decimal(n).len() ==> !is_unsafe(#[trigger] decimal(n)[i]) && decimal(n)[i]
                != '.',
    decreases n,
{
    if n >= 10 {
        lemma_decimal_is_plain(n / 10);
        assert forall|i: int| 0 <= i < decimal(n).len() implies !is_unsafe(
            #[trigger] decimal(n)[i],
        ) && decimal(n)[i] != '.' by {
            if i < decimal(n / 10).len() {
                assert(decimal(n)[i] == decimal(n / 10)[i]);
            }
        }
    }
}

/// A numbered name is as safe as the name: it begins with the same character, unless that is a dot,
/// and neither a character that a file name may not hold nor a pair of dots comes in.
pub proof fn numbered_name_is_as_safe(name: Seq<char>, n: nat)
    ensures
        ({
            let r = numbered(name, n);
            &&& name.len() > 0 && name[0] != '.' ==> r.len() > 0 && r[0] == name[0]
            &&& (forall|i: int| 0 <= i < name.len() ==> !is_unsafe(#[trigger] name[i])) ==> (forall|
                i: int,
            |
                0 <= i < r.len() ==> !is_unsafe(#[trigger] r[i]))
            &&& (forall|i: int|
                0 <= i < name.len() - 1 ==> !(#[trigger] name[i] == '.' && name[i + 1] == '.')) ==> (
            forall|i: int| 0 <= i < r.len() - 1 ==> !(#[trigger] r[i] == '.' && r[i + 1] == '.'))
        }),
{
    if n > 0 {
        let r = numbered(name, n);
        let st = stem(name);
        let e = extension(name);
        let middle = " ("@ + decimal(n) + ")"@;
        reveal_strlit(" (");
        reveal_strlit(")");
        name.index_of_last_ensures('.');
        name_is_stem_and_extension(name);
        lemma_decimal_is_plain(n);
        assert(r =~= st + middle + e);
        assert forall|j: int| 0 <= j < middle.len() implies !is_unsafe(#[trigger] middle[j])
            && middle[j] != '.' by {
            let d = decimal(n).len() as int;
            if 2 <= j < 2 + d {
                assert(middle[j] == decimal(n)[j - 2]);
            }
        }
        let a = st.len() as int;
        let b = a + middle.len();
        assert forall|i: int| 0 <= i < r.len() implies #[trigger] r[i] == (if i < a {
            name[i]
        } else if i < b {
            middle[i - a]
        } else {
            name[i - middle.len()]
        }) by {
            if i < a {
                assert(name[i] == st[i]);
            } else if i >= b {
                assert(name[i - middle.len()] == e[i - b]);
            }
        }
        if forall|i: int|
            0 <= i < name.len() - 1 ==> !(#[trigger] name[i] == '.' && name[i + 1] == '.') {
            assert forall|i: int| 0 <= i < r.len() - 1 implies !(#[trigger] r[i] == '.' && r[i + 1]
                == '.') by {
                if i + 1 < a {
                    assert(r[i] == name[i] && r[i + 1] == name[i + 1]);
                } else if i >= b {
                    let k = i - middle.len();
                    assert(r[i] == name[k] && r[i + 1] == name[k + 1]);
                } else if i + 1 < b {
                    assert(r[i + 1] == middle[i + 1 - a]);
                } else {
                    assert(r[i] == middle[i - a]);
                }
            }
        }
    }
}

/// Masking leaves no character that a file name may not hold.
pub proof fn masked_is_safe(name: Seq<char>)
    ensures
        masked(name).len() == name.len(),
        forall|i: int| 0 <= i < name.len() ==> !is_unsafe(#[trigger] masked(name)[i]),
{
}

/// Dropping leading dots leaves a rest of the text that does not begin with one.
pub proof fn lemma_without_leading_dots(s: Seq<char>)
    ensures
        exists|n: int|
            0 <= n <= s.len() && without_leading_dots(s) == #[trigger] s.skip(n) && forall|k: int|
                0 <= k < n ==> s[k] == '.',
        without_leading_dots(s).len() > 0 ==> without_leading_dots(s)[0] != '.',
    decreases s.len(),
{
    if s.len() > 0 && s[0] == '.' {
        let rest = s.drop_first();
        lemma_without_leading_dots(rest);
        let n = choose|n: int|
            0 <= n <= rest.len() && without_leading_dots(rest) == #[trigger] rest.skip(n) && forall|
                k: int,
            |
                0 <= k < n ==> rest[k] == '.';
        assert(rest.skip(n) =~= s.skip(n + 1));
        assert forall|k: int| 0 <= k < n + 1 implies s[k] == '.' by {
            if k > 0 {
                assert(rest[k - 1] == s[k]);
            }
        }
    } else {
        assert(s.skip(0) =~= s);
    }
}

/// Masking puts an underscore in place of a separator or a control character, and keeps every other
/// character where it is.
pub proof fn masking_keeps_other_characters(name: Seq<char>, i: int)
    requires
        0 <= i < name.len(),
    ensures
        masked(name).len() == name.len(),
        name[i] == '/' || name[i] == '\\' || name[i] as int <= 0x1f || 0x7f <= name[i] as int <= 0x9f
            ==> masked(name)[i] == '_',
        !(name[i] == '/' || name[i] == '\\' || name[i] as int <= 0x1f || 0x7f <= name[i] as int
            <= 0x9f) ==> masked(name)[i] == name[i],
{
}

/// The last dot of a name is where it is parted: for a name made of `s` and an ending that begins with
/// its only dot, the number and the identifier stand between the two; for a name without a dot they
/// stand at the end.
pub proof fn names_are_parted_at_the_last_dot(s: Seq<char>, e: Seq<char>, n: nat, id: Seq<char>)
    requires
        e.len() > 0 ==> e[0] == '.' && forall|i: int| 0 < i < e.len() ==> #[trigger] e[i] != '.',
        e.len() == 0 ==> !s.contains('.'),
    ensures
        numbered(s + e, 0) == s + e,
        n > 0 ==> numbered(s + e, n) == s + " ("@ + decimal(n) + ")"@ + e,
        tagged(s + e, id) == s + "-"@ + id + e,
{
    let name = s + e;
    name.index_of_last_ensures('.');
    if e.len() > 0 {
        let at = s.len() as int;
        assert(name[at] == '.');
        assert(name.contains('.'));
        let i = name.index_of_last('.')->0;
        if i < at {
            assert(name[at] != '.');
        } else if i > at {
            assert(name[i] == e[i - at]);
        }
        assert(name.take(at) =~= s);
        assert(name.skip(at) =~= e);
    } else {
        assert(name =~= s);
        assert(extension(name) =~= e);
    }
}

/// A search uses the name that it was last asked to look for, where that is free, and otherwise looks for
/// the one with the next number, until the tries are used up.
pub proof fn search_goes_number_by_number(v: SearchView, exists: bool, id: Seq<char>)
    ensures
        ({
            let (next, action) = v.stepped(exists, id);
            &&& next.name == v.name
            &&& !exists ==> action == SearchActionView::Use(numbered(v.name, v.taken)) && next == v
            &&& exists ==> next.taken == v.taken + 1
            &&& exists && v.taken + 1 < 10_000 ==> action == SearchActionView::Probe(
                numbered(v.name, v.taken + 1),
            )
            &&& exists && v.taken + 1 >= 10_000 ==> action == SearchActionView::Use(tagged(v.name, id))
        }),
{
}

} // verus!
