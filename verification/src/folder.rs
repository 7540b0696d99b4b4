//! The directory that files are saved in, as a mathematical value.

use crate::transfer::is_safe;
use vstd::prelude::*;

verus! {

/// The directory that files are saved in: what it holds, and under which names the files of this
/// transfer were saved so far.
#[verifier::ext_equal]
pub struct Folder {
    pub files: Map<Seq<char>, Seq<u8>>,
    pub targets: Seq<Seq<char>>,
}

impl Folder {
    /// The directory with a new, empty file.
    pub open spec fn with_new(self, target: Seq<char>) -> Folder {
        Folder {
            files: self.files.insert(target, Seq::empty()),
            targets: self.targets.push(target),
        }
    }

    /// The directory with more bytes at the end of the last file of the transfer.
    pub open spec fn with_more(self, bytes: Seq<u8>) -> Folder {
        let t = self.targets.last();
        Folder { files: self.files.insert(t, self.files[t] + bytes), ..self }
    }
}

/// Whether the directory holds what it held before, and beside it the saved files, each under a safe
/// name of its own that was not there before.
pub open spec fn is_added_to(
    before: Map<Seq<char>, Seq<u8>>,
    folder: Folder,
    saved: Seq<Seq<u8>>,
) -> bool {
    &&& folder.targets.len() == saved.len()
    &&& folder.targets.no_duplicates()
    &&& forall|k: Seq<char>| #[trigger]
        before.contains_key(k) ==> folder.files.contains_key(k) && folder.files[k] == before[k]
    &&& forall|i: int|
        0 <= i < saved.len() ==> {
            let t = #[trigger] folder.targets[i];
            &&& is_safe(t)
            &&& !before.contains_key(t)
            &&& folder.files.contains_key(t)
            &&& folder.files[t] == saved[i]
        }
    &&& forall|k: Seq<char>| #[trigger]
        folder.files.contains_key(k) ==> before.contains_key(k) || folder.targets.contains(k)
}

/// A new file under a safe name that was free adds to the directory.
pub(crate) proof fn lemma_new_file(
    start: Map<Seq<char>, Seq<u8>>,
    before: Folder,
    saved: Seq<Seq<u8>>,
    t: Seq<char>,
)
    requires
        is_added_to(start, before, saved),
        is_safe(t),
        !before.files.contains_key(t),
    ensures
        is_added_to(start, before.with_new(t), saved.push(Seq::empty())),
{
    let after = before.with_new(t);
    let saved_now = saved.push(Seq::empty());
    assert forall|i: int| 0 <= i < saved_now.len() implies {
        let u = #[trigger] after.targets[i];
        &&& is_safe(u)
        &&& !start.contains_key(u)
        &&& after.files.contains_key(u)
        &&& after.files[u] == saved_now[i]
    } by {
        if i < saved.len() {
            assert(after.targets[i] == before.targets[i]);
        }
    }
    assert forall|i: int, j: int|
        0 <= i < after.targets.len() && 0 <= j < after.targets.len() && i
            != j implies after.targets[i] != after.targets[j] by {
        if i < saved.len() {
            assert(before.files.contains_key(before.targets[i]));
        }
        if j < saved.len() {
            assert(before.files.contains_key(before.targets[j]));
        }
    }
    assert forall|k: Seq<char>| #[trigger] after.files.contains_key(k) implies start.contains_key(k)
        || after.targets.contains(k) by {
        if k == t {
            assert(after.targets[saved.len() as int] == k);
        } else {
            assert(before.files.contains_key(k));
            if before.targets.contains(k) {
                let i = choose|i: int| 0 <= i < before.targets.len() && before.targets[i] == k;
                assert(after.targets[i] == k);
            }
        }
    }
}

/// More bytes at the end of the last file add to the directory.
pub(crate) proof fn lemma_more_bytes(
    start: Map<Seq<char>, Seq<u8>>,
    before: Folder,
    saved: Seq<Seq<u8>>,
    bytes: Seq<u8>,
)
    requires
        is_added_to(start, before, saved),
        saved.len() > 0,
    ensures
        is_added_to(
            start,
            before.with_more(bytes),
            saved.drop_last().push(saved.last() + bytes),
        ),
{
    let after = before.with_more(bytes);
    let saved_now = saved.drop_last().push(saved.last() + bytes);
    let last = saved.len() - 1;
    let t = before.targets.last();
    assert(before.targets[last] == t);
    assert(!start.contains_key(t));
    assert(before.files[t] == saved[last]);
    assert forall|i: int| 0 <= i < saved_now.len() implies {
        let u = #[trigger] after.targets[i];
        &&& is_safe(u)
        &&& !start.contains_key(u)
        &&& after.files.contains_key(u)
        &&& after.files[u] == saved_now[i]
    } by {
        assert(after.targets[i] == before.targets[i]);
        if i < last {
            assert(before.targets[i] != before.targets[last]);
            assert(saved_now[i] == saved[i]);
        }
    }
    assert forall|k: Seq<char>| #[trigger] after.files.contains_key(k) implies start.contains_key(k)
        || after.targets.contains(k) by {
        if k == t {
            assert(after.targets[last] == k);
        } else {
            assert(before.files.contains_key(k));
        }
    }
}

} // verus!
