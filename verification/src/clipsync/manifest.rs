//! The list of files that is offered to a peer.
use crate::clipsync::relpath::{is_safe_relpath, safe_relpath};
use crate::text::{decimal, decimal_string};
use crate::utf8::{debug_string, debug_text};
use vstd::prelude::*;
use vstd::string::StringExecFns;

verus! {

/// How many entries a list may have. The sender stops there, and the receiver refuses more.
pub const MAX_MANIFEST_ENTRIES: usize = 65536;

/// A file or a directory of a list.
#[derive(Clone, Debug, PartialEq, Eq)]
pub struct Entry {
    pub file_id: u32,
    /// The path relative to where the list is pasted, with slashes.
    pub relpath: String,
    pub size: u64,
    pub is_dir: bool,
}

/// A list of files, and the session that it belongs to.
#[derive(Clone, Debug, PartialEq, Eq)]
pub struct Manifest {
    pub session_id: u32,
    pub entries: Vec<Entry>,
}

impl Manifest {
    /// Is the list one that may be used?
    pub open spec fn valid(self) -> bool {
        self.entries@.len() <= MAX_MANIFEST_ENTRIES && forall|i: int|
            0 <= i < self.entries@.len() ==> safe_relpath((#[trigger] self.entries@[i]).relpath@)
    }

    /// Is this the reason why the list may not be used? It names the number of entries or, where
    /// that is not too large, the first path that is not safe.
    pub open spec fn refused_with(self, why: Seq<char>) -> bool {
        if self.entries@.len() > MAX_MANIFEST_ENTRIES {
            why == "too many entries: "@ + decimal(self.entries@.len())
        } else {
            exists|i: int|
                #![trigger self.entries@[i]]
                0 <= i < self.entries@.len() && !safe_relpath(self.entries@[i].relpath@) && (
                forall|j: int|
                    0 <= j < i ==> safe_relpath((#[trigger] self.entries@[j]).relpath@)) && why
                    == "unsafe relpath: "@ + debug_text(self.entries@[i].relpath@)
        }
    }

    /// Checks a list that was received. A list with too many entries, or with a path that is not
    /// safe, is refused as a whole.
    pub fn validate(&self) -> (r: Result<(), String>)
        ensures
            r is Ok == self.valid(),
            r matches Err(m) ==> self.refused_with(m@),
    {
        let n: usize = self.entries.len();
        if n > MAX_MANIFEST_ENTRIES {
            let mut m: String = "too many entries: ".to_owned();
            let digits: String = decimal_string(n as u64);
            m.append(digits.as_str());
            return Err(m);
        }
        let mut i: usize = 0;
        while i < n
            invariant
                i <= n,
                n == self.entries@.len(),
                n <= MAX_MANIFEST_ENTRIES,
                forall|j: int|
                    0 <= j < i ==> safe_relpath((#[trigger] self.entries@[j]).relpath@),
            decreases n - i,
        {
            let rel: &str = self.entries[i].relpath.as_str();
            if !is_safe_relpath(rel) {
                let shown: String = debug_string(rel);
                let m: String = unsafe_relpath(shown.as_str());
                assert(!safe_relpath(self.entries@[i as int].relpath@));
                return Err(m);
            }
            i = i + 1;
        }
        Ok(())
    }
}

/// The message about a path that is not safe, given how the path is shown.
pub fn unsafe_relpath(shown: &str) -> (m: String)
    ensures
        m@ == "unsafe relpath: "@ + shown@,
{
    let mut m: String = "unsafe relpath: ".to_owned();
    m.append(shown);
    m
}

/// A list may be used if and only if it is not too long and each of its paths is safe: one entry with
/// an unsafe path spoils it wherever it stands.
pub proof fn law_one_unsafe_path_spoils_the_list(m: Manifest, i: int)
    requires
        0 <= i < m.entries@.len(),
    ensures
        !safe_relpath(m.entries@[i].relpath@) ==> !m.valid(),
        m.entries@.len() > 65536 ==> !m.valid(),
        m.entries@.len() <= 65536 && (forall|k: int|
            0 <= k < m.entries@.len() ==> safe_relpath((#[trigger] m.entries@[k]).relpath@))
            ==> m.valid(),
{
}

/// The reason names the first unsafe path, and no other.
pub proof fn law_first_unsafe_path_is_named(m: Manifest, i: int, why: Seq<char>)
    requires
        m.entries@.len() <= 65536,
        0 <= i < m.entries@.len(),
        !safe_relpath(m.entries@[i].relpath@),
        forall|j: int| 0 <= j < i ==> safe_relpath((#[trigger] m.entries@[j]).relpath@),
    ensures
        m.refused_with(why) <==> why == "unsafe relpath: "@ + debug_text(m.entries@[i].relpath@),
{
    if m.refused_with(why) {
        let k = choose|k: int|
            #![trigger m.entries@[k]]
            0 <= k < m.entries@.len() && !safe_relpath(m.entries@[k].relpath@) && (forall|j: int|
                0 <= j < k ==> safe_relpath((#[trigger] m.entries@[j]).relpath@)) && why
                == "unsafe relpath: "@ + debug_text(m.entries@[k].relpath@);
        if k < i {
            assert(safe_relpath(m.entries@[k].relpath@));
        } else if i < k {
            assert(safe_relpath(m.entries@[i].relpath@));
        }
        assert(k == i);
    }
}

/// A list that is too long is refused with its length.
pub proof fn law_length_is_named(m: Manifest, why: Seq<char>)
    requires
        m.entries@.len() > 65536,
    ensures
        m.refused_with(why) <==> why == "too many entries: "@ + decimal(m.entries@.len()),
{
}

} // verus!
