//! Counting how often in a row a client has not answered.
use std::collections::HashMap;
use vstd::prelude::*;

verus! {

broadcast use vstd::std_specs::hash::group_hash_axioms;

/// How many rounds in a row a client may miss.
pub const MAX_MISSES: u32 = 3;

/// The misses of a client once one more round is over, and whether it now counts as lost: with
/// `MAX_MISSES` misses in a row, after which the count starts anew.
pub open spec fn round(misses: nat, answered: bool) -> (nat, bool) {
    if answered {
        (0, false)
    } else if misses + 1 >= MAX_MISSES {
        (0, true)
    } else {
        (misses + 1, false)
    }
}

/// The misses of a client, and whether it has just been lost, after a history of rounds in which
/// it did or did not answer.
pub open spec fn rounds(history: Seq<bool>) -> (nat, bool)
    decreases history.len(),
{
    if history.len() == 0 {
        (0, false)
    } else {
        round(rounds(history.drop_last()).0, history.last())
    }
}

/// How often in a row each client has missed. A client without misses is not listed.
pub struct MissCounts {
    counts: HashMap<u64, u32>,
}

impl MissCounts {
    /// The misses of a client.
    pub closed spec fn misses(self, handle: u64) -> nat {
        if self.counts@.contains_key(handle) {
            self.counts@[handle] as nat
        } else {
            0
        }
    }

    /// Between rounds no client has reached `MAX_MISSES`: one that does counts as lost, and starts
    /// anew.
    pub open spec fn wf(self) -> bool {
        forall|h: u64| #[trigger] self.misses(h) < MAX_MISSES
    }

    /// No client has missed a round.
    pub fn new() -> (s: MissCounts)
        ensures
            s.wf(),
            forall|h: u64| s.misses(h) == 0,
    {
        MissCounts { counts: HashMap::new() }
    }

    /// Ends a round for one client, and says whether the client now counts as lost.
    pub fn end_round(&mut self, handle: u64, answered: bool) -> (lost: bool)
        requires
            old(self).misses(handle) < MAX_MISSES,
        ensures
            final(self).misses(handle) == round(old(self).misses(handle), answered).0,
            lost == round(old(self).misses(handle), answered).1,
            forall|h: u64| h != handle ==> final(self).misses(h) == old(self).misses(h),
    {
        if answered {
            self.counts.remove(&handle);
            return false;
        }
        let before: u32 = match self.counts.get(&handle) {
            Some(n) => *n,
            None => 0,
        };
        if before + 1 >= MAX_MISSES {
            self.counts.remove(&handle);
            true
        } else {
            self.counts.insert(handle, before + 1);
            false
        }
    }

    /// Forgets the misses of all clients but the listed ones.
    pub fn retain(&mut self, handles: &[u64])
        ensures
            forall|h: u64|
                #[trigger] final(self).misses(h) == if handles@.contains(h) {
                    old(self).misses(h)
                } else {
                    0
                },
    {
        let mut kept: HashMap<u64, u32> = HashMap::new();
        let n: usize = handles.len();
        let mut i: usize = 0;
        while i < n
            invariant
                i <= n,
                n == handles@.len(),
                *self == *old(self),
                forall|h: u64| #[trigger]
                    kept@.contains_key(h) <==> self.counts@.contains_key(h) && handles@.take(
                        i as int,
                    ).contains(h),
                forall|h: u64| #[trigger]
                    kept@.contains_key(h) ==> kept@[h] == self.counts@[h],
            decreases n - i,
        {
            let h: u64 = handles[i];
            match self.counts.get(&h) {
                Some(c) => {
                    kept.insert(h, *c);
                },
                None => {},
            }
            i = i + 1;
            proof {
                let next = handles@.take(i as int);
                assert(next =~= handles@.take(i - 1).push(h));
                assert forall|k: u64|
                    #[trigger] kept@.contains_key(k) <==> self.counts@.contains_key(k)
                        && next.contains(k) by {
                    lemma_push_contains(handles@.take(i - 1), h, k);
                }
            }
        }
        assert(handles@.take(n as int) =~= handles@);
        self.counts = kept;
    }
}

proof fn lemma_push_contains(s: Seq<u64>, x: u64, y: u64)
    ensures
        s.push(x).contains(y) <==> s.contains(y) || x == y,
{
    if s.contains(y) {
        let i = choose|i: int| 0 <= i < s.len() && s[i] == y;
        assert(s.push(x)[i] == y);
    }
    if x == y {
        assert(s.push(x)[s.len() as int] == y);
    }
    if s.push(x).contains(y) {
        let i = choose|i: int| 0 <= i < s.push(x).len() && s.push(x)[i] == y;
        if i < s.len() {
            assert(s[i] == y);
        }
    }
}

proof fn lemma_misses_are_recent(history: Seq<bool>)
    ensures
        rounds(history).0 < MAX_MISSES,
        rounds(history).0 <= history.len(),
        forall|i: int|
            history.len() - rounds(history).0 <= i < history.len() ==> !(#[trigger] history[i]),
        rounds(history).1 ==> rounds(history).0 == 0 && history.len() >= MAX_MISSES && forall|i: int|
            history.len() - MAX_MISSES <= i < history.len() ==> !(#[trigger] history[i]),
    decreases history.len(),
{
    if history.len() > 0 {
        let init = history.drop_last();
        lemma_misses_are_recent(init);
        let m = rounds(init).0;
        assert forall|i: int| history.len() - 1 - m <= i < history.len() - 1 implies !(
        #[trigger] history[i]) by {
            assert(init[i] == history[i]);
        }
    }
}

/// A client counts as lost only after it has missed `MAX_MISSES` rounds in a row.
pub proof fn law_lost_only_after_misses_in_a_row(history: Seq<bool>)
    requires
        rounds(history).1,
    ensures
        history.len() >= MAX_MISSES,
        forall|i: int|
            history.len() - MAX_MISSES <= i < history.len() ==> !(#[trigger] history[i]),
{
    lemma_misses_are_recent(history);
}

/// A client that answers starts anew, whatever came before.
pub proof fn law_answer_clears_misses(history: Seq<bool>)
    ensures
        rounds(history.push(true)) == (0nat, false),
{
    assert(history.push(true).drop_last() =~= history);
}

/// A client that misses `MAX_MISSES` rounds in a row after an answer counts as lost at the last of
/// them, and not before.
pub proof fn law_misses_in_a_row_lose_the_client(history: Seq<bool>)
    ensures
        !rounds(history.push(true).push(false)).1,
        !rounds(history.push(true).push(false).push(false)).1,
        rounds(history.push(true).push(false).push(false).push(false)).1,
{
    law_answer_clears_misses(history);
    let a = history.push(true);
    assert(a.push(false).drop_last() =~= a);
    assert(a.push(false).push(false).drop_last() =~= a.push(false));
    assert(a.push(false).push(false).push(false).drop_last() =~= a.push(false).push(false));
}

/// A round that was answered clears the misses; the third one in a row that was not loses the
/// client, and any before it counts one miss more.
pub proof fn law_third_miss_loses_the_client(misses: nat)
    ensures
        round(misses, true) == (0nat, false),
        misses < 2 ==> round(misses, false) == (misses + 1, false),
        misses >= 2 ==> round(misses, false) == (0nat, true),
{
}

} // verus!
