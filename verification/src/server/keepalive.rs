//! Keeping track of which clients can be reached, also while no session is going on. Only a
//! client that can be reached has a barrier at its edge, so that the pointer is never caught at
//! the edge of one that cannot.
use crate::server::address::PeerAddr;
use crate::server::client::{
    client_of, distinct, handles_where, law_handles_are_listed_in_order, law_listed_handles,
    lemma_handles_where, lemma_place_of, lemma_place_of_own, lemma_same_places, Client, ClientTable,
};
use crate::server::misses::{round, MissCounts, MAX_MISSES};
use vstd::prelude::*;

verus! {

/// How long a client has to answer, and how long a round takes, in milliseconds.
pub const KEEPALIVE_RESPONSE_MS: u64 = 2000;

/// A round: whom it is about, and where to send pings.
pub struct KeepaliveRound {
    pub clients: Vec<u64>,
    pub addrs: Vec<PeerAddr>,
}

/// Whom a round is about: all clients that are switched on, except the one that the pointer is at.
pub open spec fn managed(clients: Seq<Client>, skip: Option<u64>) -> Seq<u64> {
    handles_where(clients, |c: Client| c.active && Some(c.handle) != skip)
}

/// Where to send the pings of a round: to the address that a client was last heard from, or else
/// to all that it is configured with.
pub open spec fn keepalive_addrs(clients: Seq<Client>, handles: Seq<u64>) -> Seq<PeerAddr>
    decreases handles.len(),
{
    if handles.len() == 0 {
        Seq::empty()
    } else {
        keepalive_addrs(clients, handles.drop_last()) + match client_of(clients, handles.last()) {
            Some(c) => c.addrs(true),
            None => Seq::empty(),
        }
    }
}

/// A client at the beginning of a round.
pub open spec fn awaited(c: Client, skip: Option<u64>) -> Client {
    if c.active && Some(c.handle) != skip {
        Client { responded: false, ..c }
    } else {
        c
    }
}

/// Begins a round: chooses the clients and their addresses, forgets that they have responded, and
/// forgets the misses of all others.
pub fn begin_round(table: &mut ClientTable, skip: Option<u64>, misses: &mut MissCounts) -> (r:
    KeepaliveRound)
    requires
        old(table).wf(),
    ensures
        r.clients@ == managed(old(table)@, skip),
        r.clients@.no_duplicates(),
        r.addrs@ == keepalive_addrs(old(table)@, managed(old(table)@, skip)),
        final(table)@ == Seq::new(old(table)@.len(), |i: int| awaited(old(table)@[i], skip)),
        final(table).wf(),
        forall|h: u64|
            #[trigger] final(misses).misses(h) == if r.clients@.contains(h) {
                old(misses).misses(h)
            } else {
                0
            },
        old(misses).wf() ==> final(misses).wf(),
{
    let ghost before = table@;
    let ghost wanted = |c: Client| c.active && Some(c.handle) != skip;
    let mut clients: Vec<u64> = Vec::new();
    let n: usize = table.clients.len();
    let mut i: usize = 0;
    while i < n
        invariant
            i <= n,
            n == table@.len(),
            table@ == before,
            wanted == (|c: Client| c.active && Some(c.handle) != skip),
            clients@ == handles_where(before.take(i as int), wanted),
        decreases n - i,
    {
        assert(before.take(i + 1).drop_last() =~= before.take(i as int));
        let skipped: bool = match skip {
            Some(s) => table.clients[i].handle == s,
            None => false,
        };
        if table.clients[i].active && !skipped {
            clients.push(table.clients[i].handle);
        }
        i = i + 1;
    }
    assert(before.take(n as int) =~= before);
    proof {
        lemma_handles_where(before, wanted);
    }
    misses.retain(clients.as_slice());
    proof {
        if old(misses).wf() {
            assert forall|h: u64| #[trigger] misses.misses(h) < MAX_MISSES by {
                assert(old(misses).misses(h) < MAX_MISSES);
            }
        }
    }
    let mut addrs: Vec<PeerAddr> = Vec::new();
    let m: usize = clients.len();
    let mut k: usize = 0;
    while k < m
        invariant
            k <= m,
            m == clients@.len(),
            table@ == before,
            addrs@ == keepalive_addrs(before, clients@.take(k as int)),
        decreases m - k,
    {
        assert(clients@.take(k + 1).drop_last() =~= clients@.take(k as int));
        if let Some(p) = table.place(clients[k]) {
            table.clients[p].push_addrs(true, &mut addrs);
        }
        k = k + 1;
        assert(addrs@ =~= keepalive_addrs(before, clients@.take(k as int)));
    }
    assert(clients@.take(m as int) =~= clients@);
    let mut j: usize = 0;
    while j < n
        invariant
            j <= n,
            n == table@.len(),
            n == before.len(),
            forall|i: int| 0 <= i < j ==> table@[i] == awaited(before[i], skip),
            forall|i: int| j <= i < n ==> table@[i] == before[i],
        decreases n - j,
    {
        let skipped: bool = match skip {
            Some(s) => table.clients[j].handle == s,
            None => false,
        };
        if table.clients[j].active && !skipped {
            table.clients[j].responded = false;
        }
        j = j + 1;
    }
    assert(table@ =~= Seq::new(before.len(), |i: int| awaited(before[i], skip)));
    proof {
        assert forall|a: int, b: int| 0 <= a < b < table@.len() implies (#[trigger] table@[a]).handle
            != (#[trigger] table@[b]).handle by {
            assert(before[a].handle != before[b].handle);
        }
    }
    KeepaliveRound { clients: clients, addrs: addrs }
}

/// Can a client be reached at the end of a round? It can once it responds, and until it is lost.
pub open spec fn reachable(c: Client, misses: MissCounts) -> bool {
    if c.responded {
        true
    } else if round(misses.misses(c.handle), false).1 {
        false
    } else {
        c.connected
    }
}

/// A client at the end of a round.
pub open spec fn settled(c: Client, handles: Seq<u64>, misses: MissCounts) -> Client {
    if handles.contains(c.handle) {
        Client { connected: reachable(c, misses), ..c }
    } else {
        c
    }
}

/// Did a client respond? One that is gone did not.
pub open spec fn responded(clients: Seq<Client>, handle: u64) -> bool {
    client_of(clients, handle) matches Some(c) && c.responded
}

/// Does a round change whether a client can be reached?
pub open spec fn changes(clients: Seq<Client>, misses: MissCounts, handle: u64) -> bool {
    client_of(clients, handle) matches Some(c) && reachable(c, misses) != c.connected
}

/// Ends a round: settles which clients can be reached, and lists those of which that has changed,
/// whose barriers have to be brought in line.
#[verifier::rlimit(40)]
pub fn end_round(table: &mut ClientTable, handles: &[u64], misses: &mut MissCounts) -> (barriers:
    Vec<u64>)
    requires
        old(table).wf(),
        old(misses).wf(),
        handles@.no_duplicates(),
    ensures
        final(table)@ == Seq::new(
            old(table)@.len(),
            |i: int| settled(old(table)@[i], handles@, *old(misses)),
        ),
        final(table).wf(),
        barriers@ == handles@.filter(|h: u64| changes(old(table)@, *old(misses), h)),
        final(misses).wf(),
        forall|h: u64|
            #[trigger] final(misses).misses(h) == if handles@.contains(h) {
                round(old(misses).misses(h), responded(old(table)@, h)).0
            } else {
                old(misses).misses(h)
            },
{
    let ghost start = table@;
    let ghost before = *misses;
    let ghost news = |h: u64| changes(start, before, h);
    let mut barriers: Vec<u64> = Vec::new();
    let n: usize = handles.len();
    let mut i: usize = 0;
    proof {
        reveal(Seq::filter);
        assert(handles@.take(0) =~= Seq::<u64>::empty());
        assert(barriers@ =~= handles@.take(0).filter(news));
        assert(table@ =~= Seq::new(
            start.len(),
            |k: int| settled(start[k], handles@.take(0), before),
        ));
    }
    while i < n
        invariant
            i <= n,
            n == handles@.len(),
            handles@.no_duplicates(),
            distinct(start),
            before.wf(),
            misses.wf(),
            news == (|h: u64| changes(start, before, h)),
            barriers@ == handles@.take(i as int).filter(news),
            table@.len() == start.len(),
            forall|k: int|
                0 <= k < start.len() ==> #[trigger] table@[k] == settled(
                    start[k],
                    handles@.take(i as int),
                    before,
                ),
            forall|h: u64|
                #[trigger] misses.misses(h) == if handles@.take(i as int).contains(h) {
                    round(before.misses(h), responded(start, h)).0
                } else {
                    before.misses(h)
                },
        decreases n - i,
    {
        let h: u64 = handles[i];
        let ghost seen = handles@.take(i as int);
        let ghost now = handles@.take(i + 1);
        let ghost mid = table@;
        proof {
            assert(now =~= seen.push(h));
            assert(now.drop_last() =~= seen);
            assert(!seen.contains(h)) by {
                if seen.contains(h) {
                    let k = choose|k: int| 0 <= k < seen.len() && seen[k] == h;
                    assert(handles@[k] == handles@[i as int]);
                }
            }
            assert forall|k: int| 0 <= k < start.len() implies (#[trigger] mid[k]).handle
                == start[k].handle by {}
            lemma_same_places(mid, start, h);
            lemma_place_of(start, h);
        }
        let answered: bool = match table.place(h) {
            Some(p) => table.clients[p].responded,
            None => false,
        };
        assert(answered == responded(start, h));
        let lost: bool = misses.end_round(h, answered);
        let mut changed: bool = false;
        if answered {
            changed = table.set_connected(h, true);
        } else if lost {
            changed = table.set_connected(h, false);
        }
        if changed {
            barriers.push(h);
        }
        proof {
            reveal(Seq::filter);
            assert forall|g: u64| now.contains(g) <==> seen.contains(g) || g == h by {
                if seen.contains(g) {
                    let k = choose|k: int| 0 <= k < seen.len() && seen[k] == g;
                    assert(now[k] == g);
                }
                assert(now[i as int] == h);
                if now.contains(g) {
                    let k = choose|k: int| 0 <= k < now.len() && now[k] == g;
                    if k < i {
                        assert(seen[k] == g);
                    }
                }
            }
            assert(changed == changes(start, before, h));
            assert(barriers@ =~= now.filter(news));
            assert forall|k: int| 0 <= k < start.len() implies #[trigger] table@[k] == settled(
                start[k],
                now,
                before,
            ) by {
                lemma_place_of_own(start, k);
                assert(mid[k] == settled(start[k], seen, before));
            }
            assert forall|g: u64| #[trigger] misses.misses(g) < MAX_MISSES by {
                assert(before.misses(g) < MAX_MISSES);
            }
        }
        i = i + 1;
    }
    assert(handles@.take(n as int) =~= handles@);
    assert(table@ =~= Seq::new(start.len(), |k: int| settled(start[k], handles@, before)));
    proof {
        assert forall|a: int, b: int| 0 <= a < b < table@.len() implies (#[trigger] table@[a]).handle
            != (#[trigger] table@[b]).handle by {
            assert(start[a].handle != start[b].handle);
        }
    }
    barriers
}

/// Exactly the clients that are switched on take part in a round, but for the one that the pointer is
/// at.
pub proof fn law_who_takes_part(clients: Seq<Client>, skip: Option<u64>, handle: u64)
    ensures
        managed(clients, skip).contains(handle) <==> skip != Some(handle) && exists|i: int|
            0 <= i < clients.len() && (#[trigger] clients[i]).handle == handle && clients[i].active,
{
    let p = |c: Client| c.active && Some(c.handle) != skip;
    law_listed_handles(clients, p, handle);
    assert(managed(clients, skip) == handles_where(clients, p));
    if skip != Some(handle) && exists|i: int|
        0 <= i < clients.len() && (#[trigger] clients[i]).handle == handle && clients[i].active {
        let i = choose|i: int|
            0 <= i < clients.len() && (#[trigger] clients[i]).handle == handle && clients[i].active;
        assert(clients[i].handle == handle && p(clients[i]));
    }
}

/// Every client of a round is pinged, in order, at the address that it was last heard from or else
/// wherever it may be.
pub proof fn law_where_keepalives_go(clients: Seq<Client>, a: Seq<u64>, b: Seq<u64>)
    ensures
        keepalive_addrs(clients, a + b) == keepalive_addrs(clients, a) + keepalive_addrs(clients, b),
        a.len() == 0 ==> keepalive_addrs(clients, a).len() == 0,
        a.len() == 1 ==> match client_of(clients, a[0]) {
            Some(c) => keepalive_addrs(clients, a) == c.addrs(true),
            None => keepalive_addrs(clients, a).len() == 0,
        },
    decreases b.len(),
{
    reveal_with_fuel(keepalive_addrs, 2);
    if a.len() == 1 {
        assert(a.drop_last() =~= Seq::<u64>::empty());
        assert(keepalive_addrs(clients, a.drop_last()) =~= Seq::<PeerAddr>::empty());
        if let Some(c) = client_of(clients, a[0]) {
            assert(keepalive_addrs(clients, a) =~= c.addrs(true));
        }
    }
    if b.len() == 0 {
        assert(a + b =~= a);
        assert(keepalive_addrs(clients, a) + keepalive_addrs(clients, b) =~= keepalive_addrs(
            clients,
            a,
        ));
    } else {
        assert((a + b).drop_last() =~= a + b.drop_last());
        law_where_keepalives_go(clients, a, b.drop_last());
        assert(keepalive_addrs(clients, a + b) =~= keepalive_addrs(clients, a) + keepalive_addrs(
            clients,
            b,
        ));
    }
}

/// At the beginning of a round it is forgotten of those that take part whether they have responded,
/// and nothing else is changed.
pub proof fn law_only_responses_are_forgotten(c: Client, skip: Option<u64>)
    ensures
        c.active && skip != Some(c.handle) ==> !awaited(c, skip).responded,
        !c.active || skip == Some(c.handle) ==> awaited(c, skip).responded == c.responded,
        awaited(c, skip) == (Client { responded: awaited(c, skip).responded, ..c }),
{
}

/// A client that responds can be reached from then on; one that does not stays as it was until its
/// third miss in a row, and cannot be reached from then on. Those that took no part stay as they
/// were.
pub proof fn law_who_can_be_reached(c: Client, handles: Seq<u64>, misses: MissCounts)
    ensures
        ({
            let s = settled(c, handles, misses);
            let part = handles.contains(c.handle);
            &&& part && c.responded ==> s.connected
            &&& part && !c.responded && misses.misses(c.handle) >= 2 ==> !s.connected
            &&& part && !c.responded && misses.misses(c.handle) < 2 ==> s.connected == c.connected
            &&& !part ==> s.connected == c.connected
            &&& s == (Client { connected: s.connected, ..c })
        }),
{
}

/// A round reports a client if and only if it changes whether that client can be reached.
pub proof fn law_changes_are_reported(
    clients: Seq<Client>,
    handles: Seq<u64>,
    misses: MissCounts,
    handle: u64,
)
    requires
        handles.contains(handle),
    ensures
        client_of(clients, handle) is None ==> !changes(clients, misses, handle) && !responded(
            clients,
            handle,
        ),
        client_of(clients, handle) matches Some(c) ==> {
            &&& responded(clients, handle) == c.responded
            &&& c.handle == handle ==> (changes(clients, misses, handle) <==> settled(
                c,
                handles,
                misses,
            ).connected != c.connected)
        },
{
}

/// Clients take part in the order in which they are listed.
pub proof fn law_rounds_keep_the_order(a: Seq<Client>, b: Seq<Client>, skip: Option<u64>)
    ensures
        managed(a + b, skip) == managed(a, skip) + managed(b, skip),
{
    law_handles_are_listed_in_order(a, b, |c: Client| c.active && Some(c.handle) != skip);
}

} // verus!
