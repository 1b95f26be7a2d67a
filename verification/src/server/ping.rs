//! Watching over a session: while keys or the pointer are held for a client, it is pinged, and it
//! loses them when it stops answering.
use crate::server::address::PeerAddr;
use crate::server::client::{
    client_of, handles_where, law_handles_are_listed_in_order, law_listed_handles,
    lemma_handles_where, Client, ClientTable,
};
use crate::server::misses::{law_third_miss_loses_the_client, round, MissCounts, MAX_MISSES};
use crate::server::session::Session;
use vstd::prelude::*;

verus! {

/// How long a client has to answer a ping, in milliseconds.
pub const MAX_RESPONSE_MS: u64 = 2000;

/// A round of pings: whom it is about, and where to send them.
pub struct PingRound {
    pub clients: Vec<u64>,
    pub addrs: Vec<PeerAddr>,
}

/// What a round of pings leads to.
pub struct PingVerdict {
    /// Release the keys of these clients.
    pub release_keys: Vec<u64>,
    /// Give the pointer back to this machine.
    pub release_pointer: bool,
}

/// Whom a round is about: while receiving, the clients that hold keys down; while sending, the
/// client that the pointer is at.
pub open spec fn watched(clients: Seq<Client>, receiving: bool, active: Option<u64>) -> Seq<u64> {
    if receiving {
        handles_where(clients, |c: Client| c.has_pressed_keys)
    } else {
        match active {
            Some(h) => seq![h],
            None => Seq::empty(),
        }
    }
}

/// Where to send the pings of a round: to the address that a client was last heard from where it
/// is still alive, or else to all that it is configured with.
pub open spec fn ping_addrs(clients: Seq<Client>, handles: Seq<u64>) -> Seq<PeerAddr>
    decreases handles.len(),
{
    if handles.len() == 0 {
        Seq::empty()
    } else {
        ping_addrs(clients, handles.drop_last()) + match client_of(clients, handles.last()) {
            Some(c) => c.addrs(c.alive),
            None => Seq::empty(),
        }
    }
}

/// Did a client answer? One that is gone does not count as silent.
pub open spec fn answered(clients: Seq<Client>, handle: u64) -> bool {
    client_of(clients, handle) matches Some(c) ==> c.alive
}

/// The clients of a round that are lost at its end, in order.
pub open spec fn lost(clients: Seq<Client>, handles: Seq<u64>, misses: MissCounts) -> Seq<u64> {
    handles.filter(|h: u64| round(misses.misses(h), answered(clients, h)).1)
}

/// Begins a round: chooses the clients and their addresses, and forgets that any client is alive.
pub fn begin_round(table: &mut ClientTable, receiving: bool, active: Option<u64>) -> (r: PingRound)
    ensures
        r.clients@ == watched(old(table)@, receiving, active),
        r.addrs@ == ping_addrs(old(table)@, watched(old(table)@, receiving, active)),
        final(table)@ == Seq::new(
            old(table)@.len(),
            |i: int| Client { alive: false, ..old(table)@[i] },
        ),
        old(table).wf() ==> final(table).wf() && r.clients@.no_duplicates(),
{
    let ghost before = table@;
    let mut clients: Vec<u64> = Vec::new();
    let n: usize = table.clients.len();
    if receiving {
        let mut i: usize = 0;
        while i < n
            invariant
                i <= n,
                n == table@.len(),
                table@ == before,
                clients@ == handles_where(before.take(i as int), |c: Client| c.has_pressed_keys),
            decreases n - i,
        {
            assert(before.take(i + 1).drop_last() =~= before.take(i as int));
            if table.clients[i].has_pressed_keys {
                clients.push(table.clients[i].handle);
            }
            i = i + 1;
        }
        assert(before.take(n as int) =~= before);
        proof {
            lemma_handles_where(before, |c: Client| c.has_pressed_keys);
        }
    } else {
        if let Some(h) = active {
            clients.push(h);
        }
        assert(clients@ =~= watched(before, receiving, active));
    }
    let mut addrs: Vec<PeerAddr> = Vec::new();
    let m: usize = clients.len();
    let mut k: usize = 0;
    while k < m
        invariant
            k <= m,
            m == clients@.len(),
            table@ == before,
            addrs@ == ping_addrs(before, clients@.take(k as int)),
        decreases m - k,
    {
        assert(clients@.take(k + 1).drop_last() =~= clients@.take(k as int));
        if let Some(i) = table.place(clients[k]) {
            let trust: bool = table.clients[i].alive;
            table.clients[i].push_addrs(trust, &mut addrs);
        }
        k = k + 1;
        assert(addrs@ =~= ping_addrs(before, clients@.take(k as int)));
    }
    assert(clients@.take(m as int) =~= clients@);
    let mut j: usize = 0;
    while j < n
        invariant
            j <= n,
            n == table@.len(),
            n == before.len(),
            forall|i: int| 0 <= i < j ==> table@[i] == (Client { alive: false, ..before[i] }),
            forall|i: int| j <= i < n ==> table@[i] == before[i],
        decreases n - j,
    {
        table.clients[j].alive = false;
        j = j + 1;
    }
    assert(table@ =~= Seq::new(before.len(), |i: int| Client { alive: false, ..before[i] }));
    PingRound { clients: clients, addrs: addrs }
}

impl Session {
    /// Takes in what a round of pings led to: a session whose client is lost ends.
    pub fn after_ping(&mut self, verdict: &PingVerdict)
        ensures
            *final(self) == if verdict.release_pointer {
                old(self).ended()
            } else {
                *old(self)
            },
    {
        if verdict.release_pointer {
            self.released();
        }
    }
}

/// Is there nobody to watch over, so that pinging can stop until it is asked for again?
pub fn round_is_over(receiving: bool, round: &PingRound) -> (over: bool)
    ensures
        over == (receiving && round.clients@.len() == 0),
{
    receiving && round.clients.len() == 0
}

/// Ends a round, in which what was received has marked its sender as alive: clients that have
/// missed too many rounds in a row lose what they hold.
pub fn end_round(
    table: &ClientTable,
    receiving: bool,
    clients: &[u64],
    misses: &mut MissCounts,
) -> (v: PingVerdict)
    requires
        old(misses).wf(),
        clients@.no_duplicates(),
    ensures
        receiving ==> v.release_keys@ == lost(table@, clients@, *old(misses)) && !v.release_pointer,
        !receiving ==> v.release_keys@.len() == 0 && v.release_pointer == (lost(
            table@,
            clients@,
            *old(misses),
        ).len() > 0),
        final(misses).wf(),
        forall|h: u64|
            #[trigger] final(misses).misses(h) == if clients@.contains(h) {
                round(old(misses).misses(h), answered(table@, h)).0
            } else {
                old(misses).misses(h)
            },
{
    let ghost before = *misses;
    let ghost is_lost = |h: u64| round(before.misses(h), answered(table@, h)).1;
    let mut gone: Vec<u64> = Vec::new();
    let n: usize = clients.len();
    let mut i: usize = 0;
    proof {
        reveal(Seq::filter);
        assert(clients@.take(0) =~= Seq::<u64>::empty());
        assert(gone@ =~= clients@.take(0).filter(is_lost));
    }
    while i < n
        invariant
            i <= n,
            n == clients@.len(),
            clients@.no_duplicates(),
            before.wf(),
            misses.wf(),
            is_lost == (|h: u64| round(before.misses(h), answered(table@, h)).1),
            gone@ == clients@.take(i as int).filter(is_lost),
            forall|h: u64|
                #[trigger] misses.misses(h) == if clients@.take(i as int).contains(h) {
                    round(before.misses(h), answered(table@, h)).0
                } else {
                    before.misses(h)
                },
        decreases n - i,
    {
        let h: u64 = clients[i];
        let silent: bool = match table.place(h) {
            Some(p) => !table.clients[p].alive,
            None => false,
        };
        let ghost seen = clients@.take(i as int);
        let ghost now = clients@.take(i + 1);
        proof {
            assert(now =~= seen.push(h));
            assert(now.drop_last() =~= seen);
            assert(!seen.contains(h)) by {
                if seen.contains(h) {
                    let k = choose|k: int| 0 <= k < seen.len() && seen[k] == h;
                    assert(clients@[k] == clients@[i as int]);
                }
            }
        }
        let ghost mid = *misses;
        assert(mid.misses(h) == before.misses(h));
        let now_lost: bool = misses.end_round(h, !silent);
        if now_lost {
            gone.push(h);
        }
        proof {
            reveal(Seq::filter);
            assert(gone@ =~= now.filter(is_lost));
            assert forall|g: u64|
                #[trigger] misses.misses(g) == if now.contains(g) {
                    round(before.misses(g), answered(table@, g)).0
                } else {
                    before.misses(g)
                } by {
                assert(now.contains(g) <==> seen.contains(g) || g == h) by {
                    if seen.contains(g) {
                        let k = choose|k: int| 0 <= k < seen.len() && seen[k] == g;
                        assert(now[k] == g);
                    }
                    assert(now[i as int] == h);
                    if now.contains(g) {
                        let k = choose|k: int| 0 <= k < now.len() && now[k] == g;
                        if k < i {
                            assert(seen[k] == g);
                        }
                    }
                }
            }
            assert forall|g: u64| #[trigger] misses.misses(g) < MAX_MISSES by {
                assert(before.misses(g) < MAX_MISSES);
            }
        }
        i = i + 1;
    }
    assert(clients@.take(n as int) =~= clients@);
    if receiving {
        PingVerdict { release_keys: gone, release_pointer: false }
    } else {
        PingVerdict { release_keys: Vec::new(), release_pointer: gone.len() > 0 }
    }
}

/// While receiving, exactly the clients that hold keys down are watched; while sending, only the one
/// that the pointer is at.
pub proof fn law_who_is_watched(clients: Seq<Client>, active: Option<u64>, handle: u64)
    ensures
        watched(clients, true, active).contains(handle) <==> exists|i: int|
            0 <= i < clients.len() && (#[trigger] clients[i]).handle == handle
                && clients[i].has_pressed_keys,
        active matches Some(h) ==> watched(clients, false, active) == seq![h],
        active is None ==> watched(clients, false, active).len() == 0,
{
    let p = |c: Client| c.has_pressed_keys;
    law_listed_handles(clients, p, handle);
    assert(watched(clients, true, active) == handles_where(clients, p));
}

/// Every client of a round is pinged, in order: one that is alive at the address that it was last
/// heard from, and a silent one wherever it may be.
pub proof fn law_where_pings_go(clients: Seq<Client>, a: Seq<u64>, b: Seq<u64>)
    ensures
        ping_addrs(clients, a + b) == ping_addrs(clients, a) + ping_addrs(clients, b),
        a.len() == 0 ==> ping_addrs(clients, a).len() == 0,
        a.len() == 1 ==> match client_of(clients, a[0]) {
            Some(c) => if c.alive {
                ping_addrs(clients, a) == c.addrs(true)
            } else {
                ping_addrs(clients, a) == c.addrs(false)
            },
            None => ping_addrs(clients, a).len() == 0,
        },
    decreases b.len(),
{
    reveal_with_fuel(ping_addrs, 2);
    if a.len() == 1 {
        assert(a.drop_last() =~= Seq::<u64>::empty());
        assert(ping_addrs(clients, a.drop_last()) =~= Seq::<PeerAddr>::empty());
        if let Some(c) = client_of(clients, a[0]) {
            assert(ping_addrs(clients, a) =~= c.addrs(c.alive));
        }
    }
    if b.len() == 0 {
        assert(a + b =~= a);
        assert(ping_addrs(clients, a) + ping_addrs(clients, b) =~= ping_addrs(clients, a));
    } else {
        assert((a + b).drop_last() =~= a + b.drop_last());
        law_where_pings_go(clients, a, b.drop_last());
        assert(ping_addrs(clients, a + b) =~= ping_addrs(clients, a) + ping_addrs(clients, b));
    }
}

/// Only a client that is still there and not alive counts as silent, and only one that was silent in
/// this round and in the two before it is lost.
pub proof fn law_who_is_lost(clients: Seq<Client>, handles: Seq<u64>, misses: MissCounts, h: u64)
    ensures
        answered(clients, h) <==> (client_of(clients, h) matches Some(c) ==> c.alive),
        lost(clients, handles, misses).contains(h) <==> handles.contains(h) && (client_of(
            clients,
            h,
        ) matches Some(c) && !c.alive) && misses.misses(h) >= 2,
{
    let p = |g: u64| round(misses.misses(g), answered(clients, g)).1;
    let l = lost(clients, handles, misses);
    assert(l == handles.filter(p));
    if handles.contains(h) && p(h) {
        let i = choose|i: int| 0 <= i < handles.len() && handles[i] == h;
        handles.lemma_filter_contains(p, i);
    }
    if l.contains(h) {
        let k = choose|k: int| 0 <= k < l.len() && l[k] == h;
        handles.lemma_filter_contains_rev(p, h);
        handles.lemma_filter_pred(p, k);
    }
    law_third_miss_loses_the_client(misses.misses(h));
}

/// Clients are watched, and lost, in the order in which they are listed.
pub proof fn law_rounds_keep_the_order(
    a: Seq<Client>,
    b: Seq<Client>,
    active: Option<u64>,
    all: Seq<Client>,
    g: Seq<u64>,
    h: Seq<u64>,
    misses: MissCounts,
)
    ensures
        watched(a + b, true, active) == watched(a, true, active) + watched(b, true, active),
        lost(all, g + h, misses) == lost(all, g, misses) + lost(all, h, misses),
{
    law_handles_are_listed_in_order(a, b, |c: Client| c.has_pressed_keys);
    Seq::filter_distributes_over_add(
        g,
        h,
        |x: u64| round(misses.misses(x), answered(all, x)).1,
    );
}

} // verus!
