//! The barriers at the edges of clients.
use crate::position::Position;
use crate::server::client::{
    client_of, distinct, lemma_place_of, lemma_place_of_own, lemma_same_places, place_of, Client,
    ClientTable,
};
use crate::server::keepalive::{changes, settled};
use crate::server::misses::MissCounts;
use std::collections::HashSet;
use vstd::prelude::*;

verus! {

broadcast use vstd::std_specs::hash::group_hash_axioms;

/// What other parts of the server ask of capture.
#[derive(Clone, Copy, Debug, PartialEq, Eq, Structural)]
pub enum CaptureRequest {
    /// Give the pointer back.
    Release,
    /// Put up the barrier of a client.
    Create(u64, Position),
    /// Take down the barrier of a client.
    Destroy(u64),
}

/// What is to be done to the barriers.
#[derive(Clone, Copy, Debug, PartialEq, Eq, Structural)]
pub enum BarrierAction {
    /// Give the pointer back and, once that has succeeded, note so in the session.
    Release,
    /// Put up the barrier of a client.
    Create(u64, Position),
    /// Take down the barrier of a client.
    Destroy(u64),
}

/// The barriers to begin with: those of the clients that are switched on and can be reached.
pub open spec fn initial_barriers(clients: Seq<Client>) -> Seq<(u64, Position)>
    decreases clients.len(),
{
    if clients.len() == 0 {
        Seq::empty()
    } else {
        let init = initial_barriers(clients.drop_last());
        let c = clients.last();
        if c.active && c.connected {
            init.push((c.handle, c.pos))
        } else {
            init
        }
    }
}

/// Is a client to have a barrier? It is where it is switched on and can be reached.
pub open spec fn has_barrier(clients: Seq<Client>, handle: u64) -> bool {
    exists|i: int|
        0 <= i < clients.len() && (#[trigger] clients[i]).handle == handle && clients[i].active
            && clients[i].connected
}

/// The handles of all clients that are to have a barrier.
pub open spec fn wanted_barriers(clients: Seq<Client>) -> Set<u64> {
    Set::new(|h: u64| has_barrier(clients, h))
}

/// What to ask for so that a client has a barrier if and only if it is to have one.
pub open spec fn request_for(clients: Seq<Client>, handle: u64) -> Option<CaptureRequest> {
    match client_of(clients, handle) {
        Some(c) => if c.active && c.connected {
            Some(CaptureRequest::Create(handle, c.pos))
        } else {
            Some(CaptureRequest::Destroy(handle))
        },
        None => None,
    }
}

/// Brings the barrier of a client in line with its state.
pub fn ensure_barrier(table: &ClientTable, handle: u64) -> (r: Option<CaptureRequest>)
    ensures
        r == request_for(table@, handle),
{
    match table.place(handle) {
        Some(i) => {
            let c: &Client = &table.clients[i];
            if c.active && c.connected {
                Some(CaptureRequest::Create(handle, c.pos))
            } else {
                Some(CaptureRequest::Destroy(handle))
            }
        },
        None => None,
    }
}

/// What a request does to a set of barriers.
pub open spec fn action_for(created: Set<u64>, request: CaptureRequest) -> Option<BarrierAction> {
    match request {
        CaptureRequest::Release => Some(BarrierAction::Release),
        CaptureRequest::Create(h, p) => if created.contains(h) {
            None
        } else {
            Some(BarrierAction::Create(h, p))
        },
        CaptureRequest::Destroy(h) => if created.contains(h) {
            Some(BarrierAction::Destroy(h))
        } else {
            None
        },
    }
}

/// The barriers after a request.
pub open spec fn barriers_after(created: Set<u64>, request: CaptureRequest) -> Set<u64> {
    match request {
        CaptureRequest::Release => created,
        CaptureRequest::Create(h, _) => created.insert(h),
        CaptureRequest::Destroy(h) => created.remove(h),
    }
}

/// The barriers that are up.
pub struct Barriers {
    created: HashSet<u64>,
}

impl View for Barriers {
    type V = Set<u64>;

    closed spec fn view(&self) -> Set<u64> {
        self.created@
    }
}

impl Barriers {
    /// The barriers that capture starts with, and the list of them to put up.
    pub fn start(clients: &[Client]) -> (r: (Barriers, Vec<(u64, Position)>))
        ensures
            r.1@ == initial_barriers(clients@),
            r.0@ == wanted_barriers(clients@),
    {
        let mut created: HashSet<u64> = HashSet::new();
        let mut list: Vec<(u64, Position)> = Vec::new();
        let n: usize = clients.len();
        let mut i: usize = 0;
        assert(created@ =~= wanted_barriers(clients@.take(0)));
        while i < n
            invariant
                i <= n,
                n == clients@.len(),
                list@ == initial_barriers(clients@.take(i as int)),
                created@ == wanted_barriers(clients@.take(i as int)),
            decreases n - i,
        {
            let ghost before = clients@.take(i as int);
            let ghost after = clients@.take(i + 1);
            assert(after.drop_last() =~= before);
            let handle: u64 = clients[i].handle;
            if clients[i].active && clients[i].connected {
                list.push((handle, clients[i].pos));
                created.insert(handle);
            }
            proof {
                assert forall|h: u64| has_barrier(after, h) <==> has_barrier(before, h) || (h
                    == handle && clients@[i as int].active && clients@[i as int].connected) by {
                    if has_barrier(before, h) {
                        let k = choose|k: int|
                            0 <= k < before.len() && (#[trigger] before[k]).handle == h
                                && before[k].active && before[k].connected;
                        assert(after[k] == before[k]);
                    }
                    assert(after[i as int] == clients@[i as int]);
                    if has_barrier(after, h) {
                        let k = choose|k: int|
                            0 <= k < after.len() && (#[trigger] after[k]).handle == h
                                && after[k].active && after[k].connected;
                        if k < i {
                            assert(before[k] == after[k]);
                        }
                    }
                }
                assert(created@ =~= wanted_barriers(after));
            }
            i = i + 1;
        }
        assert(clients@.take(n as int) =~= clients@);
        (Barriers { created: created }, list)
    }

    /// Handles a request. A barrier that is up is not put up again, and one that is not is not
    /// taken down.
    pub fn handle(&mut self, request: CaptureRequest) -> (action: Option<BarrierAction>)
        ensures
            action == action_for(old(self)@, request),
            final(self)@ == barriers_after(old(self)@, request),
    {
        match request {
            CaptureRequest::Release => Some(BarrierAction::Release),
            CaptureRequest::Create(h, p) => {
                if self.created.insert(h) {
                    Some(BarrierAction::Create(h, p))
                } else {
                    assert(self@ =~= barriers_after(old(self)@, request));
                    None
                }
            },
            CaptureRequest::Destroy(h) => {
                if self.created.remove(&h) {
                    Some(BarrierAction::Destroy(h))
                } else {
                    assert(self@ =~= barriers_after(old(self)@, request));
                    None
                }
            },
        }
    }
}

/// The barriers once those of some clients have been brought in line.
pub open spec fn aligned(created: Set<u64>, clients: Seq<Client>, handles: Seq<u64>) -> Set<u64>
    decreases handles.len(),
{
    if handles.len() == 0 {
        created
    } else {
        let init = aligned(created, clients, handles.drop_last());
        match request_for(clients, handles.last()) {
            Some(r) => barriers_after(init, r),
            None => init,
        }
    }
}

proof fn lemma_request_settles(clients: Seq<Client>, handle: u64)
    requires
        distinct(clients),
    ensures
        match request_for(clients, handle) {
            Some(CaptureRequest::Create(h, _)) => h == handle && has_barrier(clients, handle),
            Some(CaptureRequest::Destroy(h)) => h == handle && !has_barrier(clients, handle),
            Some(CaptureRequest::Release) => false,
            None => !has_barrier(clients, handle),
        },
{
    lemma_place_of(clients, handle);
    match place_of(clients, handle) {
        Some(i) => {
            assert(clients[i].handle == handle);
            if has_barrier(clients, handle) {
                let k = choose|k: int|
                    0 <= k < clients.len() && (#[trigger] clients[k]).handle == handle
                        && clients[k].active && clients[k].connected;
                assert(k == i) by {
                    if k < i {
                        assert(clients[k].handle != clients[i].handle);
                    }
                    if i < k {
                        assert(clients[i].handle != clients[k].handle);
                    }
                }
            }
        },
        None => {},
    }
}

proof fn lemma_aligned(created: Set<u64>, clients: Seq<Client>, handles: Seq<u64>, g: u64)
    requires
        distinct(clients),
        forall|k: int|
            0 <= k < handles.len() ==> place_of(clients, #[trigger] handles[k]) is Some,
    ensures
        aligned(created, clients, handles).contains(g) == if handles.contains(g) {
            has_barrier(clients, g)
        } else {
            created.contains(g)
        },
    decreases handles.len(),
{
    if handles.len() > 0 {
        let init = handles.drop_last();
        let h = handles.last();
        assert forall|k: int| 0 <= k < init.len() implies place_of(
            clients,
            #[trigger] init[k],
        ) is Some by {
            assert(init[k] == handles[k]);
        }
        lemma_aligned(created, clients, init, g);
        lemma_request_settles(clients, h);
        assert(place_of(clients, handles[handles.len() - 1]) is Some);
        assert(handles.contains(g) <==> init.contains(g) || g == h) by {
            if init.contains(g) {
                let k = choose|k: int| 0 <= k < init.len() && init[k] == g;
                assert(handles[k] == g);
            }
            if g == h {
                assert(handles[handles.len() - 1] == g);
            }
            if handles.contains(g) {
                let k = choose|k: int| 0 <= k < handles.len() && handles[k] == g;
                if k < init.len() {
                    assert(init[k] == g);
                }
            }
        }
    }
}

/// Only clients that are switched on and can be reached have barriers, and they all do: where that
/// holds before a keepalive round it holds again once the barriers of the clients that the round
/// reports have been brought in line.
pub proof fn law_barriers_follow_reachability(
    clients: Seq<Client>,
    handles: Seq<u64>,
    misses: MissCounts,
)
    requires
        distinct(clients),
    ensures
        ({
            let after = Seq::new(clients.len(), |i: int| settled(clients[i], handles, misses));
            let reported = handles.filter(|h: u64| changes(clients, misses, h));
            aligned(wanted_barriers(clients), after, reported) == wanted_barriers(after)
        }),
{
    let after = Seq::new(clients.len(), |i: int| settled(clients[i], handles, misses));
    let news = |h: u64| changes(clients, misses, h);
    let reported = handles.filter(news);
    assert(distinct(after)) by {
        assert forall|i: int, j: int| 0 <= i < j < after.len() implies (#[trigger] after[i]).handle
            != (#[trigger] after[j]).handle by {
            assert(clients[i].handle != clients[j].handle);
        }
    }
    assert forall|k: int| 0 <= k < reported.len() implies place_of(
        after,
        #[trigger] reported[k],
    ) is Some && news(reported[k]) by {
        lemma_filtered(handles, news, k);
        assert(reported[k] == reported[k]);
        lemma_same_places(after, clients, reported[k]);
    }
    assert forall|g: u64| aligned(wanted_barriers(clients), after, reported).contains(g)
        == wanted_barriers(after).contains(g) by {
        lemma_aligned(wanted_barriers(clients), after, reported, g);
        if !reported.contains(g) {
            lemma_unreported_stays(clients, handles, misses, g);
        }
    }
    assert(aligned(wanted_barriers(clients), after, reported) =~= wanted_barriers(after));
}

proof fn lemma_filtered(s: Seq<u64>, p: spec_fn(u64) -> bool, k: int)
    requires
        0 <= k < s.filter(p).len(),
    ensures
        p(s.filter(p)[k]),
        s.contains(s.filter(p)[k]),
    decreases s.len(),
{
    reveal(Seq::filter);
    if s.len() > 0 {
        let init = s.drop_last();
        if k < init.filter(p).len() {
            lemma_filtered(init, p, k);
            let x = init.filter(p)[k];
            let i = choose|i: int| 0 <= i < init.len() && init[i] == x;
            assert(s[i] == x);
        } else {
            assert(s[s.len() - 1] == s.last());
        }
    }
}

proof fn lemma_filter_keeps(s: Seq<u64>, p: spec_fn(u64) -> bool, x: u64)
    requires
        s.contains(x),
        p(x),
    ensures
        s.filter(p).contains(x),
    decreases s.len(),
{
    reveal(Seq::filter);
    let init = s.drop_last();
    let i = choose|i: int| 0 <= i < s.len() && s[i] == x;
    if i < init.len() {
        assert(init[i] == x);
        lemma_filter_keeps(init, p, x);
        let k = choose|k: int| 0 <= k < init.filter(p).len() && init.filter(p)[k] == x;
        assert(s.filter(p)[k] == x);
    } else {
        assert(s.filter(p).last() == x);
        assert(s.filter(p)[s.filter(p).len() - 1] == x);
    }
}

proof fn lemma_unreported_stays(
    clients: Seq<Client>,
    handles: Seq<u64>,
    misses: MissCounts,
    g: u64,
)
    requires
        distinct(clients),
        !handles.filter(|h: u64| changes(clients, misses, h)).contains(g),
    ensures
        has_barrier(clients, g) == has_barrier(
            Seq::new(clients.len(), |i: int| settled(clients[i], handles, misses)),
            g,
        ),
{
    let after = Seq::new(clients.len(), |i: int| settled(clients[i], handles, misses));
    let news = |h: u64| changes(clients, misses, h);
    if handles.contains(g) && news(g) {
        lemma_filter_keeps(handles, news, g);
    }
    assert forall|i: int| 0 <= i < clients.len() && clients[i].handle == g implies (
    #[trigger] after[i]).connected == clients[i].connected by {
        lemma_place_of_own(clients, i);
    }
    if has_barrier(clients, g) {
        let i = choose|i: int|
            0 <= i < clients.len() && (#[trigger] clients[i]).handle == g && clients[i].active
                && clients[i].connected;
        assert(after[i].handle == g && after[i].active && after[i].connected);
    }
    if has_barrier(after, g) {
        let i = choose|i: int|
            0 <= i < after.len() && (#[trigger] after[i]).handle == g && after[i].active
                && after[i].connected;
        assert(clients[i].handle == g);
    }
}

/// Asking for the same barrier twice, or for it to go twice, does nothing the second time.
pub proof fn law_barrier_requests_are_idempotent(created: Set<u64>, request: CaptureRequest)
    requires
        !(request is Release),
    ensures
        action_for(barriers_after(created, request), request) is None,
        barriers_after(barriers_after(created, request), request) == barriers_after(
            created,
            request,
        ),
{
    let once = barriers_after(created, request);
    assert(barriers_after(once, request) =~= once);
}

/// The barriers to begin with are those of exactly the clients that are switched on and can be
/// reached, each at the side of its client, in order.
pub proof fn law_barriers_to_begin_with(a: Seq<Client>, b: Seq<Client>)
    ensures
        initial_barriers(a + b) == initial_barriers(a) + initial_barriers(b),
        b.len() == 0 ==> initial_barriers(b).len() == 0,
        b.len() == 1 && b[0].active && b[0].connected ==> initial_barriers(b) == seq![
            (b[0].handle, b[0].pos),
        ],
        b.len() == 1 && !(b[0].active && b[0].connected) ==> initial_barriers(b).len() == 0,
    decreases b.len(),
{
    reveal_with_fuel(initial_barriers, 2);
    if b.len() == 0 {
        assert(a + b =~= a);
        assert(initial_barriers(a) + initial_barriers(b) =~= initial_barriers(a));
    } else {
        assert((a + b).drop_last() =~= a + b.drop_last());
        law_barriers_to_begin_with(a, b.drop_last());
        assert(initial_barriers(a + b) =~= initial_barriers(a) + initial_barriers(b));
        if b.len() == 1 {
            assert(b.drop_last() =~= Seq::<Client>::empty());
            assert(initial_barriers(b.drop_last()).len() == 0);
            if b[0].active && b[0].connected {
                assert(initial_barriers(b) =~= seq![(b[0].handle, b[0].pos)]);
            }
        }
    }
}

/// A client is to have a barrier if and only if it is switched on and can be reached.
pub proof fn law_who_has_a_barrier(clients: Seq<Client>, i: int)
    requires
        distinct(clients),
        0 <= i < clients.len(),
    ensures
        wanted_barriers(clients).contains(clients[i].handle) <==> clients[i].active
            && clients[i].connected,
        clients[i].active && clients[i].connected ==> request_for(clients, clients[i].handle)
            == Some(CaptureRequest::Create(clients[i].handle, clients[i].pos)),
        !(clients[i].active && clients[i].connected) ==> request_for(clients, clients[i].handle)
            == Some(CaptureRequest::Destroy(clients[i].handle)),
{
    lemma_place_of_own(clients, i);
    let h = clients[i].handle;
    if has_barrier(clients, h) {
        let k = choose|k: int|
            0 <= k < clients.len() && (#[trigger] clients[k]).handle == h && clients[k].active
                && clients[k].connected;
        if k < i {
            assert(clients[k].handle != clients[i].handle);
        } else if i < k {
            assert(clients[i].handle != clients[k].handle);
        }
        assert(k == i);
    }
}

/// Nobody has a barrier, and nothing is asked for, under a handle that no client has.
pub proof fn law_no_barrier_without_a_client(clients: Seq<Client>, handle: u64)
    requires
        forall|k: int| 0 <= k < clients.len() ==> (#[trigger] clients[k]).handle != handle,
    ensures
        !wanted_barriers(clients).contains(handle),
        request_for(clients, handle) is None,
{
    lemma_place_of(clients, handle);
}

/// A barrier that is asked for is put up unless it is there, at the side that was asked for, and one
/// that is to go is taken down where it is there; other barriers stay.
pub proof fn law_barriers_come_and_go(created: Set<u64>, h: u64, pos: Position, other: u64)
    ensures
        ({
            let create = CaptureRequest::Create(h, pos);
            let destroy = CaptureRequest::Destroy(h);
            &&& !created.contains(h) ==> action_for(created, create) == Some(
                BarrierAction::Create(h, pos),
            ) && action_for(created, destroy) is None
            &&& created.contains(h) ==> action_for(created, create) is None && action_for(
                created,
                destroy,
            ) == Some(BarrierAction::Destroy(h))
            &&& barriers_after(created, create).contains(h)
            &&& !barriers_after(created, destroy).contains(h)
            &&& other != h ==> barriers_after(created, create).contains(other) == created.contains(
                other,
            ) && barriers_after(created, destroy).contains(other) == created.contains(other)
            &&& action_for(created, CaptureRequest::Release) == Some(BarrierAction::Release)
            &&& barriers_after(created, CaptureRequest::Release) == created
        }),
{
}

} // verus!
