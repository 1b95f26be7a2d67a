//! What is accepted from the network, and what is sent.
use crate::proto::auth::{
    authentic, decode_authenticated, encode_authenticated, law_open_of_sealed, opened, sealed,
    MAX_AUTH_DATAGRAM,
};
use crate::proto::event::{ProtoEvent, ProtocolError};
use crate::proto::replay::{
    law_higher_counters_are_accepted, law_no_counter_is_accepted_twice, ReplayWindow, WindowModel,
};
use crate::server::address::PeerAddr;
use vstd::prelude::*;

verus! {

/// The window of an address in a list of windows; an address that is not listed has a fresh one.
pub open spec fn window_in(peers: Seq<(PeerAddr, ReplayWindow)>, addr: PeerAddr) -> WindowModel
    decreases peers.len(),
{
    if peers.len() == 0 {
        WindowModel::fresh()
    } else if peers[0].0 == addr {
        peers[0].1@
    } else {
        window_in(peers.skip(1), addr)
    }
}

/// The replay windows of all peers, by source address.
pub struct ReplayWindows {
    peers: Vec<(PeerAddr, ReplayWindow)>,
}

/// What becomes of a decoded datagram: nothing where it is to be dropped.
pub open spec fn admitted(
    decoded: Result<(u64, ProtoEvent), ProtocolError>,
    window: WindowModel,
) -> Option<Result<ProtoEvent, ProtocolError>> {
    match decoded {
        Ok((counter, event)) => if window.accepts(counter) {
            Some(Ok(event))
        } else {
            None
        },
        Err(ProtocolError::AuthenticationFailed) => None,
        Err(ProtocolError::BadLength(_)) => None,
        Err(e) => Some(Err(e)),
    }
}

/// The window of a datagram's source afterwards.
pub open spec fn window_after(
    decoded: Result<(u64, ProtoEvent), ProtocolError>,
    window: WindowModel,
) -> WindowModel {
    match decoded {
        Ok((counter, _)) => window.offered(counter),
        Err(_) => window,
    }
}

proof fn lemma_window_in_update(
    peers: Seq<(PeerAddr, ReplayWindow)>,
    i: int,
    w: ReplayWindow,
    addr: PeerAddr,
)
    requires
        0 <= i < peers.len(),
        forall|k: int| 0 <= k < i ==> (#[trigger] peers[k]).0 != peers[i].0,
    ensures
        window_in(peers.update(i, (peers[i].0, w)), addr) == if addr == peers[i].0 {
            w@
        } else {
            window_in(peers, addr)
        },
        window_in(peers, peers[i].0) == peers[i].1@,
    decreases peers.len(),
{
    let next = peers.update(i, (peers[i].0, w));
    if i > 0 {
        let rest = peers.skip(1);
        assert(peers[0].0 != peers[i].0);
        assert forall|k: int| 0 <= k < i - 1 implies (#[trigger] rest[k]).0 != rest[i - 1].0 by {
            assert(rest[k] == peers[k + 1]);
        }
        lemma_window_in_update(rest, i - 1, w, addr);
        assert(next.skip(1) =~= rest.update(i - 1, (rest[i - 1].0, w)));
    } else {
        assert(next.skip(1) =~= peers.skip(1));
    }
}

proof fn lemma_window_in_push(
    peers: Seq<(PeerAddr, ReplayWindow)>,
    src: PeerAddr,
    w: ReplayWindow,
    addr: PeerAddr,
)
    requires
        forall|k: int| 0 <= k < peers.len() ==> (#[trigger] peers[k]).0 != src,
    ensures
        window_in(peers, src) == WindowModel::fresh(),
        window_in(peers.push((src, w)), addr) == if addr == src {
            w@
        } else {
            window_in(peers, addr)
        },
    decreases peers.len(),
{
    let next = peers.push((src, w));
    if peers.len() > 0 {
        let rest = peers.skip(1);
        assert(peers[0].0 != src);
        assert forall|k: int| 0 <= k < rest.len() implies (#[trigger] rest[k]).0 != src by {
            assert(rest[k] == peers[k + 1]);
        }
        lemma_window_in_push(rest, src, w, addr);
        assert(next.skip(1) =~= rest.push((src, w)));
    } else {
        assert(next.skip(1) =~= Seq::empty());
        assert(window_in(next.skip(1), addr) == WindowModel::fresh());
    }
}

impl ReplayWindows {
    /// The window of an address.
    pub closed spec fn window(self, addr: PeerAddr) -> WindowModel {
        window_in(self.peers@, addr)
    }

    /// Is a window kept for an address?
    pub closed spec fn keeps(self, addr: PeerAddr) -> bool {
        exists|k: int| 0 <= k < self.peers@.len() && (#[trigger] self.peers@[k]).0 == addr
    }

    /// No peer has sent anything yet.
    pub fn new() -> (s: ReplayWindows)
        ensures
            forall|a: PeerAddr| s.window(a) == WindowModel::fresh(),
            forall|a: PeerAddr| !s.keeps(a),
    {
        ReplayWindows { peers: Vec::new() }
    }

    /// Checks a counter against the window of its source, and records it there.
    pub fn check_and_record(&mut self, src: PeerAddr, counter: u64) -> (accepted: bool)
        ensures
            accepted == old(self).window(src).accepts(counter),
            final(self).window(src) == old(self).window(src).offered(counter),
            forall|a: PeerAddr| a != src ==> final(self).window(a) == old(self).window(a),
            forall|a: PeerAddr|
                #[trigger] final(self).keeps(a) == (old(self).keeps(a) || a == src),
    {
        let n: usize = self.peers.len();
        let mut i: usize = 0;
        while i < n
            invariant
                i <= n,
                n == self.peers@.len(),
                *self == *old(self),
                forall|k: int| 0 <= k < i ==> (#[trigger] self.peers@[k]).0 != src,
            decreases n - i,
        {
            let entry: (PeerAddr, ReplayWindow) = self.peers[i];
            if entry.0 == src {
                let mut w: ReplayWindow = entry.1;
                let accepted: bool = w.check_and_record(counter);
                proof {
                    assert forall|a: PeerAddr|
                        window_in(self.peers@.update(i as int, (src, w)), a) == if a == src {
                            w@
                        } else {
                            window_in(self.peers@, a)
                        } by {
                        lemma_window_in_update(self.peers@, i as int, w, a);
                    }
                    lemma_window_in_update(self.peers@, i as int, w, src);
                }
                self.peers.set(i, (src, w));
                proof {
                    let before = old(self).peers@;
                    assert forall|a: PeerAddr|
                        #[trigger] self.keeps(a) == (old(self).keeps(a) || a == src) by {
                        assert forall|k: int| 0 <= k < before.len() implies (
                        #[trigger] self.peers@[k]).0 == before[k].0 by {}
                        if old(self).keeps(a) {
                            let k = choose|k: int|
                                0 <= k < before.len() && (#[trigger] before[k]).0 == a;
                            assert(self.peers@[k].0 == a);
                        }
                        if self.keeps(a) {
                            let k = choose|k: int|
                                0 <= k < before.len() && (#[trigger] self.peers@[k]).0 == a;
                            assert(before[k].0 == a);
                        }
                        assert(self.peers@[i as int].0 == src);
                    }
                }
                return accepted;
            }
            i = i + 1;
        }
        let mut w: ReplayWindow = ReplayWindow::new();
        let accepted: bool = w.check_and_record(counter);
        proof {
            assert forall|a: PeerAddr|
                window_in(self.peers@.push((src, w)), a) == if a == src {
                    w@
                } else {
                    window_in(self.peers@, a)
                } by {
                lemma_window_in_push(self.peers@, src, w, a);
            }
            lemma_window_in_push(self.peers@, src, w, src);
        }
        self.peers.push((src, w));
        proof {
            let before = old(self).peers@;
            assert forall|a: PeerAddr|
                #[trigger] self.keeps(a) == (old(self).keeps(a) || a == src) by {
                if old(self).keeps(a) {
                    let k = choose|k: int| 0 <= k < before.len() && (#[trigger] before[k]).0 == a;
                    assert(self.peers@[k].0 == a);
                }
                if self.keeps(a) && a != src {
                    let k = choose|k: int|
                        0 <= k < self.peers@.len() && (#[trigger] self.peers@[k]).0 == a;
                    assert(before[k].0 == a);
                }
                assert(self.peers@[before.len() as int].0 == src);
            }
        }
        accepted
    }

    /// Decides on a decoded datagram. One that was not authentic, had a bad length or is a replay
    /// is dropped in silence; an unknown event is reported. Only a datagram that was authentic and
    /// well-formed makes its source one that a window is kept for.
    pub fn take_in(
        &mut self,
        src: PeerAddr,
        decoded: Result<(u64, ProtoEvent), ProtocolError>,
    ) -> (r: Option<Result<ProtoEvent, ProtocolError>>)
        ensures
            r == admitted(decoded, old(self).window(src)),
            final(self).window(src) == window_after(decoded, old(self).window(src)),
            forall|a: PeerAddr| a != src ==> final(self).window(a) == old(self).window(a),
            decoded is Err ==> *final(self) == *old(self),
            decoded is Ok ==> forall|a: PeerAddr|
                #[trigger] final(self).keeps(a) == (old(self).keeps(a) || a == src),
    {
        match decoded {
            Ok((counter, event)) => {
                if self.check_and_record(src, counter) {
                    Some(Ok(event))
                } else {
                    None
                }
            },
            Err(ProtocolError::AuthenticationFailed) => None,
            Err(ProtocolError::BadLength(_)) => None,
            Err(e) => Some(Err(e)),
        }
    }

    /// Decides on a received datagram. Without a key everything is dropped, and nothing is noted of
    /// its source; nor is it where the datagram is not authentic.
    pub fn receive_event(&mut self, datagram: &[u8], src: PeerAddr, auth_key: Option<&[u8]>) -> (r:
        Option<Result<ProtoEvent, ProtocolError>>)
        ensures
            auth_key is None ==> r is None && *final(self) == *old(self),
            auth_key matches Some(key) ==> r == admitted(
                opened(datagram@, authentic(datagram@, key@)),
                old(self).window(src),
            ) && final(self).window(src) == window_after(
                opened(datagram@, authentic(datagram@, key@)),
                old(self).window(src),
            ) && forall|a: PeerAddr| a != src ==> final(self).window(a) == old(self).window(a),
            auth_key matches Some(key) ==> match opened(datagram@, authentic(datagram@, key@)) {
                Ok(_) => forall|a: PeerAddr|
                    #[trigger] final(self).keeps(a) == (old(self).keeps(a) || a == src),
                Err(_) => *final(self) == *old(self),
            },
    {
        match auth_key {
            None => None,
            Some(key) => self.take_in(src, decode_authenticated(datagram, key)),
        }
    }
}

/// The counter after `counter`; behind the largest one it starts again.
pub open spec fn next_counter(counter: u64) -> u64 {
    if counter == u64::MAX {
        0
    } else {
        (counter + 1) as u64
    }
}

/// Prepares a datagram for an event. Without a key nothing is sent, and no counter is used up.
pub fn send_event(event: &ProtoEvent, auth_key: Option<&[u8]>, counter: &mut u64) -> (r: Option<
    ([u8; MAX_AUTH_DATAGRAM], usize),
>)
    ensures
        auth_key is None ==> r is None && *final(counter) == *old(counter),
        auth_key matches Some(key) ==> *final(counter) == next_counter(*old(counter)) && (
        r matches Some(d) && d.1 == sealed(*event, key@, *old(counter)).len() && d.0@ == sealed(
            *event,
            key@,
            *old(counter),
        ) + Seq::new((MAX_AUTH_DATAGRAM - d.1) as nat, |i: int| 0u8)),
{
    match auth_key {
        None => None,
        Some(key) => {
            let used: u64 = *counter;
            *counter = used.wrapping_add(1);
            Some(encode_authenticated(event, key, used))
        },
    }
}

/// The first counter: the time in microseconds, so that a restarted sender counts on from above
/// what it used before. A clock that cannot be read counts as zero.
pub fn counter_seed(micros: Option<u128>) -> (seed: u64)
    ensures
        seed as int == match micros {
            Some(t) => t % 0x1_0000_0000_0000_0000,
            None => 0,
        } as int,
{
    match micros {
        Some(t) => (t % 0x1_0000_0000_0000_0000) as u64,
        None => 0,
    }
}

/// Does the listening socket have to be bound anew?
pub fn needs_rebind(current_port: u16, new_port: u16) -> (b: bool)
    ensures
        b == (current_port != new_port),
{
    current_port != new_port
}

/// A datagram that was accepted from a source is dropped when it arrives from there again,
/// whatever else has arrived in between.
pub proof fn law_replayed_datagram_is_dropped(
    datagram: Seq<u8>,
    key: Seq<u8>,
    window: WindowModel,
    others: Seq<u64>,
)
    requires
        admitted(opened(datagram, authentic(datagram, key)), window) matches Some(Ok(_)),
    ensures
        admitted(
            opened(datagram, authentic(datagram, key)),
            window_after(opened(datagram, authentic(datagram, key)), window).after(others),
        ) is None,
{
    let counter = opened(datagram, authentic(datagram, key))->Ok_0.0;
    let counters = seq![counter] + others + seq![counter];
    assert(counters.take(0) =~= Seq::<u64>::empty());
    assert(window.after(Seq::<u64>::empty()) == window);
    law_no_counter_is_accepted_twice(
        window,
        counters,
        0,
        counters.len() - 1,
    );
    assert(counters.take(counters.len() - 1) =~= seq![counter] + others);
    lemma_after_split(window, counter, others);
}

proof fn lemma_after_split(window: WindowModel, counter: u64, others: Seq<u64>)
    ensures
        window.after(seq![counter] + others) == window.offered(counter).after(others),
    decreases others.len(),
{
    if others.len() == 0 {
        assert(seq![counter] + others =~= seq![counter]);
        assert(seq![counter].drop_last() =~= Seq::<u64>::empty());
        assert(window.after(Seq::<u64>::empty()) == window);
    } else {
        assert((seq![counter] + others).drop_last() =~= seq![counter] + others.drop_last());
        lemma_after_split(window, counter, others.drop_last());
    }
}

/// The counters that a sender uses for `n` datagrams, from `first` on.
pub open spec fn counters_from(first: u64, n: nat) -> Seq<u64> {
    Seq::new(n, |i: int| (first + i) as u64)
}

proof fn lemma_window_after_run(window: WindowModel, first: u64, n: nat)
    requires
        first + n <= u64::MAX,
        window.highest matches Some(h) ==> h < first,
        forall|c: u64| #[trigger] window.seen.contains(c) ==> c < first,
    ensures
        window.after(counters_from(first, n)).highest matches Some(h) ==> h < first + n,
        forall|c: u64| #[trigger]
            window.after(counters_from(first, n)).seen.contains(c) ==> c < first + n,
    decreases n,
{
    if n > 0 {
        let m = (n - 1) as nat;
        lemma_window_after_run(window, first, m);
        assert(counters_from(first, n).drop_last() =~= counters_from(first, m));
        law_higher_counters_are_accepted(
            window.after(counters_from(first, m)),
            (first + m) as u64,
        );
    } else {
        assert(counters_from(first, 0) =~= Seq::<u64>::empty());
    }
}

/// Datagrams that arrive in the order in which they were sent are all delivered: the receiver
/// hands on each event, as long as the sender started above what the receiver has seen and the
/// counter does not run out.
pub proof fn law_stream_is_delivered(
    window: WindowModel,
    key: Seq<u8>,
    first: u64,
    events: Seq<ProtoEvent>,
    i: int,
)
    requires
        first + events.len() <= u64::MAX,
        window.highest matches Some(h) ==> h < first,
        forall|c: u64| #[trigger] window.seen.contains(c) ==> c < first,
        0 <= i < events.len(),
    ensures
        ({
            let datagram = sealed(events[i], key, (first + i) as u64);
            let seen = window.after(counters_from(first, i as nat));
            &&& admitted(opened(datagram, authentic(datagram, key)), seen) == Some(
                Ok::<ProtoEvent, ProtocolError>(events[i]),
            )
            &&& window_after(opened(datagram, authentic(datagram, key)), seen) == window.after(
                counters_from(first, (i + 1) as nat),
            )
        }),
{
    law_open_of_sealed(events[i], key, (first + i) as u64);
    lemma_window_after_run(window, first, i as nat);
    law_higher_counters_are_accepted(
        window.after(counters_from(first, i as nat)),
        (first + i) as u64,
    );
    assert(counters_from(first, (i + 1) as nat).drop_last() =~= counters_from(first, i as nat));
}

/// An authentic event that is no replay is handed on as it is; replays, forgeries and datagrams of a
/// bad length are dropped in silence, and an unknown event is reported.
pub proof fn law_what_is_handed_on(
    counter: u64,
    event: ProtoEvent,
    window: WindowModel,
    n: usize,
    id: u8,
)
    ensures
        window.accepts(counter) ==> admitted(Ok((counter, event)), window) == Some(
            Ok::<ProtoEvent, ProtocolError>(event),
        ),
        !window.accepts(counter) ==> admitted(Ok((counter, event)), window) is None,
        admitted(Err(ProtocolError::AuthenticationFailed), window) is None,
        admitted(Err(ProtocolError::BadLength(n)), window) is None,
        admitted(Err(ProtocolError::InvalidEventId(id)), window) == Some(
            Err::<ProtoEvent, ProtocolError>(ProtocolError::InvalidEventId(id)),
        ),
{
}

/// Only an authentic, well-formed datagram moves the window of its source, by its counter.
pub proof fn law_what_is_remembered(
    counter: u64,
    event: ProtoEvent,
    window: WindowModel,
    e: ProtocolError,
)
    ensures
        window_after(Ok((counter, event)), window) == window.offered(counter),
        window_after(Err(e), window) == window,
{
}

/// Counters go up by one, modulo two to the sixty-fourth power.
pub proof fn law_counters_go_up(counter: u64)
    ensures
        (next_counter(counter) - counter - 1) % 0x1_0000_0000_0000_0000 == 0,
        counter < u64::MAX ==> next_counter(counter) == counter + 1,
{
}

} // verus!
