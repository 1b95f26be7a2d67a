//! The clients that the server knows, and their states.
use crate::position::Position;
use crate::server::address::{addr_at, socket_addr, PeerAddr, PeerIp};
use vstd::prelude::*;

verus! {

/// A client: its configuration and its state.
pub struct Client {
    /// The number by which the client is known.
    pub handle: u64,
    /// The side of the screen that it lies on.
    pub pos: Position,
    /// The port that it listens on.
    pub port: u16,
    /// The command to run when the cursor enters it.
    pub cmd: Option<String>,
    /// The addresses that it is configured with.
    pub ips: Vec<PeerIp>,
    /// Is it switched on?
    pub active: bool,
    /// Has it answered lately, so that the cursor may move over to it?
    pub connected: bool,
    /// Has anything been received from it since the last ping?
    pub alive: bool,
    /// Has anything been received from it since the last keepalive ping?
    pub responded: bool,
    /// Does it hold keys down on this machine?
    pub has_pressed_keys: bool,
    /// The address that it was last heard from.
    pub active_addr: Option<PeerAddr>,
}

impl Client {
    /// All addresses that the client is configured with.
    pub open spec fn configured_addrs(self) -> Seq<PeerAddr> {
        Seq::new(self.ips@.len(), |i: int| addr_at(self.ips@[i], self.port))
    }

    /// The one address that the client was last heard from where that is known and wanted, or else
    /// all addresses that it is configured with.
    pub open spec fn addrs(self, trust_active: bool) -> Seq<PeerAddr> {
        match self.active_addr {
            Some(a) if trust_active => seq![a],
            _ => self.configured_addrs(),
        }
    }

    /// Appends the addresses at which to ping the client.
    pub fn push_addrs(&self, trust_active: bool, out: &mut Vec<PeerAddr>)
        ensures
            final(out)@ == old(out)@ + self.addrs(trust_active),
    {
        if trust_active {
            if let Some(a) = self.active_addr {
                out.push(a);
                assert(out@ =~= old(out)@ + self.addrs(trust_active));
                return ;
            }
        }
        let n: usize = self.ips.len();
        let mut i: usize = 0;
        while i < n
            invariant
                i <= n,
                n == self.ips@.len(),
                out@ == old(out)@ + self.configured_addrs().take(i as int),
            decreases n - i,
        {
            out.push(socket_addr(self.ips[i], self.port));
            i = i + 1;
            assert(self.configured_addrs().take(i as int) =~= self.configured_addrs().take(
                i - 1,
            ).push(self.configured_addrs()[i - 1]));
        }
        assert(self.configured_addrs().take(n as int) =~= self.configured_addrs());
    }
}

/// Where the client with a handle stands in a list, if it does.
pub open spec fn place_of(clients: Seq<Client>, handle: u64) -> Option<int>
    decreases clients.len(),
{
    if clients.len() == 0 {
        None
    } else if clients.last().handle == handle {
        Some(clients.len() - 1)
    } else {
        place_of(clients.drop_last(), handle)
    }
}

/// The client with a handle.
pub open spec fn client_of(clients: Seq<Client>, handle: u64) -> Option<Client> {
    match place_of(clients, handle) {
        Some(i) => Some(clients[i]),
        None => None,
    }
}

/// Are the handles of a list all different?
pub open spec fn distinct(clients: Seq<Client>) -> bool {
    forall|i: int, j: int|
        0 <= i < j < clients.len() ==> (#[trigger] clients[i]).handle != (
        #[trigger] clients[j]).handle
}

/// The handles of the clients that a property holds of, in order.
pub open spec fn handles_where(clients: Seq<Client>, p: spec_fn(Client) -> bool) -> Seq<u64>
    decreases clients.len(),
{
    if clients.len() == 0 {
        Seq::empty()
    } else if p(clients.last()) {
        handles_where(clients.drop_last(), p).push(clients.last().handle)
    } else {
        handles_where(clients.drop_last(), p)
    }
}

/// What place_of finds is a client with that handle, and it finds one wherever there is one.
pub proof fn lemma_place_of(clients: Seq<Client>, handle: u64)
    ensures
        place_of(clients, handle) matches Some(i) ==> 0 <= i < clients.len()
            && clients[i].handle == handle,
        place_of(clients, handle) is None ==> forall|i: int|
            0 <= i < clients.len() ==> (#[trigger] clients[i]).handle != handle,
    decreases clients.len(),
{
    if clients.len() > 0 && clients.last().handle != handle {
        let init = clients.drop_last();
        lemma_place_of(init, handle);
        if place_of(init, handle) is None {
            assert forall|i: int| 0 <= i < clients.len() implies (#[trigger] clients[i]).handle
                != handle by {
                if i < init.len() {
                    assert(clients[i] == init[i]);
                }
            }
        }
    }
}

/// In a list with distinct handles a client is found by its own handle.
pub proof fn lemma_place_of_own(clients: Seq<Client>, i: int)
    requires
        distinct(clients),
        0 <= i < clients.len(),
    ensures
        place_of(clients, clients[i].handle) == Some(i),
{
    lemma_place_of(clients, clients[i].handle);
}

/// Two lists with the same handles have each client at the same place.
pub proof fn lemma_same_places(a: Seq<Client>, b: Seq<Client>, handle: u64)
    requires
        a.len() == b.len(),
        forall|i: int| 0 <= i < a.len() ==> (#[trigger] a[i]).handle == b[i].handle,
    ensures
        place_of(a, handle) == place_of(b, handle),
    decreases a.len(),
{
    if a.len() > 0 {
        assert(a[a.len() - 1].handle == b[b.len() - 1].handle);
        assert forall|i: int| 0 <= i < a.drop_last().len() implies (#[trigger] a.drop_last()[i]).handle
            == b.drop_last()[i].handle by {
            assert(a[i].handle == b[i].handle);
        }
        lemma_same_places(a.drop_last(), b.drop_last(), handle);
    }
}

/// The listed handles are those of clients, and distinct where the clients are.
pub proof fn lemma_handles_where(clients: Seq<Client>, p: spec_fn(Client) -> bool)
    ensures
        forall|k: int|
            0 <= k < handles_where(clients, p).len() ==> place_of(
                clients,
                #[trigger] handles_where(clients, p)[k],
            ) is Some,
        distinct(clients) ==> handles_where(clients, p).no_duplicates(),
    decreases clients.len(),
{
    if clients.len() > 0 {
        let init = clients.drop_last();
        lemma_handles_where(init, p);
        let hs = handles_where(clients, p);
        assert forall|k: int| 0 <= k < hs.len() implies place_of(
            clients,
            #[trigger] hs[k],
        ) is Some by {
            if k < handles_where(init, p).len() {
                assert(hs[k] == handles_where(init, p)[k]);
            }
        }
        if distinct(clients) {
            assert(distinct(init)) by {
                assert forall|i: int, j: int| 0 <= i < j < init.len() implies (
                #[trigger] init[i]).handle != (#[trigger] init[j]).handle by {
                    assert(clients[i].handle != clients[j].handle);
                }
            }
            let h = clients.last().handle;
            assert(!handles_where(init, p).contains(h)) by {
                if handles_where(init, p).contains(h) {
                    let k = choose|k: int|
                        0 <= k < handles_where(init, p).len() && handles_where(init, p)[k] == h;
                    lemma_place_of(init, h);
                    let i = place_of(init, h)->Some_0;
                    assert(clients[i].handle != clients[clients.len() - 1].handle);
                }
            }
        }
    }
}

/// The clients of the server. No two of them have the same handle.
pub struct ClientTable {
    pub clients: Vec<Client>,
}

impl View for ClientTable {
    type V = Seq<Client>;

    open spec fn view(&self) -> Seq<Client> {
        self.clients@
    }
}

impl ClientTable {
    /// No two clients have the same handle.
    pub open spec fn wf(self) -> bool {
        distinct(self@)
    }

    /// Finds where the client with a handle stands.
    pub fn place(&self, handle: u64) -> (r: Option<usize>)
        ensures
            match r {
                Some(i) => place_of(self@, handle) == Some(i as int),
                None => place_of(self@, handle) is None,
            },
            r matches Some(i) ==> i < self@.len(),
    {
        let mut i: usize = self.clients.len();
        assert(self@.take(i as int) =~= self@);
        while i > 0
            invariant
                i <= self.clients@.len(),
                place_of(self@, handle) == place_of(self@.take(i as int), handle),
            decreases i,
        {
            assert(self@.take(i as int).drop_last() =~= self@.take(i - 1));
            if self.clients[i - 1].handle == handle {
                return Some(i - 1);
            }
            i = i - 1;
        }
        assert(self@.take(0) =~= Seq::<Client>::empty());
        None
    }

    /// The command to run when the cursor enters a client.
    pub fn hook_command(&self, handle: u64) -> (cmd: Option<String>)
        ensures
            cmd == match client_of(self@, handle) {
                Some(c) => c.cmd,
                None => None,
            },
    {
        match self.place(handle) {
            Some(i) => match &self.clients[i].cmd {
                Some(s) => Some(s.clone()),
                None => None,
            },
            None => None,
        }
    }

    /// Notes whether a client is connected, and says whether that is news.
    pub fn set_connected(&mut self, handle: u64, connected: bool) -> (changed: bool)
        ensures
            changed == (client_of(old(self)@, handle) matches Some(c) && c.connected != connected),
            changed ==> final(self)@ == old(self)@.update(
                place_of(old(self)@, handle)->Some_0,
                (Client { connected: connected, ..client_of(old(self)@, handle)->Some_0 }),
            ),
            !changed ==> final(self)@ == old(self)@,
    {
        match self.place(handle) {
            Some(i) => {
                if self.clients[i].connected != connected {
                    self.clients[i].connected = connected;
                    true
                } else {
                    false
                }
            },
            None => false,
        }
    }
}

/// A client is pinged at the one address that it was last heard from, where that is known and
/// wanted; otherwise at its own port at each IP address that it is configured with, in order.
pub proof fn law_client_addresses(c: Client, trust_active: bool, i: int)
    ensures
        trust_active && c.active_addr is Some ==> c.addrs(trust_active).len() == 1
            && c.active_addr == Some(c.addrs(trust_active)[0]),
        !trust_active || c.active_addr is None ==> c.addrs(trust_active).len() == c.ips@.len(),
        (!trust_active || c.active_addr is None) && 0 <= i < c.ips@.len() ==> {
            let a = c.addrs(trust_active)[i];
            a.ip == c.ips@[i] && a.port == c.port && a.flow == 0 && a.scope == 0
        },
{
}

/// A client is found by its handle wherever it stands, and none is found by a handle that no client
/// has.
pub proof fn law_clients_are_found_by_handle(clients: Seq<Client>, i: int, handle: u64)
    requires
        distinct(clients),
    ensures
        0 <= i < clients.len() ==> client_of(clients, clients[i].handle) == Some(clients[i]),
        (forall|k: int| 0 <= k < clients.len() ==> (#[trigger] clients[k]).handle != handle)
            ==> client_of(clients, handle) is None,
{
    if 0 <= i < clients.len() {
        lemma_place_of_own(clients, i);
    }
    lemma_place_of(clients, handle);
}

/// The handles of two lists, one behind the other, are those of the one and those of the other; a
/// single client is listed if and only if the property holds of it.
pub proof fn law_handles_are_listed_in_order(
    a: Seq<Client>,
    b: Seq<Client>,
    p: spec_fn(Client) -> bool,
)
    ensures
        handles_where(a + b, p) == handles_where(a, p) + handles_where(b, p),
        b.len() == 1 && p(b[0]) ==> handles_where(b, p) == seq![b[0].handle],
        b.len() == 1 && !p(b[0]) ==> handles_where(b, p).len() == 0,
        b.len() == 0 ==> handles_where(b, p).len() == 0,
    decreases b.len(),
{
    reveal_with_fuel(handles_where, 2);
    if b.len() == 0 {
        assert(a + b =~= a);
        assert(handles_where(a, p) + handles_where(b, p) =~= handles_where(a, p));
    } else {
        assert((a + b).drop_last() =~= a + b.drop_last());
        law_handles_are_listed_in_order(a, b.drop_last(), p);
        assert(handles_where(a + b, p) =~= handles_where(a, p) + handles_where(b, p));
        if b.len() == 1 {
            assert(b.drop_last() =~= Seq::<Client>::empty());
            assert(handles_where(b.drop_last(), p).len() == 0);
            if p(b[0]) {
                assert(handles_where(b, p) =~= seq![b[0].handle]);
            }
        }
    }
}

/// A handle is listed if and only if it is that of a client that the property holds of.
pub proof fn law_listed_handles(clients: Seq<Client>, p: spec_fn(Client) -> bool, handle: u64)
    ensures
        handles_where(clients, p).contains(handle) <==> exists|i: int|
            0 <= i < clients.len() && (#[trigger] clients[i]).handle == handle && p(clients[i]),
    decreases clients.len(),
{
    if clients.len() > 0 {
        let init = clients.drop_last();
        law_listed_handles(init, p, handle);
        let hs = handles_where(clients, p);
        let hi = handles_where(init, p);
        if hs.contains(handle) {
            let k = choose|k: int| 0 <= k < hs.len() && hs[k] == handle;
            if k < hi.len() {
                assert(hi[k] == handle);
                let i = choose|i: int|
                    0 <= i < init.len() && (#[trigger] init[i]).handle == handle && p(init[i]);
                assert(clients[i].handle == handle && p(clients[i]));
            } else {
                assert(clients[clients.len() - 1].handle == handle);
            }
        }
        if exists|i: int|
            0 <= i < clients.len() && (#[trigger] clients[i]).handle == handle && p(clients[i]) {
            let i = choose|i: int|
                0 <= i < clients.len() && (#[trigger] clients[i]).handle == handle && p(clients[i]);
            if i < init.len() {
                assert(init[i].handle == handle && p(init[i]));
                let k = choose|k: int| 0 <= k < hi.len() && hi[k] == handle;
                assert(hs[k] == handle);
            } else {
                assert(hs[hs.len() - 1] == handle);
            }
        }
    }
}

/// Where several clients have a handle, the last one is found.
pub proof fn law_last_client_is_found(clients: Seq<Client>, i: int)
    requires
        0 <= i < clients.len(),
        forall|k: int|
            i < k < clients.len() ==> (#[trigger] clients[k]).handle != clients[i].handle,
    ensures
        place_of(clients, clients[i].handle) == Some(i),
        client_of(clients, clients[i].handle) == Some(clients[i]),
    decreases clients.len(),
{
    if i < clients.len() - 1 {
        let init = clients.drop_last();
        assert(clients[clients.len() - 1].handle != clients[i].handle);
        assert forall|k: int| i < k < init.len() implies (#[trigger] init[k]).handle
            != init[i].handle by {
            assert(clients[k].handle != clients[i].handle);
        }
        law_last_client_is_found(init, i);
    }
}

} // verus!
