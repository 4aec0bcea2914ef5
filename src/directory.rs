use vstd::prelude::*;

use crate::network::{
    next_epoch, registers, with_status, AddressExhausted, DeviceInfo, Registration, VirtualNetwork,
};
use crate::status::PeerDeviceStatus;
use crate::table::{lemma_contains_maps, lemma_value_of, Table, TableKey};

verus! {

/// An IPv4 socket address: the address as a big-endian integer, and the port.
#[derive(Copy, Clone, Debug, PartialEq, Eq, Structural)]
pub struct Endpoint {
    pub ip: u32,
    pub port: u16,
}

impl Endpoint {
    pub open spec fn view(&self) -> (u32, u16) {
        (self.ip, self.port)
    }
}

impl TableKey for Endpoint {
    type Value = (u32, u16);

    open spec fn key(&self) -> (u32, u16) {
        (self.ip, self.port)
    }

    fn same(&self, o: &Endpoint) -> (r: bool) {
        self.ip == o.ip && self.port == o.port
    }
}

impl TableKey for String {
    type Value = Seq<char>;

    open spec fn key(&self) -> Seq<char> {
        self@
    }

    fn same(&self, o: &String) -> (r: bool) {
        *self == *o
    }
}

/// Key of the device-address table: a token and a virtual address.
pub struct DeviceKey {
    pub token: String,
    pub ip: u32,
}

impl TableKey for DeviceKey {
    type Value = (Seq<char>, u32);

    open spec fn key(&self) -> (Seq<char>, u32) {
        (self.token@, self.ip)
    }

    fn same(&self, o: &DeviceKey) -> (r: bool) {
        self.ip == o.ip && self.token == o.token
    }
}

/// Key of the MAC-session table: a token and a MAC.
pub struct MacKey {
    pub token: String,
    pub mac: String,
}

impl TableKey for MacKey {
    type Value = (Seq<char>, Seq<char>);

    open spec fn key(&self) -> (Seq<char>, Seq<char>) {
        (self.token@, self.mac@)
    }

    fn same(&self, o: &MacKey) -> (r: bool) {
        self.token == o.token && self.mac == o.mac
    }
}

/// What a session knows of the device it was opened for.
pub struct Context {
    pub token: String,
    pub virtual_ip: u32,
    /// The binding generation at the time the session was opened.
    pub id: i64,
    pub mac_address: String,
}

/// The relay's directory: the networks by token, and the three tables that say which
/// peers are live.
pub struct Directory {
    pub networks: Table<String, VirtualNetwork>,
    /// Sessions, by the public address of the peer.
    pub sessions: Table<Endpoint, Context>,
    /// Public address of each device, by token and virtual address.
    pub device_addresses: Table<DeviceKey, Endpoint>,
    /// Liveness of each MAC, by token and MAC.
    pub mac_sessions: Table<MacKey, ()>,
}

impl Directory {
    pub open spec fn wf(&self) -> bool {
        &&& self.networks.wf()
        &&& self.sessions.wf()
        &&& self.device_addresses.wf()
        &&& self.mac_sessions.wf()
        &&& forall|t: Seq<char>, n: VirtualNetwork| #[trigger] self.networks.maps(t, n) ==> n.wf()
    }

    /// The epoch of the network of token `t`; 0 where there is none yet.
    pub open spec fn epoch_of(&self, t: Seq<char>) -> u32 {
        if self.networks.contains(t) {
            self.networks.value_of(t).epoch
        } else {
            0
        }
    }

    /// The devices of the network of token `t`; none where there is no network yet.
    pub open spec fn devices_of(&self, t: Seq<char>) -> Seq<(String, DeviceInfo)> {
        if self.networks.contains(t) {
            self.networks.value_of(t).devices@
        } else {
            seq![]
        }
    }

    /// The session at `addr`, with its device's address entry and MAC session, are all present.
    pub open spec fn authorized(&self, addr: (u32, u16)) -> bool {
        &&& self.sessions.contains(addr)
        &&& self.device_addresses.contains(
            (self.sessions.value_of(addr).token@, self.sessions.value_of(addr).virtual_ip),
        )
        &&& self.mac_sessions.contains(
            (self.sessions.value_of(addr).token@, self.sessions.value_of(addr).mac_address@),
        )
    }

    /// An empty directory.
    pub fn new() -> (r: Directory)
        ensures
            r.wf(),
            r.networks@.len() == 0,
            r.sessions@.len() == 0,
            r.device_addresses@.len() == 0,
            r.mac_sessions@.len() == 0,
    {
        Directory {
            networks: Table::new(),
            sessions: Table::new(),
            device_addresses: Table::new(),
            mac_sessions: Table::new(),
        }
    }

    /// Takes the network of `token` out of the registry, or a new one where there is none.
    fn take_network(&mut self, token: &String) -> (n: VirtualNetwork)
        requires
            old(self).wf(),
        ensures
            final(self).networks.wf(),
            n.wf(),
            n.epoch == old(self).epoch_of(token@),
            n.devices@ == old(self).devices_of(token@),
            !final(self).networks.contains(token@),
            forall|t: Seq<char>, m: VirtualNetwork| t != token@ ==> (final(self).networks.maps(t, m) <==> old(self).networks.maps(t, m)),
            final(self).sessions == old(self).sessions,
            final(self).device_addresses == old(self).device_addresses,
            final(self).mac_sessions == old(self).mac_sessions,
    {
        match self.networks.take(token) {
            Some(n) => {
                proof {
                    lemma_value_of(old(self).networks, token@, n);
                }
                n
            },
            None => VirtualNetwork::new(),
        }
    }

    /// Puts the network of `token` back into the registry.
    fn put_network(&mut self, token: &String, n: VirtualNetwork)
        requires
            old(self).networks.wf(),
            n.wf(),
            forall|t: Seq<char>, m: VirtualNetwork| #[trigger] old(self).networks.maps(t, m) ==> m.wf(),
        ensures
            final(self).networks.wf(),
            final(self).networks.contains(token@),
            final(self).networks.value_of(token@) == n,
            forall|t: Seq<char>, m: VirtualNetwork| #[trigger] final(self).networks.maps(t, m) ==> m.wf(),
            forall|t: Seq<char>, m: VirtualNetwork| t != token@ ==> (final(self).networks.maps(t, m) <==> old(self).networks.maps(t, m)),
            final(self).sessions == old(self).sessions,
            final(self).device_addresses == old(self).device_addresses,
            final(self).mac_sessions == old(self).mac_sessions,
    {
        let ghost nn = n;
        self.networks.insert(token.clone(), n);
        proof {
            lemma_value_of(self.networks, token@, nn);
        }
    }

    /// Registers `mac` under `token`, seen from `from`: binds it in the network (created
    /// on the token's first registration) and, on success, refreshes its MAC session, its
    /// device address and the session at `from`.
    pub fn register(&mut self, from: Endpoint, token: &String, mac: &String, name: &String, fresh_id: i64) -> (r: Result<Registration, AddressExhausted>)
        requires
            old(self).wf(),
        ensures
            final(self).wf(),
            final(self).networks.contains(token@),
            registers(
                old(self).epoch_of(token@),
                old(self).devices_of(token@),
                final(self).epoch_of(token@),
                final(self).devices_of(token@),
                mac@,
                name@,
                fresh_id,
                r,
            ),
            forall|t: Seq<char>, m: VirtualNetwork| t != token@ ==> (final(self).networks.maps(t, m) <==> old(self).networks.maps(t, m)),
            r is Err ==> {
                &&& final(self).sessions == old(self).sessions
                &&& final(self).device_addresses == old(self).device_addresses
                &&& final(self).mac_sessions == old(self).mac_sessions
            },
            r matches Ok(g) ==> {
                &&& final(self).mac_sessions.contains((token@, mac@))
                &&& final(self).device_addresses.maps((token@, g.ip), from)
                &&& final(self).sessions.contains(from@)
                &&& final(self).sessions.value_of(from@).token@ == token@
                &&& final(self).sessions.value_of(from@).virtual_ip == g.ip
                &&& final(self).sessions.value_of(from@).id == g.id
                &&& final(self).sessions.value_of(from@).mac_address@ == mac@
                &&& forall|k: (Seq<char>, Seq<char>)| k != (token@, mac@) ==> (final(self).mac_sessions.contains(k) <==> old(self).mac_sessions.contains(k))
                &&& forall|k: (Seq<char>, u32), a: Endpoint| k != (token@, g.ip) ==> (final(self).device_addresses.maps(k, a) <==> old(self).device_addresses.maps(k, a))
                &&& forall|k: (u32, u16), c: Context| k != from@ ==> (final(self).sessions.maps(k, c) <==> old(self).sessions.maps(k, c))
            },
    {
        let mut net = self.take_network(token);
        let r = net.register(mac, name, fresh_id);
        self.put_network(token, net);
        match r {
            Ok(g) => {
                self.mac_sessions.insert(MacKey { token: token.clone(), mac: mac.clone() }, ());
                self.device_addresses.insert(DeviceKey { token: token.clone(), ip: g.ip }, from);
                let ctx = Context { token: token.clone(), virtual_ip: g.ip, id: g.id, mac_address: mac.clone() };
                let ghost c = ctx;
                self.sessions.insert(from, ctx);
                proof {
                    lemma_value_of(self.sessions, from@, c);
                }
                Ok(g)
            },
            Err(e) => Err(e),
        }
    }

    /// What the expiry of the session at `addr` does: the session goes; then, unless its
    /// device was re-bound since (with another id, or from another address), the device is
    /// marked offline, its address entry goes and the network's epoch is bumped.
    pub fn expire_session(&mut self, addr: Endpoint)
        requires
            old(self).wf(),
        ensures
            final(self).wf(),
            !final(self).sessions.contains(addr@),
            forall|k: (u32, u16), c: Context| k != addr@ ==> (final(self).sessions.maps(k, c) <==> old(self).sessions.maps(k, c)),
            final(self).mac_sessions == old(self).mac_sessions,
            !old(self).sessions.contains(addr@) ==> {
                &&& final(self).networks == old(self).networks
                &&& final(self).device_addresses == old(self).device_addresses
            },
            old(self).sessions.contains(addr@) ==> {
                let c = old(self).sessions.value_of(addr@);
                let d0 = old(self).devices_of(c.token@);
                let rebound = exists|k: int| 0 <= k < d0.len() && #[trigger] d0[k].0@ == c.mac_address@ && d0[k].1.id != c.id;
                let moved = exists|a: Endpoint| #[trigger] old(self).device_addresses.maps((c.token@, c.virtual_ip), a) && a != addr;
                &&& moved ==> final(self).networks == old(self).networks && final(self).device_addresses == old(self).device_addresses
                &&& forall|t: Seq<char>, m: VirtualNetwork| t != c.token@ ==> (final(self).networks.maps(t, m) <==> old(self).networks.maps(t, m))
                &&& !old(self).networks.contains(c.token@) ==> final(self).networks == old(self).networks && final(self).device_addresses == old(self).device_addresses
                &&& old(self).networks.contains(c.token@) && rebound ==> final(self).networks == old(self).networks && final(self).device_addresses == old(self).device_addresses
                &&& old(self).networks.contains(c.token@) && !rebound && !moved ==> {
                    &&& final(self).networks.contains(c.token@)
                    &&& final(self).epoch_of(c.token@) == next_epoch(old(self).epoch_of(c.token@))
                    &&& forall|k: int| 0 <= k < d0.len() && #[trigger] d0[k].0@ == c.mac_address@ ==>
                        final(self).devices_of(c.token@) == d0.update(k, (d0[k].0, with_status(d0[k].1, PeerDeviceStatus::Offline)))
                    &&& !crate::network::has_mac(d0, c.mac_address@) ==> final(self).devices_of(c.token@) == d0
                    &&& !final(self).device_addresses.contains((c.token@, c.virtual_ip))
                    &&& forall|k: (Seq<char>, u32), a: Endpoint| k != (c.token@, c.virtual_ip) ==> (final(self).device_addresses.maps(k, a) <==> old(self).device_addresses.maps(k, a))
                }
            },
    {
        let ctx = match self.sessions.take(&addr) {
            None => {
                return;
            },
            Some(ctx) => ctx,
        };
        proof {
            lemma_value_of(old(self).sessions, addr@, ctx);
        }
        // the device's address now leads elsewhere: a newer session owns the binding
        match self.device_addresses.get(&DeviceKey { token: ctx.token.clone(), ip: ctx.virtual_ip }) {
            Some(a) => {
                if *a != addr {
                    return;
                }
            },
            None => {},
        }
        let rebound = match self.networks.get(&ctx.token) {
            None => {
                return;
            },
            Some(n) => match n.find_mac(&ctx.mac_address) {
                Some(k) => n.devices[k].1.id != ctx.id,
                None => false,
            },
        };
        if rebound {
            return;
        }
        let mut net = match self.networks.take(&ctx.token) {
            Some(n) => n,
            None => {
                return;
            },
        };
        proof {
            lemma_value_of(old(self).networks, ctx.token@, net);
            let d0 = net.devices@;
            assert forall|k: int| 0 <= k < d0.len() && #[trigger] d0[k].0@ == ctx.mac_address@ implies d0[k].1.id == ctx.id by {
                let f = choose|f: int| 0 <= f < d0.len() && d0[f].0@ == ctx.mac_address@ && d0[f].1.id == ctx.id;
                if k < f {
                    assert(d0[k].0@ != d0[f].0@);
                } else if f < k {
                    assert(d0[f].0@ != d0[k].0@);
                }
            }
        }
        let _ = net.mark_offline_if_current(&ctx.mac_address, ctx.id);
        self.device_addresses.remove(&DeviceKey { token: ctx.token.clone(), ip: ctx.virtual_ip });
        net.bump_epoch();
        let ghost n1 = net;
        self.networks.insert(ctx.token.clone(), net);
        proof {
            lemma_value_of(self.networks, ctx.token@, n1);
        }
    }

    /// What the expiry of the MAC session (token, mac) does: the entry goes, the MAC
    /// leaves its network and the network's epoch is bumped.
    pub fn expire_mac_session(&mut self, token: &String, mac: &String)
        requires
            old(self).wf(),
        ensures
            final(self).wf(),
            !final(self).mac_sessions.contains((token@, mac@)),
            forall|k: (Seq<char>, Seq<char>)| k != (token@, mac@) ==> (final(self).mac_sessions.contains(k) <==> old(self).mac_sessions.contains(k)),
            final(self).sessions == old(self).sessions,
            final(self).device_addresses == old(self).device_addresses,
            forall|t: Seq<char>, m: VirtualNetwork| t != token@ ==> (final(self).networks.maps(t, m) <==> old(self).networks.maps(t, m)),
            !old(self).networks.contains(token@) ==> final(self).networks == old(self).networks,
            old(self).networks.contains(token@) ==> {
                &&& final(self).networks.contains(token@)
                &&& final(self).epoch_of(token@) == next_epoch(old(self).epoch_of(token@))
                &&& !crate::network::has_mac(final(self).devices_of(token@), mac@)
                &&& !crate::network::has_mac(old(self).devices_of(token@), mac@) ==> final(self).devices_of(token@) == old(self).devices_of(token@)
                &&& forall|k: int| 0 <= k < old(self).devices_of(token@).len() && #[trigger] old(self).devices_of(token@)[k].0@ == mac@
                    ==> final(self).devices_of(token@) == old(self).devices_of(token@).remove(k)
            },
    {
        self.mac_sessions.remove(&MacKey { token: token.clone(), mac: mac.clone() });
        match self.networks.take(token) {
            None => {},
            Some(mut net) => {
                proof {
                    lemma_value_of(old(self).networks, token@, net);
                }
                net.remove_mac(mac);
                net.bump_epoch();
                let ghost n1 = net;
                self.networks.insert(token.clone(), net);
                proof {
                    lemma_value_of(self.networks, token@, n1);
                }
            },
        }
    }

    /// What the expiry of the device address (token, ip) does: the entry goes.
    pub fn expire_device_address(&mut self, token: &String, ip: u32)
        requires
            old(self).wf(),
        ensures
            final(self).wf(),
            !final(self).device_addresses.contains((token@, ip)),
            forall|k: (Seq<char>, u32), a: Endpoint| k != (token@, ip) ==> (final(self).device_addresses.maps(k, a) <==> old(self).device_addresses.maps(k, a)),
            final(self).networks == old(self).networks,
            final(self).sessions == old(self).sessions,
            final(self).mac_sessions == old(self).mac_sessions,
    {
        self.device_addresses.remove(&DeviceKey { token: token.clone(), ip });
    }

    /// What the expiry of the network of `token` does: the network goes.
    pub fn expire_network(&mut self, token: &String)
        requires
            old(self).wf(),
        ensures
            final(self).wf(),
            !final(self).networks.contains(token@),
            forall|t: Seq<char>, m: VirtualNetwork| t != token@ ==> (final(self).networks.maps(t, m) <==> old(self).networks.maps(t, m)),
            final(self).sessions == old(self).sessions,
            final(self).device_addresses == old(self).device_addresses,
            final(self).mac_sessions == old(self).mac_sessions,
    {
        self.networks.remove(token);
    }

    /// The session of the peer at `addr`, where the session, its device's address entry
    /// and its MAC session are all present.
    pub fn authorize(&self, addr: Endpoint) -> (r: Option<&Context>)
        requires
            self.wf(),
        ensures
            r is Some <==> self.authorized(addr@),
            r matches Some(c) ==> *c == self.sessions.value_of(addr@),
    {
        match self.sessions.get(&addr) {
            None => None,
            Some(c) => {
                proof {
                    lemma_value_of(self.sessions, addr@, *c);
                }
                if self.device_addresses.find(&DeviceKey { token: c.token.clone(), ip: c.virtual_ip }).is_none() {
                    return None;
                }
                if self.mac_sessions.find(&MacKey { token: c.token.clone(), mac: c.mac_address.clone() }).is_none() {
                    return None;
                }
                Some(c)
            },
        }
    }
}

/// In every network of a well-formed directory, no two devices share an address, and every
/// address lies in the pool 10.13.0.2 up to, not including, 10.13.0.128.
pub proof fn lemma_directory_addresses(d: Directory, token: Seq<char>)
    requires
        d.wf(),
    ensures
        forall|i: int, j: int|
            0 <= i < d.devices_of(token).len() && 0 <= j < d.devices_of(token).len() && i != j
                ==> #[trigger] d.devices_of(token)[i].1.ip != #[trigger] d.devices_of(token)[j].1.ip,
        forall|i: int| 0 <= i < d.devices_of(token).len() ==> 0x0A0D0002 <= #[trigger] d.devices_of(token)[i].1.ip < 0x0A0D0080,
{
    if d.networks.contains(token) {
        lemma_contains_maps(d.networks, token);
        crate::network::lemma_addresses_unique_in_pool(d.networks.value_of(token));
    }
}

} // verus!
