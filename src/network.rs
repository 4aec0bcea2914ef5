use vstd::prelude::*;

use crate::status::PeerDeviceStatus;

verus! {

/// Virtual gateway of every network, 10.13.0.1.
pub const GATEWAY: u32 = 0x0A0D0001;

/// Virtual netmask of every network, 255.255.255.0.
pub const NETMASK: u32 = 0xFFFFFF00;

/// First address of the pool handed to devices, 10.13.0.2.
pub const POOL_START: u32 = 0x0A0D0002;

/// First address past the pool, 10.13.0.128.
pub const POOL_END: u32 = 0x0A0D0080;

/// A device bound to a network.
pub struct DeviceInfo {
    /// Generation of the binding, stamped at the first registration of the MAC.
    pub id: i64,
    pub ip: u32,
    pub name: String,
    pub status: PeerDeviceStatus,
}

/// How a device of the network is shown to its peers.
pub struct PeerInfo {
    pub virtual_ip: u32,
    pub name: String,
    pub device_status: u32,
}

impl PeerInfo {
    pub open spec fn view(&self) -> (u32, Seq<char>, u32) {
        (self.virtual_ip, self.name@, self.device_status)
    }
}

/// A virtual network: its epoch and its devices keyed by MAC, in order of first registration.
pub struct VirtualNetwork {
    pub epoch: u32,
    pub devices: Vec<(String, DeviceInfo)>,
}

/// The registration was refused: every address of the pool is bound.
#[derive(Copy, Clone, Debug, PartialEq, Eq, Structural)]
pub struct AddressExhausted;

/// What a successful registration hands back.
pub struct Registration {
    pub id: i64,
    pub ip: u32,
    pub epoch: u32,
    /// Every other device of the network, as its peers see it.
    pub peers: Vec<PeerInfo>,
}

pub open spec fn in_pool(ip: u32) -> bool {
    POOL_START <= ip < POOL_END
}

/// The epoch after one membership change: one more, wrapping at the top of `u32`.
pub open spec fn next_epoch(e: u32) -> u32 {
    if e < u32::MAX {
        (e + 1) as u32
    } else {
        0
    }
}

/// Whether some device of `devs` has the MAC `mac`.
pub open spec fn has_mac(devs: Seq<(String, DeviceInfo)>, mac: Seq<char>) -> bool {
    exists|i: int| 0 <= i < devs.len() && #[trigger] devs[i].0@ == mac
}

/// Whether some device of `devs` holds the address `ip`.
pub open spec fn ip_used(devs: Seq<(String, DeviceInfo)>, ip: u32) -> bool {
    exists|i: int| 0 <= i < devs.len() && #[trigger] devs[i].1.ip == ip
}

/// `ip` is the lowest address of the pool that no device holds.
pub open spec fn is_lowest_free(devs: Seq<(String, DeviceInfo)>, ip: u32) -> bool {
    &&& in_pool(ip)
    &&& !ip_used(devs, ip)
    &&& forall|j: u32| POOL_START <= j < ip ==> ip_used(devs, j)
}

/// Every address of the pool is held by some device.
pub open spec fn pool_full(devs: Seq<(String, DeviceInfo)>) -> bool {
    forall|j: u32| in_pool(j) ==> ip_used(devs, j)
}

/// What peers see of a device.
pub open spec fn peer_view(d: DeviceInfo) -> (u32, Seq<char>, u32) {
    (d.ip, d.name@, d.status.code() as u32)
}

/// The devices of `devs` other than the one at `self_ip`, in order, as peers see them.
pub open spec fn peers_of(devs: Seq<(String, DeviceInfo)>, self_ip: u32) -> Seq<(u32, Seq<char>, u32)>
    decreases devs.len(),
{
    if devs.len() == 0 {
        seq![]
    } else {
        let rest = peers_of(devs.drop_last(), self_ip);
        if devs.last().1.ip != self_ip {
            rest.push(peer_view(devs.last().1))
        } else {
            rest
        }
    }
}

/// The addresses of the devices of `devs` other than `self_ip`, in order.
pub open spec fn other_ips(devs: Seq<(String, DeviceInfo)>, self_ip: u32) -> Seq<u32>
    decreases devs.len(),
{
    if devs.len() == 0 {
        seq![]
    } else {
        let rest = other_ips(devs.drop_last(), self_ip);
        if devs.last().1.ip != self_ip {
            rest.push(devs.last().1.ip)
        } else {
            rest
        }
    }
}

/// The device record with its status set to `s`.
pub open spec fn with_status(d: DeviceInfo, s: PeerDeviceStatus) -> DeviceInfo {
    DeviceInfo { status: s, ..d }
}

/// The relation between a network before and after `mac` registers with `name`, when a
/// fresh binding would get id `fresh_id`, and what the registration returns.
pub open spec fn registers(
    e0: u32,
    d0: Seq<(String, DeviceInfo)>,
    e1: u32,
    d1: Seq<(String, DeviceInfo)>,
    mac: Seq<char>,
    name: Seq<char>,
    fresh_id: i64,
    r: Result<Registration, AddressExhausted>,
) -> bool {
    &&& e1 == next_epoch(e0)
    &&& forall|k: int| 0 <= k < d0.len() && #[trigger] d0[k].0@ == mac ==> {
        &&& r matches Ok(g) && g.id == d0[k].1.id && g.ip == d0[k].1.ip
        &&& d1 == d0.update(k, (d0[k].0, with_status(d0[k].1, PeerDeviceStatus::Online)))
    }
    &&& !has_mac(d0, mac) && !pool_full(d0) ==> {
        &&& r is Ok
        &&& r->Ok_0.id == fresh_id
        &&& is_lowest_free(d0, r->Ok_0.ip)
        &&& d1.len() == d0.len() + 1
        &&& d1.drop_last() == d0
        &&& d1.last().0@ == mac
        &&& d1.last().1.id == fresh_id
        &&& d1.last().1.ip == r->Ok_0.ip
        &&& d1.last().1.name@ == name
        &&& d1.last().1.status == PeerDeviceStatus::Online
    }
    &&& !has_mac(d0, mac) && pool_full(d0) ==> {
        &&& r == Err::<Registration, AddressExhausted>(AddressExhausted)
        &&& d1 == d0
    }
    &&& r matches Ok(g) ==> {
        &&& g.epoch == e1
        &&& has_mac(d1, mac)
        &&& g.peers@.map_values(|p: PeerInfo| p@) == peers_of(d1, g.ip)
    }
}

/// Within `d`, MACs are unique, addresses are unique, and every address lies in the pool.
pub open spec fn devices_wf(d: Seq<(String, DeviceInfo)>) -> bool {
    &&& forall|i: int, j: int| 0 <= i < j < d.len() ==> #[trigger] d[i].0@ != #[trigger] d[j].0@
    &&& forall|i: int, j: int| 0 <= i < j < d.len() ==> #[trigger] d[i].1.ip != #[trigger] d[j].1.ip
    &&& forall|i: int| 0 <= i < d.len() ==> in_pool(#[trigger] d[i].1.ip)
}

impl VirtualNetwork {
    /// MACs are unique, addresses are unique, and every address lies in the pool.
    pub open spec fn wf(&self) -> bool {
        devices_wf(self.devices@)
    }

    /// A network as it is first created for a token: epoch 0 and no device.
    pub fn new() -> (r: VirtualNetwork)
        ensures
            r.wf(),
            r.epoch == 0,
            r.devices@.len() == 0,
    {
        VirtualNetwork { epoch: 0, devices: Vec::new() }
    }

    /// Records one membership change in the epoch.
    pub fn bump_epoch(&mut self)
        ensures
            final(self).epoch == next_epoch(old(self).epoch),
            final(self).devices == old(self).devices,
    {
        self.epoch = self.epoch.wrapping_add(1);
    }

    /// The position of the device with MAC `mac`, if there is one.
    pub fn find_mac(&self, mac: &String) -> (r: Option<usize>)
        requires
            self.wf(),
        ensures
            r is None <==> !has_mac(self.devices@, mac@),
            r matches Some(k) ==> k < self.devices@.len() && self.devices@[k as int].0@ == mac@,
    {
        let mut i: usize = 0;
        while i < self.devices.len()
            invariant
                i <= self.devices@.len(),
                forall|j: int| 0 <= j < i ==> self.devices@[j].0@ != mac@,
            decreases self.devices@.len() - i,
        {
            if self.devices[i].0 == *mac {
                return Some(i);
            }
            i = i + 1;
        }
        None
    }

    /// Whether some device holds the address `ip`.
    pub fn holds_ip(&self, ip: u32) -> (r: bool)
        ensures
            r == ip_used(self.devices@, ip),
    {
        let mut i: usize = 0;
        while i < self.devices.len()
            invariant
                i <= self.devices@.len(),
                forall|j: int| 0 <= j < i ==> self.devices@[j].1.ip != ip,
            decreases self.devices@.len() - i,
        {
            if self.devices[i].1.ip == ip {
                return true;
            }
            i = i + 1;
        }
        false
    }

    /// The lowest address of the pool that no device holds, if any is left.
    pub fn lowest_free_ip(&self) -> (r: Option<u32>)
        ensures
            r is None <==> pool_full(self.devices@),
            r matches Some(ip) ==> is_lowest_free(self.devices@, ip),
    {
        let mut ip: u32 = POOL_START;
        while ip < POOL_END
            invariant
                POOL_START <= ip <= POOL_END,
                forall|j: u32| POOL_START <= j < ip ==> ip_used(self.devices@, j),
            decreases POOL_END - ip,
        {
            if !self.holds_ip(ip) {
                proof {
                    assert(in_pool(ip) && !ip_used(self.devices@, ip));
                }
                return Some(ip);
            }
            ip = ip + 1;
        }
        None
    }

    /// Every device other than the one at `self_ip`, as its peers see it.
    pub fn peer_list(&self, self_ip: u32) -> (r: Vec<PeerInfo>)
        ensures
            r@.map_values(|p: PeerInfo| p@) == peers_of(self.devices@, self_ip),
    {
        let mut r: Vec<PeerInfo> = Vec::new();
        let mut i: usize = 0;
        while i < self.devices.len()
            invariant
                i <= self.devices@.len(),
                r@.map_values(|p: PeerInfo| p@) == peers_of(self.devices@.subrange(0, i as int), self_ip),
            decreases self.devices@.len() - i,
        {
            let d = &self.devices[i].1;
            proof {
                let s = self.devices@.subrange(0, i + 1);
                assert(s.drop_last() == self.devices@.subrange(0, i as int));
            }
            if d.ip != self_ip {
                let code: u8 = d.status.into();
                r.push(PeerInfo { virtual_ip: d.ip, name: d.name.clone(), device_status: code as u32 });
                proof {
                    assert(r@.map_values(|p: PeerInfo| p@) =~= peers_of(self.devices@.subrange(0, i as int), self_ip).push(peer_view(self.devices@[i as int].1)));
                }
            }
            i = i + 1;
        }
        proof {
            assert(self.devices@.subrange(0, i as int) == self.devices@);
        }
        r
    }

    /// The addresses of every device other than `self_ip`.
    pub fn other_device_ips(&self, self_ip: u32) -> (r: Vec<u32>)
        ensures
            r@ == other_ips(self.devices@, self_ip),
    {
        let mut r: Vec<u32> = Vec::new();
        let mut i: usize = 0;
        while i < self.devices.len()
            invariant
                i <= self.devices@.len(),
                r@ == other_ips(self.devices@.subrange(0, i as int), self_ip),
            decreases self.devices@.len() - i,
        {
            proof {
                let s = self.devices@.subrange(0, i + 1);
                assert(s.drop_last() == self.devices@.subrange(0, i as int));
            }
            if self.devices[i].1.ip != self_ip {
                r.push(self.devices[i].1.ip);
            }
            i = i + 1;
        }
        proof {
            assert(self.devices@.subrange(0, i as int) == self.devices@);
        }
        r
    }

    /// Binds `mac` to the network, as a registration does: bumps the epoch; re-binds a
    /// known MAC online with its prior id and address; else gives the MAC id `fresh_id`
    /// and the lowest free address of the pool, and fails if the pool is full.
    pub fn register(&mut self, mac: &String, name: &String, fresh_id: i64) -> (r: Result<Registration, AddressExhausted>)
        requires
            old(self).wf(),
        ensures
            final(self).wf(),
            registers(old(self).epoch, old(self).devices@, final(self).epoch, final(self).devices@, mac@, name@, fresh_id, r),
    {
        self.bump_epoch();
        let (id, ip) = match self.find_mac(mac) {
            Some(k) => {
                self.devices[k].1.status = PeerDeviceStatus::Online;
                proof {
                    assert(forall|j: int| 0 <= j < self.devices@.len() ==> #[trigger] self.devices@[j].0@ == old(self).devices@[j].0@);
                    assert(forall|j: int| 0 <= j < self.devices@.len() ==> #[trigger] self.devices@[j].1.ip == old(self).devices@[j].1.ip);
                    assert forall|j: int| 0 <= j < old(self).devices@.len() && #[trigger] old(self).devices@[j].0@ == mac@ implies j == k by {
                        if j != k {
                            if j < k {
                                assert(old(self).devices@[j].0@ != old(self).devices@[k as int].0@);
                            } else {
                                assert(old(self).devices@[k as int].0@ != old(self).devices@[j].0@);
                            }
                        }
                    }
                    assert(self.devices@ =~= old(self).devices@.update(
                        k as int,
                        (old(self).devices@[k as int].0, with_status(old(self).devices@[k as int].1, PeerDeviceStatus::Online)),
                    ));
                    assert(self.devices@[k as int].0@ == mac@);
                }
                (self.devices[k].1.id, self.devices[k].1.ip)
            },
            None => {
                match self.lowest_free_ip() {
                    Some(ip) => {
                        let info = DeviceInfo { id: fresh_id, ip, name: name.clone(), status: PeerDeviceStatus::Online };
                        self.devices.push((mac.clone(), info));
                        proof {
                            assert(self.devices@.drop_last() =~= old(self).devices@);
                            assert forall|i: int, j: int| 0 <= i < j < self.devices@.len() implies
                                #[trigger] self.devices@[i].0@ != #[trigger] self.devices@[j].0@ by {
                                if j == self.devices@.len() - 1 {
                                    assert(old(self).devices@[i].0@ == self.devices@[i].0@);
                                }
                            }
                            assert forall|i: int, j: int| 0 <= i < j < self.devices@.len() implies
                                #[trigger] self.devices@[i].1.ip != #[trigger] self.devices@[j].1.ip by {
                                if j == self.devices@.len() - 1 {
                                    assert(old(self).devices@[i].1.ip == self.devices@[i].1.ip);
                                }
                            }
                            assert(self.devices@[self.devices@.len() - 1].0@ == mac@);
                        }
                        (fresh_id, ip)
                    },
                    None => {
                        return Err(AddressExhausted);
                    },
                }
            },
        };
        let peers = self.peer_list(ip);
        Ok(Registration { id, ip, epoch: self.epoch, peers })
    }

    /// What expiry of a session with binding generation `id` does to the device `mac`:
    /// marks it offline, unless the MAC was re-bound with another id since.
    /// Returns whether the device was left untouched because of such a re-bind.
    pub fn mark_offline_if_current(&mut self, mac: &String, id: i64) -> (rebound: bool)
        requires
            old(self).wf(),
        ensures
            final(self).wf(),
            final(self).epoch == old(self).epoch,
            !has_mac(old(self).devices@, mac@) ==> !rebound && final(self).devices@ == old(self).devices@,
            forall|k: int| 0 <= k < old(self).devices@.len() && #[trigger] old(self).devices@[k].0@ == mac@ ==> {
                &&& rebound == (old(self).devices@[k].1.id != id)
                &&& rebound ==> final(self).devices@ == old(self).devices@
                &&& !rebound ==> final(self).devices@ == old(self).devices@.update(
                    k,
                    (old(self).devices@[k].0, with_status(old(self).devices@[k].1, PeerDeviceStatus::Offline)),
                )
            },
    {
        match self.find_mac(mac) {
            None => false,
            Some(k) => {
                proof {
                    assert forall|j: int| 0 <= j < old(self).devices@.len() && #[trigger] old(self).devices@[j].0@ == mac@ implies j == k by {
                        if j < k {
                            assert(old(self).devices@[j].0@ != old(self).devices@[k as int].0@);
                        } else if j > k {
                            assert(old(self).devices@[k as int].0@ != old(self).devices@[j].0@);
                        }
                    }
                }
                if self.devices[k].1.id != id {
                    return true;
                }
                self.devices[k].1.status = PeerDeviceStatus::Offline;
                proof {
                    assert(forall|j: int| 0 <= j < self.devices@.len() ==> #[trigger] self.devices@[j].0@ == old(self).devices@[j].0@);
                    assert(forall|j: int| 0 <= j < self.devices@.len() ==> #[trigger] self.devices@[j].1.ip == old(self).devices@[j].1.ip);
                    assert(self.devices@ =~= old(self).devices@.update(
                        k as int,
                        (old(self).devices@[k as int].0, with_status(old(self).devices@[k as int].1, PeerDeviceStatus::Offline)),
                    ));
                }
                false
            },
        }
    }

    /// Drops the device `mac`, if the network has it.
    pub fn remove_mac(&mut self, mac: &String)
        requires
            old(self).wf(),
        ensures
            final(self).wf(),
            final(self).epoch == old(self).epoch,
            !has_mac(final(self).devices@, mac@),
            !has_mac(old(self).devices@, mac@) ==> final(self).devices@ == old(self).devices@,
            forall|k: int| 0 <= k < old(self).devices@.len() && #[trigger] old(self).devices@[k].0@ == mac@
                ==> final(self).devices@ == old(self).devices@.remove(k),
    {
        match self.find_mac(mac) {
            None => {},
            Some(k) => {
                proof {
                    assert forall|j: int| 0 <= j < old(self).devices@.len() && #[trigger] old(self).devices@[j].0@ == mac@ implies j == k by {
                        if j < k {
                            assert(old(self).devices@[j].0@ != old(self).devices@[k as int].0@);
                        } else if j > k {
                            assert(old(self).devices@[k as int].0@ != old(self).devices@[j].0@);
                        }
                    }
                }
                let _ = self.devices.remove(k);
                proof {
                    let o = old(self).devices@;
                    let n = self.devices@;
                    assert forall|j: int| 0 <= j < n.len() implies #[trigger] n[j] == (if j < k { o[j] } else { o[j + 1] }) by {}
                    assert forall|i: int, j: int| 0 <= i < j < n.len() implies #[trigger] n[i].0@ != #[trigger] n[j].0@ by {
                        let oi = if i < k { i } else { i + 1 };
                        let oj = if j < k { j } else { j + 1 };
                        assert(o[oi].0@ != o[oj].0@);
                    }
                    assert forall|i: int, j: int| 0 <= i < j < n.len() implies #[trigger] n[i].1.ip != #[trigger] n[j].1.ip by {
                        let oi = if i < k { i } else { i + 1 };
                        let oj = if j < k { j } else { j + 1 };
                        assert(o[oi].1.ip != o[oj].1.ip);
                    }
                    assert forall|i: int| 0 <= i < n.len() implies in_pool(#[trigger] n[i].1.ip) by {
                        let oi = if i < k { i } else { i + 1 };
                        assert(in_pool(o[oi].1.ip));
                    }
                    assert forall|j: int| 0 <= j < n.len() implies #[trigger] n[j].0@ != mac@ by {
                        let oj = if j < k { j } else { j + 1 };
                        assert(o[oj].0@ != o[k as int].0@ || oj == k);
                    }
                }
            },
        }
    }
}

/// Within a network, no two devices share an address, and every address lies in the pool
/// 10.13.0.2 up to, not including, 10.13.0.128.
pub proof fn lemma_addresses_unique_in_pool(n: VirtualNetwork)
    requires
        n.wf(),
    ensures
        forall|i: int, j: int|
            0 <= i < n.devices@.len() && 0 <= j < n.devices@.len() && i != j
                ==> #[trigger] n.devices@[i].1.ip != #[trigger] n.devices@[j].1.ip,
        forall|i: int| 0 <= i < n.devices@.len() ==> 0x0A0D0002 <= #[trigger] n.devices@[i].1.ip < 0x0A0D0080,
{
    assert forall|i: int, j: int|
        0 <= i < n.devices@.len() && 0 <= j < n.devices@.len() && i != j
            implies #[trigger] n.devices@[i].1.ip != #[trigger] n.devices@[j].1.ip by {
        if j < i {
            assert(n.devices@[j].1.ip != n.devices@[i].1.ip);
        }
    }
}

/// Below the top of `u32`, a membership change strictly raises the epoch.
pub proof fn lemma_epoch_advances(e: u32)
    requires
        e < u32::MAX,
    ensures
        next_epoch(e) > e,
{
}

/// The peer list built for a device never holds that device's own address.
pub proof fn lemma_peers_exclude_self(d: Seq<(String, DeviceInfo)>, self_ip: u32)
    ensures
        forall|i: int| 0 <= i < peers_of(d, self_ip).len() ==> (#[trigger] peers_of(d, self_ip)[i]).0 != self_ip,
    decreases d.len(),
{
    if d.len() > 0 {
        lemma_peers_exclude_self(d.drop_last(), self_ip);
        let rest = peers_of(d.drop_last(), self_ip);
        let p = peers_of(d, self_ip);
        assert forall|i: int| 0 <= i < p.len() implies (#[trigger] p[i]).0 != self_ip by {
            if i < rest.len() {
                assert(p[i] == rest[i]);
            }
        }
    }
}

/// A registration of a MAC that the network already holds succeeds, bumps the epoch and
/// hands back the id and address that the MAC already had.
pub proof fn lemma_rebind_reuses_binding(
    e0: u32,
    d0: Seq<(String, DeviceInfo)>,
    e1: u32,
    d1: Seq<(String, DeviceInfo)>,
    mac: Seq<char>,
    name: Seq<char>,
    fresh_id: i64,
    r: Result<Registration, AddressExhausted>,
    k: int,
)
    requires
        registers(e0, d0, e1, d1, mac, name, fresh_id, r),
        0 <= k < d0.len(),
        d0[k].0@ == mac,
    ensures
        r is Ok,
        r->Ok_0.id == d0[k].1.id,
        r->Ok_0.ip == d0[k].1.ip,
        e1 == next_epoch(e0),
{
}

/// Registering twice with the same MAC and name gives the same id and address both times,
/// and bumps the epoch each time.
pub proof fn lemma_reregister_idempotent(
    e0: u32,
    d0: Seq<(String, DeviceInfo)>,
    e1: u32,
    d1: Seq<(String, DeviceInfo)>,
    e2: u32,
    d2: Seq<(String, DeviceInfo)>,
    mac: Seq<char>,
    name: Seq<char>,
    id1: i64,
    id2: i64,
    r1: Result<Registration, AddressExhausted>,
    r2: Result<Registration, AddressExhausted>,
)
    requires
        devices_wf(d0),
        registers(e0, d0, e1, d1, mac, name, id1, r1),
        registers(e1, d1, e2, d2, mac, name, id2, r2),
        r1 is Ok,
    ensures
        r2 is Ok,
        r2->Ok_0.id == r1->Ok_0.id,
        r2->Ok_0.ip == r1->Ok_0.ip,
        e1 == next_epoch(e0),
        e2 == next_epoch(e1),
{
    if has_mac(d0, mac) {
        let k = choose|k: int| 0 <= k < d0.len() && #[trigger] d0[k].0@ == mac;
        assert(d1[k].0@ == mac);
        assert(d1[k].1.id == d0[k].1.id && d1[k].1.ip == d0[k].1.ip);
    } else {
        let k = d1.len() - 1;
        assert(d1[k].0@ == mac);
    }
}

/// The address that a successful registration hands back lies in the pool 10.13.0.2 up to,
/// not including, 10.13.0.128, and the network stays well formed.
pub proof fn lemma_registered_address_in_pool(
    e0: u32,
    d0: Seq<(String, DeviceInfo)>,
    e1: u32,
    d1: Seq<(String, DeviceInfo)>,
    mac: Seq<char>,
    name: Seq<char>,
    fresh_id: i64,
    r: Result<Registration, AddressExhausted>,
)
    requires
        devices_wf(d0),
        registers(e0, d0, e1, d1, mac, name, fresh_id, r),
        r is Ok,
    ensures
        0x0A0D0002 <= r->Ok_0.ip < 0x0A0D0080,
{
    if has_mac(d0, mac) {
        let k = choose|k: int| 0 <= k < d0.len() && #[trigger] d0[k].0@ == mac;
        assert(in_pool(d0[k].1.ip));
    }
}

/// A successful registration's list of peers never holds the registered device's own address.
pub proof fn lemma_registration_list_excludes_self(
    e0: u32,
    d0: Seq<(String, DeviceInfo)>,
    e1: u32,
    d1: Seq<(String, DeviceInfo)>,
    mac: Seq<char>,
    name: Seq<char>,
    fresh_id: i64,
    r: Result<Registration, AddressExhausted>,
)
    requires
        registers(e0, d0, e1, d1, mac, name, fresh_id, r),
        r is Ok,
    ensures
        forall|i: int| 0 <= i < r->Ok_0.peers@.len() ==> (#[trigger] r->Ok_0.peers@[i]).virtual_ip != r->Ok_0.ip,
{
    let g = r->Ok_0;
    lemma_peers_exclude_self(d1, g.ip);
    assert forall|i: int| 0 <= i < g.peers@.len() implies (#[trigger] g.peers@[i]).virtual_ip != g.ip by {
        assert(g.peers@.map_values(|p: PeerInfo| p@)[i] == g.peers@[i]@);
    }
}

} // verus!
