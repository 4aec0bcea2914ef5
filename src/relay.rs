use vstd::prelude::*;

use vstd::utf8::{decode_utf8, valid_utf8};

use crate::directory::{Context, DeviceKey, Directory, Endpoint};
use crate::messages::{
    decode_registration_request, device_list_bytes, empty_fields, encode_device_list,
    encode_registration_response, peer_fits, peers_view, request_fields, response_bytes,
    RegistrationResponse, RequestError,
};
use crate::network::{other_ips, peers_of, AddressExhausted, PeerInfo, GATEWAY, NETMASK};
use crate::packet::{
    be_u32, copy_bytes, decode, encode, error_frame, frame_bytes, is_frame, parse_ping,
    pong_frame, protocol_spec, turn_destination, DecodeError, Frame, Protocol, CONTROL_PING,
    ERROR_ADDRESS_EXHAUSTED, HEADER_LEN, NONCE_LEN, PING_LEN, PROTOCOL_CONTROL,
    PROTOCOL_SERVICE, SERVER_TTL, SERVICE_REGISTRATION_RESPONSE, SERVICE_UPDATE_DEVICE_LIST,
    TURN_HEADER_LEN,
};

verus! {

/// The limited broadcast address, 255.255.255.255.
pub const LIMITED_BROADCAST: u32 = 0xFFFF_FFFF;

/// The broadcast address of the virtual subnet, 10.13.0.255.
pub const DIRECTED_BROADCAST: u32 = 0x0A0D_00FF;

/// A datagram to send.
pub struct Outgoing {
    pub to: Endpoint,
    pub bytes: Vec<u8>,
}

impl Outgoing {
    pub open spec fn view(&self) -> (Endpoint, Seq<u8>) {
        (self.to, self.bytes@)
    }
}

pub open spec fn outgoing_view(s: Seq<Outgoing>) -> Seq<(Endpoint, Seq<u8>)> {
    s.map_values(|o: Outgoing| o@)
}

pub open spec fn is_broadcast(dest: u32) -> bool {
    dest == LIMITED_BROADCAST || dest == DIRECTED_BROADCAST
}

/// The public addresses recorded under `token` for each of `ips`, in order, skipping
/// those that have none.
pub open spec fn forward_targets(dir: Directory, token: Seq<char>, ips: Seq<u32>) -> Seq<Endpoint>
    decreases ips.len(),
{
    if ips.len() == 0 {
        seq![]
    } else {
        let rest = forward_targets(dir, token, ips.drop_last());
        if dir.device_addresses.contains((token, ips.last())) {
            rest.push(dir.device_addresses.value_of((token, ips.last())))
        } else {
            rest
        }
    }
}

/// One datagram of `bytes` to each of `targets`.
pub open spec fn sends_to(targets: Seq<Endpoint>, bytes: Seq<u8>) -> Seq<(Endpoint, Seq<u8>)> {
    targets.map_values(|e: Endpoint| (e, bytes))
}

/// The registration response for a peer at `from` that was given `ip` at `epoch`.
pub open spec fn response_for(from: Endpoint, ip: u32, epoch: u32, peers: Vec<PeerInfo>) -> RegistrationResponse {
    RegistrationResponse {
        public_ip: from.ip,
        public_port: from.port as u32,
        virtual_ip: ip,
        virtual_netmask: NETMASK,
        virtual_gateway: GATEWAY,
        epoch,
        device_info_list: peers,
    }
}

/// What answers a ping from the peer at `from`: a pong echoing the nonce, then, where the
/// network's epoch differs from the one in the ping, the device list of the peer's network.
pub open spec fn ping_replies(dir: Directory, from: Endpoint, ctx: Context, payload: Seq<u8>) -> Seq<(Endpoint, Seq<u8>)> {
    if payload.len() < PING_LEN {
        seq![]
    } else {
        let pong = (from, frame_bytes(PROTOCOL_CONTROL, crate::packet::CONTROL_PONG, SERVER_TTL, payload.subrange(0, NONCE_LEN as int)));
        let epoch = dir.epoch_of(ctx.token@);
        let ps = peers_of(dir.devices_of(ctx.token@), ctx.virtual_ip);
        if dir.networks.contains(ctx.token@) && epoch as int != be_u32(payload.subrange(NONCE_LEN as int, PING_LEN as int)) {
            if forall|i: int| 0 <= i < ps.len() ==> peer_fits(#[trigger] ps[i]) {
                seq![pong, (from, frame_bytes(PROTOCOL_SERVICE, SERVICE_UPDATE_DEVICE_LIST, SERVER_TTL, device_list_bytes(epoch, ps)))]
            } else {
                seq![pong]
            }
        } else {
            seq![pong]
        }
    }
}

/// Where a turn frame goes: to every other device of the network for a broadcast
/// destination, else to the device at the destination; only where an address is recorded.
pub open spec fn turn_replies(dir: Directory, ctx: Context, payload: Seq<u8>, raw: Seq<u8>) -> Seq<(Endpoint, Seq<u8>)> {
    if payload.len() < TURN_HEADER_LEN {
        seq![]
    } else {
        let dest = be_u32(payload.subrange(4, 8)) as u32;
        if is_broadcast(dest) {
            if dir.networks.contains(ctx.token@) {
                sends_to(forward_targets(dir, ctx.token@, other_ips(dir.devices_of(ctx.token@), ctx.virtual_ip)), raw)
            } else {
                seq![]
            }
        } else if dir.device_addresses.contains((ctx.token@, dest)) {
            seq![(dir.device_addresses.value_of((ctx.token@, dest)), raw)]
        } else {
            seq![]
        }
    }
}

/// What the relay sends for a frame from an authorized peer.
pub open spec fn session_replies(
    dir: Directory,
    from: Endpoint,
    ctx: Context,
    protocol: u8,
    transport: u8,
    payload: Seq<u8>,
    raw: Seq<u8>,
) -> Seq<(Endpoint, Seq<u8>)> {
    match protocol_spec(protocol) {
        Protocol::Control => if transport == CONTROL_PING {
            ping_replies(dir, from, ctx, payload)
        } else {
            seq![]
        },
        Protocol::Ipv4Turn => turn_replies(dir, ctx, payload, raw),
        Protocol::OtherTurn => turn_replies(dir, ctx, payload, raw),
        _ => seq![],
    }
}

/// Whether a frame carries a registration request.
pub open spec fn is_registration_request_spec(protocol: u8, transport: u8) -> bool {
    protocol == PROTOCOL_SERVICE && transport == crate::packet::SERVICE_REGISTRATION_REQUEST
}

/// Whether `f` carries a registration request, which is answered without a session.
pub fn is_registration_request(f: &Frame) -> (r: bool)
    ensures
        r == is_registration_request_spec(f.protocol, f.transport),
{
    f.protocol == PROTOCOL_SERVICE && f.transport == crate::packet::SERVICE_REGISTRATION_REQUEST
}

/// The disconnect error that tells a peer without a live session to register again.
pub open spec fn disconnect_to(from: Endpoint) -> Seq<(Endpoint, Seq<u8>)> {
    seq![(from, frame_bytes(crate::packet::PROTOCOL_ERROR, crate::packet::ERROR_DISCONNECT, SERVER_TTL, seq![]))]
}

/// What registering `mac` under `token` for the peer at `from` does to the directory `d0`,
/// giving `d1`, and sends back, where a fresh binding gets id `fresh_id`.
pub open spec fn registration_outcome(
    d0: Directory,
    d1: Directory,
    from: Endpoint,
    token: Seq<char>,
    mac: Seq<char>,
    name: Seq<char>,
    fresh_id: i64,
    r: Seq<Outgoing>,
) -> bool {
    exists|res: Result<crate::network::Registration, AddressExhausted>| {
        &&& #[trigger] crate::network::registers(
            d0.epoch_of(token),
            d0.devices_of(token),
            d1.epoch_of(token),
            d1.devices_of(token),
            mac,
            name,
            fresh_id,
            res,
        )
        &&& forall|t: Seq<char>, m: crate::network::VirtualNetwork| t != token ==> (d1.networks.maps(t, m) <==> d0.networks.maps(t, m))
        &&& res is Err ==> {
            &&& outgoing_view(r) == seq![(from, frame_bytes(crate::packet::PROTOCOL_ERROR, ERROR_ADDRESS_EXHAUSTED, SERVER_TTL, seq![]))]
            &&& d1.sessions == d0.sessions
            &&& d1.device_addresses == d0.device_addresses
            &&& d1.mac_sessions == d0.mac_sessions
        }
        &&& res matches Ok(g) ==> {
            let resp = response_for(from, g.ip, g.epoch, g.peers);
            &&& (forall|i: int| 0 <= i < g.peers@.len() ==> peer_fits(#[trigger] g.peers@[i]@)) ==>
                outgoing_view(r) == seq![(from, frame_bytes(PROTOCOL_SERVICE, SERVICE_REGISTRATION_RESPONSE, SERVER_TTL, response_bytes(resp)))]
            &&& !(forall|i: int| 0 <= i < g.peers@.len() ==> peer_fits(#[trigger] g.peers@[i]@)) ==> r.len() == 0
            &&& d1.sessions.contains(from@)
            &&& d1.sessions.value_of(from@).token@ == token
            &&& d1.sessions.value_of(from@).virtual_ip == g.ip
            &&& d1.sessions.value_of(from@).id == g.id
            &&& d1.sessions.value_of(from@).mac_address@ == mac
            &&& d1.device_addresses.maps((token, g.ip), from)
            &&& d1.mac_sessions.contains((token, mac))
            &&& forall|k: (Seq<char>, Seq<char>)| k != (token, mac) ==> (d1.mac_sessions.contains(k) <==> d0.mac_sessions.contains(k))
            &&& forall|k: (Seq<char>, u32), a: Endpoint| k != (token, g.ip) ==> (d1.device_addresses.maps(k, a) <==> d0.device_addresses.maps(k, a))
            &&& forall|k: (u32, u16), c: Context| k != from@ ==> (d1.sessions.maps(k, c) <==> d0.sessions.maps(k, c))
        }
    }
}

/// Why a datagram was dropped without an answer.
#[derive(Copy, Clone, Debug, PartialEq, Eq, Structural)]
pub enum HandleError {
    /// The frame could not be read.
    Decode(DecodeError),
    /// The registration request in the frame could not be read.
    Request(RequestError),
}

/// What the relay does with a datagram `raw` from `from`, taking the directory from `d0`
/// to `d1` and sending `r`, where a fresh binding gets id `fresh_id`.
pub open spec fn datagram_outcome(d0: Directory, d1: Directory, from: Endpoint, raw: Seq<u8>, fresh_id: i64, r: Result<Vec<Outgoing>, HandleError>) -> bool {
    let payload = raw.subrange(HEADER_LEN as int, raw.len() as int);
    if !is_frame(raw) {
        &&& r == Err::<Vec<Outgoing>, HandleError>(HandleError::Decode(
            if raw.len() < HEADER_LEN { DecodeError::Truncated } else { DecodeError::UnknownVersion },
        ))
        &&& d1 == d0
    } else if is_registration_request_spec(raw[1], raw[2]) {
        match request_fields(payload, 0, empty_fields()) {
            None => r == Err::<Vec<Outgoing>, HandleError>(HandleError::Request(RequestError::Malformed)) && d1 == d0,
            Some(f) => if valid_utf8(f.0) && valid_utf8(f.1) && valid_utf8(f.2) {
                r is Ok && registration_outcome(d0, d1, from, decode_utf8(f.0), decode_utf8(f.1), decode_utf8(f.2), fresh_id, r->Ok_0@)
            } else {
                r == Err::<Vec<Outgoing>, HandleError>(HandleError::Request(RequestError::InvalidUtf8)) && d1 == d0
            },
        }
    } else {
        &&& d1 == d0
        &&& r is Ok
        &&& !d0.authorized(from@) ==> outgoing_view(r->Ok_0@) == disconnect_to(from)
        &&& d0.authorized(from@) ==> outgoing_view(r->Ok_0@) == session_replies(d0, from, d0.sessions.value_of(from@), raw[1], raw[2], payload, raw)
    }
}

/// Relies on chrono's `Utc::now` and `DateTime::timestamp_millis`: the wall-clock time in
/// milliseconds since the Unix epoch. Nothing is promised of the value.
#[verifier::external_body]
fn now_millis() -> (r: i64) {
    chrono::Utc::now().timestamp_millis()
}

impl Directory {
    /// Registers `mac` under `token` for the peer at `from`, and says what to send back:
    /// the registration response, or an address-exhausted error. Nothing is sent where
    /// the response cannot be encoded.
    pub fn handle_registration(&mut self, from: Endpoint, token: &String, mac: &String, name: &String, fresh_id: i64) -> (r: Vec<Outgoing>)
        requires
            old(self).wf(),
        ensures
            final(self).wf(),
            registration_outcome(*old(self), *final(self), from, token@, mac@, name@, fresh_id, r@),
    {
        let res = self.register(from, token, mac, name, fresh_id);
        let ghost gres = res;
        let mut out: Vec<Outgoing> = Vec::new();
        match res {
            Err(_) => {
                out.push(Outgoing { to: from, bytes: error_frame(ERROR_ADDRESS_EXHAUSTED) });
                proof {
                    assert(outgoing_view(out@) =~= seq![(from, frame_bytes(crate::packet::PROTOCOL_ERROR, ERROR_ADDRESS_EXHAUSTED, SERVER_TTL, seq![]))]);
                }
            },
            Ok(g) => {
                let ghost gp = g.peers;
                let resp = RegistrationResponse {
                    public_ip: from.ip,
                    public_port: from.port as u32,
                    virtual_ip: g.ip,
                    virtual_netmask: NETMASK,
                    virtual_gateway: GATEWAY,
                    epoch: g.epoch,
                    device_info_list: g.peers,
                };
                assert(resp == response_for(from, g.ip, g.epoch, gp));
                match encode_registration_response(&resp) {
                    None => {},
                    Some(b) => {
                        let f = encode(PROTOCOL_SERVICE, SERVICE_REGISTRATION_RESPONSE, SERVER_TTL, b.as_slice());
                        out.push(Outgoing { to: from, bytes: f });
                        proof {
                            assert(outgoing_view(out@) =~= seq![(from, frame_bytes(PROTOCOL_SERVICE, SERVICE_REGISTRATION_RESPONSE, SERVER_TTL, response_bytes(response_for(from, g.ip, g.epoch, gp))))]);
                        }
                    },
                }
            },
        }
        assert(crate::network::registers(
            old(self).epoch_of(token@),
            old(self).devices_of(token@),
            self.epoch_of(token@),
            self.devices_of(token@),
            mac@,
            name@,
            fresh_id,
            gres,
        ));
        out
    }

    /// The public addresses recorded under `token` for each of `ips`, skipping those with none.
    pub fn lookup_targets(&self, token: &String, ips: &Vec<u32>) -> (r: Vec<Endpoint>)
        requires
            self.wf(),
        ensures
            r@ == forward_targets(*self, token@, ips@),
    {
        let mut r: Vec<Endpoint> = Vec::new();
        let mut i: usize = 0;
        while i < ips.len()
            invariant
                self.wf(),
                i <= ips@.len(),
                r@ == forward_targets(*self, token@, ips@.subrange(0, i as int)),
            decreases ips@.len() - i,
        {
            proof {
                assert(ips@.subrange(0, i + 1).drop_last() =~= ips@.subrange(0, i as int));
            }
            let k = DeviceKey { token: token.clone(), ip: ips[i] };
            match self.device_addresses.get(&k) {
                None => {},
                Some(a) => {
                    proof {
                        crate::table::lemma_value_of(self.device_addresses, (token@, ips@[i as int]), *a);
                    }
                    r.push(*a);
                },
            }
            i = i + 1;
        }
        proof {
            assert(ips@.subrange(0, i as int) =~= ips@);
        }
        r
    }

    /// Answers a frame from the authorized peer at `from` with session `ctx`; `raw` is the
    /// whole datagram, which turn frames are forwarded as, unchanged.
    pub fn handle_session(&self, from: Endpoint, ctx: &Context, frame: &Frame, raw: &[u8]) -> (r: Vec<Outgoing>)
        requires
            self.wf(),
        ensures
            outgoing_view(r@) == session_replies(*self, from, *ctx, frame.protocol, frame.transport, frame.payload@, raw@),
    {
        let mut out: Vec<Outgoing> = Vec::new();
        match crate::packet::protocol_of(frame.protocol) {
            Protocol::Control => {
                if frame.transport != CONTROL_PING {
                    return out;
                }
                let ping = match parse_ping(frame.payload.as_slice()) {
                    Ok(p) => p,
                    Err(_) => {
                        return out;
                    },
                };
                out.push(Outgoing { to: from, bytes: pong_frame(ping.nonce.as_slice()) });
                let ghost pong = (from, frame_bytes(PROTOCOL_CONTROL, crate::packet::CONTROL_PONG, SERVER_TTL, frame.payload@.subrange(0, NONCE_LEN as int)));
                assert(outgoing_view(out@) =~= seq![pong]);
                match self.networks.get(&ctx.token) {
                    None => {
                        assert(outgoing_view(out@) =~= ping_replies(*self, from, *ctx, frame.payload@));
                    },
                    Some(net) => {
                        proof {
                            crate::table::lemma_value_of(self.networks, ctx.token@, *net);
                        }
                        if net.epoch != ping.epoch {
                            let ps = net.peer_list(ctx.virtual_ip);
                            let ghost sp = peers_of(net.devices@, ctx.virtual_ip);
                            assert(peers_view(ps@) == sp);
                            assert((forall|i: int| 0 <= i < ps@.len() ==> peer_fits(#[trigger] ps@[i]@))
                                <==> (forall|i: int| 0 <= i < sp.len() ==> peer_fits(#[trigger] sp[i]))) by {
                                assert forall|i: int| 0 <= i < ps@.len() implies #[trigger] ps@[i]@ == sp[i] by {
                                    assert(peers_view(ps@)[i] == ps@[i]@);
                                }
                            }
                            match encode_device_list(net.epoch, &ps) {
                                None => {
                                    assert(outgoing_view(out@) =~= ping_replies(*self, from, *ctx, frame.payload@));
                                },
                                Some(b) => {
                                    let f = encode(PROTOCOL_SERVICE, SERVICE_UPDATE_DEVICE_LIST, SERVER_TTL, b.as_slice());
                                    out.push(Outgoing { to: from, bytes: f });
                                    assert(outgoing_view(out@) =~= ping_replies(*self, from, *ctx, frame.payload@));
                                },
                            }
                        } else {
                            assert(outgoing_view(out@) =~= ping_replies(*self, from, *ctx, frame.payload@));
                        }
                    },
                }
                out
            },
            Protocol::Ipv4Turn | Protocol::OtherTurn => {
                let dest = match turn_destination(frame.payload.as_slice()) {
                    Ok(d) => d,
                    Err(_) => {
                        return out;
                    },
                };
                if dest == LIMITED_BROADCAST || dest == DIRECTED_BROADCAST {
                    let ips = match self.networks.get(&ctx.token) {
                        None => {
                            return out;
                        },
                        Some(net) => {
                            proof {
                                crate::table::lemma_value_of(self.networks, ctx.token@, *net);
                            }
                            net.other_device_ips(ctx.virtual_ip)
                        },
                    };
                    let targets = self.lookup_targets(&ctx.token, &ips);
                    let mut i: usize = 0;
                    while i < targets.len()
                        invariant
                            i <= targets@.len(),
                            outgoing_view(out@) == sends_to(targets@.subrange(0, i as int), raw@),
                        decreases targets@.len() - i,
                    {
                        let ghost prev = out@;
                        out.push(Outgoing { to: targets[i], bytes: copy_bytes(raw) });
                        proof {
                            let s = targets@.subrange(0, i + 1);
                            assert(s =~= targets@.subrange(0, i as int).push(targets@[i as int]));
                            assert(outgoing_view(out@) =~= outgoing_view(prev).push((targets@[i as int], raw@)));
                            assert(sends_to(s, raw@) =~= sends_to(targets@.subrange(0, i as int), raw@).push((targets@[i as int], raw@)));
                        }
                        i = i + 1;
                    }
                    proof {
                        assert(targets@.subrange(0, i as int) =~= targets@);
                    }
                    out
                } else {
                    match self.device_addresses.get(&DeviceKey { token: ctx.token.clone(), ip: dest }) {
                        None => {},
                        Some(a) => {
                            proof {
                                crate::table::lemma_value_of(self.device_addresses, (ctx.token@, dest), *a);
                            }
                            out.push(Outgoing { to: *a, bytes: copy_bytes(raw) });
                            proof {
                                assert(outgoing_view(out@) =~= seq![(*a, raw@)]);
                            }
                        },
                    }
                    out
                }
            },
            _ => out,
        }
    }

    /// Answers a datagram that is not a registration request: decodes it, then, where the
    /// peer at `from` is authorized, dispatches it, and otherwise tells the peer to
    /// register again. A registration request gets nothing here.
    pub fn handle_packet(&self, from: Endpoint, raw: &[u8]) -> (r: Result<Vec<Outgoing>, DecodeError>)
        requires
            self.wf(),
        ensures
            r is Err <==> !is_frame(raw@),
            r is Err ==> r == Err::<Vec<Outgoing>, DecodeError>(
                if raw@.len() < HEADER_LEN { DecodeError::Truncated } else { DecodeError::UnknownVersion },
            ),
            r matches Ok(out) ==> {
                let payload = raw@.subrange(HEADER_LEN as int, raw@.len() as int);
                &&& is_registration_request_spec(raw@[1], raw@[2]) ==> out@.len() == 0
                &&& !is_registration_request_spec(raw@[1], raw@[2]) && !self.authorized(from@)
                    ==> outgoing_view(out@) == disconnect_to(from)
                &&& !is_registration_request_spec(raw@[1], raw@[2]) && self.authorized(from@)
                    ==> outgoing_view(out@) == session_replies(*self, from, self.sessions.value_of(from@), raw@[1], raw@[2], payload, raw@)
            },
    {
        let frame = match decode(raw) {
            Ok(f) => f,
            Err(e) => {
                return Err(e);
            },
        };
        if is_registration_request(&frame) {
            return Ok(Vec::new());
        }
        match self.authorize(from) {
            Some(ctx) => Ok(self.handle_session(from, ctx, &frame, raw)),
            None => {
                let mut out: Vec<Outgoing> = Vec::new();
                out.push(Outgoing { to: from, bytes: error_frame(crate::packet::ERROR_DISCONNECT) });
                assert(outgoing_view(out@) =~= disconnect_to(from));
                Ok(out)
            },
        }
    }

    /// Handles one datagram `raw` from `from`: a registration request registers the
    /// sender, where a fresh binding gets id `fresh_id`; any other frame goes through the
    /// session check and dispatch.
    pub fn handle_at(&mut self, from: Endpoint, raw: &[u8], fresh_id: i64) -> (r: Result<Vec<Outgoing>, HandleError>)
        requires
            old(self).wf(),
        ensures
            final(self).wf(),
            datagram_outcome(*old(self), *final(self), from, raw@, fresh_id, r),
    {
        let frame = match decode(raw) {
            Ok(f) => f,
            Err(e) => {
                return Err(HandleError::Decode(e));
            },
        };
        if is_registration_request(&frame) {
            match decode_registration_request(frame.payload.as_slice()) {
                Ok(q) => Ok(self.handle_registration(from, &q.token, &q.mac_address, &q.name, fresh_id)),
                Err(e) => Err(HandleError::Request(e)),
            }
        } else {
            match self.handle_packet(from, raw) {
                Ok(out) => Ok(out),
                Err(e) => Err(HandleError::Decode(e)),
            }
        }
    }

    /// Handles one datagram `raw` from `from`, stamping a fresh binding with the current
    /// wall-clock time in milliseconds.
    pub fn handle(&mut self, from: Endpoint, raw: &[u8]) -> (r: Result<Vec<Outgoing>, HandleError>)
        requires
            old(self).wf(),
        ensures
            final(self).wf(),
            exists|id: i64| datagram_outcome(*old(self), *final(self), from, raw@, id, r),
    {
        let id = now_millis();
        self.handle_at(from, raw, id)
    }
}

/// A frame other than a registration request, from a sender whose session, device address
/// and MAC session are not all present, is delivered to nobody: the only datagram sent
/// is the disconnect error back to the sender, and the directory is left as it was.
pub proof fn lemma_delivery_needs_live_session(
    d0: Directory,
    d1: Directory,
    from: Endpoint,
    raw: Seq<u8>,
    fresh_id: i64,
    r: Result<Vec<Outgoing>, HandleError>,
)
    requires
        datagram_outcome(d0, d1, from, raw, fresh_id, r),
        is_frame(raw),
        !is_registration_request_spec(raw[1], raw[2]),
        !d0.authorized(from@),
    ensures
        r is Ok,
        d1 == d0,
        r->Ok_0@.len() == 1,
        r->Ok_0@[0].to == from,
        r->Ok_0@[0].bytes@ == frame_bytes(crate::packet::PROTOCOL_ERROR, crate::packet::ERROR_DISCONNECT, SERVER_TTL, seq![]),
{
    let o = r->Ok_0@;
    assert(outgoing_view(o) == disconnect_to(from));
    assert(outgoing_view(o).len() == o.len());
    assert(disconnect_to(from).len() == 1);
    assert(outgoing_view(o)[0] == o[0]@);
    assert(disconnect_to(from)[0] == (from, frame_bytes(crate::packet::PROTOCOL_ERROR, crate::packet::ERROR_DISCONNECT, SERVER_TTL, seq![])));
}

} // verus!
