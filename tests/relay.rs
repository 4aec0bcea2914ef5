use vnts_relay::directory::{Directory, Endpoint};
use vnts_relay::messages::{decode_registration_request, encode_device_list, encode_peer, RequestError};
use vnts_relay::network::{PeerInfo, VirtualNetwork};
use vnts_relay::packet::{
    decode, encode, DecodeError, CONTROL_PING, CONTROL_PONG, ERROR_ADDRESS_EXHAUSTED,
    ERROR_DISCONNECT, PROTOCOL_CONTROL, PROTOCOL_ERROR, PROTOCOL_IPV4_TURN, PROTOCOL_SERVICE,
    SERVICE_REGISTRATION_REQUEST, SERVICE_REGISTRATION_RESPONSE, SERVICE_UPDATE_DEVICE_LIST,
};
use vnts_relay::relay::{HandleError, Outgoing};
use vnts_relay::PeerDeviceStatus;

#[derive(Debug, PartialEq)]
enum Field {
    Int(u64),
    Bytes(Vec<u8>),
}

fn fields(b: &[u8]) -> Vec<(u32, Field)> {
    let mut is = protobuf::CodedInputStream::from_bytes(b);
    let mut out = Vec::new();
    while let Some(tag) = is.read_raw_tag_or_eof().unwrap() {
        match tag & 7 {
            0 => out.push((tag >> 3, Field::Int(is.read_uint64().unwrap()))),
            2 => out.push((tag >> 3, Field::Bytes(is.read_bytes().unwrap()))),
            w => panic!("wire type {}", w),
        }
    }
    out
}

fn int_field(fs: &[(u32, Field)], n: u32) -> u64 {
    for (f, v) in fs {
        if *f == n {
            if let Field::Int(x) = v {
                return *x;
            }
        }
    }
    0
}

fn peers(fs: &[(u32, Field)], n: u32) -> Vec<(u64, String, u64)> {
    let mut out = Vec::new();
    for (f, v) in fs {
        if *f == n {
            if let Field::Bytes(b) = v {
                let p = fields(b);
                let mut name = String::new();
                for (pf, pv) in &p {
                    if *pf == 2 {
                        if let Field::Bytes(nb) = pv {
                            name = String::from_utf8(nb.clone()).unwrap();
                        }
                    }
                }
                out.push((int_field(&p, 1), name, int_field(&p, 3)));
            }
        }
    }
    out
}

fn request_bytes(token: &str, mac: &str, name: &str) -> Vec<u8> {
    let mut out = Vec::new();
    let mut os = protobuf::CodedOutputStream::vec(&mut out);
    os.write_string(1, token).unwrap();
    os.write_string(2, mac).unwrap();
    os.write_string(3, name).unwrap();
    os.flush().unwrap();
    drop(os);
    out
}

fn ep(ip: u32, port: u16) -> Endpoint {
    Endpoint { ip, port }
}

fn s(x: &str) -> String {
    x.to_string()
}

const A: Endpoint = Endpoint { ip: 0xC633_6407, port: 40000 };
const B: Endpoint = Endpoint { ip: 0xC633_6408, port: 40001 };
const C: Endpoint = Endpoint { ip: 0xC633_6409, port: 40002 };

fn register(dir: &mut Directory, from: Endpoint, mac: &str, name: &str, id: i64) -> Vec<Outgoing> {
    dir.handle_registration(from, &s("t"), &s(mac), &s(name), id)
}

fn response_fields(out: &[Outgoing]) -> Vec<(u32, Field)> {
    assert_eq!(out.len(), 1);
    let f = decode(&out[0].bytes).unwrap();
    assert_eq!(f.protocol, PROTOCOL_SERVICE);
    assert_eq!(f.transport, SERVICE_REGISTRATION_RESPONSE);
    assert_eq!(f.ttl, 255);
    fields(&f.payload)
}

fn ping(epoch: u32, nonce: [u8; 8]) -> Vec<u8> {
    let mut p = nonce.to_vec();
    p.extend_from_slice(&epoch.to_be_bytes());
    encode(PROTOCOL_CONTROL, CONTROL_PING, 64, &p)
}

fn turn(src: u32, dst: u32) -> Vec<u8> {
    let mut p = src.to_be_bytes().to_vec();
    p.extend_from_slice(&dst.to_be_bytes());
    p.extend_from_slice(b"data");
    encode(PROTOCOL_IPV4_TURN, 0, 64, &p)
}

fn two_peers() -> Directory {
    let mut dir = Directory::new();
    register(&mut dir, A, "aa", "A", 1000);
    register(&mut dir, B, "bb", "B", 2000);
    dir
}

#[test]
fn fresh_register() {
    let mut dir = Directory::new();
    let out = register(&mut dir, A, "aa", "A", 1000);
    assert_eq!(out[0].to, A);
    let fs = response_fields(&out);
    assert_eq!(int_field(&fs, 1), 0xC633_6407);
    assert_eq!(int_field(&fs, 2), 40000);
    assert_eq!(int_field(&fs, 3), 0x0A0D_0002);
    assert_eq!(int_field(&fs, 4), 0xFFFF_FF00);
    assert_eq!(int_field(&fs, 5), 0x0A0D_0001);
    assert_eq!(int_field(&fs, 6), 1);
    assert!(peers(&fs, 7).is_empty());
}

#[test]
fn second_peer_sees_first() {
    let mut dir = Directory::new();
    register(&mut dir, A, "aa", "A", 1000);
    let out = register(&mut dir, B, "bb", "B", 2000);
    let fs = response_fields(&out);
    assert_eq!(int_field(&fs, 3), 0x0A0D_0003);
    assert_eq!(int_field(&fs, 6), 2);
    assert_eq!(peers(&fs, 7), vec![(0x0A0D_0002, s("A"), 0)]);
}

#[test]
fn ping_with_stale_epoch_triggers_delta() {
    let dir = two_peers();
    let nonce = [1, 2, 3, 4, 5, 6, 7, 8];
    let out = dir.handle_packet(A, &ping(1, nonce)).unwrap();
    assert_eq!(out.len(), 2);
    assert_eq!(out[0].to, A);
    let pong = decode(&out[0].bytes).unwrap();
    assert_eq!((pong.protocol, pong.transport, pong.ttl), (PROTOCOL_CONTROL, CONTROL_PONG, 255));
    assert_eq!(pong.payload, nonce.to_vec());
    assert_eq!(out[1].to, A);
    let list = decode(&out[1].bytes).unwrap();
    assert_eq!((list.protocol, list.transport), (PROTOCOL_SERVICE, SERVICE_UPDATE_DEVICE_LIST));
    let fs = fields(&list.payload);
    assert_eq!(int_field(&fs, 1), 2);
    assert_eq!(peers(&fs, 2), vec![(0x0A0D_0003, s("B"), 0)]);
}

#[test]
fn ping_with_current_epoch_gets_pong_only() {
    let dir = two_peers();
    let out = dir.handle_packet(A, &ping(2, [9; 8])).unwrap();
    assert_eq!(out.len(), 1);
    assert_eq!(out[0].bytes, vec![0x10, PROTOCOL_CONTROL, CONTROL_PONG, 255, 9, 9, 9, 9, 9, 9, 9, 9]);
}

#[test]
fn short_ping_is_dropped() {
    let dir = two_peers();
    let raw = encode(PROTOCOL_CONTROL, CONTROL_PING, 64, &[1, 2, 3]);
    assert!(dir.handle_packet(A, &raw).unwrap().is_empty());
}

#[test]
fn unicast_turn() {
    let dir = two_peers();
    let raw = turn(0x0A0D_0002, 0x0A0D_0003);
    let out = dir.handle_packet(A, &raw).unwrap();
    assert_eq!(out.len(), 1);
    assert_eq!(out[0].to, B);
    assert_eq!(out[0].bytes, raw);
}

#[test]
fn unicast_turn_to_unknown_address_is_dropped() {
    let dir = two_peers();
    let out = dir.handle_packet(A, &turn(0x0A0D_0002, 0x0A0D_0040)).unwrap();
    assert!(out.is_empty());
}

#[test]
fn directed_broadcast() {
    let mut dir = two_peers();
    register(&mut dir, C, "cc", "C", 3000);
    let raw = turn(0x0A0D_0002, 0x0A0D_00FF);
    let out = dir.handle_packet(A, &raw).unwrap();
    let to: Vec<Endpoint> = out.iter().map(|o| o.to).collect();
    assert_eq!(to, vec![B, C]);
    assert!(out.iter().all(|o| o.bytes == raw));
}

#[test]
fn limited_broadcast() {
    let dir = two_peers();
    let raw = turn(0x0A0D_0003, 0xFFFF_FFFF);
    let out = dir.handle_packet(B, &raw).unwrap();
    assert_eq!(out.len(), 1);
    assert_eq!(out[0].to, A);
}

#[test]
fn expiry_marks_offline_and_drops_route() {
    let mut dir = two_peers();
    dir.expire_session(A);
    let out = dir.handle_packet(B, &ping(2, [0; 8])).unwrap();
    assert_eq!(out.len(), 2);
    let list = decode(&out[1].bytes).unwrap();
    let fs = fields(&list.payload);
    assert_eq!(int_field(&fs, 1), 3);
    assert_eq!(peers(&fs, 2), vec![(0x0A0D_0002, s("A"), 1)]);
    assert!(dir.handle_packet(B, &turn(0x0A0D_0003, 0x0A0D_0002)).unwrap().is_empty());
    // the expired peer itself is told to register again
    let again = dir.handle_packet(A, &ping(3, [0; 8])).unwrap();
    assert_eq!(again.len(), 1);
    assert_eq!(again[0].bytes, vec![0x10, PROTOCOL_ERROR, ERROR_DISCONNECT, 255]);
}

#[test]
fn stale_session_expiry_does_not_downgrade_rebound_device() {
    let mut dir = Directory::new();
    register(&mut dir, A, "aa", "A", 1000);
    // the MAC's binding lapses and the device comes back from another address
    dir.expire_mac_session(&s("t"), &s("aa"));
    let a2 = ep(0xC633_6499, 50000);
    register(&mut dir, a2, "aa", "A", 2000);
    let epoch = dir.networks.entries[0].1.epoch;
    // the session of the first binding expires late
    dir.expire_session(A);
    let dev = &dir.networks.entries[0].1.devices[0].1;
    assert_eq!((dev.id, dev.status), (2000, PeerDeviceStatus::Online));
    assert_eq!(dir.networks.entries[0].1.epoch, epoch);
    let out = dir.handle_packet(a2, &ping(epoch, [0; 8])).unwrap();
    assert_eq!(out.len(), 1);
    assert_eq!(out[0].bytes[1], PROTOCOL_CONTROL);
}

#[test]
fn address_exhaustion() {
    let mut dir = Directory::new();
    for i in 0..126u32 {
        let out = register(&mut dir, ep(0x0101_0000 + i, 1000), &format!("m{}", i), "n", i as i64);
        let fs = response_fields(&out);
        assert_eq!(int_field(&fs, 3), 0x0A0D_0002 + i as u64);
    }
    let out = register(&mut dir, ep(0x0202_0202, 7), "last", "n", 999);
    assert_eq!(out.len(), 1);
    assert_eq!(out[0].bytes, vec![0x10, PROTOCOL_ERROR, ERROR_ADDRESS_EXHAUSTED, 255]);
}

#[test]
fn reregister_reuses_binding_and_bumps_epoch() {
    let mut dir = Directory::new();
    let first = response_fields(&register(&mut dir, A, "aa", "A", 1000));
    let second = response_fields(&register(&mut dir, A, "aa", "A", 5000));
    assert_eq!(int_field(&first, 3), int_field(&second, 3));
    assert_eq!(int_field(&second, 6), int_field(&first, 6) + 1);
    assert_eq!(dir.networks.entries[0].1.devices[0].1.id, 1000);
}

#[test]
fn reregister_from_new_address_moves_session() {
    let mut dir = two_peers();
    let a2 = ep(0xC633_6499, 50000);
    let fs = response_fields(&register(&mut dir, a2, "aa", "A", 7000));
    assert_eq!(int_field(&fs, 3), 0x0A0D_0002);
    let out = dir.handle_packet(B, &turn(0x0A0D_0003, 0x0A0D_0002)).unwrap();
    assert_eq!(out[0].to, a2);
}

#[test]
fn mac_session_expiry_removes_device() {
    let mut dir = two_peers();
    dir.expire_mac_session(&s("t"), &s("aa"));
    let devices = &dir.networks.entries[0].1.devices;
    assert_eq!(devices.len(), 1);
    assert_eq!(devices[0].0, "bb");
    assert_eq!(dir.networks.entries[0].1.epoch, 3);
    let out = dir.handle_packet(A, &ping(3, [0; 8])).unwrap();
    assert_eq!(out[0].bytes, vec![0x10, PROTOCOL_ERROR, ERROR_DISCONNECT, 255]);
    // the freed address goes to the next newcomer
    let fs = response_fields(&register(&mut dir, C, "cc", "C", 3000));
    assert_eq!(int_field(&fs, 3), 0x0A0D_0002);
}

#[test]
fn device_address_expiry_disconnects() {
    let mut dir = two_peers();
    dir.expire_device_address(&s("t"), 0x0A0D_0003);
    let out = dir.handle_packet(B, &ping(2, [0; 8])).unwrap();
    assert_eq!(out.len(), 1);
    assert_eq!(out[0].bytes, vec![0x10, PROTOCOL_ERROR, ERROR_DISCONNECT, 255]);
}

#[test]
fn unknown_sender_is_disconnected() {
    let dir = two_peers();
    let out = dir.handle_packet(C, &turn(1, 0x0A0D_0002)).unwrap();
    assert_eq!(out.len(), 1);
    assert_eq!(out[0].to, C);
    assert_eq!(out[0].bytes, vec![0x10, PROTOCOL_ERROR, ERROR_DISCONNECT, 255]);
}

#[test]
fn registration_request_is_not_dispatched() {
    let dir = two_peers();
    let raw = encode(PROTOCOL_SERVICE, SERVICE_REGISTRATION_REQUEST, 64, &[]);
    assert!(dir.handle_packet(C, &raw).unwrap().is_empty());
}

#[test]
fn other_protocols_are_ignored() {
    let dir = two_peers();
    for p in [PROTOCOL_SERVICE, PROTOCOL_ERROR, 77] {
        let raw = encode(p, 9, 64, &[1, 2, 3]);
        assert!(dir.handle_packet(A, &raw).unwrap().is_empty());
    }
}

#[test]
fn decode_errors() {
    let dir = two_peers();
    assert_eq!(dir.handle_packet(A, &[0x10, 1, 2]).err(), Some(DecodeError::Truncated));
    assert_eq!(dir.handle_packet(A, &[0x20, 1, 2, 3]).err(), Some(DecodeError::UnknownVersion));
}

#[test]
fn frame_round_trip() {
    let payload = vec![0, 1, 2, 250, 255];
    let raw = encode(4, 0, 17, &payload);
    assert_eq!(raw[..4], [0x10, 4, 0, 17]);
    let f = decode(&raw).unwrap();
    assert_eq!((f.protocol, f.transport, f.ttl), (4, 0, 17));
    assert_eq!(f.payload, payload);
    let empty = decode(&encode(1, 2, 3, &[])).unwrap();
    assert!(empty.payload.is_empty());
}

#[test]
fn peer_record_encoding() {
    let p = PeerInfo { virtual_ip: 0x0A0D_0002, name: s("A"), device_status: 1 };
    assert_eq!(
        encode_peer(&p).unwrap(),
        vec![0x08, 0x82, 0x80, 0xb4, 0x50, 0x12, 0x01, 0x41, 0x18, 0x01]
    );
    let online = PeerInfo { virtual_ip: 0x0A0D_0002, name: s(""), device_status: 0 };
    assert_eq!(encode_peer(&online).unwrap(), vec![0x08, 0x82, 0x80, 0xb4, 0x50]);
    let list = encode_device_list(300, &vec![p]).unwrap();
    assert_eq!(list[..3], [0x08, 0xac, 0x02]);
    assert_eq!(list[3..5], [0x12, 10]);
}

#[test]
fn status_codes() {
    let on: u8 = PeerDeviceStatus::Online.into();
    let off: u8 = PeerDeviceStatus::Offline.into();
    assert_eq!((on, off), (0, 1));
    assert_eq!(PeerDeviceStatus::from(0), PeerDeviceStatus::Online);
    assert_eq!(PeerDeviceStatus::from(1), PeerDeviceStatus::Offline);
    assert_eq!(PeerDeviceStatus::from(7), PeerDeviceStatus::Offline);
}

#[test]
fn network_register_picks_lowest_free_address() {
    let mut net = VirtualNetwork::new();
    let a = net.register(&s("aa"), &s("A"), 1).unwrap();
    let b = net.register(&s("bb"), &s("B"), 2).unwrap();
    net.remove_mac(&s("aa"));
    let c = net.register(&s("cc"), &s("C"), 3).unwrap();
    assert_eq!((a.ip, b.ip, c.ip), (0x0A0D_0002, 0x0A0D_0003, 0x0A0D_0002));
    assert_eq!(c.epoch, 3);
    assert_eq!(c.peers.len(), 1);
    assert_eq!(c.peers[0].virtual_ip, 0x0A0D_0003);
}

#[test]
fn registration_with_clock_stamps_id() {
    let mut dir = Directory::new();
    let raw = encode(PROTOCOL_SERVICE, SERVICE_REGISTRATION_REQUEST, 64, &request_bytes("t", "aa", "A"));
    let out = dir.handle(A, &raw).unwrap();
    let fs = response_fields(&out);
    assert_eq!(int_field(&fs, 3), 0x0A0D_0002);
    assert!(dir.networks.entries[0].1.devices[0].1.id > 1_600_000_000_000);
}

#[test]
fn registration_request_datagram() {
    let mut dir = Directory::new();
    let raw = encode(PROTOCOL_SERVICE, SERVICE_REGISTRATION_REQUEST, 64, &request_bytes("t", "aa", "A"));
    let fs = response_fields(&dir.handle_at(A, &raw, 42).unwrap());
    assert_eq!(int_field(&fs, 3), 0x0A0D_0002);
    assert_eq!(dir.networks.entries[0].1.devices[0].1.id, 42);
    assert_eq!(dir.networks.entries[0].1.devices[0].1.name, "A");
    let raw_b = encode(PROTOCOL_SERVICE, SERVICE_REGISTRATION_REQUEST, 64, &request_bytes("t", "bb", "B"));
    let fs = response_fields(&dir.handle_at(B, &raw_b, 43).unwrap());
    assert_eq!(peers(&fs, 7), vec![(0x0A0D_0002, s("A"), 0)]);
}

#[test]
fn request_decoding() {
    let q = decode_registration_request(&request_bytes("tok", "aa:bb", "node")).unwrap();
    assert_eq!((q.token.as_str(), q.mac_address.as_str(), q.name.as_str()), ("tok", "aa:bb", "node"));
    // unknown fields of every wire type are skipped, and the last occurrence wins
    let mut b = vec![0x20, 0x96, 0x01, 0x29, 1, 2, 3, 4, 5, 6, 7, 8, 0x35, 1, 2, 3, 4, 0x2a, 1, 0x7a];
    b.extend(request_bytes("x", "m", "n"));
    b.extend(vec![0x0a, 2, b'y', b'z']);
    let q = decode_registration_request(&b).unwrap();
    assert_eq!((q.token.as_str(), q.mac_address.as_str(), q.name.as_str()), ("yz", "m", "n"));
    // a ten-byte varint of an unknown field is skipped too
    let mut long = vec![0x20, 0xff, 0xff, 0xff, 0xff, 0xff, 0xff, 0xff, 0xff, 0xff, 0x01];
    long.extend(request_bytes("t", "m", "n"));
    let q = decode_registration_request(&long).unwrap();
    assert_eq!(q.token, "t");
    let empty = decode_registration_request(&[]).unwrap();
    assert_eq!(empty.token, "");
}

#[test]
fn request_decoding_errors() {
    assert_eq!(decode_registration_request(&[0x0a, 5, b'a']).err(), Some(RequestError::Malformed));
    assert_eq!(decode_registration_request(&[0x0a]).err(), Some(RequestError::Malformed));
    assert_eq!(decode_registration_request(&[0x02, 0]).err(), Some(RequestError::Malformed));
    assert_eq!(decode_registration_request(&[0x0e]).err(), Some(RequestError::Malformed));
    // protobuf skips a group that the input ends inside
    assert!(decode_registration_request(&[0x0b]).is_ok());
    assert_eq!(decode_registration_request(&[0x0a, 1, 0xff]).err(), Some(RequestError::InvalidUtf8));
    let mut dir = Directory::new();
    let raw = encode(PROTOCOL_SERVICE, SERVICE_REGISTRATION_REQUEST, 64, &[0x0a, 1, 0xff]);
    assert_eq!(dir.handle_at(A, &raw, 1).err(), Some(HandleError::Request(RequestError::InvalidUtf8)));
    assert_eq!(dir.handle_at(A, &[0x10], 1).err(), Some(HandleError::Decode(DecodeError::Truncated)));
    assert!(dir.networks.entries.is_empty());
}

#[test]
fn stale_session_expiry_after_move_keeps_device_online() {
    let mut dir = two_peers();
    // A comes back from a new address while its MAC session is live: same id, same address
    let a2 = ep(0xC633_6499, 50000);
    let fs = response_fields(&register(&mut dir, a2, "aa", "A", 9000));
    assert_eq!(int_field(&fs, 3), 0x0A0D_0002);
    assert_eq!(dir.networks.entries[0].1.devices[0].1.id, 1000);
    let epoch = dir.networks.entries[0].1.epoch;
    // the session at the old address expires late
    dir.expire_session(A);
    let dev = &dir.networks.entries[0].1.devices[0].1;
    assert_eq!(dev.status, PeerDeviceStatus::Online);
    assert_eq!(dir.networks.entries[0].1.epoch, epoch);
    let out = dir.handle_packet(a2, &ping(epoch, [0; 8])).unwrap();
    assert_eq!(out.len(), 1);
    assert_eq!(out[0].bytes[1], PROTOCOL_CONTROL);
    let fwd = dir.handle_packet(B, &turn(0x0A0D_0003, 0x0A0D_0002)).unwrap();
    assert_eq!(fwd.len(), 1);
    assert_eq!(fwd[0].to, a2);
    // the old address itself has no session any more
    let old = dir.handle_packet(A, &ping(epoch, [0; 8])).unwrap();
    assert_eq!(old[0].bytes, vec![0x10, PROTOCOL_ERROR, ERROR_DISCONNECT, 255]);
}
