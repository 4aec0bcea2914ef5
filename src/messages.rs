use vstd::prelude::*;
use vstd::utf8::{decode_utf8, encode_utf8, valid_utf8};

use crate::network::PeerInfo;

verus! {

pub const PEER_VIRTUAL_IP: u32 = 1;
pub const PEER_NAME: u32 = 2;
pub const PEER_DEVICE_STATUS: u32 = 3;

pub const RESPONSE_PUBLIC_IP: u32 = 1;
pub const RESPONSE_PUBLIC_PORT: u32 = 2;
pub const RESPONSE_VIRTUAL_IP: u32 = 3;
pub const RESPONSE_VIRTUAL_NETMASK: u32 = 4;
pub const RESPONSE_VIRTUAL_GATEWAY: u32 = 5;
pub const RESPONSE_EPOCH: u32 = 6;
pub const RESPONSE_DEVICE_INFO_LIST: u32 = 7;

pub const LIST_EPOCH: u32 = 1;
pub const LIST_DEVICE_INFO_LIST: u32 = 2;

/// Wire type of a varint field.
pub const WIRE_VARINT: u32 = 0;

/// Wire type of a length-delimited field.
pub const WIRE_LEN: u32 = 2;

/// The reply to a registration.
pub struct RegistrationResponse {
    pub public_ip: u32,
    pub public_port: u32,
    pub virtual_ip: u32,
    pub virtual_netmask: u32,
    pub virtual_gateway: u32,
    pub epoch: u32,
    pub device_info_list: Vec<PeerInfo>,
}

/// Base-128 varint: seven bits per byte, low group first, high bit set on all but the last.
pub open spec fn varint(v: nat) -> Seq<u8>
    decreases v,
{
    if v < 128 {
        seq![v as u8]
    } else {
        seq![(v % 128 + 128) as u8] + varint(v / 128)
    }
}

/// A uint32 field as proto3 writes it: left out when zero.
pub open spec fn uint32_field(field: u32, v: u32) -> Seq<u8> {
    if v == 0 {
        seq![]
    } else {
        varint((field * 8 + WIRE_VARINT) as nat) + varint(v as nat)
    }
}

/// A length-delimited field: tag, length, bytes.
pub open spec fn len_field(field: u32, b: Seq<u8>) -> Seq<u8> {
    varint((field * 8 + WIRE_LEN) as nat) + varint(b.len()) + b
}

/// A string field as proto3 writes it: UTF-8, left out when empty.
pub open spec fn string_field(field: u32, s: Seq<char>) -> Seq<u8> {
    if encode_utf8(s).len() == 0 {
        seq![]
    } else {
        len_field(field, encode_utf8(s))
    }
}

/// The encoding of a peer's device record.
pub open spec fn peer_bytes(p: (u32, Seq<char>, u32)) -> Seq<u8> {
    uint32_field(PEER_VIRTUAL_IP, p.0) + string_field(PEER_NAME, p.1) + uint32_field(PEER_DEVICE_STATUS, p.2)
}

/// Whether every length inside a peer's record fits the 32-bit length prefix.
pub open spec fn peer_fits(p: (u32, Seq<char>, u32)) -> bool {
    encode_utf8(p.1).len() <= u32::MAX && peer_bytes(p).len() <= u32::MAX
}

/// A repeated message field holding each of `ps`, in order.
pub open spec fn peers_field(field: u32, ps: Seq<(u32, Seq<char>, u32)>) -> Seq<u8>
    decreases ps.len(),
{
    if ps.len() == 0 {
        seq![]
    } else {
        peers_field(field, ps.drop_last()) + len_field(field, peer_bytes(ps.last()))
    }
}

pub open spec fn peers_view(ps: Seq<PeerInfo>) -> Seq<(u32, Seq<char>, u32)> {
    ps.map_values(|p: PeerInfo| p@)
}

/// The encoding of a registration response.
pub open spec fn response_bytes(r: RegistrationResponse) -> Seq<u8> {
    uint32_field(RESPONSE_PUBLIC_IP, r.public_ip) + uint32_field(RESPONSE_PUBLIC_PORT, r.public_port)
        + uint32_field(RESPONSE_VIRTUAL_IP, r.virtual_ip) + uint32_field(RESPONSE_VIRTUAL_NETMASK, r.virtual_netmask)
        + uint32_field(RESPONSE_VIRTUAL_GATEWAY, r.virtual_gateway) + uint32_field(RESPONSE_EPOCH, r.epoch)
        + peers_field(RESPONSE_DEVICE_INFO_LIST, peers_view(r.device_info_list@))
}

/// The encoding of a device list.
pub open spec fn device_list_bytes(epoch: u32, ps: Seq<(u32, Seq<char>, u32)>) -> Seq<u8> {
    uint32_field(LIST_EPOCH, epoch) + peers_field(LIST_DEVICE_INFO_LIST, ps)
}

/// Relies on protobuf's `CodedOutputStream::write_uint32` and `flush` over a `Vec`: the
/// tag (field number times eight, varint wire type), then the value as a varint, appended.
#[verifier::external_body]
fn put_uint32(out: &mut Vec<u8>, field: u32, v: u32)
    requires
        1 <= field <= 0x1fff_ffff,
    ensures
        final(out)@ == old(out)@ + varint((field * 8 + WIRE_VARINT) as nat) + varint(v as nat),
{
    let mut os = protobuf::CodedOutputStream::vec(out);
    let _ = os.write_uint32(field, v);
    let _ = os.flush();
}

/// Relies on protobuf's `CodedOutputStream::write_bytes` and `flush` over a `Vec`: the
/// tag (field number times eight plus two), the length as a varint, then the bytes, appended.
#[verifier::external_body]
fn put_bytes(out: &mut Vec<u8>, field: u32, b: &[u8])
    requires
        1 <= field <= 0x1fff_ffff,
        b@.len() <= u32::MAX,
    ensures
        final(out)@ == old(out)@ + len_field(field, b@),
{
    let mut os = protobuf::CodedOutputStream::vec(out);
    let _ = os.write_bytes(field, b);
    let _ = os.flush();
}

/// Appends a uint32 field, left out when zero.
fn write_uint32_field(out: &mut Vec<u8>, field: u32, v: u32)
    requires
        1 <= field <= 0x1fff_ffff,
    ensures
        final(out)@ == old(out)@ + uint32_field(field, v),
{
    if v != 0 {
        put_uint32(out, field, v);
    } else {
        assert(old(out)@ + uint32_field(field, v) =~= old(out)@);
    }
}

/// Encodes a peer's device record; `None` where the name is too long for its length prefix.
pub fn encode_peer(p: &PeerInfo) -> (r: Option<Vec<u8>>)
    ensures
        r is Some <==> peer_fits(p@),
        r matches Some(b) ==> b@ == peer_bytes(p@),
{
    let name = p.name.as_str().as_bytes();
    if name.len() > u32::MAX as usize {
        return None;
    }
    let mut out: Vec<u8> = Vec::new();
    write_uint32_field(&mut out, PEER_VIRTUAL_IP, p.virtual_ip);
    if name.len() > 0 {
        put_bytes(&mut out, PEER_NAME, name);
    }
    write_uint32_field(&mut out, PEER_DEVICE_STATUS, p.device_status);
    proof {
        assert(name@ == encode_utf8(p.name@));
        assert(out@ =~= peer_bytes(p@));
    }
    if out.len() > u32::MAX as usize {
        return None;
    }
    Some(out)
}

/// Appends each of `ps` as an element of the repeated field `field`; `false`, with `out`
/// then unspecified, where a record does not fit.
fn write_peers(out: &mut Vec<u8>, field: u32, ps: &Vec<PeerInfo>) -> (ok: bool)
    requires
        1 <= field <= 0x1fff_ffff,
    ensures
        ok <==> forall|i: int| 0 <= i < ps@.len() ==> peer_fits(#[trigger] ps@[i]@),
        ok ==> final(out)@ == old(out)@ + peers_field(field, peers_view(ps@)),
{
    let mut i: usize = 0;
    while i < ps.len()
        invariant
            1 <= field <= 0x1fff_ffff,
            i <= ps@.len(),
            forall|j: int| 0 <= j < i ==> peer_fits(#[trigger] ps@[j]@),
            out@ == old(out)@ + peers_field(field, peers_view(ps@.subrange(0, i as int))),
        decreases ps@.len() - i,
    {
        match encode_peer(&ps[i]) {
            None => {
                return false;
            },
            Some(b) => {
                put_bytes(out, field, b.as_slice());
                proof {
                    let s = ps@.subrange(0, i + 1);
                    assert(s.drop_last() =~= ps@.subrange(0, i as int));
                    assert(peers_view(s).drop_last() =~= peers_view(ps@.subrange(0, i as int)));
                    assert(peers_view(s).last() == ps@[i as int]@);
                }
                i = i + 1;
            },
        }
    }
    proof {
        assert(ps@.subrange(0, i as int) =~= ps@);
    }
    true
}

/// Encodes a registration response; `None` where a peer's record does not fit.
pub fn encode_registration_response(resp: &RegistrationResponse) -> (r: Option<Vec<u8>>)
    ensures
        r is Some <==> forall|i: int| 0 <= i < resp.device_info_list@.len() ==> peer_fits(#[trigger] resp.device_info_list@[i]@),
        r matches Some(b) ==> b@ == response_bytes(*resp),
{
    let mut out: Vec<u8> = Vec::new();
    write_uint32_field(&mut out, RESPONSE_PUBLIC_IP, resp.public_ip);
    write_uint32_field(&mut out, RESPONSE_PUBLIC_PORT, resp.public_port);
    write_uint32_field(&mut out, RESPONSE_VIRTUAL_IP, resp.virtual_ip);
    write_uint32_field(&mut out, RESPONSE_VIRTUAL_NETMASK, resp.virtual_netmask);
    write_uint32_field(&mut out, RESPONSE_VIRTUAL_GATEWAY, resp.virtual_gateway);
    write_uint32_field(&mut out, RESPONSE_EPOCH, resp.epoch);
    if !write_peers(&mut out, RESPONSE_DEVICE_INFO_LIST, &resp.device_info_list) {
        return None;
    }
    proof {
        assert(out@ =~= response_bytes(*resp));
    }
    Some(out)
}

/// Encodes a device list; `None` where a peer's record does not fit.
pub fn encode_device_list(epoch: u32, ps: &Vec<PeerInfo>) -> (r: Option<Vec<u8>>)
    ensures
        r is Some <==> forall|i: int| 0 <= i < ps@.len() ==> peer_fits(#[trigger] ps@[i]@),
        r matches Some(b) ==> b@ == device_list_bytes(epoch, peers_view(ps@)),
{
    let mut out: Vec<u8> = Vec::new();
    write_uint32_field(&mut out, LIST_EPOCH, epoch);
    if !write_peers(&mut out, LIST_DEVICE_INFO_LIST, ps) {
        return None;
    }
    proof {
        assert(out@ =~= device_list_bytes(epoch, peers_view(ps@)));
    }
    Some(out)
}

/// Tags of the string fields of the registration request: field number times eight,
/// plus the length-delimited wire type.
pub const TAG_TOKEN: u32 = 10;
pub const TAG_MAC_ADDRESS: u32 = 18;
pub const TAG_NAME: u32 = 26;

/// A registration request.
pub struct RegistrationRequest {
    pub token: String,
    pub mac_address: String,
    pub name: String,
}

/// Why a registration request could not be read.
#[derive(Copy, Clone, Debug, PartialEq, Eq, Structural)]
pub enum RequestError {
    /// The bytes are not a well-formed message.
    Malformed,
    /// A string field is not UTF-8.
    InvalidUtf8,
}

/// The tag that protobuf's `CodedInputStream` reads at the start of `b`, and the number
/// of bytes it takes.
pub uninterp spec fn tag_at(b: Seq<u8>) -> Option<(u32, nat)>;

/// The number of bytes that protobuf's `CodedInputStream` skips at the start of `b` for
/// the value of a field with tag `tag`.
pub uninterp spec fn skip_at(b: Seq<u8>, tag: u32) -> Option<nat>;

/// The length-delimited bytes that protobuf's `CodedInputStream` reads at the start of
/// `b`, and the number of bytes they take with their length.
pub uninterp spec fn bytes_at(b: Seq<u8>) -> Option<(Seq<u8>, nat)>;

/// The last value of each string field of the request, read from `pos` on, where the
/// values before `pos` were `acc`; `None` where the bytes are not a well-formed message.
pub open spec fn request_fields(b: Seq<u8>, pos: int, acc: (Seq<u8>, Seq<u8>, Seq<u8>)) -> Option<(Seq<u8>, Seq<u8>, Seq<u8>)>
    decreases b.len() - pos,
{
    if pos < 0 || pos > b.len() {
        None
    } else if pos == b.len() {
        Some(acc)
    } else {
        match tag_at(b.subrange(pos, b.len() as int)) {
            None => None,
            Some((tag, n)) => {
                let p1 = pos + n;
                if n < 1 || p1 > b.len() {
                    None
                } else if tag == TAG_TOKEN || tag == TAG_MAC_ADDRESS || tag == TAG_NAME {
                    match bytes_at(b.subrange(p1, b.len() as int)) {
                        None => None,
                        Some((v, m)) => if p1 + m <= b.len() {
                            let acc2 = if tag == TAG_TOKEN {
                                (v, acc.1, acc.2)
                            } else if tag == TAG_MAC_ADDRESS {
                                (acc.0, v, acc.2)
                            } else {
                                (acc.0, acc.1, v)
                            };
                            request_fields(b, p1 + m, acc2)
                        } else {
                            None
                        },
                    }
                } else {
                    match skip_at(b.subrange(p1, b.len() as int), tag) {
                        None => None,
                        Some(m) => if p1 + m <= b.len() {
                            request_fields(b, p1 + m, acc)
                        } else {
                            None
                        },
                    }
                }
            },
        }
    }
}

/// Relies on protobuf's `CodedInputStream::read_raw_tag_or_eof` and `pos`: the tag at
/// `b[pos..]`, and the bytes it took, at least one and no more than are there.
#[verifier::external_body]
fn read_tag(b: &[u8], pos: usize) -> (r: Option<(u32, usize)>)
    requires
        pos < b@.len(),
    ensures
        r is None <==> tag_at(b@.subrange(pos as int, b@.len() as int)) is None,
        r matches Some((t, n)) ==> {
            &&& tag_at(b@.subrange(pos as int, b@.len() as int)) == Some((t, n as nat))
            &&& 1 <= n <= b@.len() - pos
        },
{
    let mut is = protobuf::CodedInputStream::from_bytes(&b[pos..]);
    match is.read_raw_tag_or_eof() {
        Ok(Some(t)) => Some((t, is.pos() as usize)),
        _ => None,
    }
}

/// Relies on protobuf's `rt::skip_field_for_tag` and `CodedInputStream::pos`: the bytes
/// that the value of a field with tag `tag` takes at `b[pos..]`, no more than are there.
#[verifier::external_body]
fn skip_value(b: &[u8], pos: usize, tag: u32) -> (r: Option<usize>)
    requires
        pos <= b@.len(),
    ensures
        r is None <==> skip_at(b@.subrange(pos as int, b@.len() as int), tag) is None,
        r matches Some(n) ==> {
            &&& skip_at(b@.subrange(pos as int, b@.len() as int), tag) == Some(n as nat)
            &&& n <= b@.len() - pos
        },
{
    let mut is = protobuf::CodedInputStream::from_bytes(&b[pos..]);
    match protobuf::rt::skip_field_for_tag(tag, &mut is) {
        Ok(()) => Some(is.pos() as usize),
        Err(_) => None,
    }
}

/// Relies on protobuf's `CodedInputStream::read_bytes` and `pos`: the length-delimited
/// bytes at `b[pos..]`, and the bytes they took with their length, no more than are there.
#[verifier::external_body]
fn read_len_bytes(b: &[u8], pos: usize) -> (r: Option<(Vec<u8>, usize)>)
    requires
        pos <= b@.len(),
    ensures
        r is None <==> bytes_at(b@.subrange(pos as int, b@.len() as int)) is None,
        r matches Some((v, n)) ==> {
            &&& bytes_at(b@.subrange(pos as int, b@.len() as int)) == Some((v@, n as nat))
            &&& n <= b@.len() - pos
        },
{
    let mut is = protobuf::CodedInputStream::from_bytes(&b[pos..]);
    match is.read_bytes() {
        Ok(v) => Some((v, is.pos() as usize)),
        Err(_) => None,
    }
}

/// Relies on `String::from_utf8`: the string that the bytes spell, where they are UTF-8.
#[verifier::external_body]
fn utf8_string(b: Vec<u8>) -> (r: Option<String>)
    ensures
        r is Some <==> valid_utf8(b@),
        r matches Some(s) ==> s@ == decode_utf8(b@),
{
    String::from_utf8(b).ok()
}

pub open spec fn empty_fields() -> (Seq<u8>, Seq<u8>, Seq<u8>) {
    (seq![], seq![], seq![])
}

/// Reads a registration request: its token, MAC and name, each the last occurrence of its
/// field and empty where absent; other fields are skipped.
pub fn decode_registration_request(b: &[u8]) -> (r: Result<RegistrationRequest, RequestError>)
    ensures
        request_fields(b@, 0, empty_fields()) is None <==> r == Err::<RegistrationRequest, RequestError>(RequestError::Malformed),
        request_fields(b@, 0, empty_fields()) matches Some(f) ==> {
            &&& (valid_utf8(f.0) && valid_utf8(f.1) && valid_utf8(f.2)) <==> r is Ok
            &&& !(valid_utf8(f.0) && valid_utf8(f.1) && valid_utf8(f.2)) ==> r == Err::<RegistrationRequest, RequestError>(RequestError::InvalidUtf8)
            &&& r matches Ok(q) ==> q.token@ == decode_utf8(f.0) && q.mac_address@ == decode_utf8(f.1) && q.name@ == decode_utf8(f.2)
        },
{
    let mut pos: usize = 0;
    let mut token: Vec<u8> = Vec::new();
    let mut mac: Vec<u8> = Vec::new();
    let mut name: Vec<u8> = Vec::new();
    while pos < b.len()
        invariant
            pos <= b@.len(),
            request_fields(b@, 0, empty_fields()) == request_fields(b@, pos as int, (token@, mac@, name@)),
        decreases b@.len() - pos,
    {
        let (tag, n) = match read_tag(b, pos) {
            None => {
                return Err(RequestError::Malformed);
            },
            Some(x) => x,
        };
        let p1 = pos + n;
        if tag == TAG_TOKEN || tag == TAG_MAC_ADDRESS || tag == TAG_NAME {
            let (v, m) = match read_len_bytes(b, p1) {
                None => {
                    return Err(RequestError::Malformed);
                },
                Some(x) => x,
            };
            if tag == TAG_TOKEN {
                token = v;
            } else if tag == TAG_MAC_ADDRESS {
                mac = v;
            } else {
                name = v;
            }
            pos = p1 + m;
        } else {
            let m = match skip_value(b, p1, tag) {
                None => {
                    return Err(RequestError::Malformed);
                },
                Some(m) => m,
            };
            pos = p1 + m;
        }
    }
    let token = utf8_string(token);
    let mac = utf8_string(mac);
    let name = utf8_string(name);
    match (token, mac, name) {
        (Some(token), Some(mac_address), Some(name)) => Ok(RegistrationRequest { token, mac_address, name }),
        _ => Err(RequestError::InvalidUtf8),
    }
}

} // verus!
