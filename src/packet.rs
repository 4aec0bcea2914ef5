use vstd::prelude::*;

verus! {

/// Code of the only frame version understood, as it stands in the high nibble of byte 0.
pub const VERSION_V1: u8 = 1;

/// Time-to-live that the server writes into every frame it emits.
pub const SERVER_TTL: u8 = 255;

/// Length of the fixed frame header.
pub const HEADER_LEN: usize = 4;

pub const PROTOCOL_SERVICE: u8 = 1;
pub const PROTOCOL_ERROR: u8 = 2;
pub const PROTOCOL_CONTROL: u8 = 3;
pub const PROTOCOL_IPV4_TURN: u8 = 4;
pub const PROTOCOL_OTHER_TURN: u8 = 5;

pub const SERVICE_REGISTRATION_REQUEST: u8 = 1;
pub const SERVICE_REGISTRATION_RESPONSE: u8 = 2;
pub const SERVICE_UPDATE_DEVICE_LIST: u8 = 3;

pub const CONTROL_PING: u8 = 1;
pub const CONTROL_PONG: u8 = 2;

pub const ERROR_DISCONNECT: u8 = 1;
pub const ERROR_ADDRESS_EXHAUSTED: u8 = 2;

/// Length of the opaque nonce that a ping carries and a pong echoes.
pub const NONCE_LEN: usize = 8;

/// Length of a ping payload: the nonce, then the big-endian epoch.
pub const PING_LEN: usize = 12;

/// Length of the turn header: big-endian source, then big-endian destination.
pub const TURN_HEADER_LEN: usize = 8;

/// The top-level protocol of a frame.
#[derive(Copy, Clone, Debug, PartialEq, Eq, Structural)]
pub enum Protocol {
    Service,
    Error,
    Control,
    Ipv4Turn,
    OtherTurn,
    Unknown(u8),
}

pub open spec fn protocol_spec(b: u8) -> Protocol {
    if b == PROTOCOL_SERVICE {
        Protocol::Service
    } else if b == PROTOCOL_ERROR {
        Protocol::Error
    } else if b == PROTOCOL_CONTROL {
        Protocol::Control
    } else if b == PROTOCOL_IPV4_TURN {
        Protocol::Ipv4Turn
    } else if b == PROTOCOL_OTHER_TURN {
        Protocol::OtherTurn
    } else {
        Protocol::Unknown(b)
    }
}

/// Reads a protocol byte; a value outside the known ones is `Unknown`, never an error.
pub fn protocol_of(b: u8) -> (r: Protocol)
    ensures
        r == protocol_spec(b),
{
    if b == PROTOCOL_SERVICE {
        Protocol::Service
    } else if b == PROTOCOL_ERROR {
        Protocol::Error
    } else if b == PROTOCOL_CONTROL {
        Protocol::Control
    } else if b == PROTOCOL_IPV4_TURN {
        Protocol::Ipv4Turn
    } else if b == PROTOCOL_OTHER_TURN {
        Protocol::OtherTurn
    } else {
        Protocol::Unknown(b)
    }
}

/// Why a buffer could not be read as a frame or as one of its sub-packets.
#[derive(Copy, Clone, Debug, PartialEq, Eq, Structural)]
pub enum DecodeError {
    Truncated,
    UnknownVersion,
}

/// A decoded frame: its header fields and its payload.
pub struct Frame {
    pub protocol: u8,
    pub transport: u8,
    pub ttl: u8,
    pub payload: Vec<u8>,
}

/// The bytes of a frame with the given header fields and payload.
pub open spec fn frame_bytes(protocol: u8, transport: u8, ttl: u8, payload: Seq<u8>) -> Seq<u8> {
    seq![(VERSION_V1 * 16) as u8, protocol, transport, ttl] + payload
}

/// Whether a buffer is long enough for a header and carries version 1.
pub open spec fn is_frame(bytes: Seq<u8>) -> bool {
    bytes.len() >= HEADER_LEN && bytes[0] / 16 == VERSION_V1
}

/// Writes a frame: the version-1 header with the given fields, then the payload.
pub fn encode(protocol: u8, transport: u8, ttl: u8, payload: &[u8]) -> (r: Vec<u8>)
    ensures
        r@ == frame_bytes(protocol, transport, ttl, payload@),
{
    let mut r: Vec<u8> = Vec::new();
    r.push(VERSION_V1 * 16);
    r.push(protocol);
    r.push(transport);
    r.push(ttl);
    let mut i: usize = 0;
    while i < payload.len()
        invariant
            i <= payload@.len(),
            r@ == seq![(VERSION_V1 * 16) as u8, protocol, transport, ttl] + payload@.subrange(0, i as int),
        decreases payload@.len() - i,
    {
        r.push(payload[i]);
        i = i + 1;
        proof {
            assert(payload@.subrange(0, i as int) == payload@.subrange(0, i - 1 as int).push(payload@[i - 1]));
        }
    }
    proof {
        assert(payload@.subrange(0, i as int) == payload@);
    }
    r
}

/// A copy of `b`.
pub fn copy_bytes(b: &[u8]) -> (r: Vec<u8>)
    ensures
        r@ == b@,
{
    let mut r: Vec<u8> = Vec::new();
    let mut i: usize = 0;
    while i < b.len()
        invariant
            i <= b@.len(),
            r@ == b@.subrange(0, i as int),
        decreases b@.len() - i,
    {
        r.push(b[i]);
        i = i + 1;
        proof {
            assert(b@.subrange(0, i as int) == b@.subrange(0, i - 1 as int).push(b@[i - 1]));
        }
    }
    proof {
        assert(b@.subrange(0, i as int) == b@);
    }
    r
}

/// Reads a frame. Fails on a buffer shorter than the header, or on a version other than 1.
pub fn decode(bytes: &[u8]) -> (r: Result<Frame, DecodeError>)
    ensures
        bytes@.len() < HEADER_LEN <==> r == Err::<Frame, DecodeError>(DecodeError::Truncated),
        (bytes@.len() >= HEADER_LEN && bytes@[0] / 16 != VERSION_V1) <==> r == Err::<Frame, DecodeError>(DecodeError::UnknownVersion),
        r is Ok <==> is_frame(bytes@),
        r matches Ok(f) ==> {
            &&& f.protocol == bytes@[1]
            &&& f.transport == bytes@[2]
            &&& f.ttl == bytes@[3]
            &&& f.payload@ == bytes@.subrange(HEADER_LEN as int, bytes@.len() as int)
        },
{
    if bytes.len() < HEADER_LEN {
        return Err(DecodeError::Truncated);
    }
    if bytes[0] / 16 != VERSION_V1 {
        return Err(DecodeError::UnknownVersion);
    }
    let mut payload: Vec<u8> = Vec::new();
    let mut i: usize = HEADER_LEN;
    while i < bytes.len()
        invariant
            HEADER_LEN <= i <= bytes@.len(),
            payload@ == bytes@.subrange(HEADER_LEN as int, i as int),
        decreases bytes@.len() - i,
    {
        payload.push(bytes[i]);
        i = i + 1;
        proof {
            assert(bytes@.subrange(HEADER_LEN as int, i as int) == bytes@.subrange(HEADER_LEN as int, i - 1 as int).push(bytes@[i - 1]));
        }
    }
    Ok(Frame { protocol: bytes[1], transport: bytes[2], ttl: bytes[3], payload })
}

/// Decoding an encoded frame gives back its header fields and payload bytes.
pub proof fn lemma_frame_round_trip(protocol: u8, transport: u8, ttl: u8, payload: Seq<u8>)
    ensures
        is_frame(frame_bytes(protocol, transport, ttl, payload)),
        frame_bytes(protocol, transport, ttl, payload)[1] == protocol,
        frame_bytes(protocol, transport, ttl, payload)[2] == transport,
        frame_bytes(protocol, transport, ttl, payload)[3] == ttl,
        frame_bytes(protocol, transport, ttl, payload).subrange(
            HEADER_LEN as int,
            frame_bytes(protocol, transport, ttl, payload).len() as int,
        ) == payload,
{
    let b = frame_bytes(protocol, transport, ttl, payload);
    assert(b.subrange(HEADER_LEN as int, b.len() as int) =~= payload);
}

/// A header-only frame of the error protocol with the given error code.
pub fn error_frame(code: u8) -> (r: Vec<u8>)
    ensures
        r@ == frame_bytes(PROTOCOL_ERROR, code, SERVER_TTL, seq![]),
{
    let empty: Vec<u8> = Vec::new();
    let r = encode(PROTOCOL_ERROR, code, SERVER_TTL, empty.as_slice());
    proof {
        assert(empty@ =~= Seq::<u8>::empty());
    }
    r
}

/// The integer that four bytes spell in big-endian order.
pub open spec fn be_u32(b: Seq<u8>) -> int {
    b[0] * 16777216 + b[1] * 65536 + b[2] * 256 + b[3]
}

/// Reads four bytes at `at` as a big-endian integer.
pub fn read_be_u32(b: &[u8], at: usize) -> (r: u32)
    requires
        at + 4 <= b@.len(),
    ensures
        r as int == be_u32(b@.subrange(at as int, at + 4)),
{
    let r = (b[at] as u32) * 16777216 + (b[at + 1] as u32) * 65536 + (b[at + 2] as u32) * 256
        + (b[at + 3] as u32);
    r
}

/// The nonce and epoch of a ping payload.
pub struct Ping {
    pub nonce: Vec<u8>,
    pub epoch: u32,
}

/// Reads a ping payload: eight nonce bytes, then a big-endian epoch.
pub fn parse_ping(payload: &[u8]) -> (r: Result<Ping, DecodeError>)
    ensures
        r is Ok <==> payload@.len() >= PING_LEN,
        r is Err ==> r == Err::<Ping, DecodeError>(DecodeError::Truncated),
        r matches Ok(p) ==> {
            &&& p.nonce@ == payload@.subrange(0, NONCE_LEN as int)
            &&& p.epoch as int == be_u32(payload@.subrange(NONCE_LEN as int, PING_LEN as int))
        },
{
    if payload.len() < PING_LEN {
        return Err(DecodeError::Truncated);
    }
    let mut nonce: Vec<u8> = Vec::new();
    let mut i: usize = 0;
    while i < NONCE_LEN
        invariant
            i <= NONCE_LEN,
            payload@.len() >= PING_LEN,
            nonce@ == payload@.subrange(0, i as int),
        decreases NONCE_LEN - i,
    {
        nonce.push(payload[i]);
        i = i + 1;
        proof {
            assert(payload@.subrange(0, i as int) == payload@.subrange(0, i - 1 as int).push(payload@[i - 1]));
        }
    }
    let epoch = read_be_u32(payload, NONCE_LEN);
    Ok(Ping { nonce, epoch })
}

/// The pong that answers a ping: the control protocol, echoing the nonce.
pub fn pong_frame(nonce: &[u8]) -> (r: Vec<u8>)
    ensures
        r@ == frame_bytes(PROTOCOL_CONTROL, CONTROL_PONG, SERVER_TTL, nonce@),
{
    encode(PROTOCOL_CONTROL, CONTROL_PONG, SERVER_TTL, nonce)
}

/// Reads the destination address of a turn payload.
pub fn turn_destination(payload: &[u8]) -> (r: Result<u32, DecodeError>)
    ensures
        r is Ok <==> payload@.len() >= TURN_HEADER_LEN,
        r is Err ==> r == Err::<u32, DecodeError>(DecodeError::Truncated),
        r matches Ok(d) ==> d as int == be_u32(payload@.subrange(4, 8)),
{
    if payload.len() < TURN_HEADER_LEN {
        return Err(DecodeError::Truncated);
    }
    Ok(read_be_u32(payload, 4))
}

} // verus!
