use vstd::prelude::*;

verus! {

/// Whether a peer is currently bound to a live session.
#[derive(Copy, Clone, Debug, PartialEq, Eq, Structural)]
pub enum PeerDeviceStatus {
    Online,
    Offline,
}

impl PeerDeviceStatus {
    /// The wire code of a status: 0 for online, 1 for offline.
    pub open spec fn code(self) -> u8 {
        match self {
            PeerDeviceStatus::Online => 0,
            PeerDeviceStatus::Offline => 1,
        }
    }

    /// The status a wire code stands for: 0 is online, any other value offline.
    pub open spec fn of_code(v: u8) -> PeerDeviceStatus {
        if v == 0 {
            PeerDeviceStatus::Online
        } else {
            PeerDeviceStatus::Offline
        }
    }
}

impl From<PeerDeviceStatus> for u8 {
    fn from(s: PeerDeviceStatus) -> (r: u8)
        ensures
            r == s.code(),
    {
        match s {
            PeerDeviceStatus::Online => 0,
            PeerDeviceStatus::Offline => 1,
        }
    }
}

impl vstd::std_specs::convert::FromSpecImpl<PeerDeviceStatus> for u8 {
    open spec fn obeys_from_spec() -> bool {
        true
    }

    open spec fn from_spec(s: PeerDeviceStatus) -> u8 {
        s.code()
    }
}

impl From<u8> for PeerDeviceStatus {
    fn from(v: u8) -> (r: PeerDeviceStatus)
        ensures
            r == PeerDeviceStatus::of_code(v),
    {
        match v {
            0 => PeerDeviceStatus::Online,
            _ => PeerDeviceStatus::Offline,
        }
    }
}

impl vstd::std_specs::convert::FromSpecImpl<u8> for PeerDeviceStatus {
    open spec fn obeys_from_spec() -> bool {
        true
    }

    open spec fn from_spec(v: u8) -> PeerDeviceStatus {
        PeerDeviceStatus::of_code(v)
    }
}

/// A status survives the trip through its wire code.
pub proof fn lemma_status_code_round_trip(s: PeerDeviceStatus)
    ensures
        PeerDeviceStatus::of_code(s.code()) == s,
{
}

} // verus!
