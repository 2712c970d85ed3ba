use vstd::prelude::*;

verus! {

/// The answer to a packet upload.
#[derive(Debug, Clone, PartialEq, Eq)]
pub struct PacketResponse {
    pub status: String,
    pub message: String,
}

/// The answer once a packet was received: status `ok`, message
/// `Packet received`.
pub fn packet_received_response() -> (r: PacketResponse)
    ensures
        r.status@ == "ok"@,
        r.message@ == "Packet received"@,
{
    PacketResponse { status: String::from_str("ok"), message: String::from_str("Packet received") }
}

} // verus!
