use vstd::prelude::*;

verus! {

/// The request id that a four-byte big-endian payload carries.
pub open spec fn be_value(b: Seq<u8>) -> nat
    recommends
        b.len() == 4,
{
    b[0] as nat * 16777216 + b[1] as nat * 65536 + b[2] as nat * 256 + b[3] as nat
}

/// Reads the request id out of a reply payload.
pub fn decode_id(payload: [u8; 4]) -> (id: u32)
    ensures
        id as nat == be_value(payload@),
{
    let b0 = payload[0] as u32;
    let b1 = payload[1] as u32;
    let b2 = payload[2] as u32;
    let b3 = payload[3] as u32;
    b0 * 16777216 + b1 * 65536 + b2 * 256 + b3
}

/// Writes a request id as the four-byte big-endian payload of a datagram.
pub fn encode_id(id: u32) -> (payload: [u8; 4])
    ensures
        be_value(payload@) == id as nat,
{
    let b0 = (id / 16777216) as u8;
    let b1 = (id / 65536 % 256) as u8;
    let b2 = (id / 256 % 256) as u8;
    let b3 = (id % 256) as u8;
    [b0, b1, b2, b3]
}

} // verus!
