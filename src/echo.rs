use vstd::prelude::*;

verus! {

/// Verdicts of an XDP program, as the kernel numbers them.
pub const XDP_ABORTED: u32 = 0;
pub const XDP_PASS: u32 = 2;
pub const XDP_TX: u32 = 3;

/// The UDP port that the echo answers on.
pub const ECHO_PORT: u16 = 9191;

pub const ETH_HDR_LEN: usize = 14;
pub const IP_HDR_LEN: usize = 20;
pub const UDP_HDR_LEN: usize = 8;
pub const ETH_P_IP: u16 = 0x0800;
pub const IPPROTO_UDP: u8 = 17;

/// The big-endian 16-bit value at `at`.
pub open spec fn be16(f: Seq<u8>, at: int) -> nat {
    f[at] as nat * 256 + f[at + 1] as nat
}

/// The frame with its IPv4 source and destination addresses exchanged,
/// and its UDP source and destination ports exchanged.
pub open spec fn swap_endpoints(f: Seq<u8>) -> Seq<u8> {
    Seq::new(
        f.len(),
        |i: int|
            if 26 <= i < 30 {
                f[i + 4]
            } else if 30 <= i < 34 {
                f[i - 4]
            } else if 34 <= i < 36 {
                f[i + 2]
            } else if 36 <= i < 38 {
                f[i - 2]
            } else {
                f[i]
            },
    )
}

/// The verdict on an Ethernet frame and the frame it leaves behind.
/// A frame too short for the header being read is aborted; one that is not
/// IPv4, not UDP or not for the echo port is passed on untouched; a UDP
/// datagram for the echo port is sent back out with its endpoints swapped.
pub open spec fn echo_step(f: Seq<u8>) -> (Seq<u8>, u32) {
    if f.len() < 14 {
        (f, XDP_ABORTED)
    } else if be16(f, 12) != ETH_P_IP as nat {
        (f, XDP_PASS)
    } else if f.len() < 34 {
        (f, XDP_ABORTED)
    } else if f[23] != IPPROTO_UDP {
        (f, XDP_PASS)
    } else if f.len() < 42 {
        (f, XDP_ABORTED)
    } else if be16(f, 36) != ECHO_PORT as nat {
        (f, XDP_PASS)
    } else {
        (swap_endpoints(f), XDP_TX)
    }
}

fn read_be16(f: &Vec<u8>, at: usize) -> (r: u16)
    requires
        at < f@.len() - 1,
    ensures
        r as nat == be16(f@, at as int),
{
    let n = f.len();
    assert(at + 1 < n);
    let hi = f[at] as u16;
    let lo = f[at + 1] as u16;
    hi * 256 + lo
}

fn swap_bytes(f: &mut Vec<u8>, a: usize, b: usize)
    requires
        a < old(f)@.len(),
        b < old(f)@.len(),
    ensures
        final(f)@ == old(f)@.update(a as int, old(f)@[b as int]).update(b as int, old(f)@[a as int]),
{
    let x = f[a];
    let y = f[b];
    f.set(a, y);
    f.set(b, x);
}

/// Echoes UDP datagrams for the echo port straight back to their sender by
/// swapping addresses and ports in place, below the network stack.
pub fn xdp_udp_server(frame: &mut Vec<u8>) -> (verdict: u32)
    ensures
        (final(frame)@, verdict) == echo_step(old(frame)@),
{
    let n = frame.len();
    if n < ETH_HDR_LEN {
        return XDP_ABORTED;
    }
    if read_be16(frame, 12) != ETH_P_IP {
        return XDP_PASS;
    }
    if n < ETH_HDR_LEN + IP_HDR_LEN {
        return XDP_ABORTED;
    }
    if frame[ETH_HDR_LEN + 9] != IPPROTO_UDP {
        return XDP_PASS;
    }
    if n < ETH_HDR_LEN + IP_HDR_LEN + UDP_HDR_LEN {
        return XDP_ABORTED;
    }
    if read_be16(frame, 36) != ECHO_PORT {
        return XDP_PASS;
    }
    let ghost f0 = frame@;
    swap_bytes(frame, 26, 30);
    swap_bytes(frame, 27, 31);
    swap_bytes(frame, 28, 32);
    swap_bytes(frame, 29, 33);
    swap_bytes(frame, 34, 36);
    swap_bytes(frame, 35, 37);
    assert(frame@ =~= swap_endpoints(f0));
    XDP_TX
}

} // verus!
