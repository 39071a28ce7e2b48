use vstd::prelude::*;

verus! {

/// IP header plus UDP header.
pub const ASSUMED_IP_UDP_HEADERS: u32 = 28;

/// 0xffff minus the IP and UDP headers.
pub const UDP_PAYLOAD_MAX: u32 = 65507;

/// The UDP payload budget for a link: the discovered MTU minus the IP and
/// UDP headers, with the classic Ethernet MTU of 1500 as fallback when no
/// MTU was discovered or the discovered one is nonsensically small. The
/// caller provides the MTU it read from the host, if any.
pub fn udp_payload_default(mtu: Option<u32>) -> (r: u32)
    ensures
        match mtu {
            Some(m) => if m >= 28 {
                r == m - 28
            } else {
                r == 1500 - 28
            },
            None => r == 1500 - 28,
        },
{
    let m: u32 = match mtu {
        Some(m) => if m >= 28 {
            m
        } else {
            1500
        },
        None => 1500,
    };
    m - ASSUMED_IP_UDP_HEADERS
}

} // verus!
