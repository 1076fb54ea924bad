//! Addressing decisions for the transport: where discovery is sent.
use vstd::prelude::*;

verus! {

/// The UDP port devices listen on.
pub const PORT: u16 = 56700;

/// The broadcast address of a subnet given by its four octets: the last
/// octet becomes 255, the others are kept.
pub fn ensure_ip_is_broadcast(octets: [u8; 4]) -> (r: [u8; 4])
    ensures
        r@ == octets@.update(3, 255u8),
{
    let r = if octets[3] == 255 {
        octets
    } else {
        [octets[0], octets[1], octets[2], 255]
    };
    assert(r@ =~= octets@.update(3, 255u8));
    r
}

} // verus!
