//! Requests: the header structures a caller fills in, and their encoding into
//! the bytes that go on the wire.
use vstd::prelude::*;

use crate::wire::{
    be_bytes,
    bits_of,
    bits_value,
    le_bytes,
    le_value,
    lemma_be_bytes_value,
    lemma_bits_of_value,
    lemma_bits_value_bound,
    lemma_bits_value_concat,
    lemma_bits_value_single,
    lemma_le_bytes_value,
    lemma_pow2_monotonic,
    lemma_pow_values,
    lemma_reverse_reverse,
    to_bits,
};

verus! {

/// The message-type selector of a request to find devices.
pub const GET_SERVICE: u16 = 2;

/// The message-type selector of a reply that names a device's service and port.
pub const STATE_SERVICE: u16 = 3;

/// The message-type selector of a request for a device's power level.
pub const GET_POWER: u16 = 20;

/// The message-type selector of a request that sets a device's power level.
pub const SET_POWER: u16 = 21;

/// The message-type selector of a request for a device's colour state.
pub const GET_STATE: u16 = 101;

/// The message-type selector of a request that sets a device's colour.
pub const SET_STATE: u16 = 102;

/// The message-type selector of a reply that carries a device's colour state.
pub const STATE: u16 = 107;

/// The length of the header that starts every message.
pub const HEADER_LEN: usize = 36;

/// The raw payload bytes of a request, in the order the caller built them.
#[derive(Debug)]
pub struct Payload(pub Vec<u8>);

impl Payload {
    /// An empty payload.
    pub fn new() -> (r: Payload)
        ensures
            r.0@ == Seq::<u8>::empty(),
    {
        Payload(Vec::new())
    }
}

/// The first segment of the header: message size and addressing mode.
#[derive(Debug)]
pub struct Frame {
    /// Total message length; the encoder writes the real length in its place.
    pub size: u16,
    /// Two bits.
    pub origin: u8,
    /// True to address every device (discovery, with an all-zero target).
    pub tagged: bool,
    /// Always true on the wire.
    pub addressable: bool,
    /// Twelve bits; 1024 on the wire.
    pub protocol: u16,
    /// A value the caller picks to match replies to requests.
    pub source: u32,
}

impl Frame {
    pub fn new(origin: u8, tagged: bool, addressable: bool, protocol: u16, source: u32) -> (r: Frame)
        ensures
            r.size == 0,
            r.origin == origin,
            r.tagged == tagged,
            r.addressable == addressable,
            r.protocol == protocol,
            r.source == source,
    {
        Frame { size: 0, origin, tagged, addressable, protocol, source }
    }

    /// The bit fields fit their widths.
    pub open spec fn wf(self) -> bool {
        self.origin < 4 && self.protocol < 4096
    }
}

/// The second segment of the header: target device and acknowledgement flags.
#[derive(Debug)]
pub struct FrameAddress {
    /// A device's hardware address, left-justified and padded with zero bytes;
    /// all zero for every device.
    pub target: [u8; 8],
    pub reserved: [u8; 6],
    /// Six bits.
    pub reserved_2: u8,
    pub ack_required: bool,
    pub res_required: bool,
    pub sequence: u8,
}

impl FrameAddress {
    pub fn new(
        target: [u8; 8],
        reserved: [u8; 6],
        reserved_2: u8,
        ack_required: bool,
        res_required: bool,
        sequence: u8,
    ) -> (r: FrameAddress)
        ensures
            r.target == target,
            r.reserved == reserved,
            r.reserved_2 == reserved_2,
            r.ack_required == ack_required,
            r.res_required == res_required,
            r.sequence == sequence,
    {
        FrameAddress { target, reserved, reserved_2, ack_required, res_required, sequence }
    }

    /// The bit field fits its width.
    pub open spec fn wf(self) -> bool {
        self.reserved_2 < 64
    }
}

/// The third segment of the header: the message type that selects the payload.
#[derive(Debug)]
pub struct ProtocolHeader {
    pub reserved: u64,
    pub message_type: u16,
    pub reserved_2: u16,
}

impl ProtocolHeader {
    pub fn new(reserved: u64, message_type: u16, reserved_2: u16) -> (r: ProtocolHeader)
        ensures
            r.reserved == reserved,
            r.message_type == message_type,
            r.reserved_2 == reserved_2,
    {
        ProtocolHeader { reserved, message_type, reserved_2 }
    }
}

/// The three header segments.
#[derive(Debug)]
pub struct Header {
    pub frame: Frame,
    pub frame_address: FrameAddress,
    pub protocol_header: ProtocolHeader,
}

impl Header {
    pub fn new(frame: Frame, frame_address: FrameAddress, protocol_header: ProtocolHeader) -> (r:
        Header)
        ensures
            r == (Header { frame, frame_address, protocol_header }),
    {
        Header { frame, frame_address, protocol_header }
    }
}

/// A request before encoding.
#[derive(Debug)]
pub struct Request {
    pub header: Header,
    pub payload: Payload,
}

impl Request {
    pub fn new(header: Header, payload: Payload) -> (r: Request)
        ensures
            r == (Request { header, payload }),
    {
        Request { header, payload }
    }

    /// The bit fields fit their widths, and the payload is long enough for
    /// its message type: 13 bytes for set-state, 3 for set-power.
    pub open spec fn wf(self) -> bool {
        &&& self.header.frame.wf()
        &&& self.header.frame_address.wf()
        &&& payload_fits(self.header.protocol_header.message_type, self.payload.0@.len())
    }
}

/// Whether a payload of `len` bytes holds every field of its message type.
pub open spec fn payload_fits(message_type: u16, len: nat) -> bool {
    (message_type == SET_STATE ==> len >= 13) && (message_type == SET_POWER ==> len >= 3)
}

/// A flag as a bit.
pub open spec fn bit_value(b: bool) -> nat {
    if b {
        1
    } else {
        0
    }
}

/// The 16-bit word that packs origin (two most significant bits), tagged,
/// addressable and protocol (twelve least significant bits).
pub open spec fn frame_flags(f: Frame) -> nat {
    (f.origin * 16384 + bit_value(f.tagged) * 8192 + bit_value(f.addressable) * 4096
        + f.protocol) as nat
}

/// The byte that packs reserved_2 (six most significant bits), ack_required
/// and res_required.
pub open spec fn address_flags(a: FrameAddress) -> nat {
    (a.reserved_2 * 4 + bit_value(a.ack_required) * 2 + bit_value(a.res_required)) as nat
}

/// The header after its size field, as it goes on the wire.
pub open spec fn header_wire(h: Header) -> Seq<u8> {
    le_bytes(frame_flags(h.frame), 2) + le_bytes(h.frame.source as nat, 4)
        + h.frame_address.target@.reverse() + h.frame_address.reserved@.reverse() + seq![
        address_flags(h.frame_address) as u8,
        h.frame_address.sequence,
    ] + le_bytes(h.protocol_header.reserved as nat, 8) + le_bytes(
        h.protocol_header.message_type as nat,
        2,
    ) + le_bytes(h.protocol_header.reserved_2 as nat, 2)
}

/// The payload as it goes on the wire: for set-state a reserved byte, then
/// hue, saturation, brightness and kelvin (two bytes each) and duration (four
/// bytes); for set-power a reserved byte and the level (two bytes). Each
/// multi-byte field is given most significant byte first and sent reversed.
/// Other message types send no payload.
pub open spec fn payload_wire(message_type: u16, p: Seq<u8>) -> Seq<u8> {
    if message_type == SET_STATE {
        p.subrange(0, 1) + p.subrange(1, 3).reverse() + p.subrange(3, 5).reverse() + p.subrange(
            5,
            7,
        ).reverse() + p.subrange(7, 9).reverse() + p.subrange(9, 13).reverse()
    } else if message_type == SET_POWER {
        p.subrange(0, 1) + p.subrange(1, 3).reverse()
    } else {
        Seq::empty()
    }
}

/// The complete encoding of a request: the total length (two bytes,
/// little-endian), then the header and the payload.
pub open spec fn encode(req: Request) -> Seq<u8> {
    let rest = header_wire(req.header) + payload_wire(
        req.header.protocol_header.message_type,
        req.payload.0@,
    );
    le_bytes(rest.len() + 2, 2) + rest
}


/// The bytes of an encoded request.
pub struct RequestBin(pub Vec<u8>);

impl RequestBin {
    /// The two bytes of `x`, most significant first.
    pub fn u16_to_u8_array(x: u16) -> (r: [u8; 2])
        ensures
            r@ == be_bytes(x as nat, 2),
    {
        let b1: u8 = (x / 256) as u8;
        let b2: u8 = (x % 256) as u8;
        proof {
            reveal_with_fuel(be_bytes, 3);
        }
        let r = [b1, b2];
        assert(r@ =~= be_bytes(x as nat, 2));
        r
    }

    /// The four bytes of `x`, most significant first.
    pub fn u32_to_u8_array(x: u32) -> (r: [u8; 4])
        ensures
            r@ == be_bytes(x as nat, 4),
    {
        let b4: u8 = (x % 256) as u8;
        let x1: u32 = x / 256;
        let b3: u8 = (x1 % 256) as u8;
        let x2: u32 = x1 / 256;
        let b2: u8 = (x2 % 256) as u8;
        let x3: u32 = x2 / 256;
        let b1: u8 = (x3 % 256) as u8;
        proof {
            reveal_with_fuel(be_bytes, 5);
        }
        let r = [b1, b2, b3, b4];
        assert(r@ =~= be_bytes(x as nat, 4));
        r
    }

    /// The eight bytes of `x`, most significant first.
    pub fn u64_to_u8_array(x: u64) -> (r: [u8; 8])
        ensures
            r@ == be_bytes(x as nat, 8),
    {
        let b8: u8 = (x % 256) as u8;
        let x1: u64 = x / 256;
        let b7: u8 = (x1 % 256) as u8;
        let x2: u64 = x1 / 256;
        let b6: u8 = (x2 % 256) as u8;
        let x3: u64 = x2 / 256;
        let b5: u8 = (x3 % 256) as u8;
        let x4: u64 = x3 / 256;
        let b4: u8 = (x4 % 256) as u8;
        let x5: u64 = x4 / 256;
        let b3: u8 = (x5 % 256) as u8;
        let x6: u64 = x5 / 256;
        let b2: u8 = (x6 % 256) as u8;
        let x7: u64 = x6 / 256;
        let b1: u8 = (x7 % 256) as u8;
        proof {
            reveal_with_fuel(be_bytes, 9);
        }
        let r = [b1, b2, b3, b4, b5, b6, b7, b8];
        assert(r@ =~= be_bytes(x as nat, 8));
        r
    }
}

impl RequestBin {
    /// The value of up to eight bits, first bit most significant.
    pub fn bits_to_byte(bits: &[bool]) -> (r: u8)
        requires
            bits@.len() <= 8,
        ensures
            r == bits_value(bits@),
    {
        let mut acc: u8 = 0;
        let mut i: usize = 0;
        while i < bits.len()
            invariant
                i <= bits@.len() <= 8,
                acc == bits_value(bits@.subrange(0, i as int)),
            decreases bits@.len() - i,
        {
            proof {
                lemma_bits_value_bound(bits@.subrange(0, i as int));
                lemma_pow2_monotonic((i + 1) as nat, 8);
                lemma_pow_values();
                assert(bits@.subrange(0, i + 1).drop_last() =~= bits@.subrange(0, i as int));
            }
            acc = acc * 2 + if bits[i] { 1 } else { 0 };
            i = i + 1;
        }
        assert(bits@.subrange(0, i as int) =~= bits@);
        acc
    }

    /// Appends one byte.
    pub fn extend_with_u8(&mut self, field: u8)
        ensures
            final(self).0@ == old(self).0@.push(field),
    {
        self.0.push(field);
    }

    /// Appends `field` in reverse order.
    fn extend_reversed(&mut self, field: &[u8])
        ensures
            final(self).0@ == old(self).0@ + field@.reverse(),
    {
        let ghost start = self.0@;
        let mut i: usize = field.len();
        while i > 0
            invariant
                i <= field@.len(),
                self.0@ == start + field@.subrange(i as int, field@.len() as int).reverse(),
            decreases i,
        {
            i = i - 1;
            self.0.push(field[i]);
            assert(self.0@ =~= start + field@.subrange(i as int, field@.len() as int).reverse());
        }
        assert(field@.subrange(0, field@.len() as int) =~= field@);
    }

    /// Appends eight bytes in reverse order.
    pub fn extend_with_u8_array_8(&mut self, field: [u8; 8])
        ensures
            final(self).0@ == old(self).0@ + field@.reverse(),
    {
        self.extend_reversed(field.as_slice());
    }

    /// Appends six bytes in reverse order.
    pub fn extend_with_u8_array_6(&mut self, field: [u8; 6])
        ensures
            final(self).0@ == old(self).0@ + field@.reverse(),
    {
        self.extend_reversed(field.as_slice());
    }

    /// Appends four bytes in reverse order.
    pub fn extend_with_u8_array_4(&mut self, field: [u8; 4])
        ensures
            final(self).0@ == old(self).0@ + field@.reverse(),
    {
        self.extend_reversed(field.as_slice());
    }

    /// Appends two bytes in reverse order.
    pub fn extend_with_u8_array_2(&mut self, field: [u8; 2])
        ensures
            final(self).0@ == old(self).0@ + field@.reverse(),
    {
        self.extend_reversed(field.as_slice());
    }

    /// Appends `field` little-endian.
    pub fn extend_with_u16(&mut self, field: u16)
        ensures
            final(self).0@ == old(self).0@ + le_bytes(field as nat, 2),
    {
        let p = RequestBin::u16_to_u8_array(field);
        self.extend_reversed(p.as_slice());
    }

    /// Appends `field` little-endian.
    pub fn extend_with_u32(&mut self, field: u32)
        ensures
            final(self).0@ == old(self).0@ + le_bytes(field as nat, 4),
    {
        let p = RequestBin::u32_to_u8_array(field);
        self.extend_reversed(p.as_slice());
    }

    /// Appends `field` little-endian.
    pub fn extend_with_u64(&mut self, field: u64)
        ensures
            final(self).0@ == old(self).0@ + le_bytes(field as nat, 8),
    {
        let p = RequestBin::u64_to_u8_array(field);
        self.extend_reversed(p.as_slice());
    }
}

/// The bits of `v` split at `mid`.
fn split_bits(v: &Vec<bool>, mid: usize) -> (r: (Vec<bool>, Vec<bool>))
    requires
        mid <= v@.len(),
    ensures
        r.0@ == v@.subrange(0, mid as int),
        r.1@ == v@.subrange(mid as int, v@.len() as int),
{
    let mut a: Vec<bool> = Vec::new();
    let mut b: Vec<bool> = Vec::new();
    let mut i: usize = 0;
    while i < v.len()
        invariant
            mid <= v@.len(),
            i <= v@.len(),
            i <= mid ==> a@ == v@.subrange(0, i as int) && b@.len() == 0,
            i > mid ==> a@ == v@.subrange(0, mid as int) && b@ == v@.subrange(mid as int, i as int),
        decreases v@.len() - i,
    {
        if i < mid {
            a.push(v[i]);
        } else {
            b.push(v[i]);
        }
        i = i + 1;
        assert(i <= mid ==> a@ =~= v@.subrange(0, i as int));
        assert(i > mid ==> b@ =~= v@.subrange(mid as int, i as int));
    }
    if v.len() == mid {
        assert(b@ =~= v@.subrange(mid as int, v@.len() as int));
    }
    (a, b)
}

/// The two bytes of the frame's packed flags word, least significant first.
fn frame_flag_bytes(f: &Frame) -> (r: (u8, u8))
    requires
        f.wf(),
    ensures
        seq![r.0, r.1] == le_bytes(frame_flags(*f), 2),
{
    let mut bits = to_bits(f.origin as u64, 2);
    bits.push(f.tagged);
    bits.push(f.addressable);
    let mut protocol = to_bits(f.protocol as u64, 12);
    let ghost origin_bits = bits_of(f.origin as nat, 2);
    let ghost protocol_bits = protocol@;
    proof {
        lemma_pow_values();
        lemma_bits_of_value(f.origin as nat, 2);
        lemma_bits_of_value(f.protocol as nat, 12);
    }
    bits.append(&mut protocol);
    let (hi, lo) = split_bits(&bits, 8);
    let high = RequestBin::bits_to_byte(hi.as_slice());
    let low = RequestBin::bits_to_byte(lo.as_slice());
    proof {
        lemma_pow_values();
        lemma_bits_of_value(f.origin as nat, 2);
        lemma_bits_of_value(f.protocol as nat, 12);
        let ot = origin_bits.push(f.tagged);
        let ota = ot.push(f.addressable);
        assert(ot =~= origin_bits + seq![f.tagged]);
        assert(ota =~= ot + seq![f.addressable]);
        assert(bits@ =~= ota + protocol_bits);
        lemma_bits_value_single(f.tagged);
        lemma_bits_value_single(f.addressable);
        lemma_bits_value_concat(origin_bits, seq![f.tagged]);
        lemma_bits_value_concat(ot, seq![f.addressable]);
        lemma_bits_value_concat(ota, protocol_bits);
        assert(bits_value(bits@) == frame_flags(*f));
        assert(bits@ =~= hi@ + lo@);
        lemma_bits_value_concat(hi@, lo@);
        lemma_bits_value_bound(lo@);
        lemma_bits_value_bound(hi@);
        let w = frame_flags(*f);
        assert(w / 256 == high && w % 256 == low);
        reveal_with_fuel(be_bytes, 3);
        lemma_be_bytes_value(w, 2);
        assert(seq![low, high] =~= le_bytes(w, 2));
    }
    (low, high)
}

/// The packed byte of the frame address's flags.
fn address_flag_byte(a: &FrameAddress) -> (r: u8)
    requires
        a.wf(),
    ensures
        r == address_flags(*a),
{
    let mut bits = to_bits(a.reserved_2 as u64, 6);
    let ghost reserved_bits = bits@;
    bits.push(a.ack_required);
    bits.push(a.res_required);
    proof {
        lemma_pow_values();
        lemma_bits_of_value(a.reserved_2 as nat, 6);
        let rk = reserved_bits.push(a.ack_required);
        assert(rk =~= reserved_bits + seq![a.ack_required]);
        assert(bits@ =~= rk + seq![a.res_required]);
        lemma_bits_value_single(a.ack_required);
        lemma_bits_value_single(a.res_required);
        lemma_bits_value_concat(reserved_bits, seq![a.ack_required]);
        lemma_bits_value_concat(rk, seq![a.res_required]);
    }
    RequestBin::bits_to_byte(bits.as_slice())
}

/// The size field of every encoded request, read little-endian, is the
/// length of the whole encoding.
pub proof fn lemma_size_field(req: Request)
    requires
        req.wf(),
    ensures
        le_value(encode(req).subrange(0, 2)) == encode(req).len(),
        encode(req).len() == 36 + payload_wire(
            req.header.protocol_header.message_type,
            req.payload.0@,
        ).len(),
{
    let h = req.header;
    lemma_pow_values();
    lemma_le_bytes_value(frame_flags(h.frame), 2);
    lemma_le_bytes_value(h.frame.source as nat, 4);
    lemma_le_bytes_value(h.protocol_header.reserved as nat, 8);
    lemma_le_bytes_value(h.protocol_header.message_type as nat, 2);
    lemma_le_bytes_value(h.protocol_header.reserved_2 as nat, 2);
    lemma_reverse_reverse(h.frame_address.target@);
    lemma_reverse_reverse(h.frame_address.reserved@);
    let rest = header_wire(h) + payload_wire(h.protocol_header.message_type, req.payload.0@);
    assert(header_wire(h).len() == 34);
    assert(rest.len() <= 48);
    lemma_le_bytes_value(rest.len() + 2, 2);
    assert(encode(req).subrange(0, 2) =~= le_bytes(rest.len() + 2, 2));
}

impl RequestBin {
    /// Encodes a request: header, then the payload laid out for its message
    /// type, with the total length written into the first two bytes.
    pub fn from(msg: Request) -> (r: RequestBin)
        requires
            msg.wf(),
        ensures
            r.0@ == encode(msg),
            le_value(r.0@.subrange(0, 2)) == r.0@.len(),
    {
        let mut msg_bin = RequestBin(Vec::new());
        let h = &msg.header;
        let p = &msg.payload.0;
        msg_bin.extend_with_u16(h.frame.size);
        let (flags_low, flags_high) = frame_flag_bytes(&h.frame);
        msg_bin.extend_with_u8(flags_low);
        msg_bin.extend_with_u8(flags_high);
        msg_bin.extend_with_u32(h.frame.source);
        msg_bin.extend_with_u8_array_8(h.frame_address.target);
        msg_bin.extend_with_u8_array_6(h.frame_address.reserved);
        msg_bin.extend_with_u8(address_flag_byte(&h.frame_address));
        msg_bin.extend_with_u8(h.frame_address.sequence);
        msg_bin.extend_with_u64(h.protocol_header.reserved);
        msg_bin.extend_with_u16(h.protocol_header.message_type);
        msg_bin.extend_with_u16(h.protocol_header.reserved_2);
        let ghost header_part = msg_bin.0@;
        let message_type = h.protocol_header.message_type;
        if message_type == SET_STATE {
            msg_bin.extend_with_u8(p[0]);
            msg_bin.extend_with_u8_array_2([p[1], p[2]]);
            msg_bin.extend_with_u8_array_2([p[3], p[4]]);
            msg_bin.extend_with_u8_array_2([p[5], p[6]]);
            msg_bin.extend_with_u8_array_2([p[7], p[8]]);
            msg_bin.extend_with_u8_array_4([p[9], p[10], p[11], p[12]]);
        }
        if message_type == SET_POWER {
            msg_bin.extend_with_u8(p[0]);
            msg_bin.extend_with_u8_array_2([p[1], p[2]]);
        }
        let ghost body = msg_bin.0@;
        proof {
            lemma_pow_values();
            lemma_le_bytes_value(h.frame.size as nat, 2);
            lemma_le_bytes_value(h.frame.source as nat, 4);
            lemma_le_bytes_value(h.protocol_header.reserved as nat, 8);
            lemma_le_bytes_value(h.protocol_header.message_type as nat, 2);
            lemma_le_bytes_value(h.protocol_header.reserved_2 as nat, 2);
            let hw = header_wire(msg.header);
            let pw = payload_wire(message_type, p@);
            assert(header_part =~= le_bytes(h.frame.size as nat, 2) + hw);
            assert(body =~= le_bytes(h.frame.size as nat, 2) + hw + pw);
        }
        let n = msg_bin.0.len();
        let size = RequestBin::u16_to_u8_array(n as u16);
        msg_bin.0.set(0, size[1]);
        msg_bin.0.set(1, size[0]);
        proof {
            let rest = header_wire(msg.header) + payload_wire(message_type, p@);
            lemma_le_bytes_value(n as nat, 2);
            reveal_with_fuel(be_bytes, 3);
            assert(msg_bin.0@ =~= le_bytes(rest.len() + 2, 2) + rest);
            assert(msg_bin.0@.subrange(0, 2) =~= le_bytes(n as nat, 2));
        }
        msg_bin
    }
}

} // verus!
