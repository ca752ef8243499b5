use vstd::prelude::*;

use crate::error::ParseError;

verus! {

/// Query/response indicator, one bit of the header.
#[derive(PartialEq, Eq, Structural, Debug, Clone, Copy)]
pub enum PacketType {
    Query,
    Response,
}

/// Kind of query, four bits of the header.
#[derive(PartialEq, Eq, Structural, Debug, Clone, Copy)]
pub enum OpCode {
    Query,
    InverseQuery,
    ServerStatus,
}

/// Status of a response, four bits of the header.
#[derive(PartialEq, Eq, Structural, Debug, Clone, Copy)]
pub enum ResponseCode {
    NoError,
    FormatError,
    ServFail,
    NxDomain,
}

/// The fixed 12-byte message header.
#[derive(PartialEq, Eq, Structural, Debug, Clone, Copy)]
pub struct DnsHeader {
    pub id: u16,
    pub qr: PacketType,
    pub opcode: OpCode,
    pub aa: bool,
    pub tc: bool,
    pub rd: bool,
    pub ra: bool,
    /// Reserved bits, echoed as they came; only the low three reach the wire.
    pub z: u8,
    pub rcode: ResponseCode,
    pub qdcount: u16,
    pub ancount: u16,
    pub nscount: u16,
    pub arcount: u16,
}

/// The number of bytes a header occupies on the wire.
pub const HEADER_LEN: usize = 12;

pub open spec fn packet_type_of(v: u8) -> Result<PacketType, ParseError> {
    if v == 0 {
        Ok(PacketType::Query)
    } else if v == 1 {
        Ok(PacketType::Response)
    } else {
        Err(ParseError::InvalidValue(v))
    }
}

pub open spec fn opcode_of(v: u8) -> Result<OpCode, ParseError> {
    if v == 0 {
        Ok(OpCode::Query)
    } else if v == 1 {
        Ok(OpCode::InverseQuery)
    } else if v == 2 {
        Ok(OpCode::ServerStatus)
    } else {
        Err(ParseError::InvalidValue(v))
    }
}

pub open spec fn response_code_of(v: u8) -> Result<ResponseCode, ParseError> {
    if v == 0 {
        Ok(ResponseCode::NoError)
    } else if v == 1 {
        Ok(ResponseCode::FormatError)
    } else if v == 2 {
        Ok(ResponseCode::ServFail)
    } else if v == 3 {
        Ok(ResponseCode::NxDomain)
    } else {
        Err(ParseError::InvalidValue(v))
    }
}

impl PacketType {
    pub open spec fn spec_code(self) -> u8 {
        match self {
            PacketType::Query => 0,
            PacketType::Response => 1,
        }
    }

    /// The one-bit wire code.
    #[verifier::when_used_as_spec(spec_code)]
    pub fn code(self) -> (c: u8)
        ensures
            c == self.spec_code(),
    {
        match self {
            PacketType::Query => 0,
            PacketType::Response => 1,
        }
    }

    /// Decodes a wire code; anything but 0 and 1 is rejected.
    pub fn try_from(byte: u8) -> (r: Result<PacketType, ParseError>)
        ensures
            r == packet_type_of(byte),
    {
        match byte {
            0 => Ok(PacketType::Query),
            1 => Ok(PacketType::Response),
            _ => Err(ParseError::InvalidValue(byte)),
        }
    }
}

impl OpCode {
    pub open spec fn spec_code(self) -> u8 {
        match self {
            OpCode::Query => 0,
            OpCode::InverseQuery => 1,
            OpCode::ServerStatus => 2,
        }
    }

    /// The wire code.
    #[verifier::when_used_as_spec(spec_code)]
    pub fn code(self) -> (c: u8)
        ensures
            c == self.spec_code(),
    {
        match self {
            OpCode::Query => 0,
            OpCode::InverseQuery => 1,
            OpCode::ServerStatus => 2,
        }
    }

    /// Decodes a wire code; anything above 2 is rejected.
    pub fn try_from(byte: u8) -> (r: Result<OpCode, ParseError>)
        ensures
            r == opcode_of(byte),
    {
        match byte {
            0 => Ok(OpCode::Query),
            1 => Ok(OpCode::InverseQuery),
            2 => Ok(OpCode::ServerStatus),
            _ => Err(ParseError::InvalidValue(byte)),
        }
    }
}

impl ResponseCode {
    pub open spec fn spec_code(self) -> u8 {
        match self {
            ResponseCode::NoError => 0,
            ResponseCode::FormatError => 1,
            ResponseCode::ServFail => 2,
            ResponseCode::NxDomain => 3,
        }
    }

    /// The wire code.
    #[verifier::when_used_as_spec(spec_code)]
    pub fn code(self) -> (c: u8)
        ensures
            c == self.spec_code(),
    {
        match self {
            ResponseCode::NoError => 0,
            ResponseCode::FormatError => 1,
            ResponseCode::ServFail => 2,
            ResponseCode::NxDomain => 3,
        }
    }

    /// Decodes a wire code; anything above 3 is rejected.
    pub fn try_from(byte: u8) -> (r: Result<ResponseCode, ParseError>)
        ensures
            r == response_code_of(byte),
    {
        match byte {
            0 => Ok(ResponseCode::NoError),
            1 => Ok(ResponseCode::FormatError),
            2 => Ok(ResponseCode::ServFail),
            3 => Ok(ResponseCode::NxDomain),
            _ => Err(ParseError::InvalidValue(byte)),
        }
    }
}

/// The other packet type.
pub open spec fn flipped(t: PacketType) -> PacketType {
    match t {
        PacketType::Query => PacketType::Response,
        PacketType::Response => PacketType::Query,
    }
}

/// A flag as one bit.
pub open spec fn bit(b: bool) -> u8 {
    if b {
        1
    } else {
        0
    }
}

/// A big-endian 16-bit value from its two bytes.
pub open spec fn be16(hi: u8, lo: u8) -> u16 {
    ((hi as u16) << 8) | (lo as u16)
}

/// The high byte of a 16-bit value.
pub open spec fn hi8(v: u16) -> u8 {
    (v >> 8) as u8
}

/// The low byte of a 16-bit value.
pub open spec fn lo8(v: u16) -> u8 {
    (v & 0xff) as u8
}

/// Third header byte: QR in bit 7, opcode in bits 6-3, AA, TC, RD in bits 2-0.
pub open spec fn flags_byte(h: DnsHeader) -> u8 {
    (h.qr.spec_code() << 7) | ((h.opcode.spec_code() & 0x0f) << 3) | (bit(h.aa) << 2) | (bit(h.tc)
        << 1) | bit(h.rd)
}

/// Fourth header byte: RA in bit 7, reserved bits 6-4, response code in bits 3-0.
pub open spec fn rcode_byte(h: DnsHeader) -> u8 {
    (bit(h.ra) << 7) | ((h.z & 0x07) << 4) | (h.rcode.spec_code() & 0x0f)
}

/// The twelve bytes of a header on the wire.
pub open spec fn header_wire(h: DnsHeader) -> Seq<u8> {
    seq![
        hi8(h.id),
        lo8(h.id),
        flags_byte(h),
        rcode_byte(h),
        hi8(h.qdcount),
        lo8(h.qdcount),
        hi8(h.ancount),
        lo8(h.ancount),
        hi8(h.nscount),
        lo8(h.nscount),
        hi8(h.arcount),
        lo8(h.arcount),
    ]
}

/// The header that the first twelve bytes of `b` encode, or why they encode none.
pub open spec fn parse_header(b: Seq<u8>) -> Result<DnsHeader, ParseError> {
    if b.len() < 12 {
        Err(ParseError::InvalidLength)
    } else {
        match packet_type_of(b[2] >> 7) {
            Err(e) => Err(e),
            Ok(qr) => match opcode_of((b[2] >> 3) & 0x0f) {
                Err(e) => Err(e),
                Ok(opcode) => match response_code_of(b[3] & 0x0f) {
                    Err(e) => Err(e),
                    Ok(rcode) => Ok(
                        DnsHeader {
                            id: be16(b[0], b[1]),
                            qr,
                            opcode,
                            aa: (b[2] >> 2) & 1 == 1,
                            tc: (b[2] >> 1) & 1 == 1,
                            rd: b[2] & 1 == 1,
                            ra: b[3] >> 7 == 1,
                            z: (b[3] >> 4) & 0x07,
                            rcode,
                            qdcount: be16(b[4], b[5]),
                            ancount: be16(b[6], b[7]),
                            nscount: be16(b[8], b[9]),
                            arcount: be16(b[10], b[11]),
                        },
                    ),
                },
            },
        }
    }
}

proof fn lemma_be16_bytes(a: u8, b: u8)
    ensures
        hi8(be16(a, b)) == a,
        lo8(be16(a, b)) == b,
{
    assert((((((a as u16) << 8) | (b as u16)) >> 8) as u8) == a) by (bit_vector);
    assert((((((a as u16) << 8) | (b as u16)) & 0xff) as u8) == b) by (bit_vector);
}

/// Splitting a 16-bit value into bytes and joining them again gives it back.
pub proof fn lemma_bytes_be16(v: u16)
    ensures
        be16(hi8(v), lo8(v)) == v,
{
    assert(((((v >> 8) as u8) as u16) << 8) | (((v & 0xff) as u8) as u16) == v) by (bit_vector);
}

proof fn lemma_bit_of(v: u8)
    ensures
        bit(v & 1 == 1) == v & 1,
{
    assert(v & 1 == 0 || v & 1 == 1) by (bit_vector);
}

proof fn lemma_byte_fields(f: u8)
    ensures
        ((f >> 7) << 7) | ((((f >> 3) & 0x0f) & 0x0f) << 3) | (((f >> 2) & 1) << 2) | (((f >> 1) & 1)
            << 1) | (f & 1) == f,
        (((f >> 7) & 1) << 7) | ((((f >> 4) & 0x07) & 0x07) << 4) | ((f & 0x0f) & 0x0f) == f,
        f >> 7 == (f >> 7) & 1,
{
    assert(((f >> 7) << 7) | ((((f >> 3) & 0x0f) & 0x0f) << 3) | (((f >> 2) & 1) << 2) | (((f >> 1)
        & 1) << 1) | (f & 1) == f) by (bit_vector);
    assert((((f >> 7) & 1) << 7) | ((((f >> 4) & 0x07) & 0x07) << 4) | ((f & 0x0f) & 0x0f) == f)
        by (bit_vector);
    assert(f >> 7 == (f >> 7) & 1) by (bit_vector);
}

/// Decoding a header and encoding it again gives back the twelve bytes it came
/// from, whenever the decode succeeds, that is whenever there are twelve bytes
/// and the opcode and response code are in range.
pub proof fn lemma_header_round_trip(b: Seq<u8>)
    requires
        b.len() >= 12,
        (b[2] >> 3) & 0x0f <= 2,
        b[3] & 0x0f <= 3,
    ensures
        parse_header(b) is Ok,
        header_wire(parse_header(b)->Ok_0) == b.subrange(0, 12),
{
    let f = b[2];
    let g = b[3];
    assert(f >> 7 <= 1) by (bit_vector);
    lemma_byte_fields(f);
    lemma_byte_fields(g);
    lemma_bit_of(f >> 2);
    lemma_bit_of(f >> 1);
    lemma_bit_of(f);
    lemma_bit_of(g >> 7);
    assert((f >> 2) & 1 == ((f >> 2) & 1) & 1) by (bit_vector);
    assert((f >> 1) & 1 == ((f >> 1) & 1) & 1) by (bit_vector);
    lemma_be16_bytes(b[0], b[1]);
    lemma_be16_bytes(b[4], b[5]);
    lemma_be16_bytes(b[6], b[7]);
    lemma_be16_bytes(b[8], b[9]);
    lemma_be16_bytes(b[10], b[11]);
    let h = parse_header(b)->Ok_0;
    assert(header_wire(h) =~= b.subrange(0, 12));
}

proof fn lemma_flag_fields(q: u8, o: u8, a: u8, t: u8, r: u8)
    requires
        q <= 1,
        o <= 15,
        a <= 1,
        t <= 1,
        r <= 1,
    ensures
        ({
            let f = (q << 7) | ((o & 0x0f) << 3) | (a << 2) | (t << 1) | r;
            &&& f >> 7 == q
            &&& (f >> 3) & 0x0f == o
            &&& (f >> 2) & 1 == a
            &&& (f >> 1) & 1 == t
            &&& f & 1 == r
        }),
{
    assert(q <= 1 && o <= 15 && a <= 1 && t <= 1 && r <= 1 ==> ({
        let f = (q << 7) | ((o & 0x0f) << 3) | (a << 2) | (t << 1) | r;
        &&& f >> 7 == q
        &&& (f >> 3) & 0x0f == o
        &&& (f >> 2) & 1 == a
        &&& (f >> 1) & 1 == t
        &&& f & 1 == r
    })) by (bit_vector);
}

proof fn lemma_rcode_fields(a: u8, z: u8, c: u8)
    requires
        a <= 1,
        z <= 7,
        c <= 15,
    ensures
        ({
            let g = (a << 7) | ((z & 0x07) << 4) | (c & 0x0f);
            &&& g >> 7 == a
            &&& (g >> 4) & 0x07 == z
            &&& g & 0x0f == c
        }),
{
    assert(a <= 1 && z <= 7 && c <= 15 ==> ({
        let g = (a << 7) | ((z & 0x07) << 4) | (c & 0x0f);
        &&& g >> 7 == a
        &&& (g >> 4) & 0x07 == z
        &&& g & 0x0f == c
    })) by (bit_vector);
}

/// Encoding a header and decoding the bytes gives the header back, whenever
/// its reserved field fits in its three bits.
pub proof fn lemma_header_decode_encoded(h: DnsHeader, b: Seq<u8>)
    requires
        h.z <= 7,
        b.len() >= 12,
        b.subrange(0, 12) == header_wire(h),
    ensures
        parse_header(b) == Ok::<DnsHeader, ParseError>(h),
{
    assert forall|i: int| 0 <= i < 12 implies b[i] == header_wire(h)[i] by {
        assert(b.subrange(0, 12)[i] == b[i]);
    }
    lemma_flag_fields(h.qr.spec_code(), h.opcode.spec_code(), bit(h.aa), bit(h.tc), bit(h.rd));
    lemma_rcode_fields(bit(h.ra), h.z, h.rcode.spec_code());
    lemma_bytes_be16(h.id);
    lemma_bytes_be16(h.qdcount);
    lemma_bytes_be16(h.ancount);
    lemma_bytes_be16(h.nscount);
    lemma_bytes_be16(h.arcount);
}

/// Flipping the packet type changes the wire form of a header in the top bit
/// of its third byte and nowhere else.
pub proof fn lemma_flip_qr_wire(h: DnsHeader)
    ensures
        header_wire(DnsHeader { qr: flipped(h.qr), ..h }) == header_wire(h).update(
            2,
            header_wire(h)[2] ^ 0x80,
        ),
{
    let o = h.opcode.spec_code();
    let a = bit(h.aa);
    let t = bit(h.tc);
    let r = bit(h.rd);
    assert(a <= 1 && t <= 1 && r <= 1 ==> ((1u8 << 7) | ((o & 0x0f) << 3) | (a << 2) | (t << 1)
        | r) == ((0u8 << 7) | ((o & 0x0f) << 3) | (a << 2) | (t << 1) | r) ^ 0x80) by (bit_vector);
    assert(a <= 1 && t <= 1 && r <= 1 ==> ((0u8 << 7) | ((o & 0x0f) << 3) | (a << 2) | (t << 1)
        | r) == ((1u8 << 7) | ((o & 0x0f) << 3) | (a << 2) | (t << 1) | r) ^ 0x80) by (bit_vector);
    assert(header_wire(DnsHeader { qr: flipped(h.qr), ..h }) =~= header_wire(h).update(
        2,
        header_wire(h)[2] ^ 0x80,
    ));
}

/// Appends the big-endian bytes of a 16-bit value.
pub fn push_be16(bytes: &mut Vec<u8>, v: u16)
    ensures
        final(bytes)@ == old(bytes)@ + seq![hi8(v), lo8(v)],
{
    bytes.push((v >> 8) as u8);
    bytes.push((v & 0xff) as u8);
}

fn flag_bit(b: bool) -> (r: u8)
    ensures
        r == bit(b),
{
    if b {
        1
    } else {
        0
    }
}

impl DnsHeader {
    /// Toggles query and response, leaving every other field as it was.
    pub fn flip_qr(&mut self)
        ensures
            *final(self) == (DnsHeader { qr: flipped(old(self).qr), ..*old(self) }),
    {
        self.qr =
        match self.qr {
            PacketType::Query => PacketType::Response,
            PacketType::Response => PacketType::Query,
        };
    }

    /// The twelve wire bytes of this header.
    pub fn to_bytes(&self) -> (r: Vec<u8>)
        ensures
            r@ == header_wire(*self),
    {
        let mut bytes: Vec<u8> = Vec::with_capacity(HEADER_LEN);
        push_be16(&mut bytes, self.id);
        let flags: u8 = (self.qr.code() << 7) | ((self.opcode.code() & 0x0f) << 3) | (flag_bit(
            self.aa,
        ) << 2) | (flag_bit(self.tc) << 1) | flag_bit(self.rd);
        bytes.push(flags);
        let rcode_flags: u8 = (flag_bit(self.ra) << 7) | ((self.z & 0x07) << 4) | (self.rcode.code()
            & 0x0f);
        bytes.push(rcode_flags);
        push_be16(&mut bytes, self.qdcount);
        push_be16(&mut bytes, self.ancount);
        push_be16(&mut bytes, self.nscount);
        push_be16(&mut bytes, self.arcount);
        proof {
            assert(bytes@ =~= header_wire(*self));
        }
        bytes
    }

    /// Decodes the header at the start of `bytes`.
    pub fn try_from(bytes: &[u8]) -> (r: Result<DnsHeader, ParseError>)
        ensures
            r == parse_header(bytes@),
    {
        if bytes.len() < HEADER_LEN {
            return Err(ParseError::InvalidLength);
        }
        let f: u8 = bytes[2];
        let g: u8 = bytes[3];
        let qr = match PacketType::try_from(f >> 7) {
            Ok(v) => v,
            Err(e) => return Err(e),
        };
        let opcode = match OpCode::try_from((f >> 3) & 0x0f) {
            Ok(v) => v,
            Err(e) => return Err(e),
        };
        let rcode = match ResponseCode::try_from(g & 0x0f) {
            Ok(v) => v,
            Err(e) => return Err(e),
        };
        Ok(
            DnsHeader {
                id: ((bytes[0] as u16) << 8) | (bytes[1] as u16),
                qr,
                opcode,
                aa: (f >> 2) & 1 == 1,
                tc: (f >> 1) & 1 == 1,
                rd: f & 1 == 1,
                ra: g >> 7 == 1,
                z: (g >> 4) & 0x07,
                rcode,
                qdcount: ((bytes[4] as u16) << 8) | (bytes[5] as u16),
                ancount: ((bytes[6] as u16) << 8) | (bytes[7] as u16),
                nscount: ((bytes[8] as u16) << 8) | (bytes[9] as u16),
                arcount: ((bytes[10] as u16) << 8) | (bytes[11] as u16),
            },
        )
    }
}

} // verus!
