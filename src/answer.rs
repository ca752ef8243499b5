use vstd::prelude::*;

use crate::common::{append_bytes, lemma_name_wire_len, name_wire, DnsClass, DnsType, Name};
use crate::header::{hi8, lo8, push_be16};
use crate::question::type_class_wire;

verus! {

/// The data a resource record carries, one variant per record shape.
pub enum RData {
    /// An IPv4 address, in network order.
    A([u8; 4]),
}

/// One resource record of the answer section.
pub struct DnsAnswer {
    name: Name,
    qtype: DnsType,
    qclass: DnsClass,
    ttl: i32,
    rdlength: u16,
    rdata: RData,
}

impl RData {
    /// The raw bytes of the data.
    pub open spec fn spec_bytes(&self) -> Seq<u8> {
        match self {
            RData::A(ip) => ip@,
        }
    }

    /// The number of bytes of the data.
    pub fn len(&self) -> (r: u16)
        ensures
            r == self.spec_bytes().len(),
    {
        match self {
            RData::A(_) => 4,
        }
    }
}

/// A 32-bit signed TTL as four big-endian bytes of its bit pattern.
pub open spec fn ttl_wire(ttl: i32) -> Seq<u8> {
    let u = ttl as u32;
    seq![(u >> 24) as u8, ((u >> 16) & 0xff) as u8, ((u >> 8) & 0xff) as u8, (u & 0xff) as u8]
}

/// The length field of a record carrying `rdata`.
pub open spec fn rdlength_of(rdata: RData) -> u16 {
    rdata.spec_bytes().len() as u16
}

/// A resource record on the wire: name, type, class, TTL, data length, data.
pub open spec fn answer_wire(
    name: Seq<u8>,
    t: DnsType,
    c: DnsClass,
    ttl: i32,
    rdata: RData,
) -> Seq<u8> {
    name_wire(name) + type_class_wire(t, c) + ttl_wire(ttl) + seq![
        hi8(rdlength_of(rdata)),
        lo8(rdlength_of(rdata)),
    ] + rdata.spec_bytes()
}

/// The length field written for any record equals the number of data bytes
/// that follow it.
pub proof fn lemma_rdlength_matches(name: Seq<u8>, t: DnsType, c: DnsClass, ttl: i32, rdata: RData)
    ensures
        ({
            let w = answer_wire(name, t, c, ttl, rdata);
            let k = name_wire(name).len() + 8int;
            &&& w.subrange(k, k + 2) == seq![hi8(rdlength_of(rdata)), lo8(rdlength_of(rdata))]
            &&& rdlength_of(rdata) == w.len() - (k + 2)
            &&& w.subrange(k + 2, w.len() as int) == rdata.spec_bytes()
        }),
{
    let w = answer_wire(name, t, c, ttl, rdata);
    let k = name_wire(name).len() + 8int;
    assert(w.subrange(k, k + 2) =~= seq![hi8(rdlength_of(rdata)), lo8(rdlength_of(rdata))]);
    assert(w.subrange(k + 2, w.len() as int) =~= rdata.spec_bytes());
}

impl DnsAnswer {
    #[verifier::type_invariant]
    spec fn inv(&self) -> bool {
        self.rdlength == rdlength_of(self.rdata)
    }

    pub closed spec fn spec_name(&self) -> Seq<u8> {
        self.name@
    }

    pub closed spec fn spec_qtype(&self) -> DnsType {
        self.qtype
    }

    pub closed spec fn spec_qclass(&self) -> DnsClass {
        self.qclass
    }

    pub closed spec fn spec_ttl(&self) -> i32 {
        self.ttl
    }

    pub closed spec fn spec_rdata(&self) -> RData {
        self.rdata
    }

    /// The record as it goes on the wire.
    pub open spec fn wire(&self) -> Seq<u8> {
        answer_wire(
            self.spec_name(),
            self.spec_qtype(),
            self.spec_qclass(),
            self.spec_ttl(),
            self.spec_rdata(),
        )
    }

    /// A record whose data length is taken from `rdata`.
    pub fn new(name: Name, qtype: DnsType, qclass: DnsClass, ttl: i32, rdata: RData) -> (r:
        DnsAnswer)
        ensures
            r.spec_name() == name@,
            r.spec_qtype() == qtype,
            r.spec_qclass() == qclass,
            r.spec_ttl() == ttl,
            r.spec_rdata() == rdata,
    {
        let rdlength = rdata.len();
        DnsAnswer { name, qtype, qclass, ttl, rdlength, rdata }
    }

    /// The owner name.
    pub fn name(&self) -> (r: &Name)
        ensures
            r@ == self.spec_name(),
    {
        &self.name
    }

    /// The record type.
    pub fn qtype(&self) -> (r: DnsType)
        ensures
            r == self.spec_qtype(),
    {
        self.qtype
    }

    /// The record class.
    pub fn qclass(&self) -> (r: DnsClass)
        ensures
            r == self.spec_qclass(),
    {
        self.qclass
    }

    /// The time to live, in seconds.
    pub fn ttl(&self) -> (r: i32)
        ensures
            r == self.spec_ttl(),
    {
        self.ttl
    }

    /// The record's data.
    pub fn rdata(&self) -> (r: &RData)
        ensures
            *r == self.spec_rdata(),
    {
        &self.rdata
    }

    /// The data length field, which always matches the data.
    pub fn rdlength(&self) -> (r: u16)
        ensures
            r == rdlength_of(self.spec_rdata()),
    {
        proof {
            use_type_invariant(self);
        }
        self.rdlength
    }

    /// The number of bytes the record takes on the wire.
    pub fn len(&self) -> (r: usize)
        requires
            self.spec_name().len() + 16 <= usize::MAX,
        ensures
            r == self.wire().len(),
    {
        proof {
            use_type_invariant(self);
            lemma_name_wire_len(self.name@);
        }
        self.name.len() + 10 + self.rdlength as usize
    }

    /// The wire form: name, type, class, TTL, data length, then the data.
    pub fn to_bytes(&self) -> (r: Vec<u8>)
        ensures
            r@ == self.wire(),
    {
        proof {
            use_type_invariant(self);
        }
        let mut bytes: Vec<u8> = Vec::new();
        let name = self.name.to_bytes();
        append_bytes(&mut bytes, name.as_slice());
        push_be16(&mut bytes, self.qtype.code());
        push_be16(&mut bytes, self.qclass.code());
        let u: u32 = self.ttl as u32;
        bytes.push((u >> 24) as u8);
        bytes.push(((u >> 16) & 0xff) as u8);
        bytes.push(((u >> 8) & 0xff) as u8);
        bytes.push((u & 0xff) as u8);
        push_be16(&mut bytes, self.rdlength);
        match &self.rdata {
            RData::A(ip) => {
                append_bytes(&mut bytes, ip.as_slice());
            },
        }
        proof {
            assert(bytes@ =~= self.wire());
        }
        bytes
    }
}

} // verus!
