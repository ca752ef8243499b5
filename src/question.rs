use vstd::prelude::*;
use vstd::string::StringSliceAdditionalSpecFns;

use crate::common::{
    append_bytes, decode_name, lemma_name_wire_len, name_wire, record_class_of, record_type_of,
};
use crate::common::{DnsClass, DnsType, Name};
use crate::error::ParseError;
use crate::header::{be16, hi8, lo8, push_be16};

verus! {

/// The type asked for in a question.
pub type QuestionType = DnsType;

/// The class asked for in a question.
pub type QuestionClass = DnsClass;

/// The name a question asks about.
pub struct QuestionName {
    name: Name,
}

/// One entry of the question section: a name, a type and a class.
pub struct DnsQuestion {
    pub qname: QuestionName,
    pub qtype: QuestionType,
    pub qclass: QuestionClass,
}

impl View for QuestionName {
    type V = Seq<u8>;

    closed spec fn view(&self) -> Seq<u8> {
        self.name@
    }
}

/// The question at `pos`: its dotted name, type and class, with the position
/// after it.
pub open spec fn decode_question(b: Seq<u8>, pos: int) -> Result<
    (Seq<u8>, DnsType, DnsClass, int),
    ParseError,
> {
    match decode_name(b, pos) {
        Err(e) => Err(e),
        Ok((text, end)) => if end + 4 > b.len() {
            Err(ParseError::InvalidLength)
        } else {
            match record_type_of(be16(b[end], b[end + 1])) {
                Err(e) => Err(e),
                Ok(t) => match record_class_of(be16(b[end + 2], b[end + 3])) {
                    Err(e) => Err(e),
                    Ok(c) => Ok((text, t, c, end + 4)),
                },
            }
        },
    }
}

/// The type and class codes as they follow a name on the wire.
pub open spec fn type_class_wire(t: DnsType, c: DnsClass) -> Seq<u8> {
    seq![hi8(t.spec_code()), lo8(t.spec_code()), hi8(c.spec_code()), lo8(c.spec_code())]
}

/// A question on the wire: its name, then its type and class codes.
pub open spec fn question_wire(name: Seq<u8>, t: DnsType, c: DnsClass) -> Seq<u8> {
    name_wire(name) + type_class_wire(t, c)
}

fn read_u16(bytes: &[u8], at: usize) -> (r: u16)
    requires
        at + 2 <= bytes@.len(),
    ensures
        r == be16(bytes@[at as int], bytes@[at + 1]),
{
    ((bytes[at] as u16) << 8) | (bytes[at + 1] as u16)
}

impl QuestionName {
    /// A question name from its dotted text.
    pub fn from(value: &str) -> (r: QuestionName)
        ensures
            r@ == value.spec_bytes(),
    {
        QuestionName { name: Name::from(value) }
    }

    /// The bytes of the dotted text.
    pub fn as_bytes(&self) -> (r: &[u8])
        ensures
            r@ == self@,
    {
        self.name.as_bytes()
    }

    /// The number of bytes the name takes on the wire.
    pub fn len(&self) -> (r: usize)
        requires
            self@.len() + 2 <= usize::MAX,
        ensures
            r == name_wire(self@).len(),
    {
        self.name.len()
    }

    /// Decodes the name at the start of `bytes`.
    pub fn try_from(bytes: &[u8]) -> (r: Result<QuestionName, ParseError>)
        ensures
            match decode_name(bytes@, 0) {
                Err(e) => r == Err::<QuestionName, ParseError>(e),
                Ok((text, _)) => r is Ok && r->Ok_0@ == text,
            },
    {
        match Name::try_from(bytes) {
            Ok(name) => Ok(QuestionName { name }),
            Err(e) => Err(e),
        }
    }

    /// The wire form of the name.
    pub fn to_bytes(&self) -> (r: Vec<u8>)
        ensures
            r@ == name_wire(self@),
    {
        self.name.to_bytes()
    }
}

impl DnsQuestion {
    /// The question as its dotted name, type and class.
    pub open spec fn model(&self) -> (Seq<u8>, DnsType, DnsClass) {
        (self.qname@, self.qtype, self.qclass)
    }

    /// The question as it goes on the wire.
    pub open spec fn wire(&self) -> Seq<u8> {
        question_wire(self.qname@, self.qtype, self.qclass)
    }

    /// Decodes the question at `start`, giving it with the position after it.
    pub fn decode(bytes: &[u8], start: usize) -> (r: Result<(DnsQuestion, usize), ParseError>)
        requires
            start <= bytes@.len(),
        ensures
            match decode_question(bytes@, start as int) {
                Err(e) => r == Err::<(DnsQuestion, usize), ParseError>(e),
                Ok((text, t, c, end)) => r is Ok && r->Ok_0.0.qname@ == text && r->Ok_0.0.qtype
                    == t && r->Ok_0.0.qclass == c && r->Ok_0.1 == end,
            },
    {
        let (name, end) = match Name::decode(bytes, start) {
            Ok(v) => v,
            Err(e) => return Err(e),
        };
        if end > bytes.len() || bytes.len() - end < 4 {
            return Err(ParseError::InvalidLength);
        }
        let qtype = match DnsType::try_from(read_u16(bytes, end)) {
            Ok(v) => v,
            Err(e) => return Err(e),
        };
        let qclass = match DnsClass::try_from(read_u16(bytes, end + 2)) {
            Ok(v) => v,
            Err(e) => return Err(e),
        };
        Ok((DnsQuestion { qname: QuestionName { name }, qtype, qclass }, end + 4))
    }

    /// Decodes the question at the start of `bytes`.
    pub fn try_from(bytes: &[u8]) -> (r: Result<DnsQuestion, ParseError>)
        ensures
            match decode_question(bytes@, 0) {
                Err(e) => r == Err::<DnsQuestion, ParseError>(e),
                Ok((text, t, c, _)) => r is Ok && r->Ok_0.qname@ == text && r->Ok_0.qtype == t
                    && r->Ok_0.qclass == c,
            },
    {
        match DnsQuestion::decode(bytes, 0) {
            Ok((q, _)) => Ok(q),
            Err(e) => Err(e),
        }
    }

    /// The number of bytes the question takes on the wire.
    pub fn len(&self) -> (r: usize)
        requires
            self.qname@.len() + 6 <= usize::MAX,
        ensures
            r == question_wire(self.qname@, self.qtype, self.qclass).len(),
    {
        proof {
            lemma_name_wire_len(self.qname@);
        }
        self.qname.len() + 4
    }

    /// The wire form: name, then type and class as big-endian 16-bit codes.
    pub fn to_bytes(&self) -> (r: Vec<u8>)
        ensures
            r@ == question_wire(self.qname@, self.qtype, self.qclass),
    {
        let mut bytes: Vec<u8> = Vec::new();
        let name = self.qname.to_bytes();
        append_bytes(&mut bytes, name.as_slice());
        push_be16(&mut bytes, self.qtype.code());
        push_be16(&mut bytes, self.qclass.code());
        proof {
            assert(bytes@ =~= question_wire(self.qname@, self.qtype, self.qclass));
        }
        bytes
    }
}

} // verus!
