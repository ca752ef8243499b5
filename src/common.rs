use vstd::prelude::*;

use vstd::string::StringSliceAdditionalSpecFns;

use crate::error::ParseError;

verus! {

/// A domain name, held as the bytes of its dotted text form (`example.com`).
pub struct Name {
    text: Vec<u8>,
}

/// Resource record types.
#[derive(PartialEq, Eq, Structural, Debug, Clone, Copy)]
pub enum DnsType {
    /// a host address
    A,
    /// an authoritative name server
    Ns,
    /// a mail destination (obsolete)
    Md,
    /// a mail forwarder (obsolete)
    Mf,
    /// the canonical name for an alias
    Cname,
    /// marks the start of a zone of authority
    Soa,
    /// a mailbox domain name
    Mb,
    /// a mail group member
    Mg,
    /// a mail rename domain name
    Mr,
    /// a null record
    Null,
    /// a well known service description
    Wks,
    /// a domain name pointer
    Ptr,
    /// host information
    Hinfo,
    /// mailbox or mail list information
    Minfo,
    /// mail exchange
    Mx,
    /// text strings
    Txt,
}

/// Resource record classes.
#[derive(PartialEq, Eq, Structural, Debug, Clone, Copy)]
pub enum DnsClass {
    /// the Internet
    In,
    /// the CSNET class (obsolete)
    Cs,
    /// the CHAOS class
    Ch,
    /// Hesiod
    Hs,
}

/// The record type that a 16-bit code names; codes outside the set are
/// rejected with their low byte.
pub open spec fn record_type_of(v: u16) -> Result<DnsType, ParseError> {
    match v {
        1 => Ok(DnsType::A),
        2 => Ok(DnsType::Ns),
        3 => Ok(DnsType::Md),
        4 => Ok(DnsType::Mf),
        5 => Ok(DnsType::Cname),
        6 => Ok(DnsType::Soa),
        7 => Ok(DnsType::Mb),
        8 => Ok(DnsType::Mg),
        9 => Ok(DnsType::Mr),
        10 => Ok(DnsType::Null),
        11 => Ok(DnsType::Wks),
        12 => Ok(DnsType::Ptr),
        13 => Ok(DnsType::Hinfo),
        14 => Ok(DnsType::Minfo),
        15 => Ok(DnsType::Mx),
        16 => Ok(DnsType::Txt),
        _ => Err(ParseError::InvalidValue(v as u8)),
    }
}

impl DnsType {
    pub open spec fn spec_code(self) -> u16 {
        match self {
            DnsType::A => 1,
            DnsType::Ns => 2,
            DnsType::Md => 3,
            DnsType::Mf => 4,
            DnsType::Cname => 5,
            DnsType::Soa => 6,
            DnsType::Mb => 7,
            DnsType::Mg => 8,
            DnsType::Mr => 9,
            DnsType::Null => 10,
            DnsType::Wks => 11,
            DnsType::Ptr => 12,
            DnsType::Hinfo => 13,
            DnsType::Minfo => 14,
            DnsType::Mx => 15,
            DnsType::Txt => 16,
        }
    }

    /// The 16-bit wire code.
    #[verifier::when_used_as_spec(spec_code)]
    pub fn code(self) -> (c: u16)
        ensures
            c == self.spec_code(),
    {
        match self {
            DnsType::A => 1,
            DnsType::Ns => 2,
            DnsType::Md => 3,
            DnsType::Mf => 4,
            DnsType::Cname => 5,
            DnsType::Soa => 6,
            DnsType::Mb => 7,
            DnsType::Mg => 8,
            DnsType::Mr => 9,
            DnsType::Null => 10,
            DnsType::Wks => 11,
            DnsType::Ptr => 12,
            DnsType::Hinfo => 13,
            DnsType::Minfo => 14,
            DnsType::Mx => 15,
            DnsType::Txt => 16,
        }
    }

    /// Decodes a 16-bit wire code.
    pub fn try_from(value: u16) -> (r: Result<DnsType, ParseError>)
        ensures
            r == record_type_of(value),
    {
        match value {
            1 => Ok(DnsType::A),
            2 => Ok(DnsType::Ns),
            3 => Ok(DnsType::Md),
            4 => Ok(DnsType::Mf),
            5 => Ok(DnsType::Cname),
            6 => Ok(DnsType::Soa),
            7 => Ok(DnsType::Mb),
            8 => Ok(DnsType::Mg),
            9 => Ok(DnsType::Mr),
            10 => Ok(DnsType::Null),
            11 => Ok(DnsType::Wks),
            12 => Ok(DnsType::Ptr),
            13 => Ok(DnsType::Hinfo),
            14 => Ok(DnsType::Minfo),
            15 => Ok(DnsType::Mx),
            16 => Ok(DnsType::Txt),
            _ => Err(ParseError::InvalidValue(value as u8)),
        }
    }
}

/// The record class that a 16-bit code names; codes outside the set are
/// rejected with their low byte.
pub open spec fn record_class_of(v: u16) -> Result<DnsClass, ParseError> {
    match v {
        1 => Ok(DnsClass::In),
        2 => Ok(DnsClass::Cs),
        3 => Ok(DnsClass::Ch),
        4 => Ok(DnsClass::Hs),
        _ => Err(ParseError::InvalidValue(v as u8)),
    }
}

impl DnsClass {
    pub open spec fn spec_code(self) -> u16 {
        match self {
            DnsClass::In => 1,
            DnsClass::Cs => 2,
            DnsClass::Ch => 3,
            DnsClass::Hs => 4,
        }
    }

    /// The 16-bit wire code.
    #[verifier::when_used_as_spec(spec_code)]
    pub fn code(self) -> (c: u16)
        ensures
            c == self.spec_code(),
    {
        match self {
            DnsClass::In => 1,
            DnsClass::Cs => 2,
            DnsClass::Ch => 3,
            DnsClass::Hs => 4,
        }
    }

    /// Decodes a 16-bit wire code.
    pub fn try_from(value: u16) -> (r: Result<DnsClass, ParseError>)
        ensures
            r == record_class_of(value),
    {
        match value {
            1 => Ok(DnsClass::In),
            2 => Ok(DnsClass::Cs),
            3 => Ok(DnsClass::Ch),
            4 => Ok(DnsClass::Hs),
            _ => Err(ParseError::InvalidValue(value as u8)),
        }
    }
}

/// The byte that separates labels in the text form of a name.
pub const DOT: u8 = 0x2e;

/// Appends `src` to `out`.
pub fn append_bytes(out: &mut Vec<u8>, src: &[u8])
    ensures
        final(out)@ == old(out)@ + src@,
{
    let mut i: usize = 0;
    while i < src.len()
        invariant
            i <= src@.len(),
            out@ == old(out)@ + src@.subrange(0, i as int),
        decreases src@.len() - i,
    {
        out.push(src[i]);
        i = i + 1;
        proof {
            assert(src@.subrange(0, i as int) =~= src@.subrange(0, i - 1) + seq![src@[i - 1]]);
        }
    }
    proof {
        assert(src@.subrange(0, i as int) =~= src@);
    }
}

/// What `String::from_utf8_lossy` makes of a byte sequence, as UTF-8 bytes.
pub uninterp spec fn utf8_lossy(b: Seq<u8>) -> Seq<u8>;

pub open spec fn all_ascii(b: Seq<u8>) -> bool {
    forall|i: int| 0 <= i < b.len() ==> b[i] < 128
}

/// Relies on `String::from_utf8_lossy`: its text depends on the bytes alone,
/// and valid UTF-8 (ASCII among it) comes back unchanged.
#[verifier::external_body]
fn lossy_utf8(b: &[u8]) -> (r: Vec<u8>)
    ensures
        r@ == utf8_lossy(b@),
        all_ascii(b@) ==> r@ == b@,
{
    String::from_utf8_lossy(b).into_owned().into_bytes()
}

/// The labels of a dotted text: the pieces between dots, empty ones included.
pub open spec fn split_labels(s: Seq<u8>) -> Seq<Seq<u8>>
    decreases s.len(),
{
    if s.len() == 0 {
        seq![Seq::empty()]
    } else {
        let init = split_labels(s.drop_last());
        if s.last() == DOT {
            init.push(Seq::empty())
        } else {
            init.update(init.len() - 1, init.last().push(s.last()))
        }
    }
}

/// Labels joined by dots.
pub open spec fn join_labels(ls: Seq<Seq<u8>>) -> Seq<u8>
    decreases ls.len(),
{
    if ls.len() == 0 {
        Seq::empty()
    } else if ls.len() == 1 {
        ls[0]
    } else {
        join_labels(ls.drop_last()) + seq![DOT] + ls.last()
    }
}

/// The length byte that precedes a label.
pub open spec fn length_byte(l: Seq<u8>) -> u8 {
    (l.len() % 256) as u8
}

/// Each label as its length byte and its bytes, in order.
pub open spec fn labels_wire(ls: Seq<Seq<u8>>) -> Seq<u8>
    decreases ls.len(),
{
    if ls.len() == 0 {
        Seq::empty()
    } else {
        labels_wire(ls.drop_last()) + seq![length_byte(ls.last())] + ls.last()
    }
}

/// A dotted name on the wire: its labels, then a zero byte. The empty name
/// is the zero byte alone.
pub open spec fn name_wire(s: Seq<u8>) -> Seq<u8> {
    if s.len() == 0 {
        seq![0u8]
    } else {
        labels_wire(split_labels(s)) + seq![0u8]
    }
}

/// The labels read from `b` at `pos` up to a zero length byte, with the
/// position after that byte; `None` where the bytes run out first.
pub open spec fn labels_from(b: Seq<u8>, pos: int) -> Option<(Seq<Seq<u8>>, int)>
    decreases b.len() - pos,
{
    if pos < 0 || pos >= b.len() {
        None
    } else if b[pos] == 0 {
        Some((Seq::empty(), pos + 1))
    } else if pos + 1 + b[pos] > b.len() {
        None
    } else {
        match labels_from(b, pos + 1 + b[pos]) {
            None => None,
            Some((ls, end)) => Some((seq![b.subrange(pos + 1, pos + 1 + b[pos])] + ls, end)),
        }
    }
}

/// The name read at `pos`: no bytes left there reads as the empty name.
pub open spec fn name_at(b: Seq<u8>, pos: int) -> Option<(Seq<Seq<u8>>, int)> {
    if pos >= b.len() {
        Some((Seq::empty(), pos))
    } else {
        labels_from(b, pos)
    }
}

/// A label as text: ASCII as it stands, anything else with invalid UTF-8 replaced.
pub open spec fn label_text(l: Seq<u8>) -> Seq<u8> {
    if all_ascii(l) {
        l
    } else {
        utf8_lossy(l)
    }
}

/// Each label as text.
pub open spec fn lossy_labels(ls: Seq<Seq<u8>>) -> Seq<Seq<u8>> {
    ls.map_values(|l: Seq<u8>| label_text(l))
}

/// The dotted text decoded from the name at `pos`, with the position after it.
pub open spec fn decode_name(b: Seq<u8>, pos: int) -> Result<(Seq<u8>, int), ParseError> {
    match name_at(b, pos) {
        None => Err(ParseError::InvalidLength),
        Some((ls, end)) => Ok((join_labels(lossy_labels(ls)), end)),
    }
}

impl View for Name {
    type V = Seq<u8>;

    closed spec fn view(&self) -> Seq<u8> {
        self.text@
    }
}

proof fn lemma_split_nonempty(s: Seq<u8>)
    ensures
        split_labels(s).len() >= 1,
    decreases s.len(),
{
    if s.len() > 0 {
        lemma_split_nonempty(s.drop_last());
    }
}

fn push_label(out: &mut Vec<u8>, text: &Vec<u8>, start: usize, end: usize)
    requires
        start <= end <= text@.len(),
    ensures
        final(out)@ == old(out)@ + seq![length_byte(text@.subrange(start as int, end as int))]
            + text@.subrange(start as int, end as int),
{
    out.push(((end - start) % 256) as u8);
    let mut i: usize = start;
    while i < end
        invariant
            start <= i <= end <= text@.len(),
            out@ == old(out)@ + seq![length_byte(text@.subrange(start as int, end as int))]
                + text@.subrange(start as int, i as int),
        decreases end - i,
    {
        out.push(text[i]);
        i = i + 1;
        proof {
            assert(text@.subrange(start as int, i as int) =~= text@.subrange(start as int, i - 1)
                + seq![text@[i - 1]]);
        }
    }
}

impl Name {
    /// A name from its dotted text.
    pub fn from(value: &str) -> (r: Name)
        ensures
            r@ == value.spec_bytes(),
    {
        let mut text: Vec<u8> = Vec::new();
        append_bytes(&mut text, value.as_bytes());
        Name { text }
    }

    /// The bytes of the dotted text.
    pub fn as_bytes(&self) -> (r: &[u8])
        ensures
            r@ == self@,
    {
        self.text.as_slice()
    }

    /// The number of bytes the name takes on the wire.
    pub fn len(&self) -> (r: usize)
        requires
            self@.len() + 2 <= usize::MAX,
        ensures
            r == name_wire(self@).len(),
    {
        proof {
            lemma_name_wire_len(self@);
        }
        if self.text.len() == 0 {
            1
        } else {
            self.text.len() + 2
        }
    }

    /// The wire form: each dot-separated label after its length byte, then a
    /// zero byte; the empty name is the zero byte alone.
    pub fn to_bytes(&self) -> (r: Vec<u8>)
        ensures
            r@ == name_wire(self@),
    {
        let mut bytes: Vec<u8> = Vec::new();
        if self.text.len() == 0 {
            bytes.push(0);
            proof {
                assert(bytes@ =~= name_wire(self@));
            }
            return bytes;
        }
        let mut start: usize = 0;
        let mut i: usize = 0;
        while i < self.text.len()
            invariant
                start <= i <= self@.len(),
                bytes@ == labels_wire(split_labels(self@.subrange(0, i as int)).drop_last()),
                split_labels(self@.subrange(0, i as int)).last() == self@.subrange(
                    start as int,
                    i as int,
                ),
            decreases self@.len() - i,
        {
            let ghost prev = self@.subrange(0, i as int);
            proof {
                lemma_split_nonempty(prev);
                assert(self@.subrange(0, i + 1).drop_last() =~= prev);
            }
            if self.text[i] == DOT {
                push_label(&mut bytes, &self.text, start, i);
                proof {
                    assert(split_labels(prev).drop_last().push(split_labels(prev).last())
                        =~= split_labels(prev));
                    assert(split_labels(self@.subrange(0, i + 1)).drop_last() =~= split_labels(
                        prev,
                    ));
                }
                start = i + 1;
                i = i + 1;
                proof {
                    assert(self@.subrange(start as int, i as int) =~= Seq::<u8>::empty());
                }
            } else {
                proof {
                    assert(split_labels(self@.subrange(0, i + 1)).drop_last() =~= split_labels(
                        prev,
                    ).drop_last());
                    assert(self@.subrange(start as int, i + 1) =~= self@.subrange(
                        start as int,
                        i as int,
                    ).push(self@[i as int]));
                }
                i = i + 1;
            }
        }
        proof {
            let ls = split_labels(self@);
            assert(self@.subrange(0, i as int) =~= self@);
            lemma_split_nonempty(self@);
            assert(ls.drop_last().push(ls.last()) =~= ls);
        }
        push_label(&mut bytes, &self.text, start, i);
        bytes.push(0);
        bytes
    }

    /// Decodes the name at `start`, giving it with the position after its zero byte.
    /// No bytes left at `start` reads as the empty name; bytes that run out
    /// inside the name are a length error.
    pub fn decode(bytes: &[u8], start: usize) -> (r: Result<(Name, usize), ParseError>)
        requires
            start <= bytes@.len(),
        ensures
            match decode_name(bytes@, start as int) {
                Err(e) => r == Err::<(Name, usize), ParseError>(e),
                Ok((text, end)) => r is Ok && r->Ok_0.0@ == text && r->Ok_0.1 == end,
            },
    {
        let mut text: Vec<u8> = Vec::new();
        if start >= bytes.len() {
            return Ok((Name { text }, start));
        }
        let ghost b = bytes@;
        let ghost mut acc: Seq<Seq<u8>> = Seq::empty();
        let mut pos: usize = start;
        loop
            invariant
                start <= pos <= b.len(),
                b == bytes@,
                (pos == start) == (acc.len() == 0),
                start < b.len(),
                text@ == join_labels(lossy_labels(acc)),
                labels_from(b, start as int) == match labels_from(b, pos as int) {
                    None => None,
                    Some((ls, end)) => Some((acc + ls, end)),
                },
            decreases b.len() - pos,
        {
            if pos >= bytes.len() {
                return Err(ParseError::InvalidLength);
            }
            let len: usize = bytes[pos] as usize;
            if len == 0 {
                proof {
                    assert(acc + Seq::<Seq<u8>>::empty() =~= acc);
                }
                return Ok((Name { text }, pos + 1));
            }
            if len > bytes.len() - pos - 1 {
                return Err(ParseError::InvalidLength);
            }
            let label = vstd::slice::slice_subrange(bytes, pos + 1, pos + 1 + len);
            let part = lossy_utf8(label);
            if pos > start {
                text.push(DOT);
            }
            append_bytes(&mut text, part.as_slice());
            proof {
                let l = b.subrange(pos + 1, pos + 1 + len);
                let nacc = acc.push(l);
                assert(lossy_labels(nacc).drop_last() =~= lossy_labels(acc));
                assert(lossy_labels(nacc).last() == label_text(l));
                if acc.len() == 0 {
                    assert(lossy_labels(nacc).len() == 1);
                }
                match labels_from(b, pos + 1 + len) {
                    None => {},
                    Some((ls, end)) => {
                        assert(acc + (seq![l] + ls) =~= nacc + ls);
                    },
                }
                acc = nacc;
            }
            pos = pos + 1 + len;
        }
    }

    /// Decodes the name at the start of `bytes`.
    pub fn try_from(bytes: &[u8]) -> (r: Result<Name, ParseError>)
        ensures
            match decode_name(bytes@, 0) {
                Err(e) => r == Err::<Name, ParseError>(e),
                Ok((text, _)) => r is Ok && r->Ok_0@ == text,
            },
    {
        match Name::decode(bytes, 0) {
            Ok((name, _)) => Ok(name),
            Err(e) => Err(e),
        }
    }
}

proof fn lemma_split_join(s: Seq<u8>)
    ensures
        join_labels(split_labels(s)) == s,
        labels_wire(split_labels(s)).len() == s.len() + 1,
    decreases s.len(),
{
    lemma_split_nonempty(s);
    if s.len() == 0 {
        let ls = split_labels(s);
        assert(ls.drop_last() =~= Seq::<Seq<u8>>::empty());
        assert(labels_wire(ls) == labels_wire(ls.drop_last()) + seq![length_byte(ls.last())]
            + ls.last());
    } else {
        let init = split_labels(s.drop_last());
        lemma_split_join(s.drop_last());
        lemma_split_nonempty(s.drop_last());
        let ls = split_labels(s);
        let c = s.last();
        if c == DOT {
            assert(ls.drop_last() =~= init);
            assert(ls.last() =~= Seq::<u8>::empty());
            assert(join_labels(ls) == join_labels(init) + seq![DOT] + ls.last());
            assert(join_labels(ls) =~= s);
            assert(labels_wire(ls) == labels_wire(init) + seq![length_byte(ls.last())] + ls.last());
        } else {
            let last = init.last();
            assert(ls.drop_last() =~= init.drop_last());
            assert(ls.last() == last.push(c));
            assert(labels_wire(init) == labels_wire(init.drop_last()) + seq![length_byte(last)]
                + last);
            assert(labels_wire(ls) == labels_wire(init.drop_last()) + seq![
                length_byte(last.push(c)),
            ] + last.push(c));
            if init.len() == 1 {
                assert(join_labels(init) == init[0]);
                assert(join_labels(ls) == ls[0]);
                assert(join_labels(ls) =~= s);
            } else {
                assert(join_labels(init) == join_labels(init.drop_last()) + seq![DOT] + last);
                assert(join_labels(ls) == join_labels(init.drop_last()) + seq![DOT] + last.push(c));
                assert(join_labels(ls) =~= join_labels(init).push(c));
                assert(s =~= s.drop_last().push(c));
            }
        }
    }
}

/// A name takes two bytes more on the wire than its dotted text, except the
/// empty name, which takes one.
pub proof fn lemma_name_wire_len(s: Seq<u8>)
    ensures
        name_wire(s).len() == if s.len() == 0 {
            1
        } else {
            s.len() + 2
        },
{
    lemma_split_join(s);
}


proof fn lemma_labels_wire_front(l: Seq<u8>, ls: Seq<Seq<u8>>)
    ensures
        labels_wire(seq![l] + ls) == seq![length_byte(l)] + l + labels_wire(ls),
    decreases ls.len(),
{
    if ls.len() == 0 {
        assert(seq![l] + ls =~= seq![l]);
        assert(seq![l].drop_last() =~= Seq::<Seq<u8>>::empty());
        assert(labels_wire(Seq::<Seq<u8>>::empty()) == Seq::<u8>::empty());
        assert(seq![l].last() == l);
        assert(labels_wire(seq![l]) =~= labels_wire(seq![l].drop_last()) + seq![length_byte(l)]
            + l);
        assert(labels_wire(seq![l]) =~= seq![length_byte(l)] + l);
    } else {
        let all = seq![l] + ls;
        assert(all.drop_last() =~= seq![l] + ls.drop_last());
        lemma_labels_wire_front(l, ls.drop_last());
        assert(labels_wire(all) =~= seq![length_byte(l)] + l + labels_wire(ls));
    }
}

/// Labels that can go on the wire and come back: each one to 255 bytes long.
pub open spec fn wire_labels(ls: Seq<Seq<u8>>) -> bool {
    forall|i: int| 0 <= i < ls.len() ==> 1 <= #[trigger] ls[i].len() <= 255
}

/// Reading the wire form of labels, wherever it stands in `b`, gives those
/// labels back and ends right after their zero byte.
pub proof fn lemma_labels_from_wire(b: Seq<u8>, p: int, ls: Seq<Seq<u8>>)
    requires
        wire_labels(ls),
        0 <= p,
        p + labels_wire(ls).len() + 1 <= b.len(),
        b.subrange(p, p + labels_wire(ls).len() + 1) == labels_wire(ls) + seq![0u8],
    ensures
        labels_from(b, p) == Some((ls, p + labels_wire(ls).len() + 1)),
    decreases ls.len(),
{
    let w = labels_wire(ls) + seq![0u8];
    let n = w.len() as int;
    assert(b[p] == w[0]) by {
        assert(b.subrange(p, p + n)[0] == b[p]);
    }
    if ls.len() > 0 {
        let l = ls[0];
        let rest = ls.drop_first();
        assert(ls =~= seq![l] + rest);
        lemma_labels_wire_front(l, rest);
        let len = l.len() as int;
        assert(length_byte(l) == len);
        let q = p + 1 + len;
        assert(b.subrange(p + 1, q) =~= l) by {
            assert forall|i: int| 0 <= i < len implies b.subrange(p + 1, q)[i] == l[i] by {
                assert(b.subrange(p, p + n)[1 + i] == b[p + 1 + i]);
                assert(w[1 + i] == l[i]);
            }
        }
        assert forall|i: int| 0 <= i < rest.len() implies 1 <= #[trigger] rest[i].len() <= 255 by {
            assert(rest[i] == ls[i + 1]);
        }
        let m = labels_wire(rest).len() as int;
        assert(b.subrange(q, q + m + 1) =~= labels_wire(rest) + seq![0u8]) by {
            assert forall|i: int| 0 <= i < m + 1 implies b.subrange(q, q + m + 1)[i] == (
            labels_wire(rest) + seq![0u8])[i] by {
                assert(b.subrange(p, p + n)[1 + len + i] == b[q + i]);
                assert(w[1 + len + i] == (labels_wire(rest) + seq![0u8])[i]);
            }
        }
        lemma_labels_from_wire(b, q, rest);
    }
}

proof fn lemma_split_ascii(s: Seq<u8>)
    requires
        all_ascii(s),
    ensures
        forall|i: int|
            0 <= i < split_labels(s).len() ==> all_ascii(#[trigger] split_labels(s)[i]),
    decreases s.len(),
{
    if s.len() > 0 {
        lemma_split_ascii(s.drop_last());
        lemma_split_nonempty(s.drop_last());
    }
}

/// Encoding a dotted ASCII name and decoding it again gives back the same text
/// and ends right after the name, where the name is empty or each of its
/// labels is 1 to 255 bytes long.
pub proof fn lemma_name_round_trip(s: Seq<u8>, rest: Seq<u8>)
    requires
        all_ascii(s),
        s.len() == 0 || wire_labels(split_labels(s)),
    ensures
        decode_name(name_wire(s) + rest, 0) is Ok,
        decode_name(name_wire(s) + rest, 0)->Ok_0.0 == s,
        decode_name(name_wire(s) + rest, 0)->Ok_0.1 == name_wire(s).len(),
{
    let b = name_wire(s) + rest;
    lemma_split_join(s);
    if s.len() == 0 {
        assert(b[0] == 0);
        assert(join_labels(lossy_labels(Seq::empty())) =~= s);
    } else {
        let ls = split_labels(s);
        assert(b.subrange(0, labels_wire(ls).len() + 1int) =~= labels_wire(ls) + seq![0u8]);
        lemma_labels_from_wire(b, 0, ls);
        lemma_split_ascii(s);
        assert(lossy_labels(ls) =~= ls);
    }
}

/// A dotted name that survives the wire unchanged: ASCII, not empty, and
/// each label 1 to 255 bytes long.
pub open spec fn wire_name(s: Seq<u8>) -> bool {
    all_ascii(s) && s.len() > 0 && wire_labels(split_labels(s))
}

/// The wire form of such a name, wherever it stands in `b`, decodes to that
/// name and ends right after it.
pub proof fn lemma_decode_name_at(b: Seq<u8>, p: int, s: Seq<u8>)
    requires
        wire_name(s),
        0 <= p,
        p + name_wire(s).len() <= b.len(),
        b.subrange(p, p + name_wire(s).len()) == name_wire(s),
    ensures
        decode_name(b, p) == Ok::<(Seq<u8>, int), ParseError>((s, p + name_wire(s).len())),
{
    let ls = split_labels(s);
    lemma_split_join(s);
    lemma_split_ascii(s);
    lemma_labels_from_wire(b, p, ls);
    assert(lossy_labels(ls) =~= ls);
}

/// The 16-bit code of every record type decodes to that type.
pub proof fn lemma_record_type_code(t: DnsType)
    ensures
        record_type_of(t.spec_code()) == Ok::<DnsType, ParseError>(t),
{
}

/// The 16-bit code of every record class decodes to that class.
pub proof fn lemma_record_class_code(c: DnsClass)
    ensures
        record_class_of(c.spec_code()) == Ok::<DnsClass, ParseError>(c),
{
}

} // verus!
