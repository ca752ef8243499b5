use vstd::prelude::*;

use crate::answer::DnsAnswer;
use crate::common::{
    append_bytes, lemma_decode_name_at, lemma_name_wire_len, lemma_record_class_code,
    lemma_record_type_code, name_wire, wire_name, DnsClass, DnsType,
};
use crate::error::ParseError;
use crate::header::{
    header_wire, lemma_bytes_be16, lemma_header_decode_encoded, parse_header, DnsHeader,
    HEADER_LEN,
};
use crate::question::{decode_question, question_wire, type_class_wire, DnsQuestion};

verus! {

/// A whole message: header, questions and answers.
pub struct DnsPacket {
    pub header: DnsHeader,
    pub questions: Vec<DnsQuestion>,
    pub answers: Vec<DnsAnswer>,
}

/// Up to `k` questions read one after another from `pos`, with the position
/// after the last one read. Reading stops early, without error, once no bytes
/// are left.
pub open spec fn decode_questions(b: Seq<u8>, pos: int, k: nat) -> Result<
    (Seq<(Seq<u8>, DnsType, DnsClass)>, int),
    ParseError,
>
    decreases k,
{
    if k == 0 || pos >= b.len() {
        Ok((Seq::empty(), pos))
    } else {
        match decode_question(b, pos) {
            Err(e) => Err(e),
            Ok((text, t, c, next)) => match decode_questions(b, next, (k - 1) as nat) {
                Err(e) => Err(e),
                Ok((rest, end)) => Ok((seq![(text, t, c)] + rest, end)),
            },
        }
    }
}

/// The header of a message and the questions that its question count asks
/// for, with the count set to the number of questions actually read.
pub open spec fn decode_packet(b: Seq<u8>) -> Result<
    (DnsHeader, Seq<(Seq<u8>, DnsType, DnsClass)>),
    ParseError,
> {
    match parse_header(b) {
        Err(e) => Err(e),
        Ok(h) => match decode_questions(b, 12, h.qdcount as nat) {
            Err(e) => Err(e),
            Ok((qs, _)) => Ok((DnsHeader { qdcount: qs.len() as u16, ..h }, qs)),
        },
    }
}

/// The questions, each as its dotted name, type and class.
pub open spec fn question_models(qs: Seq<DnsQuestion>) -> Seq<(Seq<u8>, DnsType, DnsClass)> {
    qs.map_values(|q: DnsQuestion| q.model())
}

/// The wire forms of the questions, one after another.
pub open spec fn questions_wire(qs: Seq<DnsQuestion>) -> Seq<u8>
    decreases qs.len(),
{
    if qs.len() == 0 {
        Seq::empty()
    } else {
        questions_wire(qs.drop_last()) + qs.last().wire()
    }
}

/// The wire forms of the answers, one after another.
pub open spec fn answers_wire(ans: Seq<DnsAnswer>) -> Seq<u8>
    decreases ans.len(),
{
    if ans.len() == 0 {
        Seq::empty()
    } else {
        answers_wire(ans.drop_last()) + ans.last().wire()
    }
}

/// A message on the wire: header, questions, answers, with nothing between.
pub open spec fn packet_wire(p: DnsPacket) -> Seq<u8> {
    header_wire(p.header) + questions_wire(p.questions@) + answers_wire(p.answers@)
}

/// What adding one answer does: the answer goes at the end, the answer count
/// grows by one, and nothing else changes.
pub open spec fn answer_added(before: DnsPacket, after: DnsPacket, answer: DnsAnswer) -> bool {
    &&& before.header.ancount < u16::MAX
    &&& after.header == (DnsHeader { ancount: (before.header.ancount + 1) as u16, ..before.header })
    &&& after.questions@ == before.questions@
    &&& after.answers@ == before.answers@.push(answer)
}

/// From a message with no answers and an answer count of zero, answers added
/// one after another leave as many answers as were added, in that order, and
/// an answer count equal to their number.
pub proof fn lemma_answer_count(states: Seq<DnsPacket>, added: Seq<DnsAnswer>)
    requires
        states.len() == added.len() + 1,
        states[0].header.ancount == 0,
        states[0].answers@.len() == 0,
        forall|i: int|
            0 <= i < added.len() ==> answer_added(states[i], states[i + 1], #[trigger] added[i]),
    ensures
        states.last().header.ancount == added.len(),
        states.last().answers@ == added,
    decreases added.len(),
{
    if added.len() == 0 {
        assert(states.last().answers@ =~= added);
    } else {
        let n = added.len() - 1;
        assert forall|i: int| 0 <= i < n implies answer_added(
            states.drop_last()[i],
            states.drop_last()[i + 1],
            #[trigger] added.drop_last()[i],
        ) by {
            assert(answer_added(states[i], states[i + 1], added[i]));
        }
        lemma_answer_count(states.drop_last(), added.drop_last());
        assert(answer_added(states[n], states[n + 1], added[n]));
        assert(states.last().answers@ =~= added);
    }
}

impl DnsPacket {
    /// Decodes a message: the header, then as many questions as its count
    /// gives, stopping early where the bytes run out. The header's question
    /// count becomes the number of questions read. No answers are read.
    pub fn try_from(bytes: &[u8]) -> (r: Result<DnsPacket, ParseError>)
        ensures
            match decode_packet(bytes@) {
                Err(e) => r is Err && r->Err_0 == e,
                Ok((h, qs)) => r is Ok && r->Ok_0.header == h && question_models(
                    r->Ok_0.questions@,
                ) == qs && r->Ok_0.answers@.len() == 0,
            },
    {
        let header = match DnsHeader::try_from(bytes) {
            Ok(h) => h,
            Err(e) => return Err(e),
        };
        let ghost b = bytes@;
        let mut questions: Vec<DnsQuestion> = Vec::new();
        let mut pos: usize = HEADER_LEN;
        let mut i: u16 = 0;
        while i < header.qdcount
            invariant
                b == bytes@,
                parse_header(b) == Ok::<DnsHeader, ParseError>(header),
                i <= header.qdcount,
                questions@.len() == i,
                decode_questions(b, 12, header.qdcount as nat) == match decode_questions(
                    b,
                    pos as int,
                    (header.qdcount - i) as nat,
                ) {
                    Err(e) => Err(e),
                    Ok((rest, end)) => Ok((question_models(questions@) + rest, end)),
                },
            ensures
                i == header.qdcount || pos >= b.len(),
            decreases header.qdcount - i,
        {
            if pos >= bytes.len() {
                break;
            }
            let ghost k = (header.qdcount - i) as nat;
            let (question, next) = match DnsQuestion::decode(bytes, pos) {
                Ok(v) => v,
                Err(e) => {
                    proof {
                        assert(decode_questions(b, pos as int, k) == Err::<
                            (Seq<(Seq<u8>, DnsType, DnsClass)>, int),
                            ParseError,
                        >(e));
                    }
                    return Err(e);
                },
            };
            proof {
                let m = question.model();
                assert(question_models(questions@.push(question)) =~= question_models(
                    questions@,
                ).push(m));
                match decode_questions(b, next as int, (k - 1) as nat) {
                    Err(e) => {},
                    Ok((rest, end)) => {
                        assert(question_models(questions@) + (seq![m] + rest) =~= question_models(
                            questions@,
                        ).push(m) + rest);
                    },
                }
            }
            questions.push(question);
            pos = next;
            i = i + 1;
        }
        proof {
            assert(question_models(questions@) + Seq::empty() =~= question_models(questions@));
        }
        let mut header = header;
        header.qdcount = i;
        Ok(DnsPacket { header, questions, answers: Vec::new() })
    }

    /// Appends an answer and counts it in the header.
    pub fn add_answer(&mut self, answer: DnsAnswer)
        requires
            old(self).header.ancount < u16::MAX,
        ensures
            answer_added(*old(self), *final(self), answer),
    {
        self.header.ancount = self.header.ancount + 1;
        self.answers.push(answer);
    }

    /// The wire form: header, each question, then each answer, in order.
    pub fn to_bytes(&self) -> (r: Vec<u8>)
        ensures
            r@ == packet_wire(*self),
    {
        let mut bytes = self.header.to_bytes();
        let mut i: usize = 0;
        while i < self.questions.len()
            invariant
                i <= self.questions@.len(),
                bytes@ == header_wire(self.header) + questions_wire(
                    self.questions@.subrange(0, i as int),
                ),
            decreases self.questions@.len() - i,
        {
            let part = self.questions[i].to_bytes();
            append_bytes(&mut bytes, part.as_slice());
            proof {
                assert(self.questions@.subrange(0, i + 1).drop_last() =~= self.questions@.subrange(
                    0,
                    i as int,
                ));
            }
            i = i + 1;
        }
        proof {
            assert(self.questions@.subrange(0, i as int) =~= self.questions@);
        }
        let mut j: usize = 0;
        while j < self.answers.len()
            invariant
                j <= self.answers@.len(),
                i == self.questions@.len(),
                bytes@ == header_wire(self.header) + questions_wire(self.questions@)
                    + answers_wire(self.answers@.subrange(0, j as int)),
            decreases self.answers@.len() - j,
        {
            let part = self.answers[j].to_bytes();
            append_bytes(&mut bytes, part.as_slice());
            proof {
                assert(self.answers@.subrange(0, j + 1).drop_last() =~= self.answers@.subrange(
                    0,
                    j as int,
                ));
            }
            j = j + 1;
        }
        proof {
            assert(self.answers@.subrange(0, j as int) =~= self.answers@);
        }
        bytes
    }
}

/// The wire forms of questions, given as name, type and class, one after another.
pub open spec fn models_wire(qs: Seq<(Seq<u8>, DnsType, DnsClass)>) -> Seq<u8>
    decreases qs.len(),
{
    if qs.len() == 0 {
        Seq::empty()
    } else {
        question_wire(qs[0].0, qs[0].1, qs[0].2) + models_wire(qs.drop_first())
    }
}

/// Questions whose names survive the wire unchanged.
pub open spec fn wire_questions(qs: Seq<(Seq<u8>, DnsType, DnsClass)>) -> bool {
    forall|i: int| 0 <= i < qs.len() ==> wire_name(#[trigger] qs[i].0)
}

/// A decode never yields more questions than it was asked for, and yields
/// fewer only where it ran out of bytes.
pub proof fn lemma_decode_questions_count(b: Seq<u8>, pos: int, k: nat)
    requires
        decode_questions(b, pos, k) is Ok,
    ensures
        decode_questions(b, pos, k)->Ok_0.0.len() <= k,
        decode_questions(b, pos, k)->Ok_0.0.len() < k ==> decode_questions(b, pos, k)->Ok_0.1
            >= b.len(),
    decreases k,
{
    if k > 0 && pos < b.len() {
        let next = decode_question(b, pos)->Ok_0.3;
        lemma_decode_questions_count(b, next, (k - 1) as nat);
    }
}

/// Reading questions whose wire forms stand one after another at `pos` gives
/// them back and moves past all of them; asked for more than stand there,
/// where the bytes end with them, it gives back those that are there.
pub proof fn lemma_decode_questions_wire(
    b: Seq<u8>,
    pos: int,
    k: nat,
    qs: Seq<(Seq<u8>, DnsType, DnsClass)>,
)
    requires
        wire_questions(qs),
        0 <= pos,
        qs.len() <= k,
        pos + models_wire(qs).len() <= b.len(),
        b.subrange(pos, pos + models_wire(qs).len()) == models_wire(qs),
        qs.len() == k || pos + models_wire(qs).len() == b.len(),
    ensures
        decode_questions(b, pos, k) == Ok::<(Seq<(Seq<u8>, DnsType, DnsClass)>, int), ParseError>(
            (qs, pos + models_wire(qs).len()),
        ),
    decreases qs.len(),
{
    if qs.len() > 0 {
        let q = qs[0];
        let rest = qs.drop_first();
        let w = models_wire(qs);
        let nw = name_wire(q.0);
        let tc = type_class_wire(q.1, q.2);
        let qw = question_wire(q.0, q.1, q.2);
        let n = nw.len() as int;
        let m = models_wire(rest).len() as int;
        assert(wire_name(q.0));
        assert forall|i: int| 0 <= i < rest.len() implies wire_name(#[trigger] rest[i].0) by {
            assert(rest[i] == qs[i + 1]);
        }
        lemma_name_wire_len(q.0);
        assert forall|i: int| 0 <= i < w.len() implies b[pos + i] == w[i] by {
            assert(b.subrange(pos, pos + w.len())[i] == b[pos + i]);
        }
        assert(b.subrange(pos, pos + n) =~= nw) by {
            assert forall|i: int| 0 <= i < n implies b.subrange(pos, pos + n)[i] == nw[i] by {
                assert(w[i] == qw[i]);
            }
        }
        lemma_decode_name_at(b, pos, q.0);
        let e = pos + n;
        assert(b[e] == tc[0] && b[e + 1] == tc[1] && b[e + 2] == tc[2] && b[e + 3] == tc[3]) by {
            assert(w[n] == qw[n] && w[n + 1] == qw[n + 1] && w[n + 2] == qw[n + 2] && w[n + 3]
                == qw[n + 3]);
        }
        lemma_bytes_be16(q.1.spec_code());
        lemma_bytes_be16(q.2.spec_code());
        lemma_record_type_code(q.1);
        lemma_record_class_code(q.2);
        assert(decode_question(b, pos) == Ok::<(Seq<u8>, DnsType, DnsClass, int), ParseError>(
            (q.0, q.1, q.2, e + 4),
        ));
        let next = e + 4;
        assert(b.subrange(next, next + m) =~= models_wire(rest)) by {
            assert forall|i: int| 0 <= i < m implies b.subrange(next, next + m)[i] == models_wire(
                rest,
            )[i] by {
                assert(w[n + 4 + i] == models_wire(rest)[i]);
            }
        }
        lemma_decode_questions_wire(b, next, (k - 1) as nat, rest);
        assert(seq![q] + rest =~= qs);
        assert(w.len() == qw.len() + m);
        assert(pos < b.len());
    } else {
        assert(qs =~= Seq::<(Seq<u8>, DnsType, DnsClass)>::empty());
        assert(models_wire(qs).len() == 0);
    }
}

/// A message made of a header and the wire forms of that many questions
/// decodes to that header and those questions; where the count asks for more
/// questions than the bytes hold, it decodes to the questions that are there,
/// with the count lowered to their number.
pub proof fn lemma_packet_decode(
    h: DnsHeader,
    qs: Seq<(Seq<u8>, DnsType, DnsClass)>,
    rest: Seq<u8>,
)
    requires
        h.z <= 7,
        wire_questions(qs),
        qs.len() <= h.qdcount,
        qs.len() == h.qdcount || rest.len() == 0,
    ensures
        decode_packet(header_wire(h) + models_wire(qs) + rest) == Ok::<
            (DnsHeader, Seq<(Seq<u8>, DnsType, DnsClass)>),
            ParseError,
        >((DnsHeader { qdcount: qs.len() as u16, ..h }, qs)),
{
    let b = header_wire(h) + models_wire(qs) + rest;
    assert(b.subrange(0, 12) =~= header_wire(h));
    lemma_header_decode_encoded(h, b);
    let w = models_wire(qs);
    assert(b.subrange(12, 12 + w.len() as int) =~= w);
    lemma_decode_questions_wire(b, 12, h.qdcount as nat, qs);
}

} // verus!
