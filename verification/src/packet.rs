use crate::answer::{spec_parse_answer, Answer, AnswerView};
use crate::errors::DecodeError;
use crate::header::{lemma_parse_header_frame, spec_header_bytes, spec_parse_header, Header,
    HEADER_SIZE};
use crate::name::valid_name;
use crate::question::{lemma_parse_question_frame, spec_parse_question, spec_question_wire,
    Question, QuestionView};
use vstd::prelude::*;
use vstd::slice::slice_subrange;

verus! {

/// A whole message: header, question section and answer section. The unused
/// authority and additional sections are never materialized.
#[derive(Debug, Clone, PartialEq, Eq)]
pub struct Packet {
    pub header: Header,
    pub questions: Vec<Question>,
    pub answers: Vec<Answer>,
}

/// The mathematical shape of a message.
#[verifier::ext_equal]
pub ghost struct PacketView {
    pub header: Header,
    pub questions: Seq<QuestionView>,
    pub answers: Seq<AnswerView>,
}

impl View for Packet {
    type V = PacketView;

    open spec fn view(&self) -> PacketView {
        PacketView {
            header: self.header,
            questions: self.questions.deep_view(),
            answers: self.answers.deep_view(),
        }
    }
}

/// A packet is fit to serialize when its header counts agree with the
/// sections actually present and every question name fits on the wire.
pub open spec fn serializable(p: Packet) -> bool {
    &&& p.header.qdcount == p.questions.len()
    &&& p.header.ancount == p.answers.len()
    &&& forall|i: int|
        0 <= i < p.questions@.len() ==> valid_name(#[trigger] p.questions@[i].name.deep_view())
}

/// The wire form of a run of questions, in order.
pub open spec fn spec_questions_wire(qs: Seq<Question>) -> Seq<u8>
    decreases qs.len(),
{
    if qs.len() == 0 {
        Seq::empty()
    } else {
        spec_question_wire(qs[0]) + spec_questions_wire(qs.drop_first())
    }
}

/// The wire form of a whole query: the header, then each question in order.
/// Answers are never serialized; a client only emits queries.
pub open spec fn spec_packet_wire(p: Packet) -> Seq<u8> {
    spec_header_bytes(p.header) + spec_questions_wire(p.questions@)
}

/// Serializing one more question appends that question's wire form.
proof fn lemma_questions_wire_snoc(qs: Seq<Question>, i: int)
    requires
        0 <= i < qs.len(),
    ensures
        spec_questions_wire(qs.take(i + 1)) == spec_questions_wire(qs.take(i))
            + spec_question_wire(qs[i]),
    decreases i,
{
    if i == 0 {
        assert(qs.take(1).drop_first() =~= qs.take(0));
        assert(spec_questions_wire(qs.take(1)) =~= spec_questions_wire(qs.take(0))
            + spec_question_wire(qs[0]));
    } else {
        let d = qs.drop_first();
        lemma_questions_wire_snoc(d, i - 1);
        assert(qs.take(i + 1).drop_first() =~= d.take(i));
        assert(qs.take(i).drop_first() =~= d.take(i - 1));
        assert(qs.take(i + 1)[0] == qs[0]);
        assert(qs.take(i)[0] == qs[0]);
        assert(d[i - 1] == qs[i]);
        assert(spec_questions_wire(qs.take(i + 1)) =~= spec_questions_wire(qs.take(i))
            + spec_question_wire(qs[i]));
    }
}

impl Packet {
    /// Encodes a query: the 12 header bytes, then each question's wire form
    /// in order.
    pub fn serialize(self) -> (r: Vec<u8>)
        requires
            serializable(self),
        ensures
            r@ == spec_packet_wire(self),
    {
        let ghost qs0 = self.questions@;
        let ghost hdr = self.header;
        let mut out = self.header.serialize();
        let mut qs = self.questions;
        while qs.len() > 0
            invariant
                qs0.len() >= qs@.len(),
                qs@ == qs0.skip(qs0.len() - qs@.len()),
                out@ == spec_header_bytes(hdr) + spec_questions_wire(
                    qs0.take(qs0.len() - qs@.len()),
                ),
                forall|i: int|
                    0 <= i < qs0.len() ==> valid_name(#[trigger] qs0[i].name.deep_view()),
            decreases qs@.len(),
        {
            let ghost k = qs0.len() - qs@.len();
            let q = qs.remove(0);
            proof {
                assert(q == qs0[k]);
                assert(qs@ =~= qs0.skip(k + 1));
            }
            let mut bytes = q.serialize();
            out.append(&mut bytes);
            proof {
                lemma_questions_wire_snoc(qs0, k);
                assert(qs0.take(k) =~= qs0.take(k));
                assert(out@ == spec_header_bytes(hdr) + spec_questions_wire(qs0.take(k + 1)));
            }
        }
        proof {
            assert(qs0.take(qs0.len() as int) =~= qs0);
        }
        out
    }
}

/// The run of `n` questions read from offset `off` on, and the offset just
/// past them; the first failure, if any, is the whole section's failure.
pub open spec fn spec_parse_questions(b: Seq<u8>, off: int, n: int) -> Result<
    (Seq<QuestionView>, int),
    DecodeError,
>
    decreases n,
{
    if n <= 0 {
        Ok((seq![], off))
    } else {
        match spec_parse_question(b.skip(off)) {
            Err(e) => Err(e),
            Ok((q, used)) => match spec_parse_questions(b, off + used, n - 1) {
                Err(e) => Err(e),
                Ok((rest, end)) => Ok((seq![q] + rest, end)),
            },
        }
    }
}

/// The run of `n` answer records read from offset `off` on, each advancing
/// the offset by its reported span, and the offset just past them.
pub open spec fn spec_parse_answers(b: Seq<u8>, off: int, n: int) -> Result<
    (Seq<AnswerView>, int),
    DecodeError,
>
    decreases n,
{
    if n <= 0 {
        Ok((seq![], off))
    } else {
        match spec_parse_answer(b.skip(off)) {
            Err(e) => Err(e),
            Ok((a, used)) => match spec_parse_answers(b, off + used, n - 1) {
                Err(e) => Err(e),
                Ok((rest, end)) => Ok((seq![a] + rest, end)),
            },
        }
    }
}

/// The message a response buffer decodes to: its header, then as many
/// questions as `qdcount` says, then as many answers as `ancount` says, each
/// section starting where the previous one ended. The first failure of any
/// sub-decoder is the whole parse's failure.
pub open spec fn spec_parse_response(b: Seq<u8>) -> Result<PacketView, DecodeError> {
    match spec_parse_header(b) {
        Err(e) => Err(e),
        Ok(header) => match spec_parse_questions(b, HEADER_SIZE as int, header.qdcount as int) {
            Err(e) => Err(e),
            Ok((questions, off)) => match spec_parse_answers(b, off, header.ancount as int) {
                Err(e) => Err(e),
                Ok((answers, _end)) => Ok(PacketView { header, questions, answers }),
            },
        },
    }
}

/// The mathematical shapes of a run of questions, in order.
pub open spec fn questions_views(qs: Seq<Question>) -> Seq<QuestionView> {
    qs.map_values(|q: Question| q@)
}

/// Parsing the wire form of a run of valid questions from its start yields
/// those questions and ends exactly at the buffer's end.
proof fn lemma_parse_questions_wire(b: Seq<u8>, off: int, qs: Seq<Question>)
    requires
        0 <= off <= b.len(),
        b.skip(off) == spec_questions_wire(qs),
        forall|i: int| 0 <= i < qs.len() ==> valid_name(#[trigger] qs[i].name.deep_view()),
    ensures
        spec_parse_questions(b, off, qs.len() as int) == Ok::<_, DecodeError>(
            (questions_views(qs), b.len() as int),
        ),
    decreases qs.len(),
{
    if qs.len() == 0 {
        assert(b.skip(off).len() == 0);
        assert(off == b.len());
        assert(questions_views(qs) =~= Seq::<QuestionView>::empty());
    } else {
        let q0 = qs[0];
        let w0 = spec_question_wire(q0);
        let d = qs.drop_first();
        assert(b.skip(off) =~= w0 + spec_questions_wire(d));
        lemma_parse_question_frame(q0, spec_questions_wire(d));
        assert(spec_parse_question(b.skip(off)) == Ok::<_, DecodeError>((q0@, w0.len() as int)));
        assert(b.skip(off).len() == w0.len() + spec_questions_wire(d).len());
        assert(off + w0.len() <= b.len());
        assert(b.skip(off).skip(w0.len() as int) =~= spec_questions_wire(d));
        assert(b.skip(off + w0.len()) =~= b.skip(off).skip(w0.len() as int));
        assert(b.skip(off + w0.len()) =~= spec_questions_wire(d));
        lemma_parse_questions_wire(b, off + w0.len(), d);
        assert(seq![q0@] + questions_views(d) =~= questions_views(qs));
        assert(spec_parse_questions(b, off, qs.len() as int) == Ok::<_, DecodeError>(
            (questions_views(qs), b.len() as int),
        ));
    }
}

/// Query round trip: the wire form of any query fit to serialize — counts
/// agreeing with its sections, every name valid, no answers — parses back to
/// exactly that message.
pub proof fn lemma_query_round_trip(p: Packet)
    requires
        serializable(p),
        p.answers@.len() == 0,
    ensures
        spec_parse_response(spec_packet_wire(p)) == Ok::<PacketView, DecodeError>(p@),
{
    let b = spec_packet_wire(p);
    lemma_parse_header_frame(p.header, spec_questions_wire(p.questions@));
    assert(spec_parse_header(b) == Ok::<Header, DecodeError>(p.header));
    assert(b.skip(HEADER_SIZE as int) =~= spec_questions_wire(p.questions@));
    assert(b.len() >= HEADER_SIZE);
    lemma_parse_questions_wire(b, HEADER_SIZE as int, p.questions@);
    assert(spec_parse_answers(b, b.len() as int, p.header.ancount as int) == Ok::<
        _,
        DecodeError,
    >((Seq::<AnswerView>::empty(), b.len() as int)));
    assert(p.questions.deep_view() =~= questions_views(p.questions@));
    assert(p.answers.deep_view() =~= Seq::<AnswerView>::empty());
    assert(spec_parse_response(b) == Ok::<PacketView, DecodeError>(p@));
}

/// Decodes `n` questions from `bytes` starting at `off`, returning them with
/// the offset just past them.
pub fn parse_questions(bytes: &[u8], off: usize, n: u16) -> (r: Result<
    (Vec<Question>, usize),
    DecodeError,
>)
    requires
        off <= bytes@.len(),
    ensures
        r matches Ok((qs, end)) ==> spec_parse_questions(bytes@, off as int, n as int)
            == Ok::<_, DecodeError>((qs.deep_view(), end as int)) && off <= end <= bytes@.len(),
        r matches Err(e) ==> spec_parse_questions(bytes@, off as int, n as int) == Err::<
            (Seq<QuestionView>, int),
            _,
        >(e),
    decreases n,
{
    if n == 0 {
        let qs: Vec<Question> = Vec::new();
        assert(qs.deep_view() =~= Seq::<QuestionView>::empty());
        return Ok((qs, off));
    }
    let tail = slice_subrange(bytes, off, bytes.len());
    assert(tail@ =~= bytes@.skip(off as int));
    match Question::parse(tail) {
        Err(e) => Err(e),
        Ok((q, used)) => {
            match parse_questions(bytes, off + used, n - 1) {
                Err(e) => Err(e),
                Ok((mut qs, end)) => {
                    let ghost pre = qs.deep_view();
                    qs.insert(0, q);
                    proof {
                        assert(qs.deep_view() =~= seq![q@] + pre);
                    }
                    Ok((qs, end))
                },
            }
        },
    }
}

/// Decodes `n` answer records from `bytes` starting at `off`, returning them
/// with the offset just past them.
pub fn parse_answers(bytes: &[u8], off: usize, n: u16) -> (r: Result<
    (Vec<Answer>, usize),
    DecodeError,
>)
    requires
        off <= bytes@.len(),
    ensures
        r matches Ok((ans, end)) ==> spec_parse_answers(bytes@, off as int, n as int)
            == Ok::<_, DecodeError>((ans.deep_view(), end as int)) && off <= end <= bytes@.len(),
        r matches Err(e) ==> spec_parse_answers(bytes@, off as int, n as int) == Err::<
            (Seq<AnswerView>, int),
            _,
        >(e),
    decreases n,
{
    if n == 0 {
        let ans: Vec<Answer> = Vec::new();
        assert(ans.deep_view() =~= Seq::<AnswerView>::empty());
        return Ok((ans, off));
    }
    let tail = slice_subrange(bytes, off, bytes.len());
    assert(tail@ =~= bytes@.skip(off as int));
    match Answer::parse(tail) {
        Err(e) => Err(e),
        Ok((a, used)) => {
            match parse_answers(bytes, off + used, n - 1) {
                Err(e) => Err(e),
                Ok((mut ans, end)) => {
                    let ghost pre = ans.deep_view();
                    ans.insert(0, a);
                    proof {
                        assert(ans.deep_view() =~= seq![a@] + pre);
                    }
                    Ok((ans, end))
                },
            }
        },
    }
}

/// Decodes a whole response buffer into a message, given a buffer already
/// received from the network.
pub fn parse_response(bytes: &[u8]) -> (r: Result<Packet, DecodeError>)
    ensures
        r matches Ok(p) ==> spec_parse_response(bytes@) == Ok::<_, DecodeError>(p@),
        r matches Err(e) ==> spec_parse_response(bytes@) == Err::<PacketView, _>(e),
{
    let header = match Header::parse(bytes) {
        Ok(h) => h,
        Err(e) => {
            return Err(e);
        },
    };
    let (questions, q_end) = match parse_questions(bytes, HEADER_SIZE, header.qdcount) {
        Ok(p) => p,
        Err(e) => {
            return Err(e);
        },
    };
    let (answers, _a_end) = match parse_answers(bytes, q_end, header.ancount) {
        Ok(p) => p,
        Err(e) => {
            return Err(e);
        },
    };
    Ok(Packet { header, questions, answers })
}

} // verus!
