use crate::errors::DecodeError;
use crate::header::{Header, Opcode, RCode};
use crate::name::{encode_name, lemma_parse_name_frame, parse_name, spec_name_wire,
    spec_parse_name, valid_name};
use crate::packet::Packet;
use crate::wire::{be_u16, lemma_u16_be_round_trip, push_u16_be, u16_be_bytes, u16_from_be};
use vstd::prelude::*;
use vstd::string::StrSliceExecFns;

verus! {

/// The record type a question asks for. Only address records are in scope.
#[derive(Debug, Clone, Copy, PartialEq, Eq, Structural)]
pub enum QType {
    Address,
}

impl QType {
    /// The 16-bit wire code of this question type.
    pub open spec fn spec_code(self) -> u16 {
        match self {
            QType::Address => 1,
        }
    }

    /// The 16-bit wire code of this question type, executably.
    pub fn code(self) -> (c: u16)
        ensures
            c == self.spec_code(),
    {
        match self {
            QType::Address => 1,
        }
    }

    /// The question type a wire code denotes; any code outside the closed
    /// set is a decode failure, never a default.
    pub open spec fn spec_from_code(c: u16) -> Result<QType, DecodeError> {
        if c == 1 {
            Ok(QType::Address)
        } else {
            Err(DecodeError::UnrecognizedCode)
        }
    }

    /// Maps a wire code to its question type, executably.
    pub fn from_code(c: u16) -> (r: Result<QType, DecodeError>)
        ensures
            r == QType::spec_from_code(c),
    {
        if c == 1 {
            Ok(QType::Address)
        } else {
            Err(DecodeError::UnrecognizedCode)
        }
    }
}

/// The protocol class of a question or record. Only the internet class is in
/// scope.
#[derive(Debug, Clone, Copy, PartialEq, Eq, Structural)]
pub enum QClass {
    Internet,
}

impl QClass {
    /// The 16-bit wire code of this class.
    pub open spec fn spec_code(self) -> u16 {
        match self {
            QClass::Internet => 1,
        }
    }

    /// The 16-bit wire code of this class, executably.
    pub fn code(self) -> (c: u16)
        ensures
            c == self.spec_code(),
    {
        match self {
            QClass::Internet => 1,
        }
    }

    /// The class a wire code denotes; any code outside the closed set is a
    /// decode failure, never a default.
    pub open spec fn spec_from_code(c: u16) -> Result<QClass, DecodeError> {
        if c == 1 {
            Ok(QClass::Internet)
        } else {
            Err(DecodeError::UnrecognizedCode)
        }
    }

    /// Maps a wire code to its class, executably.
    pub fn from_code(c: u16) -> (r: Result<QClass, DecodeError>)
        ensures
            r == QClass::spec_from_code(c),
    {
        if c == 1 {
            Ok(QClass::Internet)
        } else {
            Err(DecodeError::UnrecognizedCode)
        }
    }
}

/// One question of a message: a domain name as its label strings, with the
/// wanted record type and class.
#[derive(Debug, Clone, PartialEq, Eq)]
pub struct Question {
    pub name: Vec<String>,
    pub qtype: QType,
    pub qclass: QClass,
}

/// The mathematical shape of a question: its labels as character sequences,
/// with the type and class tags.
#[verifier::ext_equal]
pub ghost struct QuestionView {
    pub name: Seq<Seq<char>>,
    pub qtype: QType,
    pub qclass: QClass,
}

impl View for Question {
    type V = QuestionView;

    open spec fn view(&self) -> QuestionView {
        QuestionView { name: self.name.deep_view(), qtype: self.qtype, qclass: self.qclass }
    }
}

impl DeepView for Question {
    type V = QuestionView;

    open spec fn deep_view(&self) -> QuestionView {
        self.view()
    }
}

/// The wire form of a question: the name, then the type and class codes.
pub open spec fn spec_question_wire(q: Question) -> Seq<u8> {
    spec_name_wire(q.name.deep_view()) + u16_be_bytes(q.qtype.spec_code()) + u16_be_bytes(
        q.qclass.spec_code(),
    )
}

/// The question a byte buffer starts with and how many bytes it spans, or
/// why it cannot be read: first the name is decoded, then the type code,
/// then the class code, each failing with truncated input when its bytes are
/// missing and with an unrecognized code when outside the closed sets.
pub open spec fn spec_parse_question(b: Seq<u8>) -> Result<(QuestionView, int), DecodeError> {
    match spec_parse_name(b) {
        Err(e) => Err(e),
        Ok((labels, used)) => {
            if b.len() < used + 2 {
                Err(DecodeError::TruncatedInput)
            } else {
                match QType::spec_from_code(u16_from_be(b[used], b[used + 1])) {
                    Err(e) => Err(e),
                    Ok(qtype) => {
                        if b.len() < used + 4 {
                            Err(DecodeError::TruncatedInput)
                        } else {
                            match QClass::spec_from_code(u16_from_be(b[used + 2], b[used + 3])) {
                                Err(e) => Err(e),
                                Ok(qclass) => Ok(
                                    (QuestionView { name: labels, qtype, qclass }, used + 4),
                                ),
                            }
                        }
                    },
                }
            }
        },
    }
}

impl Question {
    /// Encodes the question: the label-encoded name, then the 16-bit type
    /// and class codes, big-endian.
    pub fn serialize(self) -> (r: Vec<u8>)
        requires
            valid_name(self.name.deep_view()),
        ensures
            r@ == spec_question_wire(self),
    {
        let mut out: Vec<u8> = Vec::new();
        encode_name(&self.name, &mut out);
        push_u16_be(&mut out, self.qtype.code());
        push_u16_be(&mut out, self.qclass.code());
        assert(out@ =~= spec_question_wire(self));
        out
    }

    /// Decodes one question from the front of `bytes`, returning it and the
    /// number of bytes it spans.
    pub fn parse(bytes: &[u8]) -> (r: Result<(Question, usize), DecodeError>)
        ensures
            r matches Ok((q, used)) ==> spec_parse_question(bytes@) == Ok::<_, DecodeError>(
                (q@, used as int),
            ) && used <= bytes@.len(),
            r matches Err(e) ==> spec_parse_question(bytes@) == Err::<(QuestionView, int), _>(e),
    {
        let (name, used) = match parse_name(bytes) {
            Ok(p) => p,
            Err(e) => {
                return Err(e);
            },
        };
        if bytes.len() - used < 2 {
            return Err(DecodeError::TruncatedInput);
        }
        let qt_code = be_u16(bytes[used], bytes[used + 1]);
        let qtype = match QType::from_code(qt_code) {
            Ok(t) => t,
            Err(e) => {
                return Err(e);
            },
        };
        if bytes.len() - used < 4 {
            return Err(DecodeError::TruncatedInput);
        }
        let qc_code = be_u16(bytes[used + 2], bytes[used + 3]);
        let qclass = match QClass::from_code(qc_code) {
            Ok(c) => c,
            Err(e) => {
                return Err(e);
            },
        };
        Ok((Question { name, qtype, qclass }, used + 4))
    }
}

/// Parsing a buffer that begins with a question's wire form yields that
/// question and consumes exactly its wire form, whatever bytes follow it.
pub proof fn lemma_parse_question_frame(q: Question, rest: Seq<u8>)
    requires
        valid_name(q.name.deep_view()),
    ensures
        spec_parse_question(spec_question_wire(q) + rest) == Ok::<_, DecodeError>(
            (q@, spec_question_wire(q).len() as int),
        ),
{
    let nv = q.name.deep_view();
    let nw = spec_name_wire(nv);
    let ta = u16_be_bytes(q.qtype.spec_code());
    let ca = u16_be_bytes(q.qclass.spec_code());
    let w = spec_question_wire(q);
    let b = w + rest;
    assert(b =~= nw + (ta + ca + rest));
    lemma_parse_name_frame(nv, ta + ca + rest);
    assert(spec_parse_name(b) == Ok::<_, DecodeError>((nv, nw.len() as int)));
    let used = nw.len() as int;
    assert(w.len() == nw.len() + 4);
    assert(b[used] == ta[0]);
    assert(b[used + 1] == ta[1]);
    assert(b[used + 2] == ca[0]);
    assert(b[used + 3] == ca[1]);
    lemma_u16_be_round_trip(q.qtype.spec_code());
    lemma_u16_be_round_trip(q.qclass.spec_code());
    assert(QType::spec_from_code(q.qtype.spec_code()) == Ok::<QType, DecodeError>(q.qtype));
    assert(QClass::spec_from_code(q.qclass.spec_code()) == Ok::<QClass, DecodeError>(q.qclass));
    assert(spec_parse_question(b) == Ok::<_, DecodeError>((q@, w.len() as int)));
}

/// The pieces of a character sequence between its dots: one piece when there
/// is no dot; a dot at either end or two dots in a row yield an empty piece,
/// exactly as the in-memory name keeps them.
pub open spec fn spec_split_labels(s: Seq<char>) -> Seq<Seq<char>>
    decreases s.len(),
{
    if s.len() == 0 {
        seq![Seq::<char>::empty()]
    } else if s[0] == '.' {
        seq![Seq::<char>::empty()] + spec_split_labels(s.drop_first())
    } else {
        let rest = spec_split_labels(s.drop_first());
        seq![seq![s[0]] + rest[0]] + rest.drop_first()
    }
}

/// A sequence without dots splits into just itself.
proof fn lemma_split_no_dot(t: Seq<char>)
    requires
        forall|j: int| 0 <= j < t.len() ==> t[j] != '.',
    ensures
        spec_split_labels(t) == seq![t],
    decreases t.len(),
{
    if t.len() == 0 {
        assert(t =~= Seq::<char>::empty());
        assert(spec_split_labels(t) =~= seq![t]);
    } else {
        let d = t.drop_first();
        lemma_split_no_dot(d);
        let rest = spec_split_labels(d);
        assert(rest[0] == d);
        assert(rest.drop_first() =~= Seq::<Seq<char>>::empty());
        assert(seq![t[0]] + d =~= t);
        assert(spec_split_labels(t) =~= seq![t]);
    }
}

/// Splitting at the first dot peels off the piece before it.
proof fn lemma_split_at_dot(t: Seq<char>, k: int)
    requires
        0 <= k < t.len(),
        t[k] == '.',
        forall|j: int| 0 <= j < k ==> t[j] != '.',
    ensures
        spec_split_labels(t) == seq![t.take(k)] + spec_split_labels(t.skip(k + 1)),
    decreases k,
{
    if k == 0 {
        assert(t.take(0) =~= Seq::<char>::empty());
        assert(t.skip(1) =~= t.drop_first());
        assert(spec_split_labels(t) =~= seq![t.take(0)] + spec_split_labels(t.skip(1)));
    } else {
        let d = t.drop_first();
        lemma_split_at_dot(d, k - 1);
        let rest = spec_split_labels(d);
        assert(rest == seq![d.take(k - 1)] + spec_split_labels(d.skip(k)));
        assert(rest[0] == d.take(k - 1));
        assert(rest.drop_first() =~= spec_split_labels(d.skip(k)));
        assert(d.skip(k) =~= t.skip(k + 1));
        assert(seq![t[0]] + d.take(k - 1) =~= t.take(k));
        assert(spec_split_labels(t) =~= seq![t.take(k)] + spec_split_labels(t.skip(k + 1)));
    }
}

/// Splits a domain string into the label strings between its dots.
fn split_labels(domain: &str) -> (labels: Vec<String>)
    ensures
        labels.deep_view() == spec_split_labels(domain@),
{
    let n = domain.unicode_len();
    let mut labels: Vec<String> = Vec::new();
    proof {
        assert(labels.deep_view() =~= Seq::<Seq<char>>::empty());
        assert(domain@.skip(0) =~= domain@);
        assert(labels.deep_view() + spec_split_labels(domain@) =~= spec_split_labels(domain@));
    }
    let mut start: usize = 0;
    let mut i: usize = 0;
    while i < n
        invariant
            n == domain@.len(),
            0 <= start <= i <= n,
            spec_split_labels(domain@) == labels.deep_view() + spec_split_labels(
                domain@.skip(start as int),
            ),
            forall|j: int| start <= j < i ==> domain@[j] != '.',
        decreases n - i,
    {
        let c = domain.get_char(i);
        if c == '.' {
            let piece = domain.substring_char(start, i);
            let label = piece.to_owned();
            let ghost pre = labels.deep_view();
            labels.push(label);
            proof {
                let t = domain@.skip(start as int);
                lemma_split_at_dot(t, i - start);
                assert(t.take(i - start) =~= domain@.subrange(start as int, i as int));
                assert(t.skip(i - start + 1) =~= domain@.skip(i + 1));
                assert(labels.deep_view() =~= pre + seq![label@]);
                assert((pre + seq![label@]) + spec_split_labels(domain@.skip(i + 1))
                    =~= pre + (seq![label@] + spec_split_labels(domain@.skip(i + 1))));
                assert(spec_split_labels(domain@) == labels.deep_view() + spec_split_labels(
                    domain@.skip(i + 1),
                ));
            }
            start = i + 1;
        }
        i = i + 1;
    }
    let piece = domain.substring_char(start, n);
    let label = piece.to_owned();
    let ghost pre = labels.deep_view();
    labels.push(label);
    proof {
        let t = domain@.skip(start as int);
        lemma_split_no_dot(t);
        assert(t =~= domain@.subrange(start as int, n as int));
        assert(labels.deep_view() =~= pre + seq![label@]);
        assert(labels.deep_view() =~= pre + spec_split_labels(t));
    }
    labels
}

/// Builds the query message that asks for the address records of `domain`:
/// a fixed client-chosen transaction id, recursion desired, one question
/// whose name is the domain split at its dots, and empty counts elsewhere.
///
/// The query's `qr` flag is false — the wire convention keeps the bit as
/// transmitted, and a clear bit marks a query.
pub fn create_question(domain: String) -> (p: Packet)
    ensures
        p.header == (Header {
            id: 0x1337,
            qr: false,
            opcode: Opcode::Standard,
            aa: false,
            tc: false,
            rd: true,
            ra: false,
            rcode: RCode::NoError,
            qdcount: 1,
            ancount: 0,
            nscount: 0,
            arcount: 0,
        }),
        p.questions@.len() == 1,
        p.questions@[0].name.deep_view() == spec_split_labels(domain@),
        p.questions@[0].qtype == QType::Address,
        p.questions@[0].qclass == QClass::Internet,
        p.answers@.len() == 0,
{
    let header = Header {
        id: 0x1337,
        qr: false,
        opcode: Opcode::Standard,
        aa: false,
        tc: false,
        rd: true,
        ra: false,
        rcode: RCode::NoError,
        qdcount: 1,
        ancount: 0,
        nscount: 0,
        arcount: 0,
    };
    let name = split_labels(domain.as_str());
    let q = Question { name, qtype: QType::Address, qclass: QClass::Internet };
    let mut questions: Vec<Question> = Vec::new();
    questions.push(q);
    let answers: Vec<crate::answer::Answer> = Vec::new();
    Packet { header, questions, answers }
}

} // verus!
