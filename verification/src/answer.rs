use crate::errors::DecodeError;
use crate::question::QClass;
use crate::wire::{be_u16, be_u32, u16_from_be, u32_from_be};
use vstd::prelude::*;

verus! {

/// The record type of an answer: an address, or a canonical-name tag. Only
/// address data is decoded into structured form.
#[derive(Debug, Clone, Copy, PartialEq, Eq, Structural)]
pub enum AType {
    Address,
    CanonicalName,
}

impl AType {
    /// The 16-bit wire code of this record type.
    pub open spec fn spec_code(self) -> u16 {
        match self {
            AType::Address => 1,
            AType::CanonicalName => 5,
        }
    }

    /// The 16-bit wire code of this record type, executably.
    pub fn code(self) -> (c: u16)
        ensures
            c == self.spec_code(),
    {
        match self {
            AType::Address => 1,
            AType::CanonicalName => 5,
        }
    }

    /// The record type a wire code denotes; any code outside the closed set
    /// is a decode failure, never a default.
    pub open spec fn spec_from_code(c: u16) -> Result<AType, DecodeError> {
        if c == 1 {
            Ok(AType::Address)
        } else if c == 5 {
            Ok(AType::CanonicalName)
        } else {
            Err(DecodeError::UnrecognizedCode)
        }
    }

    /// Maps a wire code to its record type, executably.
    pub fn from_code(c: u16) -> (r: Result<AType, DecodeError>)
        ensures
            r == AType::spec_from_code(c),
    {
        if c == 1 {
            Ok(AType::Address)
        } else if c == 5 {
            Ok(AType::CanonicalName)
        } else {
            Err(DecodeError::UnrecognizedCode)
        }
    }
}

/// One answer record of a response: type, class, time-to-live, the declared
/// data length, and the four address bytes. Answers are only ever produced
/// by parsing; this codec never serializes them.
#[derive(Debug, Clone, PartialEq, Eq)]
pub struct Answer {
    pub atype: AType,
    pub class: QClass,
    pub ttl: u32,
    pub rdlength: u16,
    pub ip: Vec<u8>,
}

/// The mathematical shape of an answer record.
#[verifier::ext_equal]
pub ghost struct AnswerView {
    pub atype: AType,
    pub class: QClass,
    pub ttl: u32,
    pub rdlength: u16,
    pub ip: Seq<u8>,
}

impl View for Answer {
    type V = AnswerView;

    open spec fn view(&self) -> AnswerView {
        AnswerView {
            atype: self.atype,
            class: self.class,
            ttl: self.ttl,
            rdlength: self.rdlength,
            ip: self.ip@,
        }
    }
}

impl DeepView for Answer {
    type V = AnswerView;

    open spec fn deep_view(&self) -> AnswerView {
        self.view()
    }
}

/// The answer record a byte buffer starts with, or why it cannot be read.
///
/// The record must open with a two-byte compression pointer — first byte
/// with both top bits set, so at least 192 — else the name form is
/// unsupported; a literal name in an answer is out of scope. Then come the
/// type, class, ttl and rdlength fields; rdlength must be 4, the bytes of
/// one address, else the record shape is unsupported, and the four data
/// bytes are never touched. The reported span is 14 bytes — the pointer and
/// the fixed fields — the profile this codec supports, though with the four
/// address bytes the record occupies 16.
pub open spec fn spec_parse_answer(b: Seq<u8>) -> Result<(AnswerView, int), DecodeError> {
    if b.len() < 1 {
        Err(DecodeError::TruncatedInput)
    } else if b[0] < 192 {
        Err(DecodeError::UnsupportedNameForm)
    } else if b.len() < 4 {
        Err(DecodeError::TruncatedInput)
    } else {
        match AType::spec_from_code(u16_from_be(b[2], b[3])) {
            Err(e) => Err(e),
            Ok(atype) => {
                if b.len() < 6 {
                    Err(DecodeError::TruncatedInput)
                } else {
                    match QClass::spec_from_code(u16_from_be(b[4], b[5])) {
                        Err(e) => Err(e),
                        Ok(class) => {
                            if b.len() < 12 {
                                Err(DecodeError::TruncatedInput)
                            } else {
                                let ttl = u32_from_be(b[6], b[7], b[8], b[9]);
                                let rdlength = u16_from_be(b[10], b[11]);
                                if rdlength != 4 {
                                    Err(DecodeError::UnsupportedRecordShape)
                                } else if b.len() < 16 {
                                    Err(DecodeError::TruncatedInput)
                                } else {
                                    Ok(
                                        (
                                            AnswerView {
                                                atype,
                                                class,
                                                ttl,
                                                rdlength,
                                                ip: b.subrange(12, 16),
                                            },
                                            14,
                                        ),
                                    )
                                }
                            }
                        },
                    }
                }
            },
        }
    }
}

impl Answer {
    /// Decodes one answer record from the front of `bytes`, returning it and
    /// its reported 14-byte span.
    pub fn parse(bytes: &[u8]) -> (r: Result<(Answer, usize), DecodeError>)
        ensures
            r matches Ok((a, used)) ==> spec_parse_answer(bytes@) == Ok::<_, DecodeError>(
                (a@, used as int),
            ) && used <= bytes@.len(),
            r matches Err(e) ==> spec_parse_answer(bytes@) == Err::<(AnswerView, int), _>(e),
    {
        if bytes.len() < 1 {
            return Err(DecodeError::TruncatedInput);
        }
        if bytes[0] < 192 {
            return Err(DecodeError::UnsupportedNameForm);
        }
        if bytes.len() < 4 {
            return Err(DecodeError::TruncatedInput);
        }
        let atype = match AType::from_code(be_u16(bytes[2], bytes[3])) {
            Ok(t) => t,
            Err(e) => {
                return Err(e);
            },
        };
        if bytes.len() < 6 {
            return Err(DecodeError::TruncatedInput);
        }
        let class = match QClass::from_code(be_u16(bytes[4], bytes[5])) {
            Ok(c) => c,
            Err(e) => {
                return Err(e);
            },
        };
        if bytes.len() < 12 {
            return Err(DecodeError::TruncatedInput);
        }
        let ttl = be_u32(bytes[6], bytes[7], bytes[8], bytes[9]);
        let rdlength = be_u16(bytes[10], bytes[11]);
        if rdlength != 4 {
            return Err(DecodeError::UnsupportedRecordShape);
        }
        if bytes.len() < 16 {
            return Err(DecodeError::TruncatedInput);
        }
        let mut ip: Vec<u8> = Vec::new();
        ip.push(bytes[12]);
        ip.push(bytes[13]);
        ip.push(bytes[14]);
        ip.push(bytes[15]);
        assert(ip@ =~= bytes@.subrange(12, 16));
        Ok((Answer { atype, class, ttl, rdlength, ip }, 14))
    }
}

} // verus!
