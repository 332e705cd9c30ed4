use crate::errors::DecodeError;
use crate::wire::{be_u16, lemma_u16_be_round_trip, push_u16_be, u16_from_be, u16_hi, u16_lo};
use vstd::prelude::*;

verus! {

/// Length in bytes of the fixed message header.
pub const HEADER_SIZE: usize = 12;

/// The kind of query a message carries. Only standard queries are in scope.
#[derive(Debug, Clone, Copy, PartialEq, Eq, Structural)]
pub enum Opcode {
    Standard,
}

impl Opcode {
    /// The 4-bit wire code of this opcode.
    pub open spec fn spec_code(self) -> u8 {
        match self {
            Opcode::Standard => 0,
        }
    }

    /// The 4-bit wire code of this opcode, executably.
    pub fn code(self) -> (c: u8)
        ensures
            c == self.spec_code(),
    {
        match self {
            Opcode::Standard => 0,
        }
    }

    /// The opcode a 4-bit wire code denotes; any code outside the closed set
    /// is a decode failure, never a default.
    pub open spec fn spec_from_code(c: u8) -> Result<Opcode, DecodeError> {
        if c == 0 {
            Ok(Opcode::Standard)
        } else {
            Err(DecodeError::UnrecognizedCode)
        }
    }

    /// Maps a 4-bit wire code to its opcode, executably.
    pub fn from_code(c: u8) -> (r: Result<Opcode, DecodeError>)
        ensures
            r == Opcode::spec_from_code(c),
    {
        if c == 0 {
            Ok(Opcode::Standard)
        } else {
            Err(DecodeError::UnrecognizedCode)
        }
    }
}

/// A response's status code.
#[derive(Debug, Clone, Copy, PartialEq, Eq, Structural)]
pub enum RCode {
    NoError,
    FormatError,
    ServerFailure,
    NameError,
    NotImplemented,
    Refused,
}

impl RCode {
    /// The 4-bit wire code of this response status.
    pub open spec fn spec_code(self) -> u8 {
        match self {
            RCode::NoError => 0,
            RCode::FormatError => 1,
            RCode::ServerFailure => 2,
            RCode::NameError => 3,
            RCode::NotImplemented => 4,
            RCode::Refused => 5,
        }
    }

    /// The 4-bit wire code of this response status, executably.
    pub fn code(self) -> (c: u8)
        ensures
            c == self.spec_code(),
    {
        match self {
            RCode::NoError => 0,
            RCode::FormatError => 1,
            RCode::ServerFailure => 2,
            RCode::NameError => 3,
            RCode::NotImplemented => 4,
            RCode::Refused => 5,
        }
    }

    /// The response status a 4-bit wire code denotes; any code outside the
    /// closed set is a decode failure, never a default.
    pub open spec fn spec_from_code(c: u8) -> Result<RCode, DecodeError> {
        if c == 0 {
            Ok(RCode::NoError)
        } else if c == 1 {
            Ok(RCode::FormatError)
        } else if c == 2 {
            Ok(RCode::ServerFailure)
        } else if c == 3 {
            Ok(RCode::NameError)
        } else if c == 4 {
            Ok(RCode::NotImplemented)
        } else if c == 5 {
            Ok(RCode::Refused)
        } else {
            Err(DecodeError::UnrecognizedCode)
        }
    }

    /// Maps a 4-bit wire code to its response status, executably.
    pub fn from_code(c: u8) -> (r: Result<RCode, DecodeError>)
        ensures
            r == RCode::spec_from_code(c),
    {
        if c == 0 {
            Ok(RCode::NoError)
        } else if c == 1 {
            Ok(RCode::FormatError)
        } else if c == 2 {
            Ok(RCode::ServerFailure)
        } else if c == 3 {
            Ok(RCode::NameError)
        } else if c == 4 {
            Ok(RCode::NotImplemented)
        } else if c == 5 {
            Ok(RCode::Refused)
        } else {
            Err(DecodeError::UnrecognizedCode)
        }
    }
}

/// The fixed 12-byte message header.
///
/// Bit convention, byte 2 of the wire form: bit 7 is `qr` (set on a
/// response, clear on a query), bits 6..3 the opcode, bit 2 `aa`, bit 1 `tc`,
/// bit 0 `rd`. Byte 3: bit 7 is `ra`, bits 3..0 the rcode, bits 6..4 written
/// as zero and ignored on decode. Encode and decode use the same convention,
/// so every flag bit round-trips.
#[derive(Debug, Clone, Copy, PartialEq, Eq, Structural)]
pub struct Header {
    pub id: u16,
    pub qr: bool,
    pub opcode: Opcode,
    pub aa: bool,
    pub tc: bool,
    pub rd: bool,
    pub ra: bool,
    pub rcode: RCode,
    pub qdcount: u16,
    pub ancount: u16,
    pub nscount: u16,
    pub arcount: u16,
}

/// Byte 2 of the wire form: qr bit, opcode, aa, tc and rd bits.
pub open spec fn flags_hi_byte(h: Header) -> u8 {
    ((if h.qr {
        128int
    } else {
        0
    }) + h.opcode.spec_code() * 8 + (if h.aa {
        4int
    } else {
        0
    }) + (if h.tc {
        2int
    } else {
        0
    }) + (if h.rd {
        1int
    } else {
        0
    })) as u8
}

/// Byte 3 of the wire form: ra bit and rcode, reserved bits zero.
pub open spec fn flags_lo_byte(h: Header) -> u8 {
    ((if h.ra {
        128int
    } else {
        0
    }) + h.rcode.spec_code()) as u8
}

/// The exact 12 bytes a header encodes to.
pub open spec fn spec_header_bytes(h: Header) -> Seq<u8> {
    seq![
        u16_hi(h.id),
        u16_lo(h.id),
        flags_hi_byte(h),
        flags_lo_byte(h),
        u16_hi(h.qdcount),
        u16_lo(h.qdcount),
        u16_hi(h.ancount),
        u16_lo(h.ancount),
        u16_hi(h.nscount),
        u16_lo(h.nscount),
        u16_hi(h.arcount),
        u16_lo(h.arcount),
    ]
}

/// The header a byte buffer decodes to, or why it does not: fewer than 12
/// bytes are truncated input, and an opcode or rcode outside the closed sets
/// is an unrecognized code (checked in that order).
pub open spec fn spec_parse_header(b: Seq<u8>) -> Result<Header, DecodeError> {
    if b.len() < 12 {
        Err(DecodeError::TruncatedInput)
    } else {
        match Opcode::spec_from_code(b[2] / 8 % 16) {
            Err(e) => Err(e),
            Ok(opcode) => match RCode::spec_from_code(b[3] % 16) {
                Err(e) => Err(e),
                Ok(rcode) => Ok(
                    Header {
                        id: u16_from_be(b[0], b[1]),
                        qr: b[2] >= 128,
                        opcode,
                        aa: b[2] / 4 % 2 == 1,
                        tc: b[2] / 2 % 2 == 1,
                        rd: b[2] % 2 == 1,
                        ra: b[3] >= 128,
                        rcode,
                        qdcount: u16_from_be(b[4], b[5]),
                        ancount: u16_from_be(b[6], b[7]),
                        nscount: u16_from_be(b[8], b[9]),
                        arcount: u16_from_be(b[10], b[11]),
                    },
                ),
            },
        }
    }
}

impl Header {
    /// Encodes the header to its exact 12-byte wire form. Never fails.
    pub fn serialize(self) -> (r: Vec<u8>)
        ensures
            r@ == spec_header_bytes(self),
            r@.len() == HEADER_SIZE,
    {
        let mut out: Vec<u8> = Vec::new();
        push_u16_be(&mut out, self.id);
        let mut b2: u8 = self.opcode.code() * 8;
        if self.qr {
            b2 = b2 + 128;
        }
        if self.aa {
            b2 = b2 + 4;
        }
        if self.tc {
            b2 = b2 + 2;
        }
        if self.rd {
            b2 = b2 + 1;
        }
        out.push(b2);
        let mut b3: u8 = self.rcode.code();
        if self.ra {
            b3 = b3 + 128;
        }
        out.push(b3);
        push_u16_be(&mut out, self.qdcount);
        push_u16_be(&mut out, self.ancount);
        push_u16_be(&mut out, self.nscount);
        push_u16_be(&mut out, self.arcount);
        assert(out@ =~= spec_header_bytes(self));
        out
    }

    /// Decodes the first 12 bytes of `bytes` as a header.
    pub fn parse(bytes: &[u8]) -> (r: Result<Header, DecodeError>)
        ensures
            r == spec_parse_header(bytes@),
    {
        if bytes.len() < 12 {
            return Err(DecodeError::TruncatedInput);
        }
        let b2 = bytes[2];
        let b3 = bytes[3];
        let opcode = match Opcode::from_code(b2 / 8 % 16) {
            Ok(o) => o,
            Err(e) => {
                return Err(e);
            },
        };
        let rcode = match RCode::from_code(b3 % 16) {
            Ok(c) => c,
            Err(e) => {
                return Err(e);
            },
        };
        Ok(
            Header {
                id: be_u16(bytes[0], bytes[1]),
                qr: b2 >= 128,
                opcode,
                aa: b2 / 4 % 2 == 1,
                tc: b2 / 2 % 2 == 1,
                rd: b2 % 2 == 1,
                ra: b3 >= 128,
                rcode,
                qdcount: be_u16(bytes[4], bytes[5]),
                ancount: be_u16(bytes[6], bytes[7]),
                nscount: be_u16(bytes[8], bytes[9]),
                arcount: be_u16(bytes[10], bytes[11]),
            },
        )
    }
}

/// Splitting byte 2 back into its fields undoes the sum that built it.
proof fn lemma_flags_hi_bits(x: u8, q: u8, oc: u8, a: u8, t: u8, r: u8)
    requires
        q <= 1,
        oc == 0,
        a <= 1,
        t <= 1,
        r <= 1,
        x == q * 128 + oc * 8 + a * 4 + t * 2 + r,
    ensures
        (x >= 128) == (q == 1),
        x / 8 % 16 == oc,
        x / 4 % 2 == a,
        x / 2 % 2 == t,
        x % 2 == r,
{
    assert((x >= 128) == (q == 1) && x / 8 % 16 == oc && x / 4 % 2 == a && x / 2 % 2 == t && x % 2
        == r) by (bit_vector)
        requires
            q <= 1,
            oc == 0,
            a <= 1,
            t <= 1,
            r <= 1,
            x == q * 128 + oc * 8 + a * 4 + t * 2 + r,
    ;
}

/// Splitting byte 3 back into its fields undoes the sum that built it.
proof fn lemma_flags_lo_bits(x: u8, q: u8, c: u8)
    requires
        q <= 1,
        c <= 15,
        x == q * 128 + c,
    ensures
        (x >= 128) == (q == 1),
        x % 16 == c,
{
    assert((x >= 128) == (q == 1) && x % 16 == c) by (bit_vector)
        requires
            q <= 1,
            c <= 15,
            x == q * 128 + c,
    ;
}

/// Parsing a buffer that begins with a header's 12 bytes yields that header
/// again, whatever bytes follow them.
pub proof fn lemma_parse_header_frame(h: Header, rest: Seq<u8>)
    ensures
        spec_parse_header(spec_header_bytes(h) + rest) == Ok::<Header, DecodeError>(h),
{
    let b = spec_header_bytes(h) + rest;
    assert(b.len() >= 12);
    lemma_u16_be_round_trip(h.id);
    lemma_u16_be_round_trip(h.qdcount);
    lemma_u16_be_round_trip(h.ancount);
    lemma_u16_be_round_trip(h.nscount);
    lemma_u16_be_round_trip(h.arcount);
    lemma_flags_hi_bits(
        flags_hi_byte(h),
        if h.qr {
            1
        } else {
            0
        },
        h.opcode.spec_code(),
        if h.aa {
            1
        } else {
            0
        },
        if h.tc {
            1
        } else {
            0
        },
        if h.rd {
            1
        } else {
            0
        },
    );
    lemma_flags_lo_bits(
        flags_lo_byte(h),
        if h.ra {
            1
        } else {
            0
        },
        h.rcode.spec_code(),
    );
}

/// Header round trip: decoding the 12 bytes a header encodes to yields that
/// header again, for every combination of id, flag bits, opcode, rcode and
/// counts.
pub proof fn lemma_header_round_trip(h: Header)
    ensures
        spec_parse_header(spec_header_bytes(h)) == Ok::<Header, DecodeError>(h),
{
    lemma_parse_header_frame(h, Seq::empty());
    assert(spec_header_bytes(h) + Seq::<u8>::empty() =~= spec_header_bytes(h));
}

} // verus!
