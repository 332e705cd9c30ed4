use vstd::prelude::*;

verus! {

/// Why a byte buffer could not be decoded into a message or one of its parts.
///
/// Every decoder of this crate reports failure through this type; none
/// panics on any input.
#[derive(Debug, Clone, Copy, PartialEq, Eq, Structural)]
pub enum DecodeError {
    /// Fewer bytes were available than the next field requires.
    TruncatedInput,
    /// A name label is not valid UTF-8.
    InvalidLabel,
    /// An opcode, rcode, qtype, qclass or answer-type value lies outside the
    /// closed set this codec understands.
    UnrecognizedCode,
    /// An answer record's name is not a compression pointer.
    UnsupportedNameForm,
    /// An answer record's rdlength is not the 4 bytes of an address.
    UnsupportedRecordShape,
}

} // verus!
