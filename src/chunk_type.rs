//! The four-byte type code of a chunk and the flags carried by its bytes.
use vstd::prelude::*;
use vstd::string::StringSliceAdditionalSpecFns;
use vstd::utf8::{decode_utf8, valid_utf8};
use crate::text::utf8_to_string;

verus! {

/// True iff `b` is an ASCII letter (`A`-`Z` or `a`-`z`).
pub open spec fn is_letter(b: u8) -> bool {
    (65 <= b && b <= 90) || (97 <= b && b <= 122)
}

/// True iff bit 5 (value 32) of `b` is clear.
pub open spec fn bit5_clear(b: u8) -> bool {
    b & 32u8 == 0
}

/// True iff every byte of `s` is an ASCII letter.
pub open spec fn all_letters(s: Seq<u8>) -> bool {
    forall|i: int| 0 <= i < s.len() ==> is_letter(#[trigger] s[i])
}

/// A chunk type code: four raw bytes, stored as given.
#[derive(Debug, Clone, Copy, PartialEq, Eq)]
pub struct ChunkType {
    bytes: [u8; 4],
}

/// Why a text cannot be taken as a chunk type, or a chunk type as text.
#[derive(Debug, Clone, Copy, PartialEq, Eq)]
pub enum ChunkTypeError {
    /// The text is not four bytes long; holds its length in bytes.
    UnexpectedLength(usize),
    /// A byte of the text is not an ASCII letter.
    InvalidCharacter,
    /// The type's bytes are not valid UTF-8 text.
    NotText,
}

impl View for ChunkType {
    type V = Seq<u8>;

    closed spec fn view(&self) -> Seq<u8> {
        self.bytes@
    }
}

impl ChunkType {
    /// True iff the type code is valid: four ASCII letters whose third has
    /// the reserved bit clear.
    pub open spec fn spec_is_valid(self) -> bool {
        all_letters(self@) && bit5_clear(self@[2])
    }

    /// Builds a type from four bytes, without any check.
    pub fn from_bytes(bytes: [u8; 4]) -> (r: ChunkType)
        ensures
            r@ == bytes@,
    {
        ChunkType { bytes }
    }

    /// Builds a type from four bytes, without any check: never fails.
    pub fn try_from(bytes: [u8; 4]) -> (r: Result<ChunkType, ChunkTypeError>)
        ensures
            r is Ok,
            r->Ok_0@ == bytes@,
    {
        Ok(ChunkType::from_bytes(bytes))
    }

    /// Builds a type from a four-letter text.
    pub fn from_str(s: &str) -> (r: Result<ChunkType, ChunkTypeError>)
        ensures
            s.spec_bytes().len() != 4 ==> r == Err::<ChunkType, ChunkTypeError>(
                ChunkTypeError::UnexpectedLength(s.spec_bytes().len() as usize),
            ),
            s.spec_bytes().len() == 4 && !all_letters(s.spec_bytes()) ==> r == Err::<
                ChunkType,
                ChunkTypeError,
            >(ChunkTypeError::InvalidCharacter),
            s.spec_bytes().len() == 4 && all_letters(s.spec_bytes()) ==> r is Ok
                && r->Ok_0@ == s.spec_bytes(),
    {
        let b = s.as_bytes();
        if b.len() != 4 {
            return Err(ChunkTypeError::UnexpectedLength(b.len()));
        }
        let bytes: [u8; 4] = [b[0], b[1], b[2], b[3]];
        assert(bytes@ =~= b@);
        let mut i: usize = 0;
        while i < 4
            invariant
                0 <= i <= 4,
                bytes@ == b@,
                b@ == s.spec_bytes(),
                b@.len() == 4,
                forall|j: int| 0 <= j < i ==> is_letter(#[trigger] bytes@[j]),
            decreases 4 - i,
        {
            if !is_ascii_letter(bytes[i]) {
                return Err(ChunkTypeError::InvalidCharacter);
            }
            i = i + 1;
        }
        Ok(ChunkType { bytes })
    }

    /// The four bytes of the type.
    pub fn bytes(&self) -> (r: [u8; 4])
        ensures
            r@ == self@,
    {
        self.bytes
    }

    /// True iff the type is valid: four ASCII letters, reserved bit clear.
    pub fn is_valid(&self) -> (r: bool)
        ensures
            r == self.spec_is_valid(),
    {
        let mut i: usize = 0;
        while i < 4
            invariant
                0 <= i <= 4,
                forall|j: int| 0 <= j < i ==> is_letter(#[trigger] self@[j]),
            decreases 4 - i,
        {
            if !is_ascii_letter(self.bytes[i]) {
                return false;
            }
            i = i + 1;
        }
        self.is_reserved_bit_valid()
    }

    /// Critical chunks have bit 5 of their first byte clear.
    pub fn is_critical(&self) -> (r: bool)
        ensures
            r == bit5_clear(self@[0]),
    {
        Self::is_bit5_zero(self.bytes[0])
    }

    /// Public chunks have bit 5 of their second byte clear.
    pub fn is_public(&self) -> (r: bool)
        ensures
            r == bit5_clear(self@[1]),
    {
        Self::is_bit5_zero(self.bytes[1])
    }

    /// The reserved bit, bit 5 of the third byte, must be clear.
    pub fn is_reserved_bit_valid(&self) -> (r: bool)
        ensures
            r == bit5_clear(self@[2]),
    {
        Self::is_bit5_zero(self.bytes[2])
    }

    /// Safe-to-copy chunks have bit 5 of their fourth byte set.
    pub fn is_safe_to_copy(&self) -> (r: bool)
        ensures
            r == !bit5_clear(self@[3]),
    {
        !Self::is_bit5_zero(self.bytes[3])
    }

    /// True iff bit 5 (value 32) of `byte` is clear.
    pub fn is_bit5_zero(byte: u8) -> (r: bool)
        ensures
            r == bit5_clear(byte),
    {
        byte & 32u8 == 0
    }

    /// The type as text; fails where its bytes are not valid UTF-8.
    pub fn to_string(&self) -> (r: Result<String, ChunkTypeError>)
        ensures
            valid_utf8(self@) <==> r is Ok,
            r is Ok ==> r->Ok_0@ == decode_utf8(self@),
            r is Err ==> r == Err::<String, ChunkTypeError>(ChunkTypeError::NotText),
    {
        let v: Vec<u8> = vec![self.bytes[0], self.bytes[1], self.bytes[2], self.bytes[3]];
        assert(v@ =~= self@);
        match utf8_to_string(v) {
            Some(s) => Ok(s),
            None => Err(ChunkTypeError::NotText),
        }
    }
}

/// True iff `b` is an ASCII letter.
fn is_ascii_letter(b: u8) -> (r: bool)
    ensures
        r == is_letter(b),
{
    (65 <= b && b <= 90) || (97 <= b && b <= 122)
}

impl std::convert::TryFrom<[u8; 4]> for ChunkType {
    type Error = ChunkTypeError;

    fn try_from(bytes: [u8; 4]) -> Result<ChunkType, ChunkTypeError> {
        Ok(ChunkType { bytes })
    }
}

impl vstd::std_specs::convert::TryFromSpecImpl<[u8; 4]> for ChunkType {
    open spec fn obeys_try_from_spec() -> bool {
        true
    }

    closed spec fn try_from_spec(bytes: [u8; 4]) -> Result<ChunkType, ChunkTypeError> {
        Ok(ChunkType { bytes })
    }
}

impl std::str::FromStr for ChunkType {
    type Err = ChunkTypeError;

    fn from_str(s: &str) -> Result<ChunkType, ChunkTypeError> {
        ChunkType::from_str(s)
    }
}

} // verus!
