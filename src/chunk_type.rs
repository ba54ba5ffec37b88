use vstd::prelude::*;

use crate::error::PngError;

verus! {

/// Bit 5 (0x20) of a type byte is the flag bit; it is clear in upper-case letters.
pub open spec fn flag_clear(b: u8) -> bool {
    b & 0x20u8 == 0
}

pub open spec fn is_letter_byte(b: u8) -> bool {
    (65 <= b <= 90) || (97 <= b <= 122)
}

pub open spec fn is_letter(c: char) -> bool {
    ('A' <= c <= 'Z') || ('a' <= c <= 'z')
}

/// A type code that may be built from text: four ASCII letters, the third upper-case.
pub open spec fn valid_type_text(t: Seq<char>) -> bool {
    &&& t.len() == 4
    &&& forall|i: int| 0 <= i < 4 ==> is_letter(#[trigger] t[i])
    &&& 'A' <= t[2] <= 'Z'
}

/// Four letters with the reserved bit clear.
pub open spec fn valid_type_bytes(b: Seq<u8>) -> bool {
    &&& b.len() == 4
    &&& forall|i: int| 0 <= i < 4 ==> is_letter_byte(#[trigger] b[i])
    &&& flag_clear(b[2])
}

/// The text of a type code: each byte shown as the character of that code.
pub open spec fn type_text(b: Seq<u8>) -> Seq<char> {
    b.map_values(|x: u8| x as char)
}

/// The bytes of a text whose characters are all below 256.
pub open spec fn text_bytes(t: Seq<char>) -> Seq<u8> {
    t.map_values(|c: char| c as u8)
}

/// A four-byte chunk type code.
#[derive(Clone, Copy, Debug, PartialEq, Eq)]
pub struct ChunkType {
    bytes: [u8; 4],
}

impl View for ChunkType {
    type V = Seq<u8>;

    closed spec fn view(&self) -> Seq<u8> {
        self.bytes@
    }
}

/// Relies on `String`'s `FromIterator<char>`: the string holds the characters in order.
#[verifier::external_body]
fn string_from_chars(v: Vec<char>) -> (r: String)
    ensures
        r@ == v@,
{
    v.into_iter().collect()
}

proof fn lemma_letter_flag(b: u8)
    requires
        is_letter_byte(b),
    ensures
        flag_clear(b) <==> 65 <= b <= 90,
{
    assert(is_letter_byte(b) ==> (b & 0x20u8 == 0 <==> 65 <= b <= 90)) by (bit_vector);
}

impl ChunkType {
    /// Every type code has four bytes.
    pub proof fn lemma_len(self)
        ensures
            self@.len() == 4,
    {
    }

    /// Takes any four bytes as they are, as when reading an existing file.
    pub fn from_bytes(bytes: [u8; 4]) -> (r: ChunkType)
        ensures
            r@ == bytes@,
    {
        ChunkType { bytes }
    }

    /// Builds a type code from text: four ASCII letters whose third is upper-case.
    pub fn from_text(s: &str) -> (r: Result<ChunkType, PngError>)
        ensures
            r is Ok <==> valid_type_text(s@),
            r matches Ok(t) ==> type_text(t@) == s@ && t@ == text_bytes(s@) && valid_type_bytes(t@),
            r matches Err(e) ==> e == PngError::InvalidFormat,
    {
        if s.unicode_len() != 4 {
            return Err(PngError::InvalidFormat);
        }
        let mut bytes: [u8; 4] = [0u8; 4];
        let mut i: usize = 0;
        while i < 4
            invariant
                s@.len() == 4,
                i <= 4,
                forall|j: int| 0 <= j < i ==> is_letter(#[trigger] s@[j]),
                forall|j: int| 0 <= j < i ==> is_letter_byte(#[trigger] bytes@[j]),
                forall|j: int| 0 <= j < i ==> (#[trigger] bytes@[j]) as char == s@[j],
                forall|j: int| 0 <= j < i ==> (#[trigger] bytes@[j]) == s@[j] as u8,
            decreases 4 - i,
        {
            let c = s.get_char(i);
            if !(('A' <= c && c <= 'Z') || ('a' <= c && c <= 'z')) {
                return Err(PngError::InvalidFormat);
            }
            bytes[i] = c as u8;
            i = i + 1;
        }
        let t = ChunkType { bytes };
        proof {
            lemma_letter_flag(bytes@[2]);
            assert(type_text(t@) =~= s@);
            assert(t@ =~= text_bytes(s@));
        }
        if !t.is_reserved_bit_valid() {
            return Err(PngError::InvalidFormat);
        }
        Ok(t)
    }

    /// The four bytes.
    pub fn bytes(&self) -> (r: [u8; 4])
        ensures
            r@ == self@,
    {
        self.bytes
    }

    /// Four ASCII letters with the reserved bit clear.
    pub fn is_valid(&self) -> (r: bool)
        ensures
            r == valid_type_bytes(self@),
    {
        let mut i: usize = 0;
        while i < 4
            invariant
                i <= 4,
                forall|j: int| 0 <= j < i ==> is_letter_byte(#[trigger] self@[j]),
            decreases 4 - i,
        {
            let b = self.bytes[i];
            if !((65 <= b && b <= 90) || (97 <= b && b <= 122)) {
                return false;
            }
            i = i + 1;
        }
        self.is_reserved_bit_valid()
    }

    /// The flag of the first byte is clear: the chunk is critical.
    pub fn is_critical(&self) -> (r: bool)
        ensures
            r == flag_clear(self@[0]),
    {
        self.bytes[0] & 0x20 == 0
    }

    /// The flag of the second byte is clear: the chunk is public.
    pub fn is_public(&self) -> (r: bool)
        ensures
            r == flag_clear(self@[1]),
    {
        self.bytes[1] & 0x20 == 0
    }

    /// The flag of the third byte, which must be clear.
    pub fn is_reserved_bit_valid(&self) -> (r: bool)
        ensures
            r == flag_clear(self@[2]),
    {
        self.bytes[2] & 0x20 == 0
    }

    /// The flag of the fourth byte is set: the chunk is safe to copy.
    pub fn is_safe_to_copy(&self) -> (r: bool)
        ensures
            r == !flag_clear(self@[3]),
    {
        self.bytes[3] & 0x20 != 0
    }

    /// The code as text, one character per byte.
    pub fn to_string(&self) -> (r: String)
        ensures
            r@ == type_text(self@),
    {
        let mut v: Vec<char> = Vec::new();
        let mut i: usize = 0;
        while i < 4
            invariant
                i <= 4,
                v@ == type_text(self@).take(i as int),
            decreases 4 - i,
        {
            v.push(self.bytes[i] as char);
            i = i + 1;
            assert(v@ =~= type_text(self@).take(i as int));
        }
        assert(v@ =~= type_text(self@));
        string_from_chars(v)
    }
}

} // verus!
