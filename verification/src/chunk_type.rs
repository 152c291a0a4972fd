//! The four-byte type code of a chunk and the flags that the case of its letters holds.

use vstd::prelude::*;
use vstd::utf8::*;
use crate::text::string_from_utf8;
use crate::Error;
use regex::Regex;
use std::str::FromStr;

verus! {

/// True when bit 5 of `byte`, the bit of value 32, is set.
pub open spec fn fifth_bit(byte: u8) -> bool {
    byte / 32 % 2 == 1
}

/// True for the characters `A` to `Z` and `a` to `z`.
pub open spec fn is_ascii_letter(c: char) -> bool {
    ('A' <= c && c <= 'Z') || ('a' <= c && c <= 'z')
}

/// True when `text` is not empty and holds ASCII letters only.
pub open spec fn only_letters(text: Seq<char>) -> bool {
    text.len() > 0 && forall|i: int| 0 <= i < text.len() ==> is_ascii_letter(#[trigger] text[i])
}

/// True when `text` is four ASCII letters: when it is the text of a type code.
pub open spec fn four_letters(text: Seq<char>) -> bool {
    &&& text.len() == 4
    &&& is_ascii_letter(text[0])
    &&& is_ascii_letter(text[1])
    &&& is_ascii_letter(text[2])
    &&& is_ascii_letter(text[3])
}

/// The regular expression that the text of a type code has to match.
pub const LETTERS: &'static str = "^[a-zA-Z]+$";

/// Tells whether the regular expression `pattern` matches somewhere in `text`;
/// `None` if `pattern` is no regular expression.
///
/// Trusted: compiles `pattern` with `regex::Regex::new` and asks
/// `Regex::is_match`. The contract speaks of one pattern only, [`LETTERS`]: it
/// claims that `Regex::new` accepts it, and that it matches exactly the texts
/// made of one or more of the letters `a` to `z` and `A` to `Z` from the
/// first character to the last (`^` and `$` stand for the two ends of the
/// text, since multi-line mode is off).
#[verifier::external_body]
fn regex_is_match(pattern: &str, text: &str) -> (found: Option<bool>)
    ensures
        pattern@ == LETTERS@ ==> found == Some(only_letters(text@)),
{
    match Regex::new(pattern) {
        Ok(re) => Some(re.is_match(text)),
        Err(_) => None,
    }
}

/// Tells whether bit 5 of `byte` is set.
pub fn check_fifth_bit(byte: &u8) -> (set: bool)
    ensures
        set == fifth_bit(*byte),
{
    let b: u8 = *byte;
    let fifth: u8 = (b & (1 << 5)) >> 5;
    assert(((b & (1u8 << 5)) >> 5 == 1) <==> (b / 32 % 2 == 1)) by (bit_vector);
    fifth == 1
}

/// A chunk's type code: four bytes, by convention ASCII letters, each of which
/// holds one flag in its bit 5.
#[derive(Debug, PartialEq, Eq, Structural)]
pub struct ChunkType {
    ancillary: u8,
    private: u8,
    reserved: u8,
    safe_to_copy: u8,
}

impl View for ChunkType {
    type V = Seq<u8>;

    /// The four bytes of the code, in order.
    closed spec fn view(&self) -> Seq<u8> {
        seq![self.ancillary, self.private, self.reserved, self.safe_to_copy]
    }
}

impl FromStr for ChunkType {
    type Err = Error;

    /// Reads a type code from its text: four ASCII letters.
    fn from_str(input: &str) -> (r: Result<ChunkType, Error>)
        ensures
            r is Ok <==> four_letters(input@),
            r matches Ok(t) ==> t@ == input@.map_values(|c: char| c as u8) && ChunkType::valid(t@),
            r matches Ok(t) ==> t@ == encode_utf8(input@) && valid_utf8(t@) && decode_utf8(t@)
                == input@,
            r matches Err(e) ==> e == Error::FormatError,
    {
        proof {
            if only_letters(input@) {
                assert(is_ascii_chars(input@));
                is_ascii_chars_encode_utf8(input@);
                assert(encode_utf8(input@) =~= input@.map_values(|c: char| c as u8));
            }
            assert(four_letters(input@) <==> input@.len() == 4 && only_letters(input@));
            encode_utf8_valid_utf8(input@);
            encode_utf8_decode_utf8(input@);
        }
        if input.len() != 4 {
            return Err(Error::FormatError);
        }
        match regex_is_match(LETTERS, input) {
            Some(true) => {
                let bytes = input.as_bytes();
                let t = ChunkType {
                    ancillary: bytes[0],
                    private: bytes[1],
                    reserved: bytes[2],
                    safe_to_copy: bytes[3],
                };
                assert(t@ =~= bytes@);
                Ok(t)
            },
            _ => Err(Error::FormatError),
        }
    }
}

impl TryFrom<[u8; 4]> for ChunkType {
    type Error = ();

    /// Takes the four bytes as they are: every four bytes are a type code.
    fn try_from(byte_array: [u8; 4]) -> (r: Result<Self, Self::Error>)
        ensures
            r is Ok,
            r.unwrap()@ == byte_array@,
    {
        let t = ChunkType {
            ancillary: byte_array[0],
            private: byte_array[1],
            reserved: byte_array[2],
            safe_to_copy: byte_array[3],
        };
        assert(t@ =~= byte_array@);
        Ok(t)
    }
}

/// What `try_from` gives, as the trait states it.
impl vstd::std_specs::convert::TryFromSpecImpl<[u8; 4]> for ChunkType {
    open spec fn obeys_try_from_spec() -> bool {
        true
    }

    closed spec fn try_from_spec(v: [u8; 4]) -> Result<Self, Self::Error> {
        Ok(ChunkType { ancillary: v[0], private: v[1], reserved: v[2], safe_to_copy: v[3] })
    }
}

impl ChunkType {
    /// True when each of the four bytes of `code` is ASCII.
    pub open spec fn valid(code: Seq<u8>) -> bool {
        forall|i: int| 0 <= i < 4 ==> #[trigger] code[i] < 128
    }

    /// True when bit 5 of the first byte is clear: the chunk is needed to read the image.
    pub open spec fn critical(code: Seq<u8>) -> bool {
        !fifth_bit(code[0])
    }

    /// True when bit 5 of the second byte is clear: the type is one that the format defines.
    pub open spec fn public(code: Seq<u8>) -> bool {
        !fifth_bit(code[1])
    }

    /// True when bit 5 of the third byte is clear, as the format asks for now.
    pub open spec fn reserved_bit_valid(code: Seq<u8>) -> bool {
        !fifth_bit(code[2])
    }

    /// True when bit 5 of the fourth byte is set: an editor that does not know
    /// the type may copy the chunk.
    pub open spec fn safe_to_copy(code: Seq<u8>) -> bool {
        fifth_bit(code[3])
    }

    /// A type code has four bytes.
    pub proof fn lemma_four_bytes(&self)
        ensures
            self@.len() == 4,
    {
    }

    /// Two type codes with the same bytes are the same type code.
    pub proof fn lemma_same_bytes(&self, other: &ChunkType)
        requires
            self@ == other@,
        ensures
            self == other,
    {
        assert(self@[0] == other@[0]);
        assert(self@[1] == other@[1]);
        assert(self@[2] == other@[2]);
        assert(self@[3] == other@[3]);
    }

    /// The four bytes of the code, in order.
    pub fn bytes(&self) -> (bytes: [u8; 4])
        ensures
            bytes@ == self@,
    {
        let bytes: [u8; 4] = [self.ancillary, self.private, self.reserved, self.safe_to_copy];
        assert(bytes@ =~= self@);
        bytes
    }

    /// Tells whether all four bytes are ASCII.
    pub fn is_valid(&self) -> (valid: bool)
        ensures
            valid == Self::valid(self@),
    {
        if self.ancillary < 128 && self.private < 128 && self.reserved < 128 && self.safe_to_copy
            < 128 {
            true
        } else {
            assert(self@[0] == self.ancillary && self@[1] == self.private && self@[2]
                == self.reserved && self@[3] == self.safe_to_copy);
            false
        }
    }

    /// Tells whether the chunk is critical.
    pub fn is_critical(&self) -> (critical: bool)
        ensures
            critical == Self::critical(self@),
    {
        let byte = self.ancillary;
        !check_fifth_bit(&byte)
    }

    /// Tells whether the chunk's type is public.
    pub fn is_public(&self) -> (public: bool)
        ensures
            public == Self::public(self@),
    {
        let byte = self.private;
        !check_fifth_bit(&byte)
    }

    /// Tells whether the reserved bit is as the format asks.
    pub fn is_reserved_bit_valid(&self) -> (valid: bool)
        ensures
            valid == Self::reserved_bit_valid(self@),
    {
        let byte = self.reserved;
        !check_fifth_bit(&byte)
    }

    /// Tells whether the chunk is safe to copy.
    pub fn is_safe_to_copy(&self) -> (safe: bool)
        ensures
            safe == Self::safe_to_copy(self@),
    {
        let byte = self.safe_to_copy;
        check_fifth_bit(&byte)
    }

    /// Tells whether the four bytes are the UTF-8 encoding of `text`.
    pub fn is_text_of(&self, text: &str) -> (same: bool)
        ensures
            same == (self@ == encode_utf8(text@)),
    {
        let bytes = text.as_bytes();
        if bytes.len() != 4 {
            return false;
        }
        let same = bytes[0] == self.ancillary && bytes[1] == self.private && bytes[2]
            == self.reserved && bytes[3] == self.safe_to_copy;
        assert(self@[0] == self.ancillary && self@[1] == self.private && self@[2] == self.reserved
            && self@[3] == self.safe_to_copy);
        assert(same ==> self@ =~= bytes@);
        same
    }

    /// Tells whether the four bytes are the UTF-8 encoding of a text.
    pub fn is_text(&self) -> (text: bool)
        ensures
            text == valid_utf8(self@),
    {
        let bytes: Vec<u8> = vec![self.ancillary, self.private, self.reserved, self.safe_to_copy];
        assert(bytes@ =~= self@);
        string_from_utf8(bytes).is_some()
    }

    /// The code as text.
    pub fn to_string(&self) -> (text: String)
        requires
            valid_utf8(self@),
        ensures
            text@ == decode_utf8(self@),
    {
        let bytes: Vec<u8> = vec![self.ancillary, self.private, self.reserved, self.safe_to_copy];
        assert(bytes@ =~= self@);
        string_from_utf8(bytes).unwrap()
    }
}

/// Four ASCII bytes are a text in UTF-8, of four characters.
pub proof fn lemma_valid_is_text(code: Seq<u8>)
    requires
        code.len() == 4,
        ChunkType::valid(code),
    ensures
        valid_utf8(code),
        decode_utf8(code) == code.map_values(|b: u8| b as char),
{
    let chars = code.map_values(|b: u8| b as char);
    assert(is_ascii_chars(chars)) by {
        assert forall|i: int| 0 <= i < chars.len() implies '\0' <= #[trigger] chars[i]
            <= '\u{7f}' by {
            assert(code[i] < 128);
        }
    }
    is_ascii_chars_encode_utf8(chars);
    assert(encode_utf8(chars) =~= code) by {
        assert forall|i: int| 0 <= i < code.len() implies encode_utf8(chars)[i] == code[i] by {
            assert(chars[i] as u8 == code[i]);
        }
    }
    encode_utf8_valid_utf8(chars);
    encode_utf8_decode_utf8(chars);
}

/// In an ASCII letter bit 5 is the case: clear in `A` to `Z`, set in `a` to `z`.
pub proof fn lemma_fifth_bit_is_case(byte: u8)
    requires
        (0x41 <= byte <= 0x5a) || (0x61 <= byte <= 0x7a),
    ensures
        fifth_bit(byte) <==> 0x61 <= byte <= 0x7a,
{
}

} // verus!
