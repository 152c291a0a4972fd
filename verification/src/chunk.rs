//! A chunk: a length, a type code, a payload and a checksum over type and payload.

use vstd::prelude::*;
use vstd::slice::*;
use vstd::utf8::*;
use crate::chunk_type::{four_letters, ChunkType};
use crate::endian::{
    be_bytes, be_value, from_be_bytes, lemma_be_bytes_of_value, lemma_be_value_of_bytes, to_be_bytes,
};
use crate::text::{decimal, decimal_string, string_from_utf8};
use crate::{same_outcome, Error};
use crc::{Crc, CRC_32_ISO_HDLC};
use std::str::FromStr;

verus! {

/// The CRC-32/ISO-HDLC checksum of `bytes`, as the `crc` crate computes it.
pub uninterp spec fn crc32_iso_hdlc(bytes: Seq<u8>) -> u32;

/// What a chunk holds, as plain values.
pub struct ChunkView {
    /// The length field.
    pub length: u32,
    /// The four bytes of the type code.
    pub chunk_type: Seq<u8>,
    /// The payload.
    pub data: Seq<u8>,
    /// The checksum field.
    pub crc: u32,
}

impl ChunkView {
    /// True when the type code has four bytes, the length field is the
    /// payload's length and the checksum field is the checksum of type code
    /// and payload. Every [`Chunk`] is of this kind.
    pub open spec fn wf(self) -> bool {
        &&& self.chunk_type.len() == 4
        &&& self.length == self.data.len()
        &&& self.crc == crc32_iso_hdlc(self.chunk_type + self.data)
    }

    /// The chunk of type `chunk_type` that carries `data`.
    pub open spec fn construct(chunk_type: Seq<u8>, data: Seq<u8>) -> ChunkView {
        ChunkView {
            length: data.len() as u32,
            chunk_type,
            data,
            crc: crc32_iso_hdlc(chunk_type + data),
        }
    }

    /// The chunk whose type code has the text `chunk_type` and whose payload
    /// is `message` in UTF-8.
    pub open spec fn of_texts(chunk_type: Seq<char>, message: Seq<char>) -> ChunkView {
        Self::construct(chunk_type.map_values(|c: char| c as u8), encode_utf8(message))
    }

    /// The chunk as it stands in a file: length, type code, payload, checksum,
    /// the two numbers as four bytes each, most significant byte first.
    pub open spec fn serialize(self) -> Seq<u8> {
        be_bytes(self.length) + self.chunk_type + self.data + be_bytes(self.crc)
    }

    /// What is wrong with `bytes` as a chunk, if anything, where `computed` is
    /// the checksum of all but the first and the last four bytes.
    ///
    /// `bytes` must hold the twelve bytes of the three fixed fields, and the
    /// length field must say how many bytes stand between type code and
    /// checksum; then the checksum field must be `computed`.
    pub open spec fn frame_status(bytes: Seq<u8>, computed: u32) -> Result<(), Error> {
        if bytes.len() < 12 {
            Err(Error::FormatError)
        } else if be_value(bytes.subrange(0, 4)) != bytes.len() - 12 {
            Err(Error::FormatError)
        } else if be_value(bytes.subrange(bytes.len() - 4, bytes.len() as int)) != computed {
            Err(Error::CorruptData)
        } else {
            Ok(())
        }
    }

    /// The dump of the chunk that [`Chunk::to_string`] writes.
    pub open spec fn dump(self) -> Seq<char> {
        "Chunk {\n  Length: "@ + decimal(self.length as nat) + "\n  Type: "@ + decode_utf8(
            self.chunk_type,
        ) + "\n  Data: "@ + decimal(self.data.len()) + " bytes\n  Crc: "@ + decimal(
            self.crc as nat,
        ) + "\n}\n"@
    }

    /// The chunk that `bytes` hold, or what is wrong with them.
    pub open spec fn parse(bytes: Seq<u8>) -> Result<ChunkView, Error> {
        let computed = crc32_iso_hdlc(bytes.subrange(4, bytes.len() - 4));
        match Self::frame_status(bytes, computed) {
            Err(e) => Err(e),
            Ok(_) => Ok(
                ChunkView {
                    length: be_value(bytes.subrange(0, 4)),
                    chunk_type: bytes.subrange(4, 8),
                    data: bytes.subrange(8, bytes.len() - 4),
                    crc: computed,
                },
            ),
        }
    }
}

/// A chunk of a PNG container.
#[derive(Debug)]
pub struct Chunk {
    length: u32,
    chunk_type: ChunkType,
    chunk_data: Vec<u8>,
    crc: u32,
}

impl View for Chunk {
    type V = ChunkView;

    closed spec fn view(&self) -> ChunkView {
        ChunkView {
            length: self.length,
            chunk_type: self.chunk_type@,
            data: self.chunk_data@,
            crc: self.crc,
        }
    }
}

impl Chunk {
    /// What holds of every chunk: it is well formed.
    #[verifier::type_invariant]
    pub open spec fn intact(&self) -> bool {
        self@.wf()
    }

    /// Computes the CRC-32/ISO-HDLC checksum of `bytes`.
    ///
    /// Trusted: calls `crc::Crc::<u32>::new` with `crc::CRC_32_ISO_HDLC` and
    /// `checksum` on the result. The contract gives what comes back its name,
    /// [`crc32_iso_hdlc`], and claims no more than that it depends on the
    /// bytes alone.
    #[verifier::external_body]
    fn calc_checksum(bytes: &[u8]) -> (crc: u32)
        ensures
            crc == crc32_iso_hdlc(bytes@),
    {
        let crc = Crc::<u32>::new(&CRC_32_ISO_HDLC);
        crc.checksum(bytes)
    }

    /// Makes the chunk of type `chunk_type` that carries `data`.
    pub fn new(chunk_type: ChunkType, data: Vec<u8>) -> (chunk: Chunk)
        requires
            data.len() <= u32::MAX,
        ensures
            chunk@ == ChunkView::construct(chunk_type@, data@),
    {
        let type_bytes = chunk_type.bytes();
        let mut to_check: Vec<u8> = Vec::new();
        to_check.extend_from_slice(type_bytes.as_slice());
        to_check.extend_from_slice(data.as_slice());
        assert(to_check@ =~= chunk_type@ + data@);
        let crc = Chunk::calc_checksum(to_check.as_slice());
        Chunk { length: data.len() as u32, chunk_type, chunk_data: data, crc }
    }

    /// Tells what is wrong with `bytes` as a chunk, if anything, once the
    /// checksum `computed` of all but their first and last four bytes is known.
    pub fn check_frame(bytes: &[u8], computed: u32) -> (status: Result<(), Error>)
        ensures
            status == ChunkView::frame_status(bytes@, computed),
    {
        let len = bytes.len();
        if len < 12 {
            return Err(Error::FormatError);
        }
        let declared = from_be_bytes([bytes[0], bytes[1], bytes[2], bytes[3]]);
        assert([bytes[0], bytes[1], bytes[2], bytes[3]]@ =~= bytes@.subrange(0, 4));
        if declared as usize != len - 12 {
            return Err(Error::FormatError);
        }
        let stored = from_be_bytes([bytes[len - 4], bytes[len - 3], bytes[len - 2], bytes[len - 1]]);
        assert([bytes[len - 4], bytes[len - 3], bytes[len - 2], bytes[len - 1]]@
            =~= bytes@.subrange(len - 4, len as int));
        if stored != computed {
            return Err(Error::CorruptData);
        }
        Ok(())
    }

    /// The length field: the number of bytes of the payload.
    pub fn length(&self) -> (length: u32)
        ensures
            length == self@.length,
            length == self@.data.len(),
    {
        proof {
            use_type_invariant(self);
        }
        self.length
    }

    /// The type code.
    pub fn chunk_type(&self) -> (chunk_type: &ChunkType)
        ensures
            chunk_type@ == self@.chunk_type,
    {
        &self.chunk_type
    }

    /// The payload.
    pub fn data(&self) -> (data: &[u8])
        ensures
            data@ == self@.data,
    {
        self.chunk_data.as_slice()
    }

    /// The checksum field: the checksum of type code and payload.
    pub fn crc(&self) -> (crc: u32)
        ensures
            crc == self@.crc,
            crc == crc32_iso_hdlc(self@.chunk_type + self@.data),
    {
        proof {
            use_type_invariant(self);
        }
        self.crc
    }

    /// The payload as text, where it is valid UTF-8.
    pub fn data_as_string(&self) -> (text: Result<String, Error>)
        ensures
            text is Ok <==> valid_utf8(self@.data),
            text matches Ok(s) ==> s@ == decode_utf8(self@.data),
            text matches Err(e) ==> e == Error::EncodingError,
    {
        match string_from_utf8(slice_to_vec(self.chunk_data.as_slice())) {
            Some(s) => Ok(s),
            None => Err(Error::EncodingError),
        }
    }

    /// The chunk as it stands in a file.
    pub fn as_bytes(&self) -> (bytes: Vec<u8>)
        ensures
            bytes@ == self@.serialize(),
            ChunkView::parse(bytes@) == Ok::<ChunkView, Error>(self@),
    {
        let mut bytes: Vec<u8> = Vec::new();
        bytes.extend_from_slice(to_be_bytes(self.length).as_slice());
        bytes.extend_from_slice(self.chunk_type.bytes().as_slice());
        bytes.extend_from_slice(self.chunk_data.as_slice());
        bytes.extend_from_slice(to_be_bytes(self.crc).as_slice());
        proof {
            use_type_invariant(self);
            assert(bytes@ =~= self@.serialize());
            lemma_parse_serialize(self@);
        }
        bytes
    }

    /// A dump of the chunk for a reader: its length field, its type code as
    /// text, its payload's size and its checksum, one to a line.
    pub fn to_string(&self) -> (text: String)
        requires
            valid_utf8(self@.chunk_type),
        ensures
            text@ == self@.dump(),
    {
        let mut text = "Chunk {\n  Length: ".to_owned();
        text.append(decimal_string(self.length as u64).as_str());
        text.append("\n  Type: ");
        text.append(self.chunk_type.to_string().as_str());
        text.append("\n  Data: ");
        text.append(decimal_string(self.chunk_data.len() as u64).as_str());
        text.append(" bytes\n  Crc: ");
        text.append(decimal_string(self.crc as u64).as_str());
        text.append("\n}\n");
        text
    }
}

impl<'a> TryFrom<&'a [u8]> for Chunk {
    type Error = Error;

    /// Reads a chunk from the bytes that it takes in a file.
    fn try_from(bytes: &'a [u8]) -> (r: Result<Chunk, Error>)
        ensures
            same_outcome(r, ChunkView::parse(bytes@)),
    {
        let len = bytes.len();
        if len < 12 {
            return Err(Error::FormatError);
        }
        let computed = Chunk::calc_checksum(slice_subrange(bytes, 4, len - 4));
        match Chunk::check_frame(bytes, computed) {
            Err(e) => Err(e),
            Ok(_) => {
                let length = from_be_bytes([bytes[0], bytes[1], bytes[2], bytes[3]]);
                let chunk_type = ChunkType::try_from([bytes[4], bytes[5], bytes[6], bytes[7]]).unwrap();
                let chunk_data = slice_to_vec(slice_subrange(bytes, 8, len - 4));
                proof {
                    assert([bytes[0], bytes[1], bytes[2], bytes[3]]@ =~= bytes@.subrange(0, 4));
                    assert([bytes[4], bytes[5], bytes[6], bytes[7]]@ =~= bytes@.subrange(4, 8));
                    assert(bytes@.subrange(4, 8) + bytes@.subrange(8, len - 4) =~= bytes@.subrange(
                        4,
                        len - 4,
                    ));
                }
                Ok(Chunk { length, chunk_type, chunk_data, crc: computed })
            },
        }
    }
}

/// Nothing is claimed of `try_from` through the trait: a chunk holds a vector,
/// which no spec function can make. What `try_from` gives is said in its own
/// contract, over the chunk's view.
impl<'a> vstd::std_specs::convert::TryFromSpecImpl<&'a [u8]> for Chunk {
    open spec fn obeys_try_from_spec() -> bool {
        false
    }

    open spec fn try_from_spec(v: &'a [u8]) -> Result<Self, Self::Error> {
        arbitrary()
    }
}

/// Makes the chunk whose type code has the text `chunk_type_input` and whose
/// payload is the UTF-8 encoding of `message`.
pub fn chunk_from_strings(chunk_type_input: &str, message: &str) -> (r: Result<Chunk, Error>)
    requires
        message.len() <= u32::MAX,
    ensures
        r is Ok <==> four_letters(chunk_type_input@),
        r matches Ok(chunk) ==> chunk@ == ChunkView::of_texts(chunk_type_input@, message@),
        r matches Err(e) ==> e == Error::FormatError,
{
    match ChunkType::from_str(chunk_type_input) {
        Ok(chunk_type) => Ok(Chunk::new(chunk_type, slice_to_vec(message.as_bytes()))),
        Err(e) => Err(e),
    }
}

/// A chunk that is written and read back is the chunk.
pub proof fn lemma_parse_serialize(chunk: ChunkView)
    requires
        chunk.wf(),
    ensures
        ChunkView::parse(chunk.serialize()) == Ok::<ChunkView, Error>(chunk),
{
    let bytes = chunk.serialize();
    lemma_be_value_of_bytes(chunk.length);
    lemma_be_value_of_bytes(chunk.crc);
    assert(bytes.len() == 12 + chunk.data.len());
    assert(bytes.subrange(0, 4) =~= be_bytes(chunk.length));
    assert(bytes.subrange(4, 8) =~= chunk.chunk_type);
    assert(bytes.subrange(8, bytes.len() - 4) =~= chunk.data);
    assert(bytes.subrange(bytes.len() - 4, bytes.len() as int) =~= be_bytes(chunk.crc));
    assert(bytes.subrange(4, bytes.len() - 4) =~= chunk.chunk_type + chunk.data);
}

/// A chunk made of any type code and any payload that the length field can
/// count, written and read back, is that chunk: same length, type code,
/// payload and checksum.
pub proof fn lemma_construct_round_trip(chunk_type: Seq<u8>, data: Seq<u8>)
    requires
        chunk_type.len() == 4,
        data.len() <= u32::MAX,
    ensures
        ChunkView::construct(chunk_type, data).wf(),
        ChunkView::parse(ChunkView::construct(chunk_type, data).serialize()) == Ok::<
            ChunkView,
            Error,
        >(ChunkView::construct(chunk_type, data)),
{
    lemma_parse_serialize(ChunkView::construct(chunk_type, data));
}

/// `bytes` with bit `bit` of the byte at `index` turned over.
pub open spec fn flip_bit(bytes: Seq<u8>, index: int, bit: u8) -> Seq<u8>
    recommends
        0 <= index < bytes.len(),
        bit < 8,
{
    bytes.update(index, bytes[index] ^ (1u8 << bit))
}

/// Where `bytes` are read as a chunk, and one bit of their last four bytes,
/// the checksum field, is turned over, they are refused as corrupt.
pub proof fn lemma_flipped_checksum_bit_is_detected(bytes: Seq<u8>, index: int, bit: u8)
    requires
        ChunkView::parse(bytes) is Ok,
        bytes.len() - 4 <= index < bytes.len(),
        bit < 8,
    ensures
        ChunkView::parse(flip_bit(bytes, index, bit)) == Err::<ChunkView, Error>(
            Error::CorruptData,
        ),
{
    let len = bytes.len() as int;
    let flipped = flip_bit(bytes, index, bit);
    let byte = bytes[index];
    assert(byte ^ (1u8 << bit) != byte) by (bit_vector)
        requires
            bit < 8,
    ;
    assert(flipped.subrange(0, 4) =~= bytes.subrange(0, 4));
    assert(flipped.subrange(4, len - 4) =~= bytes.subrange(4, len - 4));
    let stored = bytes.subrange(len - 4, len);
    let changed = flipped.subrange(len - 4, len);
    assert(changed[index - (len - 4)] != stored[index - (len - 4)]);
    lemma_be_bytes_of_value(stored);
    lemma_be_bytes_of_value(changed);
}

/// Bytes that are read as a chunk are the bytes that the chunk is written as.
pub proof fn lemma_serialize_parse(bytes: Seq<u8>)
    requires
        ChunkView::parse(bytes) is Ok,
    ensures
        ChunkView::parse(bytes).unwrap().wf(),
        ChunkView::parse(bytes).unwrap().serialize() == bytes,
{
    let chunk = ChunkView::parse(bytes).unwrap();
    lemma_be_bytes_of_value(bytes.subrange(0, 4));
    lemma_be_bytes_of_value(bytes.subrange(bytes.len() - 4, bytes.len() as int));
    assert(chunk.chunk_type + chunk.data =~= bytes.subrange(4, bytes.len() - 4));
    assert(chunk.serialize() =~= bytes);
}

} // verus!
