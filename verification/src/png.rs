//! A PNG container: the signature and the chunks that follow it, in file order.

use vstd::prelude::*;
use vstd::slice::*;
use vstd::utf8::*;
use crate::chunk::{Chunk, ChunkView};
use crate::endian::{be_value, from_be_bytes};
use crate::text::{decimal, decimal_string};
use crate::{same_outcome, Error};

verus! {

/// The eight bytes that every PNG container starts with.
pub open spec fn signature() -> Seq<u8> {
    Png::SIGNATURE@
}

/// The chunks of `chunks` as they stand in a file, one after the other.
pub open spec fn serialize_chunks(chunks: Seq<ChunkView>) -> Seq<u8>
    decreases chunks.len(),
{
    if chunks.len() == 0 {
        Seq::empty()
    } else {
        chunks[0].serialize() + serialize_chunks(chunks.drop_first())
    }
}

/// The container of `chunks` as a file: the signature, then the chunks.
pub open spec fn serialize(chunks: Seq<ChunkView>) -> Seq<u8> {
    signature() + serialize_chunks(chunks)
}

/// The chunk that `bytes` start with and the number of bytes that it takes,
/// or what is wrong with the start of `bytes`.
///
/// A chunk takes the twelve bytes of its fixed fields and as many more as its
/// length field says.
pub open spec fn first_chunk(bytes: Seq<u8>) -> Result<(ChunkView, int), Error> {
    let end = 12 + be_value(bytes.subrange(0, 4));
    if bytes.len() < 12 || end > bytes.len() {
        Err(Error::FormatError)
    } else {
        match ChunkView::parse(bytes.subrange(0, end)) {
            Err(e) => Err(e),
            Ok(chunk) => Ok((chunk, end)),
        }
    }
}

/// The chunks that `bytes` hold one after the other, or what is wrong with
/// the first part of `bytes` that is no chunk.
pub open spec fn parse_chunks(bytes: Seq<u8>) -> Result<Seq<ChunkView>, Error>
    decreases bytes.len(),
{
    if bytes.len() == 0 {
        Ok(Seq::empty())
    } else {
        match first_chunk(bytes) {
            Err(e) => Err(e),
            Ok((chunk, end)) => after(
                seq![chunk],
                parse_chunks(bytes.subrange(end, bytes.len() as int)),
            ),
        }
    }
}

/// The chunks of the container that `bytes` hold, or what is wrong with `bytes`.
pub open spec fn parse(bytes: Seq<u8>) -> Result<Seq<ChunkView>, Error> {
    if bytes.len() < 8 || bytes.subrange(0, 8) != signature() {
        Err(Error::FormatError)
    } else {
        parse_chunks(bytes.subrange(8, bytes.len() as int))
    }
}

/// What [`parse_chunks`] gives for bytes that start with the chunks `done`
/// where it gives `rest` for what follows them.
pub open spec fn after(done: Seq<ChunkView>, rest: Result<Seq<ChunkView>, Error>) -> Result<
    Seq<ChunkView>,
    Error,
> {
    match rest {
        Err(e) => Err(e),
        Ok(more) => Ok(done + more),
    }
}

/// True when the type code of `chunk` is the UTF-8 encoding of `type_text`:
/// when the type code is a text, and that text is `type_text`.
pub open spec fn has_type(chunk: ChunkView, type_text: Seq<char>) -> bool {
    chunk.chunk_type == encode_utf8(type_text)
}

/// The place of the first chunk of `chunks` whose type code is `type_text`;
/// the length of `chunks` where there is none.
pub open spec fn position(chunks: Seq<ChunkView>, type_text: Seq<char>) -> int
    decreases chunks.len(),
{
    if chunks.len() == 0 || has_type(chunks[0], type_text) {
        0
    } else {
        1 + position(chunks.drop_first(), type_text)
    }
}

/// The first chunk of `chunks` whose type code is `type_text`, if there is one.
pub open spec fn lookup(chunks: Seq<ChunkView>, type_text: Seq<char>) -> Option<ChunkView> {
    let place = position(chunks, type_text);
    if place < chunks.len() {
        Some(chunks[place])
    } else {
        None
    }
}

/// `chunks` without the first chunk whose type code is `type_text`.
pub open spec fn without(chunks: Seq<ChunkView>, type_text: Seq<char>) -> Seq<ChunkView>
    recommends
        position(chunks, type_text) < chunks.len(),
{
    chunks.remove(position(chunks, type_text))
}

/// True when the type code of each chunk of `chunks` is a text in UTF-8.
pub open spec fn text_types(chunks: Seq<ChunkView>) -> bool {
    forall|i: int| 0 <= i < chunks.len() ==> valid_utf8((#[trigger] chunks[i]).chunk_type)
}

/// The line of a listing for the chunk `chunk` at the place `index`.
pub open spec fn line(index: nat, chunk: ChunkView) -> Seq<char> {
    "  chunk#"@ + decimal(index) + "{ chunk_type: "@ + decode_utf8(chunk.chunk_type)
        + ", data_length: "@ + decimal(chunk.length as nat) + "}\n"@
}

/// The listing of `chunks`: for each chunk a line with its place, its type
/// code as text and its length.
pub open spec fn listing(chunks: Seq<ChunkView>) -> Seq<char>
    decreases chunks.len(),
{
    if chunks.len() == 0 {
        Seq::empty()
    } else {
        listing(chunks.drop_last()) + line((chunks.len() - 1) as nat, chunks.last())
    }
}

/// What each of `chunks` holds, as plain values.
pub open spec fn views(chunks: Seq<Chunk>) -> Seq<ChunkView> {
    chunks.map_values(|chunk: Chunk| chunk@)
}

/// True when each chunk of `chunks` is well formed.
pub open spec fn all_wf(chunks: Seq<ChunkView>) -> bool {
    forall|i: int| 0 <= i < chunks.len() ==> (#[trigger] chunks[i]).wf()
}

/// A PNG container.
#[derive(Debug)]
pub struct Png {
    header: [u8; 8],
    chunks: Vec<Chunk>,
}

impl View for Png {
    type V = Seq<ChunkView>;

    /// The chunks of the container, in order.
    closed spec fn view(&self) -> Seq<ChunkView> {
        views(self.chunks@)
    }
}

impl Png {
    /// The eight bytes that every PNG container starts with.
    pub const SIGNATURE: [u8; 8] = [137, 80, 78, 71, 13, 10, 26, 10];

    /// What holds of every container: it starts with the signature, and
    /// each of its chunks is well formed.
    #[verifier::type_invariant]
    pub closed spec fn intact(&self) -> bool {
        &&& self.header@ == signature()
        &&& all_wf(self@)
    }

    /// Reads the chunk that starts at `offset` in `bytes`, and tells where it ends.
    fn read_chunk(bytes: &[u8], offset: usize) -> (r: Result<(Chunk, usize), Error>)
        requires
            offset < bytes@.len(),
        ensures
            r matches Ok((chunk, end)) ==> offset < end <= bytes@.len() && first_chunk(
                bytes@.subrange(offset as int, bytes@.len() as int),
            ) == Ok::<(ChunkView, int), Error>((chunk@, end - offset)),
            r matches Err(e) ==> first_chunk(bytes@.subrange(offset as int, bytes@.len() as int))
                == Err::<(ChunkView, int), Error>(e),
    {
        let len = bytes.len();
        let ghost rest = bytes@.subrange(offset as int, len as int);
        if len - offset < 12 {
            return Err(Error::FormatError);
        }
        let declared = from_be_bytes(
            [bytes[offset], bytes[offset + 1], bytes[offset + 2], bytes[offset + 3]],
        );
        assert([bytes[offset as int], bytes[offset + 1], bytes[offset + 2], bytes[offset + 3]]@
            =~= rest.subrange(0, 4));
        if declared as usize > len - offset - 12 {
            return Err(Error::FormatError);
        }
        let end = offset + 12 + declared as usize;
        assert(bytes@.subrange(offset as int, end as int) =~= rest.subrange(0, end - offset));
        match Chunk::try_from(slice_subrange(bytes, offset, end)) {
            Err(e) => Err(e),
            Ok(chunk) => Ok((chunk, end)),
        }
    }

    /// Puts `chunk` behind the chunks of the container.
    pub fn append_chunk(&mut self, chunk: Chunk)
        ensures
            final(self)@ == old(self)@.push(chunk@),
    {
        proof {
            use_type_invariant(&*self);
            use_type_invariant(&chunk);
        }
        let mut chunks: Vec<Chunk> = Vec::new();
        std::mem::swap(&mut chunks, &mut self.chunks);
        chunks.push(chunk);
        proof {
            let held = views(chunks@);
            assert(held =~= old(self)@.push(chunk@));
            assert forall|i: int| 0 <= i < held.len() implies (#[trigger] held[i]).wf() by {
                if i < old(self)@.len() {
                    assert(old(self)@[i].wf());
                }
            }
        }
        self.chunks = chunks;
    }

    /// Takes the first chunk whose type code is `chunk_type` out of the
    /// container and hands it over.
    pub fn remove_chunk(&mut self, chunk_type: &str) -> (r: Result<Chunk, Error>)
        ensures
            r is Ok <==> position(old(self)@, chunk_type@) < old(self)@.len(),
            r matches Ok(chunk) ==> Some(chunk@) == lookup(old(self)@, chunk_type@) && final(self)@
                == without(old(self)@, chunk_type@),
            r matches Err(e) ==> e == Error::NotFound && final(self)@ == old(self)@,
    {
        let mut i: usize = 0;
        while i < self.chunks.len()
            invariant
                i <= self.chunks.len(),
                *self == *old(self),
                forall|j: int| 0 <= j < i ==> !has_type(#[trigger] self@[j], chunk_type@),
            decreases self.chunks.len() - i,
        {
            if self.chunks[i].chunk_type().is_text_of(chunk_type) {
                proof {
                    use_type_invariant(&*self);
                    lemma_position(self@, chunk_type@, i as int);
                }
                let mut chunks: Vec<Chunk> = Vec::new();
                std::mem::swap(&mut chunks, &mut self.chunks);
                let chunk = chunks.remove(i);
                proof {
                    let held = views(chunks@);
                    assert(held =~= old(self)@.remove(i as int));
                    assert forall|j: int| 0 <= j < held.len() implies (#[trigger] held[j]).wf() by {
                        if j < i {
                            assert(old(self)@[j].wf());
                        } else {
                            assert(old(self)@[j + 1].wf());
                        }
                    }
                }
                self.chunks = chunks;
                return Ok(chunk);
            }
            i += 1;
        }
        proof {
            lemma_position(self@, chunk_type@, self@.len() as int);
        }
        Err(Error::NotFound)
    }

    /// The eight bytes that the container starts with.
    pub fn header(&self) -> (header: &[u8; 8])
        ensures
            header@ == signature(),
    {
        proof {
            use_type_invariant(self);
        }
        &self.header
    }

    /// The chunks of the container, in order.
    pub fn chunks(&self) -> (chunks: &[Chunk])
        ensures
            views(chunks@) == self@,
    {
        self.chunks.as_slice()
    }

    /// The first chunk of the container whose type code is `chunk_type`.
    pub fn chunk_by_type(&self, chunk_type: &str) -> (found: Option<&Chunk>)
        ensures
            found is Some <==> position(self@, chunk_type@) < self@.len(),
            found matches Some(chunk) ==> Some(chunk@) == lookup(self@, chunk_type@),
    {
        let mut i: usize = 0;
        while i < self.chunks.len()
            invariant
                i <= self.chunks.len(),
                forall|j: int| 0 <= j < i ==> !has_type(#[trigger] self@[j], chunk_type@),
            decreases self.chunks.len() - i,
        {
            if self.chunks[i].chunk_type().is_text_of(chunk_type) {
                proof {
                    lemma_position(self@, chunk_type@, i as int);
                }
                return Some(&self.chunks[i]);
            }
            i += 1;
        }
        proof {
            lemma_position(self@, chunk_type@, self@.len() as int);
        }
        None
    }

    /// The container as a file: the signature, then each chunk as it stands in a file.
    pub fn as_bytes(&self) -> (bytes: Vec<u8>)
        ensures
            bytes@ == serialize(self@),
            parse(bytes@) == Ok::<Seq<ChunkView>, Error>(self@),
    {
        let mut bytes: Vec<u8> = Vec::new();
        proof {
            use_type_invariant(self);
        }
        bytes.extend_from_slice(self.header.as_slice());
        assert(self@.take(0) =~= Seq::<ChunkView>::empty());
        assert(bytes@ =~= signature() + serialize_chunks(self@.take(0)));
        let mut i: usize = 0;
        while i < self.chunks.len()
            invariant
                i <= self.chunks.len(),
                bytes@ == signature() + serialize_chunks(self@.take(i as int)),
            decreases self.chunks.len() - i,
        {
            let chunk_bytes = self.chunks[i].as_bytes();
            bytes.extend_from_slice(chunk_bytes.as_slice());
            proof {
                let written = self@.take(i as int);
                lemma_serialize_push(written, self@[i as int]);
                assert(self@.take(i + 1) =~= written.push(self@[i as int]));
                assert(bytes@ =~= signature() + (serialize_chunks(written) + chunk_bytes@));
            }
            i += 1;
        }
        proof {
            assert(self@.take(i as int) =~= self@);
            lemma_parse_serialize(self@);
        }
        bytes
    }

    /// Tells whether the type code of each chunk is a text, so that the
    /// container can be listed.
    pub fn has_text_types(&self) -> (all: bool)
        ensures
            all == text_types(self@),
    {
        let mut i: usize = 0;
        while i < self.chunks.len()
            invariant
                i <= self.chunks.len(),
                forall|j: int| 0 <= j < i ==> valid_utf8((#[trigger] self@[j]).chunk_type),
            decreases self.chunks.len() - i,
        {
            if !self.chunks[i].chunk_type().is_text() {
                assert(!valid_utf8(self@[i as int].chunk_type));
                return false;
            }
            i += 1;
        }
        true
    }

    /// A listing of the container for a reader: for each chunk a line with
    /// its place, its type code as text and its length.
    pub fn to_string(&self) -> (text: String)
        requires
            text_types(self@),
        ensures
            text@ == listing(self@),
    {
        let mut text = String::new();
        assert(self@.take(0) =~= Seq::<ChunkView>::empty());
        let mut i: usize = 0;
        while i < self.chunks.len()
            invariant
                i <= self.chunks.len(),
                text_types(self@),
                text@ == listing(self@.take(i as int)),
            decreases self.chunks.len() - i,
        {
            let chunk = &self.chunks[i];
            assert(valid_utf8(self@[i as int].chunk_type));
            text.append("  chunk#");
            text.append(decimal_string(i as u64).as_str());
            text.append("{ chunk_type: ");
            text.append(chunk.chunk_type().to_string().as_str());
            text.append(", data_length: ");
            text.append(decimal_string(chunk.length() as u64).as_str());
            text.append("}\n");
            proof {
                let shown = self@.take(i + 1);
                assert(shown.drop_last() =~= self@.take(i as int));
                assert(shown.last() == self@[i as int]);
                assert(text@ =~= listing(shown));
            }
            i += 1;
        }
        proof {
            assert(self@.take(i as int) =~= self@);
        }
        text
    }
}

impl<'a> TryFrom<&'a [u8]> for Png {
    type Error = Error;

    /// Reads a container from the bytes of a file.
    fn try_from(bytes: &'a [u8]) -> (r: Result<Png, Error>)
        ensures
            same_outcome(r, parse(bytes@)),
            bytes@.len() < 8 || bytes@.subrange(0, 8) != signature() ==> (r matches Err(e) && e
                == Error::FormatError),
    {
        let len = bytes.len();
        if len < 8 {
            return Err(Error::FormatError);
        }
        let header = Png::SIGNATURE;
        assert(header@ =~= signature());
        let mut k: usize = 0;
        while k < 8
            invariant
                k <= 8 <= len == bytes@.len(),
                header@ == signature(),
                forall|j: int| 0 <= j < k ==> bytes@[j] == signature()[j],
            decreases 8 - k,
        {
            if bytes[k] != header[k] {
                return Err(Error::FormatError);
            }
            k += 1;
        }
        assert(bytes@.subrange(0, 8) =~= signature());
        let mut chunks: Vec<Chunk> = Vec::new();
        let mut offset: usize = 8;
        assert(after(views(chunks@), parse(bytes@)) == parse(bytes@));
        while offset < len
            invariant
                8 <= offset <= len == bytes@.len(),
                parse(bytes@) == after(
                    views(chunks@),
                    parse_chunks(bytes@.subrange(offset as int, len as int)),
                ),
                all_wf(views(chunks@)),
            decreases len - offset,
        {
            let ghost held = views(chunks@);
            match Png::read_chunk(bytes, offset) {
                Err(e) => {
                    return Err(e);
                },
                Ok((chunk, end)) => {
                    proof {
                        use_type_invariant(&chunk);
                        let rest = bytes@.subrange(offset as int, len as int);
                        let more = parse_chunks(bytes@.subrange(end as int, len as int));
                        assert(rest.subrange(end - offset, rest.len() as int)
                            =~= bytes@.subrange(end as int, len as int));
                        assert(parse_chunks(rest) == after(seq![chunk@], more));
                        assert(after(held, after(seq![chunk@], more)) == after(
                            held.push(chunk@),
                            more,
                        )) by {
                            if let Ok(tail) = more {
                                assert(held + (seq![chunk@] + tail) =~= held.push(chunk@) + tail);
                            }
                        }
                        assert(all_wf(held.push(chunk@)));
                    }
                    chunks.push(chunk);
                    assert(views(chunks@) =~= held.push(chunk@));
                    offset = end;
                },
            }
        }
        Ok(Png { header, chunks })
    }
}

/// Nothing is claimed of `try_from` through the trait: a container holds a
/// vector, which no spec function can make. What `try_from` gives is said in
/// its own contract, over the container's view.
impl<'a> vstd::std_specs::convert::TryFromSpecImpl<&'a [u8]> for Png {
    open spec fn obeys_try_from_spec() -> bool {
        false
    }

    open spec fn try_from_spec(v: &'a [u8]) -> Result<Self, Self::Error> {
        arbitrary()
    }
}

/// Where [`position`] points: before it no chunk has the type code; at it,
/// if it is a place of `chunks`, stands one that has.
pub proof fn lemma_position(chunks: Seq<ChunkView>, type_text: Seq<char>, place: int)
    requires
        0 <= place <= chunks.len(),
        forall|j: int| 0 <= j < place ==> !has_type(#[trigger] chunks[j], type_text),
        place < chunks.len() ==> has_type(chunks[place], type_text),
    ensures
        position(chunks, type_text) == place,
    decreases chunks.len(),
{
    if chunks.len() == 0 || place == 0 {
    } else {
        let rest = chunks.drop_first();
        assert(forall|j: int| 0 <= j < place - 1 ==> rest[j] == chunks[j + 1]);
        lemma_position(rest, type_text, place - 1);
    }
}

/// [`position`] points at the first chunk that has the type code, or behind
/// the last chunk.
pub proof fn lemma_position_is_first(chunks: Seq<ChunkView>, type_text: Seq<char>)
    ensures
        0 <= position(chunks, type_text) <= chunks.len(),
        forall|j: int|
            0 <= j < position(chunks, type_text) ==> !has_type(#[trigger] chunks[j], type_text),
        position(chunks, type_text) < chunks.len() ==> has_type(
            chunks[position(chunks, type_text)],
            type_text,
        ),
    decreases chunks.len(),
{
    if chunks.len() == 0 || has_type(chunks[0], type_text) {
    } else {
        let rest = chunks.drop_first();
        lemma_position_is_first(rest, type_text);
        assert forall|j: int| 0 <= j < position(chunks, type_text) implies !has_type(
            #[trigger] chunks[j],
            type_text,
        ) by {
            if j > 0 {
                assert(chunks[j] == rest[j - 1]);
            }
        }
    }
}

/// One more chunk at the end of a container adds its bytes at the end of the file.
pub proof fn lemma_serialize_push(chunks: Seq<ChunkView>, chunk: ChunkView)
    ensures
        serialize_chunks(chunks.push(chunk)) == serialize_chunks(chunks) + chunk.serialize(),
    decreases chunks.len(),
{
    let longer = chunks.push(chunk);
    if chunks.len() == 0 {
        assert(longer.drop_first() =~= Seq::<ChunkView>::empty());
        assert(serialize_chunks(longer.drop_first()) =~= Seq::<u8>::empty());
        assert(serialize_chunks(longer) =~= chunk.serialize());
        assert(serialize_chunks(chunks) + chunk.serialize() =~= chunk.serialize());
    } else {
        assert(longer.drop_first() =~= chunks.drop_first().push(chunk));
        lemma_serialize_push(chunks.drop_first(), chunk);
        assert(serialize_chunks(longer) =~= serialize_chunks(chunks) + chunk.serialize());
    }
}

/// Bytes that start with a chunk as it stands in a file start with that chunk.
pub proof fn lemma_first_chunk_of_serialized(chunk: ChunkView, tail: Seq<u8>)
    requires
        chunk.wf(),
    ensures
        first_chunk(chunk.serialize() + tail) == Ok::<(ChunkView, int), Error>(
            (chunk, chunk.serialize().len() as int),
        ),
        (chunk.serialize() + tail).subrange(
            chunk.serialize().len() as int,
            (chunk.serialize() + tail).len() as int,
        ) == tail,
        chunk.serialize().len() >= 12,
{
    let frame = chunk.serialize();
    let bytes = frame + tail;
    crate::endian::lemma_be_value_of_bytes(chunk.length);
    crate::endian::lemma_be_value_of_bytes(chunk.crc);
    crate::chunk::lemma_parse_serialize(chunk);
    assert(frame.len() == 12 + chunk.data.len());
    assert(bytes.subrange(0, 4) =~= crate::endian::be_bytes(chunk.length));
    assert(bytes.subrange(0, frame.len() as int) =~= frame);
    assert(bytes.subrange(frame.len() as int, bytes.len() as int) =~= tail);
}

/// The chunk that bytes start with is well formed, and the bytes that it
/// takes are the chunk as it stands in a file.
pub proof fn lemma_first_chunk_is_serialized(bytes: Seq<u8>)
    requires
        first_chunk(bytes) is Ok,
    ensures
        first_chunk(bytes).unwrap().0.wf(),
        12 <= first_chunk(bytes).unwrap().1 <= bytes.len(),
        bytes.subrange(0, first_chunk(bytes).unwrap().1) == first_chunk(
            bytes,
        ).unwrap().0.serialize(),
{
    let end = first_chunk(bytes).unwrap().1;
    crate::chunk::lemma_serialize_parse(bytes.subrange(0, end));
}

/// The chunks of a container, written one after the other and read back,
/// are the chunks.
pub proof fn lemma_parse_serialize_chunks(chunks: Seq<ChunkView>)
    requires
        all_wf(chunks),
    ensures
        parse_chunks(serialize_chunks(chunks)) == Ok::<Seq<ChunkView>, Error>(chunks),
    decreases chunks.len(),
{
    if chunks.len() == 0 {
        assert(chunks =~= Seq::<ChunkView>::empty());
    } else {
        let first = chunks[0];
        let rest = chunks.drop_first();
        assert(all_wf(rest));
        lemma_first_chunk_of_serialized(first, serialize_chunks(rest));
        lemma_parse_serialize_chunks(rest);
        assert(serialize_chunks(chunks) == first.serialize() + serialize_chunks(rest));
        assert(seq![first] + rest =~= chunks);
    }
}

/// A container that is written and read back is the container.
pub proof fn lemma_parse_serialize(chunks: Seq<ChunkView>)
    requires
        all_wf(chunks),
    ensures
        parse(serialize(chunks)) == Ok::<Seq<ChunkView>, Error>(chunks),
{
    let bytes = serialize(chunks);
    lemma_parse_serialize_chunks(chunks);
    assert(bytes.subrange(0, 8) =~= signature());
    assert(bytes.subrange(8, bytes.len() as int) =~= serialize_chunks(chunks));
}

/// Bytes that are cut in two are the two parts, one behind the other.
proof fn lemma_cut(bytes: Seq<u8>, at: int)
    requires
        0 <= at <= bytes.len(),
    ensures
        bytes.subrange(0, at) + bytes.subrange(at, bytes.len() as int) == bytes,
{
}

/// Bytes that are read as chunks one after the other are the bytes that
/// these chunks are written as, and each of the chunks is well formed.
pub proof fn lemma_serialize_parse_chunks(bytes: Seq<u8>)
    requires
        parse_chunks(bytes) is Ok,
    ensures
        all_wf(parse_chunks(bytes).unwrap()),
        serialize_chunks(parse_chunks(bytes).unwrap()) == bytes,
    decreases bytes.len(),
{
    let chunks = parse_chunks(bytes).unwrap();
    if bytes.len() == 0 {
    } else {
        let (first, end) = first_chunk(bytes).unwrap();
        let tail = bytes.subrange(end, bytes.len() as int);
        let rest = parse_chunks(tail).unwrap();
        lemma_first_chunk_is_serialized(bytes);
        lemma_serialize_parse_chunks(tail);
        assert(chunks == seq![first] + rest);
        assert(chunks[0] == first);
        assert(chunks.drop_first() =~= rest);
        assert(serialize_chunks(chunks) == first.serialize() + serialize_chunks(rest));
        lemma_cut(bytes, end);
        assert(all_wf(chunks)) by {
            assert forall|i: int| 0 <= i < chunks.len() implies (#[trigger] chunks[i]).wf() by {
                if i > 0 {
                    assert(chunks[i] == rest[i - 1]);
                }
            }
        }
    }
}

/// Bytes that are read as a container are the bytes that the container is
/// written as, and each of its chunks is well formed.
pub proof fn lemma_serialize_parse(bytes: Seq<u8>)
    requires
        parse(bytes) is Ok,
    ensures
        all_wf(parse(bytes).unwrap()),
        serialize(parse(bytes).unwrap()) == bytes,
{
    let rest = bytes.subrange(8, bytes.len() as int);
    lemma_serialize_parse_chunks(rest);
    assert(bytes.subrange(0, 8) == signature());
    assert(signature() + rest =~= bytes);
}

/// A container that was read from bytes, written and read back, has the
/// same chunks in the same order.
pub proof fn lemma_round_trip(bytes: Seq<u8>)
    requires
        parse(bytes) is Ok,
    ensures
        parse(serialize(parse(bytes).unwrap())) == parse(bytes),
{
    lemma_serialize_parse(bytes);
}

/// Bytes that do not start with the signature are no container, whatever follows.
pub proof fn lemma_signature_is_required(bytes: Seq<u8>)
    requires
        bytes.len() < 8 || bytes.subrange(0, 8) != signature(),
    ensures
        parse(bytes) == Err::<Seq<ChunkView>, Error>(Error::FormatError),
{
}

/// Where the type code of a chunk is a text, the chunk has the type
/// `type_text` exactly when that text is `type_text`; where it is none, the
/// chunk has no type that a text could name.
pub proof fn lemma_has_type_is_same_text(chunk: ChunkView, type_text: Seq<char>)
    ensures
        has_type(chunk, type_text) <==> valid_utf8(chunk.chunk_type) && decode_utf8(
            chunk.chunk_type,
        ) == type_text,
{
    encode_utf8_valid_utf8(type_text);
    encode_utf8_decode_utf8(type_text);
    if valid_utf8(chunk.chunk_type) {
        decode_utf8_encode_utf8(chunk.chunk_type);
    }
}

/// After a chunk of the type `type_text` is put behind the chunks of a
/// container, looking the type up finds the chunk that it found before, and
/// the new chunk where it found none.
pub proof fn lemma_lookup_after_append(
    chunks: Seq<ChunkView>,
    chunk: ChunkView,
    type_text: Seq<char>,
)
    requires
        has_type(chunk, type_text),
    ensures
        lookup(chunks.push(chunk), type_text) == if lookup(chunks, type_text) is Some {
            lookup(chunks, type_text)
        } else {
            Some(chunk)
        },
{
    let longer = chunks.push(chunk);
    let place = position(chunks, type_text);
    lemma_position_is_first(chunks, type_text);
    assert(forall|j: int| 0 <= j < place ==> longer[j] == chunks[j]);
    lemma_position(longer, type_text, place);
}

/// After the only chunk of the type `type_text` is taken out of a container,
/// looking the type up finds nothing, and there is nothing of the type left
/// to take out.
pub proof fn lemma_lookup_after_remove(chunks: Seq<ChunkView>, type_text: Seq<char>)
    requires
        position(chunks, type_text) < chunks.len(),
        forall|j: int|
            position(chunks, type_text) < j < chunks.len() ==> !has_type(
                #[trigger] chunks[j],
                type_text,
            ),
    ensures
        lookup(without(chunks, type_text), type_text) is None,
        position(without(chunks, type_text), type_text) == without(chunks, type_text).len(),
{
    let place = position(chunks, type_text);
    let left = without(chunks, type_text);
    lemma_position_is_first(chunks, type_text);
    assert(forall|j: int| 0 <= j < left.len() ==> left[j] == chunks[if j < place { j } else { j + 1 }]);
    lemma_position(left, type_text, left.len() as int);
}

} // verus!
