//! A PNG file as a container: the signature and a sequence of chunks.

use vstd::prelude::*;
use vstd::slice::slice_subrange;
use crate::chunk::{
    chunk_fits, chunk_wire, lemma_parse_wire_prefix, lemma_wire_of_parsed, parse_chunk, Chunk,
    ChunkView,
};
use crate::chunk_type::{parse_name, ChunkType};
use crate::error::PngError;
use crate::wire::append_bytes;

verus! {

/// The eight bytes with which every PNG file starts.
pub open spec fn signature() -> Seq<u8> {
    seq![137u8, 80u8, 78u8, 71u8, 13u8, 10u8, 26u8, 10u8]
}

/// Puts chunks in front of the chunks that follow them, where those could be read.
pub open spec fn with_all(first: Seq<ChunkView>, rest: Result<Seq<ChunkView>, PngError>) -> Result<
    Seq<ChunkView>,
    PngError,
> {
    match rest {
        Ok(chunks) => Ok(first + chunks),
        Err(e) => Err(e),
    }
}

/// The chunks that `bytes` holds one after the other, or the failure of the
/// first that cannot be read.
pub open spec fn parse_chunks(bytes: Seq<u8>) -> Result<Seq<ChunkView>, PngError>
    decreases bytes.len(),
{
    if bytes.len() == 0 {
        Ok(Seq::empty())
    } else {
        match parse_chunk(bytes) {
            Err(e) => Err(e),
            Ok(v) => with_all(
                seq![v],
                parse_chunks(bytes.subrange(12 + v.data.len() as int, bytes.len() as int)),
            ),
        }
    }
}

/// The chunks of the file `bytes`, or why it is no PNG file.
pub open spec fn parse_png(bytes: Seq<u8>) -> Result<Seq<ChunkView>, PngError> {
    if bytes.len() < 8 || bytes.subrange(0, 8) != signature() {
        Err(PngError::BadSignature)
    } else {
        parse_chunks(bytes.subrange(8, bytes.len() as int))
    }
}

/// The wire forms of the chunks, one after the other.
pub open spec fn chunks_wire(chunks: Seq<ChunkView>) -> Seq<u8>
    decreases chunks.len(),
{
    if chunks.len() == 0 {
        Seq::empty()
    } else {
        chunk_wire(chunks[0]) + chunks_wire(chunks.subrange(1, chunks.len() as int))
    }
}

/// The file that holds the chunks: the signature, then each chunk's wire form.
pub open spec fn png_wire(chunks: Seq<ChunkView>) -> Seq<u8> {
    signature() + chunks_wire(chunks)
}

/// What each chunk of a sequence is.
pub open spec fn views(chunks: Seq<Chunk>) -> Seq<ChunkView> {
    Seq::new(chunks.len(), |i: int| chunks[i]@)
}

/// Whether some chunk has the tag `tag`.
pub open spec fn has_type(chunks: Seq<ChunkView>, tag: Seq<u8>) -> bool {
    exists|i: int| 0 <= i < chunks.len() && (#[trigger] chunks[i]).chunk_type == tag
}

/// Whether the chunk at `i` has the tag `tag` and none before it has.
pub open spec fn is_first_of_type(chunks: Seq<ChunkView>, tag: Seq<u8>, i: int) -> bool {
    &&& 0 <= i < chunks.len()
    &&& chunks[i].chunk_type == tag
    &&& forall|j: int| 0 <= j < i ==> (#[trigger] chunks[j]).chunk_type != tag
}

/// A PNG file in memory: its chunks in file order.
#[derive(Debug)]
pub struct Png {
    chunks: Vec<Chunk>,
}

impl View for Png {
    type V = Seq<ChunkView>;

    closed spec fn view(&self) -> Seq<ChunkView> {
        views(self.chunks@)
    }
}

impl Png {
    /// The signature as an array.
    pub fn header() -> (h: [u8; 8])
        ensures
            h@ == signature(),
    {
        let h: [u8; 8] = [137, 80, 78, 71, 13, 10, 26, 10];
        proof {
            assert(h@ =~= signature());
        }
        h
    }

    /// A container that holds the given chunks in their order.
    pub fn from_chunks(chunks: Vec<Chunk>) -> (png: Png)
        ensures
            png@ == views(chunks@),
    {
        Png { chunks }
    }

    /// The chunks in file order.
    pub fn chunks(&self) -> (chunks: &[Chunk])
        ensures
            views(chunks@) == self@,
    {
        self.chunks.as_slice()
    }

    /// Reads a whole file: the signature, then chunks until the input ends.
    ///
    /// One chunk that cannot be read fails the whole file, with that chunk's
    /// failure. The order of the chunks is not judged.
    pub fn try_from(bytes: &[u8]) -> (r: Result<Png, PngError>)
        ensures
            match parse_png(bytes@) {
                Ok(chunks) => r.is_ok() && r.unwrap()@ == chunks,
                Err(e) => r == Err::<Png, PngError>(e),
            },
    {
        if bytes.len() < 8 {
            return Err(PngError::BadSignature);
        }
        let header = Self::header();
        let mut k: usize = 0;
        while k < 8
            invariant
                k <= 8,
                bytes@.len() >= 8,
                header@ == signature(),
                forall|j: int| 0 <= j < k ==> bytes@[j] == signature()[j],
            decreases 8 - k,
        {
            if bytes[k] != header[k] {
                proof {
                    assert(bytes@.subrange(0, 8)[k as int] != signature()[k as int]);
                }
                return Err(PngError::BadSignature);
            }
            k += 1;
        }
        proof {
            assert(bytes@.subrange(0, 8) =~= signature());
        }
        let ghost body = bytes@.subrange(8, bytes@.len() as int);
        let mut chunks: Vec<Chunk> = Vec::new();
        let mut pos: usize = 8;
        while pos < bytes.len()
            invariant
                8 <= pos <= bytes@.len(),
                parse_png(bytes@) == parse_chunks(body),
                parse_chunks(body) == with_all(
                    views(chunks@),
                    parse_chunks(bytes@.subrange(pos as int, bytes@.len() as int)),
                ),
            decreases bytes@.len() - pos,
        {
            let rest = slice_subrange(bytes, pos, bytes.len());
            let chunk = match Chunk::try_from(rest) {
                Ok(c) => c,
                Err(e) => {
                    return Err(e);
                },
            };
            let n = chunk.length();
            proof {
                lemma_wire_of_parsed(rest@);
                assert(rest@.subrange(12 + n, rest@.len() as int) =~= bytes@.subrange(
                    pos + 12 + n,
                    bytes@.len() as int,
                ));
                let tail = parse_chunks(bytes@.subrange(pos + 12 + n, bytes@.len() as int));
                match tail {
                    Ok(t) => {
                        assert(views(chunks@.push(chunk)) + t =~= views(chunks@) + (seq![chunk@]
                            + t));
                    },
                    Err(_) => {},
                }
                assert(views(chunks@.push(chunk)) =~= views(chunks@).push(chunk@));
            }
            pos = pos + 12 + n as usize;
            chunks.push(chunk);
        }
        proof {
            assert(views(chunks@) + Seq::<ChunkView>::empty() =~= views(chunks@));
        }
        Ok(Png { chunks })
    }

    /// The whole file: the signature, then each chunk's wire form in order.
    pub fn as_bytes(&self) -> (bytes: Vec<u8>)
        ensures
            bytes@ == png_wire(self@),
    {
        let mut bytes: Vec<u8> = Vec::new();
        let header = Self::header();
        append_bytes(&mut bytes, header.as_slice());
        let mut i: usize = 0;
        while i < self.chunks.len()
            invariant
                i <= self.chunks@.len(),
                bytes@ == signature() + chunks_wire(self@.subrange(0, i as int)),
            decreases self.chunks@.len() - i,
        {
            let wire = self.chunks[i].as_bytes();
            append_bytes(&mut bytes, wire.as_slice());
            proof {
                lemma_chunks_wire_push(self@.subrange(0, i as int), self@[i as int]);
                assert(self@.subrange(0, i as int).push(self@[i as int]) =~= self@.subrange(
                    0,
                    i + 1,
                ));
                assert(bytes@ =~= signature() + chunks_wire(self@.subrange(0, i + 1)));
            }
            i += 1;
        }
        proof {
            assert(self@.subrange(0, i as int) =~= self@);
        }
        bytes
    }

    /// Puts a chunk at the end of the file. Chunks of one type may repeat.
    pub fn append_chunk(&mut self, chunk: Chunk)
        ensures
            final(self)@ == old(self)@.push(chunk@),
    {
        self.chunks.push(chunk);
        proof {
            assert(views(self.chunks@) =~= views(old(self).chunks@).push(chunk@));
        }
    }

    /// Where the first chunk with the tag `wanted` stands, if there is one.
    fn position(&self, wanted: &ChunkType) -> (at: Option<usize>)
        ensures
            match at {
                Some(i) => is_first_of_type(self@, wanted@, i as int),
                None => !has_type(self@, wanted@),
            },
    {
        let mut i: usize = 0;
        while i < self.chunks.len()
            invariant
                i <= self.chunks@.len(),
                forall|j: int| 0 <= j < i ==> (#[trigger] self@[j]).chunk_type != wanted@,
            decreases self.chunks@.len() - i,
        {
            if *self.chunks[i].chunk_type() == *wanted {
                return Some(i);
            }
            i += 1;
        }
        None
    }

    /// The first chunk, in file order, whose type has the given name.
    ///
    /// A name that is no valid chunk type is refused as `InvalidChunkType`.
    /// Later chunks of the same type are not reached by this function.
    pub fn chunk_by_type(&self, chunk_type: &str) -> (r: Result<Option<&Chunk>, PngError>)
        ensures
            match parse_name(chunk_type@) {
                Err(_) => r == Err::<Option<&Chunk>, PngError>(PngError::InvalidChunkType),
                Ok(tag) => match r {
                    Ok(Some(chunk)) => exists|i: int|
                        is_first_of_type(self@, tag, i) && chunk@ == self@[i],
                    Ok(None) => !has_type(self@, tag),
                    Err(_) => false,
                },
            },
    {
        let wanted = match ChunkType::from_str(chunk_type) {
            Ok(t) => t,
            Err(_) => {
                return Err(PngError::InvalidChunkType);
            },
        };
        match self.position(&wanted) {
            Some(i) => Ok(Some(&self.chunks[i])),
            None => Ok(None),
        }
    }

    /// Takes the first chunk, in file order, whose type has the given name
    /// out of the file and returns it. The other chunks keep their order.
    ///
    /// A name that is no valid chunk type is refused as `InvalidChunkType`,
    /// and a type of which the file holds no chunk as `ChunkNotFound`; the
    /// file is then unchanged.
    pub fn remove_chunk(&mut self, chunk_type: &str) -> (r: Result<Chunk, PngError>)
        ensures
            match parse_name(chunk_type@) {
                Err(_) => r == Err::<Chunk, PngError>(PngError::InvalidChunkType) && final(self)@
                    == old(self)@,
                Ok(tag) => if has_type(old(self)@, tag) {
                    r.is_ok() && exists|i: int|
                        is_first_of_type(old(self)@, tag, i) && r.unwrap()@ == old(self)@[i]
                            && final(self)@ == old(self)@.remove(i)
                } else {
                    r == Err::<Chunk, PngError>(PngError::ChunkNotFound) && final(self)@ == old(
                        self,
                    )@
                },
            },
    {
        let wanted = match ChunkType::from_str(chunk_type) {
            Ok(t) => t,
            Err(_) => {
                return Err(PngError::InvalidChunkType);
            },
        };
        match self.position(&wanted) {
            Some(i) => {
                let chunk = self.chunks.remove(i);
                proof {
                    assert(views(self.chunks@) =~= views(old(self).chunks@).remove(i as int));
                    assert(chunk@ == old(self)@[i as int]);
                }
                Ok(chunk)
            },
            None => Err(PngError::ChunkNotFound),
        }
    }
}

/// The wire form of a sequence with one more chunk at its end is the wire
/// form of the sequence with that chunk's wire form behind it.
pub proof fn lemma_chunks_wire_push(chunks: Seq<ChunkView>, last: ChunkView)
    ensures
        chunks_wire(chunks.push(last)) == chunks_wire(chunks) + chunk_wire(last),
    decreases chunks.len(),
{
    let all = chunks.push(last);
    if chunks.len() == 0 {
        let none = all.subrange(1, all.len() as int);
        assert(none.len() == 0);
        assert(chunks_wire(none) =~= Seq::<u8>::empty());
        assert(chunks_wire(chunks) =~= Seq::<u8>::empty());
        assert(all[0] == last);
        assert(chunks_wire(all) =~= chunk_wire(last));
        assert(chunks_wire(chunks) + chunk_wire(last) =~= chunk_wire(last));
    } else {
        let tail = chunks.subrange(1, chunks.len() as int);
        lemma_chunks_wire_push(tail, last);
        assert(all.subrange(1, all.len() as int) =~= tail.push(last));
        assert(chunks_wire(all) =~= chunks_wire(chunks) + chunk_wire(last));
    }
}

/// The wire forms of chunks that can stand in a file read back as those chunks.
pub proof fn lemma_parse_chunks_of_wire(chunks: Seq<ChunkView>)
    requires
        forall|i: int| 0 <= i < chunks.len() ==> chunk_fits(#[trigger] chunks[i]),
    ensures
        parse_chunks(chunks_wire(chunks)) == Ok::<Seq<ChunkView>, PngError>(chunks),
    decreases chunks.len(),
{
    if chunks.len() == 0 {
        assert(chunks =~= Seq::<ChunkView>::empty());
    } else {
        let first = chunks[0];
        let tail = chunks.subrange(1, chunks.len() as int);
        let wire = chunks_wire(chunks);
        assert(chunk_fits(first));
        assert forall|i: int| 0 <= i < tail.len() implies chunk_fits(#[trigger] tail[i]) by {
            assert(tail[i] == chunks[i + 1]);
        }
        lemma_parse_wire_prefix(first, chunks_wire(tail));
        lemma_parse_chunks_of_wire(tail);
        assert(wire.subrange(12 + first.data.len() as int, wire.len() as int) =~= chunks_wire(
            tail,
        ));
        assert(seq![first] + tail =~= chunks);
    }
}

/// Serializing a container and parsing the result gives the same chunks
/// again, whenever each chunk can stand in a file.
pub proof fn lemma_png_round_trip(chunks: Seq<ChunkView>)
    requires
        forall|i: int| 0 <= i < chunks.len() ==> chunk_fits(#[trigger] chunks[i]),
    ensures
        parse_png(png_wire(chunks)) == Ok::<Seq<ChunkView>, PngError>(chunks),
{
    let wire = png_wire(chunks);
    lemma_parse_chunks_of_wire(chunks);
    assert(wire.subrange(0, 8) =~= signature());
    assert(wire.subrange(8, wire.len() as int) =~= chunks_wire(chunks));
}

/// Where chunks could be read from `bytes`, each of them can stand in a
/// file, and their wire forms are `bytes` again, byte for byte.
pub proof fn lemma_wire_of_parsed_chunks(bytes: Seq<u8>)
    requires
        parse_chunks(bytes).is_ok(),
    ensures
        chunks_wire(parse_chunks(bytes).unwrap()) == bytes,
        forall|i: int|
            0 <= i < parse_chunks(bytes).unwrap().len() ==> chunk_fits(
                #[trigger] parse_chunks(bytes).unwrap()[i],
            ),
    decreases bytes.len(),
{
    let chunks = parse_chunks(bytes).unwrap();
    if bytes.len() == 0 {
        assert(chunks_wire(chunks) =~= bytes);
    } else {
        let first = parse_chunk(bytes).unwrap();
        let used = 12 + first.data.len() as int;
        lemma_wire_of_parsed(bytes);
        let rest = bytes.subrange(used, bytes.len() as int);
        lemma_wire_of_parsed_chunks(rest);
        let tail = parse_chunks(rest).unwrap();
        assert(chunks == seq![first] + tail);
        assert(chunks.subrange(1, chunks.len() as int) =~= tail);
        assert(chunks_wire(chunks) =~= bytes.subrange(0, used) + rest);
        assert(bytes.subrange(0, used) + rest =~= bytes);
        assert forall|i: int| 0 <= i < chunks.len() implies chunk_fits(#[trigger] chunks[i]) by {
            if i > 0 {
                assert(chunks[i] == tail[i - 1]);
            }
        }
    }
}

/// Serializing what was parsed gives the input again, byte for byte.
pub proof fn lemma_png_wire_of_parsed(bytes: Seq<u8>)
    requires
        parse_png(bytes).is_ok(),
    ensures
        png_wire(parse_png(bytes).unwrap()) == bytes,
{
    lemma_wire_of_parsed_chunks(bytes.subrange(8, bytes.len() as int));
    assert(bytes.subrange(0, 8) + bytes.subrange(8, bytes.len() as int) =~= bytes);
}

/// A container that was parsed from a file, serialized and parsed again, is
/// the same container.
pub proof fn lemma_png_reparse(bytes: Seq<u8>)
    requires
        parse_png(bytes).is_ok(),
    ensures
        parse_png(png_wire(parse_png(bytes).unwrap())) == parse_png(bytes),
{
    lemma_png_wire_of_parsed(bytes);
}

/// At most one position is the first of its type.
pub proof fn lemma_first_of_type_unique(chunks: Seq<ChunkView>, tag: Seq<u8>, i: int, j: int)
    requires
        is_first_of_type(chunks, tag, i),
        is_first_of_type(chunks, tag, j),
    ensures
        i == j,
{
    if i < j {
        assert(chunks[i].chunk_type != tag);
    }
    if j < i {
        assert(chunks[j].chunk_type != tag);
    }
}

/// After two chunks of one type were appended to a container that held none
/// of that type, the first of the two is the one that a lookup by type
/// finds, and removing it leaves the container with the second, which a
/// lookup then finds.
pub proof fn lemma_two_of_a_type(chunks: Seq<ChunkView>, a: ChunkView, b: ChunkView)
    requires
        a.chunk_type == b.chunk_type,
        !has_type(chunks, a.chunk_type),
    ensures
        has_type(chunks.push(a).push(b), a.chunk_type),
        is_first_of_type(chunks.push(a).push(b), a.chunk_type, chunks.len() as int),
        chunks.push(a).push(b)[chunks.len() as int] == a,
        chunks.push(a).push(b).remove(chunks.len() as int) == chunks.push(b),
        is_first_of_type(chunks.push(b), a.chunk_type, chunks.len() as int),
        chunks.push(b)[chunks.len() as int] == b,
{
    let both = chunks.push(a).push(b);
    let n = chunks.len() as int;
    assert(both[n].chunk_type == a.chunk_type);
    assert forall|j: int| 0 <= j < n implies (#[trigger] both[j]).chunk_type != a.chunk_type by {
        assert(both[j] == chunks[j]);
    }
    assert forall|j: int| 0 <= j < n implies (#[trigger] chunks.push(b)[j]).chunk_type
        != a.chunk_type by {
        assert(chunks.push(b)[j] == chunks[j]);
    }
    assert(both.remove(n) =~= chunks.push(b));
}

} // verus!
