//! A chunk: a type tag, a payload, and a checksum over both.
//!
//! On the wire a chunk is the payload's length as a big-endian 32-bit
//! number, the four bytes of the tag, the payload, and the CRC-32 of tag
//! and payload as a big-endian 32-bit number.

use vstd::prelude::*;
use vstd::slice::{slice_subrange, slice_to_vec};
use crate::chunk_type::{tag_is_valid, ChunkType};
use crate::error::PngError;
use crate::text::{bytes_text, render_bytes};
use crate::wire::{
    append_bytes, be_bytes, be_value, lemma_be_bytes_of_value, lemma_be_value_of_bytes,
    u32_from_be, u32_to_be,
};

verus! {

/// The CRC-32 checksum, with the IEEE polynomial, of a byte string.
pub uninterp spec fn crc32_ieee(bytes: Seq<u8>) -> u32;

/// Calls `crc::crc32::checksum_ieee`, which runs the table-driven CRC-32
/// with the IEEE polynomial over the whole slice. Its result depends on the
/// bytes alone, and `crc32_ieee` is the name of that result; nothing more is
/// claimed of it.
#[verifier::external_body]
fn checksum(bytes: &[u8]) -> (sum: u32)
    ensures
        sum == crc32_ieee(bytes@),
{
    crc::crc32::checksum_ieee(bytes)
}

/// What a chunk is: its tag and its payload. Length and checksum follow from them.
pub struct ChunkView {
    pub chunk_type: Seq<u8>,
    pub data: Seq<u8>,
}

/// What a chunk's envelope holds before its checksum is examined.
pub struct FrameView {
    pub chunk_type: Seq<u8>,
    pub data: Seq<u8>,
    pub crc: u32,
}

/// The checksum that a chunk carries.
pub open spec fn chunk_crc(v: ChunkView) -> u32 {
    crc32_ieee(v.chunk_type + v.data)
}

/// The bytes of a chunk on the wire.
pub open spec fn chunk_wire(v: ChunkView) -> Seq<u8> {
    be_bytes(v.data.len() as u32) + v.chunk_type + v.data + be_bytes(chunk_crc(v))
}

/// The envelope at the start of `bytes`, or why there is none.
///
/// Bytes beyond the envelope are not looked at.
pub open spec fn frame_of(bytes: Seq<u8>) -> Result<FrameView, PngError> {
    if bytes.len() < 12 {
        Err(PngError::TruncatedChunk)
    } else {
        let n = be_value(bytes.subrange(0, 4)) as int;
        if bytes.len() < 12 + n {
            Err(PngError::TruncatedChunk)
        } else if !tag_is_valid(bytes.subrange(4, 8)) {
            Err(PngError::InvalidChunkType)
        } else {
            Ok(
                FrameView {
                    chunk_type: bytes.subrange(4, 8),
                    data: bytes.subrange(8, 8 + n),
                    crc: be_value(bytes.subrange(8 + n, 12 + n)),
                },
            )
        }
    }
}

/// The chunk at the start of `bytes`, or why there is none.
pub open spec fn parse_chunk(bytes: Seq<u8>) -> Result<ChunkView, PngError> {
    match frame_of(bytes) {
        Err(e) => Err(e),
        Ok(f) => if f.crc != crc32_ieee(f.chunk_type + f.data) {
            Err(PngError::CrcMismatch)
        } else {
            Ok(ChunkView { chunk_type: f.chunk_type, data: f.data })
        },
    }
}

/// A chunk's envelope as read from the wire, its checksum not yet examined.
#[derive(Debug)]
pub struct Frame {
    pub chunk_type: ChunkType,
    pub data: Vec<u8>,
    pub crc: u32,
}

impl View for Frame {
    type V = FrameView;

    open spec fn view(&self) -> FrameView {
        FrameView { chunk_type: self.chunk_type@, data: self.data@, crc: self.crc }
    }
}

impl Frame {
    /// Reads the envelope at the start of `bytes`: length, tag, payload and
    /// stored checksum. The tag must be valid; the checksum is only read.
    pub fn read(bytes: &[u8]) -> (r: Result<Frame, PngError>)
        ensures
            match frame_of(bytes@) {
                Ok(f) => r.is_ok() && r.unwrap()@ == f,
                Err(e) => r == Err::<Frame, PngError>(e),
            },
    {
        if bytes.len() < 12 {
            return Err(PngError::TruncatedChunk);
        }
        let length = u32_from_be(bytes, 0);
        if bytes.len() - 12 < length as usize {
            return Err(PngError::TruncatedChunk);
        }
        let n: usize = length as usize;
        let tag: [u8; 4] = [bytes[4], bytes[5], bytes[6], bytes[7]];
        proof {
            assert(tag@ =~= bytes@.subrange(4, 8));
        }
        let chunk_type = match ChunkType::try_from(tag) {
            Ok(t) => t,
            Err(e) => {
                return Err(e);
            },
        };
        let data = slice_to_vec(slice_subrange(bytes, 8, 8 + n));
        let crc = u32_from_be(bytes, 8 + n);
        Ok(Frame { chunk_type, data, crc })
    }

    /// Holds the stored checksum against one computed over tag and payload.
    pub fn verify(&self, computed: u32) -> (r: Result<(), PngError>)
        ensures
            computed == self@.crc ==> r == Ok::<(), PngError>(()),
            computed != self@.crc ==> r == Err::<(), PngError>(PngError::CrcMismatch),
    {
        if computed != self.crc {
            Err(PngError::CrcMismatch)
        } else {
            Ok(())
        }
    }
}

/// A chunk whose length and checksum agree with its tag and payload.
#[derive(Debug)]
pub struct Chunk {
    length: u32,
    chunk_type: ChunkType,
    data: Vec<u8>,
    crc: u32,
}

impl View for Chunk {
    type V = ChunkView;

    closed spec fn view(&self) -> ChunkView {
        ChunkView { chunk_type: self.chunk_type@, data: self.data@ }
    }
}

impl Chunk {
    #[verifier::type_invariant]
    spec fn sealed(self) -> bool {
        &&& self.length as nat == self.data@.len()
        &&& self.crc == crc32_ieee(self.chunk_type@ + self.data@)
    }

    /// Builds a chunk from a tag and a payload, computing length and checksum.
    ///
    /// The payload's content is not examined. It is refused only when its
    /// length does not fit the 32-bit length field.
    pub fn new(chunk_type: ChunkType, data: Vec<u8>) -> (r: Result<Chunk, PngError>)
        ensures
            data@.len() <= u32::MAX ==> r.is_ok() && r.unwrap()@ == (ChunkView {
                chunk_type: chunk_type@,
                data: data@,
            }),
            data@.len() > u32::MAX ==> r == Err::<Chunk, PngError>(PngError::UnrepresentableSize),
    {
        if data.len() > u32::MAX as usize {
            return Err(PngError::UnrepresentableSize);
        }
        let length = data.len() as u32;
        let crc = Chunk::calculate_crc(chunk_type.bytes().as_slice(), data.as_slice());
        Ok(Chunk { length, chunk_type, data, crc })
    }

    /// The checksum of a tag followed by a payload.
    pub fn calculate_crc(chunk_type: &[u8], data: &[u8]) -> (crc: u32)
        ensures
            crc == crc32_ieee(chunk_type@ + data@),
    {
        let mut crc_data: Vec<u8> = Vec::new();
        append_bytes(&mut crc_data, chunk_type);
        append_bytes(&mut crc_data, data);
        proof {
            assert(crc_data@ =~= chunk_type@ + data@);
        }
        checksum(crc_data.as_slice())
    }

    /// The number of bytes of the payload.
    pub fn length(&self) -> (n: u32)
        ensures
            n as nat == self@.data.len(),
    {
        proof {
            use_type_invariant(self);
        }
        self.length
    }

    /// The chunk's type tag.
    pub fn chunk_type(&self) -> (t: &ChunkType)
        ensures
            t@ == self@.chunk_type,
    {
        &self.chunk_type
    }

    /// The payload.
    pub fn data(&self) -> (d: &[u8])
        ensures
            d@ == self@.data,
    {
        self.data.as_slice()
    }

    /// The checksum over tag and payload.
    pub fn crc(&self) -> (c: u32)
        ensures
            c == chunk_crc(self@),
    {
        proof {
            use_type_invariant(self);
        }
        self.crc
    }

    /// The payload as text, each byte read as the character of that number.
    ///
    /// This never fails. Payloads that are not ASCII text give text that
    /// does not say what their author meant.
    pub fn data_as_string(&self) -> (r: Result<String, ()>)
        ensures
            r.is_ok(),
            r.unwrap()@ == bytes_text(self@.data),
    {
        Ok(self.to_string())
    }

    /// The payload as text, each byte read as the character of that number.
    pub fn to_string(&self) -> (text: String)
        ensures
            text@ == bytes_text(self@.data),
    {
        render_bytes(self.data.as_slice())
    }

    /// The chunk on the wire: length, tag, payload, checksum.
    pub fn as_bytes(&self) -> (bytes: Vec<u8>)
        ensures
            bytes@ == chunk_wire(self@),
    {
        proof {
            use_type_invariant(self);
        }
        let mut bytes: Vec<u8> = Vec::new();
        let length = u32_to_be(self.length);
        let crc = u32_to_be(self.crc);
        append_bytes(&mut bytes, length.as_slice());
        append_bytes(&mut bytes, self.chunk_type.bytes().as_slice());
        append_bytes(&mut bytes, self.data.as_slice());
        append_bytes(&mut bytes, crc.as_slice());
        proof {
            assert(bytes@ =~= chunk_wire(self@));
        }
        bytes
    }

    /// Reads the chunk at the start of `value` and checks its checksum.
    ///
    /// Bytes beyond the chunk are not looked at.
    pub fn try_from(value: &[u8]) -> (r: Result<Chunk, PngError>)
        ensures
            match parse_chunk(value@) {
                Ok(v) => r.is_ok() && r.unwrap()@ == v,
                Err(e) => r == Err::<Chunk, PngError>(e),
            },
    {
        let frame = match Frame::read(value) {
            Ok(f) => f,
            Err(e) => {
                return Err(e);
            },
        };
        let computed = Chunk::calculate_crc(
            frame.chunk_type.bytes().as_slice(),
            frame.data.as_slice(),
        );
        match frame.verify(computed) {
            Err(e) => Err(e),
            Ok(()) => {
                let length = frame.data.len() as u32;
                Ok(Chunk { length, chunk_type: frame.chunk_type, data: frame.data, crc: frame.crc })
            },
        }
    }
}

/// Whether a tag and a payload can stand in a file: the tag is valid and
/// the payload's length fits the length field.
pub open spec fn chunk_fits(v: ChunkView) -> bool {
    tag_is_valid(v.chunk_type) && v.data.len() <= u32::MAX
}

/// A chunk's wire form, with anything behind it, reads back as that chunk,
/// and the wire form is twelve bytes longer than the payload.
pub proof fn lemma_parse_wire_prefix(v: ChunkView, rest: Seq<u8>)
    requires
        chunk_fits(v),
    ensures
        chunk_wire(v).len() == 12 + v.data.len(),
        parse_chunk(chunk_wire(v) + rest) == Ok::<ChunkView, PngError>(v),
{
    let n = v.data.len() as int;
    let w = chunk_wire(v) + rest;
    lemma_be_value_of_bytes(n as u32);
    lemma_be_value_of_bytes(chunk_crc(v));
    assert(w.subrange(0, 4) =~= be_bytes(n as u32));
    assert(w.subrange(4, 8) =~= v.chunk_type);
    assert(w.subrange(8, 8 + n) =~= v.data);
    assert(w.subrange(8 + n, 12 + n) =~= be_bytes(chunk_crc(v)));
}

/// Serializing a chunk and parsing the result gives the chunk again: the
/// same tag and payload, and with them the same length and checksum.
pub proof fn lemma_chunk_round_trip(v: ChunkView)
    requires
        chunk_fits(v),
    ensures
        parse_chunk(chunk_wire(v)) == Ok::<ChunkView, PngError>(v),
{
    lemma_parse_wire_prefix(v, Seq::empty());
    assert(chunk_wire(v) + Seq::<u8>::empty() =~= chunk_wire(v));
}

/// Where parsing succeeds, the chunk's wire form is the start of the input,
/// and the chunk can stand in a file.
pub proof fn lemma_wire_of_parsed(bytes: Seq<u8>)
    requires
        parse_chunk(bytes).is_ok(),
    ensures
        chunk_fits(parse_chunk(bytes).unwrap()),
        12 + parse_chunk(bytes).unwrap().data.len() <= bytes.len(),
        chunk_wire(parse_chunk(bytes).unwrap()) == bytes.subrange(
            0,
            12 + parse_chunk(bytes).unwrap().data.len() as int,
        ),
{
    let v = parse_chunk(bytes).unwrap();
    let n = v.data.len() as int;
    assert(n == be_value(bytes.subrange(0, 4)));
    lemma_be_bytes_of_value(bytes.subrange(0, 4));
    lemma_be_bytes_of_value(bytes.subrange(8 + n, 12 + n));
    assert(chunk_wire(v) =~= bytes.subrange(0, 12 + n));
}

/// An input of fewer than twelve bytes, or one that is shorter than its
/// length field says, is refused as truncated.
pub proof fn lemma_truncated_is_refused(bytes: Seq<u8>)
    requires
        bytes.len() < 12 || bytes.len() < 12 + be_value(bytes.subrange(0, 4)),
    ensures
        parse_chunk(bytes) == Err::<ChunkView, PngError>(PngError::TruncatedChunk),
{
}

/// Altering tag or payload of a chunk on the wire while its checksum field
/// stays is refused as a checksum mismatch, provided that the altered tag is
/// still valid and that the checksum of the altered content differs from the
/// one stored.
pub proof fn lemma_altered_chunk_is_refused(v: ChunkView, altered: ChunkView)
    requires
        chunk_fits(v),
        tag_is_valid(altered.chunk_type),
        altered.data.len() == v.data.len(),
        chunk_crc(altered) != chunk_crc(v),
    ensures
        parse_chunk(
            be_bytes(v.data.len() as u32) + altered.chunk_type + altered.data + be_bytes(
                chunk_crc(v),
            ),
        ) == Err::<ChunkView, PngError>(PngError::CrcMismatch),
{
    let n = v.data.len() as int;
    let w = be_bytes(n as u32) + altered.chunk_type + altered.data + be_bytes(chunk_crc(v));
    lemma_be_value_of_bytes(n as u32);
    lemma_be_value_of_bytes(chunk_crc(v));
    assert(w.subrange(0, 4) =~= be_bytes(n as u32));
    assert(w.subrange(4, 8) =~= altered.chunk_type);
    assert(w.subrange(8, 8 + n) =~= altered.data);
    assert(w.subrange(8 + n, 12 + n) =~= be_bytes(chunk_crc(v)));
}

} // verus!
