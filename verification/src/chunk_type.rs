//! The four letter tag that names a chunk's purpose.
//!
//! Bit 5 of each byte of a tag tells upper case (clear) from lower case
//! (set), and each of the four positions gives that bit a meaning.

use vstd::prelude::*;
use vstd::std_specs::cmp::PartialEqSpecImpl;
use vstd::string::StrSliceExecFns;
use crate::error::PngError;
use crate::text::{bytes_text, render_bytes};

verus! {

/// Whether `b` is an ASCII letter.
pub open spec fn is_letter(b: u8) -> bool {
    (0x41 <= b && b <= 0x5a) || (0x61 <= b && b <= 0x7a)
}

/// Whether bit 5 of `b` is clear, which for a letter means upper case.
pub open spec fn is_capital_byte(b: u8) -> bool {
    (b / 0x20) % 2 == 0
}

/// Bit 5 of a byte is clear exactly when masking with `0x20` leaves nothing.
pub proof fn lemma_capital_is_mask(b: u8)
    ensures
        is_capital_byte(b) <==> b & 0x20 == 0,
{
    assert(((b / 0x20) % 2 == 0) <==> (b & 0x20 == 0)) by (bit_vector);
}

/// Whether `c` is an ASCII letter.
pub open spec fn is_letter_char(c: char) -> bool {
    ('A' <= c && c <= 'Z') || ('a' <= c && c <= 'z')
}

/// Whether a tag is acceptable in a file: four letters, the third in upper case.
pub open spec fn tag_is_valid(tag: Seq<u8>) -> bool {
    &&& tag.len() == 4
    &&& forall|i: int| 0 <= i < 4 ==> is_letter(#[trigger] tag[i])
    &&& is_capital_byte(tag[2])
}

/// The bytes that a name of ASCII characters stands for.
pub open spec fn name_bytes(name: Seq<char>) -> Seq<u8> {
    Seq::new(name.len(), |i: int| name[i] as u8)
}

/// What `ChunkType::from_str` returns for a name.
pub open spec fn parse_name(name: Seq<char>) -> Result<Seq<u8>, PngError> {
    if exists|i: int| 0 <= i < name.len() && !is_letter_char(#[trigger] name[i]) {
        Err(PngError::NotAscii)
    } else if name.len() != 4 || !is_capital_byte(name_bytes(name)[2]) {
        Err(PngError::InvalidChunkType)
    } else {
        Ok(name_bytes(name))
    }
}

/// A chunk type tag: four bytes, compared byte by byte.
#[derive(Clone, Copy, Debug)]
pub struct ChunkType {
    data: [u8; 4],
}

impl View for ChunkType {
    type V = Seq<u8>;

    closed spec fn view(&self) -> Seq<u8> {
        self.data@
    }
}

impl PartialEq for ChunkType {
    fn eq(&self, other: &Self) -> (r: bool) {
        let same = self.data[0] == other.data[0] && self.data[1] == other.data[1]
            && self.data[2] == other.data[2] && self.data[3] == other.data[3];
        proof {
            if same {
                assert(self.data@ =~= other.data@);
            }
        }
        same
    }
}

impl PartialEqSpecImpl for ChunkType {
    open spec fn obeys_eq_spec() -> bool {
        true
    }

    open spec fn eq_spec(&self, other: &Self) -> bool {
        self@ == other@
    }
}

impl ChunkType {
    fn is_capital(byte: u8) -> (r: bool)
        ensures
            r == is_capital_byte(byte),
    {
        proof {
            lemma_capital_is_mask(byte);
        }
        (byte & 0b00100000) == 0b00000000
    }

    fn is_alphabetic_char(c: char) -> (r: bool)
        ensures
            r == is_letter_char(c),
    {
        ('A' <= c && c <= 'Z') || ('a' <= c && c <= 'z')
    }

    fn is_alphabetic(byte: u8) -> (r: bool)
        ensures
            r == is_letter(byte),
    {
        (0x41 <= byte && byte <= 0x5a) || (0x61 <= byte && byte <= 0x7a)
    }

    /// Stores four bytes as a tag without judging them.
    pub fn new(data: [u8; 4]) -> (t: ChunkType)
        ensures
            t@ == data@,
    {
        ChunkType { data }
    }

    /// The four bytes of the tag.
    pub fn bytes(&self) -> (b: &[u8; 4])
        ensures
            b@ == self@,
    {
        &self.data
    }

    /// Whether the tag is four letters with the third in upper case.
    pub fn is_valid(&self) -> (r: bool)
        ensures
            r == tag_is_valid(self@),
    {
        let mut i: usize = 0;
        while i < 4
            invariant
                i <= 4,
                forall|j: int| 0 <= j < i ==> is_letter(#[trigger] self@[j]),
            decreases 4 - i,
        {
            if !Self::is_alphabetic(self.data[i]) {
                return false;
            }
            i += 1;
        }
        self.is_reserved_bit_valid()
    }

    /// Whether the chunk is critical: the first letter is in upper case.
    pub fn is_critical(&self) -> (r: bool)
        ensures
            r == is_capital_byte(self@[0]),
    {
        Self::is_capital(self.data[0])
    }

    /// Whether the chunk is public: the second letter is in upper case.
    pub fn is_public(&self) -> (r: bool)
        ensures
            r == is_capital_byte(self@[1]),
    {
        Self::is_capital(self.data[1])
    }

    /// Whether the reserved bit is clear: the third letter is in upper case.
    pub fn is_reserved_bit_valid(&self) -> (r: bool)
        ensures
            r == is_capital_byte(self@[2]),
    {
        Self::is_capital(self.data[2])
    }

    /// Whether the chunk is safe to copy: the fourth letter is in lower case.
    pub fn is_safe_to_copy(&self) -> (r: bool)
        ensures
            r == !is_capital_byte(self@[3]),
    {
        !Self::is_capital(self.data[3])
    }

    /// The strict constructor: accepts exactly the valid tags.
    pub fn try_from(value: [u8; 4]) -> (r: Result<ChunkType, PngError>)
        ensures
            tag_is_valid(value@) ==> r.is_ok() && r.unwrap()@ == value@,
            !tag_is_valid(value@) ==> r == Err::<ChunkType, PngError>(PngError::InvalidChunkType),
    {
        let chunk_type = ChunkType::new(value);
        if chunk_type.is_valid() {
            Ok(chunk_type)
        } else {
            Err(PngError::InvalidChunkType)
        }
    }

    /// Reads a tag from its four letter name.
    ///
    /// A name with a character that is no ASCII letter is refused as
    /// `NotAscii`, whatever its length. A name of letters is then held to
    /// the rules of the strict constructor, which also refuses a name that
    /// is not four letters long.
    pub fn from_str(s: &str) -> (r: Result<ChunkType, PngError>)
        ensures
            match parse_name(s@) {
                Ok(tag) => r.is_ok() && r.unwrap()@ == tag,
                Err(e) => r == Err::<ChunkType, PngError>(e),
            },
    {
        let n = s.unicode_len();
        let mut i: usize = 0;
        while i < n
            invariant
                n == s@.len(),
                i <= n,
                forall|j: int| 0 <= j < i ==> is_letter_char(#[trigger] s@[j]),
            decreases n - i,
        {
            if !Self::is_alphabetic_char(s.get_char(i)) {
                return Err(PngError::NotAscii);
            }
            i += 1;
        }
        if n != 4 {
            return Err(PngError::InvalidChunkType);
        }
        let data: [u8; 4] = [
            s.get_char(0) as u8,
            s.get_char(1) as u8,
            s.get_char(2) as u8,
            s.get_char(3) as u8,
        ];
        proof {
            assert(data@ =~= name_bytes(s@));
            assert forall|j: int| 0 <= j < 4 implies is_letter(#[trigger] data@[j]) by {
                assert(is_letter_char(s@[j]));
            }
        }
        Self::try_from(data)
    }

    /// The tag as text: its four bytes read as characters, first byte first.
    pub fn to_string(&self) -> (text: String)
        ensures
            text@ == bytes_text(self@),
    {
        render_bytes(self.data.as_slice())
    }
}

/// The view of a tag always has four bytes.
pub proof fn lemma_tag_len(t: ChunkType)
    ensures
        t@.len() == 4,
{
}

/// A name that `ChunkType::from_str` accepts stands for a valid tag.
pub proof fn lemma_name_is_valid_tag(name: Seq<char>)
    requires
        parse_name(name).is_ok(),
    ensures
        tag_is_valid(parse_name(name).unwrap()),
{
    let tag = name_bytes(name);
    assert forall|i: int| 0 <= i < 4 implies is_letter(#[trigger] tag[i]) by {
        assert(is_letter_char(name[i]));
    }
}

} // verus!
