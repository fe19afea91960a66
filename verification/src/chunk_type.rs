//! The four-letter type tag of a chunk.

use crate::bytes::{all_letters, byte_is_letter};
use crate::error::PngError;
use crate::text::{all_ascii, ascii_text, lemma_ascii_is_text, string_of_bytes, text_of_bytes};
use vstd::prelude::*;
use vstd::std_specs::cmp::PartialEqSpecImpl;
use vstd::string::StringSliceAdditionalSpecFns;

verus! {

/// A chunk type: four bytes, each an ASCII letter once constructed through
/// [`ChunkType::try_from`] or [`ChunkType::from_str`].
#[derive(Debug, Clone, Copy)]
pub struct ChunkType {
    type_arr: [u8; 4],
}

impl View for ChunkType {
    type V = Seq<u8>;

    /// The four bytes of the tag.
    open spec fn view(&self) -> Seq<u8> {
        self.spec_bytes()@
    }
}

/// What [`ChunkType::try_from`] gives for four bytes: the bytes themselves
/// when all are letters.
pub open spec fn tag_of_bytes(b: Seq<u8>) -> Result<Seq<u8>, PngError> {
    if all_letters(b) {
        Ok(b)
    } else {
        Err(PngError::InvalidChunkType)
    }
}

/// What [`ChunkType::from_str`] gives for a text with the UTF-8 bytes `b`.
pub open spec fn tag_of_text(b: Seq<u8>) -> Result<Seq<u8>, PngError> {
    if b.len() != 4 {
        Err(PngError::InvalidLength)
    } else {
        tag_of_bytes(b)
    }
}

impl ChunkType {
    /// The tag as an array.
    pub closed spec fn spec_bytes(&self) -> [u8; 4] {
        self.type_arr
    }

    /// Holds once every byte is an ASCII letter.
    pub open spec fn wf(&self) -> bool {
        all_letters(self@)
    }

    /// Bit 5 of the first byte is clear.
    pub open spec fn spec_is_critical(&self) -> bool {
        self@[0] & 32u8 == 0
    }

    /// Bit 5 of the second byte is clear.
    pub open spec fn spec_is_public(&self) -> bool {
        self@[1] & 32u8 == 0
    }

    /// Bit 5 of the third byte is clear.
    pub open spec fn spec_is_reserved_bit_valid(&self) -> bool {
        self@[2] & 32u8 == 0
    }

    /// Bit 5 of the fourth byte is set.
    pub open spec fn spec_is_safe_to_copy(&self) -> bool {
        self@[3] & 32u8 != 0
    }

    /// All bytes are letters and the reserved bit is clear.
    pub open spec fn spec_is_valid(&self) -> bool {
        all_letters(self@) && self.spec_is_reserved_bit_valid()
    }

    /// Builds a tag from four bytes; fails unless each is an ASCII letter.
    pub fn try_from(value: [u8; 4]) -> (r: Result<ChunkType, PngError>)
        ensures
            match tag_of_bytes(value@) {
                Ok(b) => r is Ok && r.unwrap()@ == b && r.unwrap().spec_bytes() == value
                    && r.unwrap().wf(),
                Err(e) => r == Err::<ChunkType, PngError>(e),
            },
    {
        let mut i: usize = 0;
        while i < 4
            invariant
                i <= 4,
                all_letters(value@.take(i as int)),
            decreases 4 - i,
        {
            if !byte_is_letter(value[i]) {
                return Err(PngError::InvalidChunkType);
            }
            i += 1;
        }
        assert(value@.take(4) =~= value@);
        Ok(ChunkType { type_arr: value })
    }

    /// Builds a tag from text; fails unless the text is four bytes long and
    /// each byte is an ASCII letter.
    pub fn from_str(s: &str) -> (r: Result<ChunkType, PngError>)
        ensures
            match tag_of_text(s.spec_bytes()) {
                Ok(b) => r is Ok && r.unwrap()@ == b && r.unwrap().wf(),
                Err(e) => r == Err::<ChunkType, PngError>(e),
            },
    {
        let temp: &[u8] = s.as_bytes();
        if temp.len() == 4 {
            let value: [u8; 4] = [temp[0], temp[1], temp[2], temp[3]];
            assert(value@ =~= temp@);
            ChunkType::try_from(value)
        } else {
            Err(PngError::InvalidLength)
        }
    }

    /// The four bytes of the tag.
    #[verifier::when_used_as_spec(spec_bytes)]
    pub fn bytes(&self) -> (r: [u8; 4])
        ensures
            r == self.spec_bytes(),
    {
        self.type_arr
    }

    /// Whether all bytes are letters and the reserved bit is clear.
    pub fn is_valid(&self) -> (r: bool)
        ensures
            r == self.spec_is_valid(),
    {
        let mut i: usize = 0;
        while i < 4
            invariant
                i <= 4,
                all_letters(self@.take(i as int)),
            decreases 4 - i,
        {
            if !byte_is_letter(self.type_arr[i]) {
                return false;
            }
            i += 1;
        }
        assert(self@.take(4) =~= self@);
        self.is_reserved_bit_valid()
    }

    /// Whether the chunk is critical to display the image.
    pub fn is_critical(&self) -> (r: bool)
        ensures
            r == self.spec_is_critical(),
    {
        self.type_arr[0] & 32u8 == 0
    }

    /// Whether the chunk type is publicly registered.
    pub fn is_public(&self) -> (r: bool)
        ensures
            r == self.spec_is_public(),
    {
        self.type_arr[1] & 32u8 == 0
    }

    /// Whether the reserved bit has the value that the format asks for.
    pub fn is_reserved_bit_valid(&self) -> (r: bool)
        ensures
            r == self.spec_is_reserved_bit_valid(),
    {
        self.type_arr[2] & 32u8 == 0
    }

    /// Whether an editor that does not know the chunk may copy it.
    pub fn is_safe_to_copy(&self) -> (r: bool)
        ensures
            r == self.spec_is_safe_to_copy(),
    {
        self.type_arr[3] & 32u8 != 0
    }

    /// The tag as text: its four letters. Bytes that are not UTF-8 give a
    /// placeholder.
    pub fn to_string(&self) -> (r: String)
        ensures
            r@ == text_of_bytes(self@),
            self.wf() ==> r@ == ascii_text(self@),
    {
        proof {
            if self.wf() {
                assert(all_ascii(self@));
                lemma_ascii_is_text(self@);
            }
        }
        let mut v: Vec<u8> = Vec::new();
        v.push(self.type_arr[0]);
        v.push(self.type_arr[1]);
        v.push(self.type_arr[2]);
        v.push(self.type_arr[3]);
        assert(v@ =~= self@);
        string_of_bytes(v)
    }
}

impl PartialEq for ChunkType {
    fn eq(&self, other: &ChunkType) -> (r: bool) {
        let r = self.type_arr[0] == other.type_arr[0] && self.type_arr[1] == other.type_arr[1]
            && self.type_arr[2] == other.type_arr[2] && self.type_arr[3] == other.type_arr[3];
        assert(r == (self@ =~= other@));
        r
    }
}

impl PartialEqSpecImpl for ChunkType {
    open spec fn obeys_eq_spec() -> bool {
        true
    }

    open spec fn eq_spec(&self, other: &ChunkType) -> bool {
        self@ == other@
    }
}

} // verus!
