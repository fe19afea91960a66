//! A chunk: a length-prefixed, checksummed record of a type tag and a payload.

use crate::bytes::{all_letters, be_bytes, be_u32, push_all, push_be_u32, read_be_u32};
use crate::bytes::{lemma_be_bytes_of_be_u32, lemma_be_u32_of_be_bytes};
use crate::chunk_type::ChunkType;
use crate::error::PngError;
use crate::text::{all_ascii, ascii_text, decimal, lemma_ascii_is_text, lemma_decimal_ascii};
use crate::text::{push_decimal, string_from_utf8, string_of_bytes, text_of_bytes};
use crc::{Crc, CRC_32_ISO_HDLC};
use vstd::prelude::*;
use vstd::utf8::*;

verus! {

/// The CRC-32/ISO-HDLC checksum of a byte sequence, as the `crc` crate
/// computes it.
pub uninterp spec fn crc32_iso_hdlc(bytes: Seq<u8>) -> u32;

/// Calls `Crc::<u32>::checksum` of the `crc` crate with the algorithm
/// `CRC_32_ISO_HDLC`. The checksum depends on the bytes alone; the contract
/// gives it its name and states nothing else of it.
#[verifier::external_body]
fn crc32_checksum(bytes: &[u8]) -> (r: u32)
    ensures
        r == crc32_iso_hdlc(bytes@),
{
    Crc::<u32>::new(&CRC_32_ISO_HDLC).checksum(bytes)
}

/// What a chunk is, as plain values.
pub struct ChunkView {
    /// The declared number of payload bytes.
    pub length: u32,
    /// The four bytes of the type tag.
    pub tag: Seq<u8>,
    /// The payload.
    pub data: Seq<u8>,
    /// The stored checksum.
    pub crc: u32,
}

impl ChunkView {
    /// The tag is four letters and the length is that of the payload.
    pub open spec fn framed(self) -> bool {
        &&& self.tag.len() == 4
        &&& all_letters(self.tag)
        &&& self.length == self.data.len()
    }

    /// The stored checksum is that of the tag followed by the payload.
    pub open spec fn crc_ok(self) -> bool {
        self.crc == crc32_iso_hdlc(self.tag + self.data)
    }

    /// The invariant of a chunk: well framed, with the right checksum.
    pub open spec fn wf(self) -> bool {
        self.framed() && self.crc_ok()
    }

    /// The bytes of the chunk on the wire: length, tag, payload, checksum.
    pub open spec fn wire(self) -> Seq<u8> {
        be_bytes(self.length) + self.tag + self.data + be_bytes(self.crc)
    }

    /// The chunk as a line for a reader, in ASCII: the length, the tag, each
    /// payload byte as a number, and the checksum, each followed by a space.
    pub open spec fn render(self) -> Seq<u8> {
        decimal(self.length as nat) + seq![32u8] + self.tag + seq![32u8] + spaced_decimals(
            self.data,
        ) + decimal(self.crc as nat) + seq![32u8]
    }

    /// The number of bytes that the chunk takes on the wire.
    pub open spec fn wire_len(self) -> int {
        12 + self.data.len() as int
    }
}

/// The chunk that is built from a tag and a payload: the length is that of
/// the payload, and the checksum is computed.
pub open spec fn built(tag: Seq<u8>, data: Seq<u8>) -> ChunkView {
    ChunkView { length: data.len() as u32, tag, data, crc: crc32_iso_hdlc(tag + data) }
}

/// A chunk built from a tag of four letters and a payload that a chunk can
/// hold is well formed, and its bytes parse to it.
pub proof fn law_built_is_wf(tag: Seq<u8>, data: Seq<u8>)
    requires
        tag.len() == 4,
        all_letters(tag),
        data.len() <= u32::MAX,
    ensures
        built(tag, data).wf(),
        parse_chunk(built(tag, data).wire()) == Ok::<ChunkView, PngError>(built(tag, data)),
{
    let c = built(tag, data);
    lemma_wire_then_parse(c, Seq::empty());
    assert(c.wire() + Seq::<u8>::empty() =~= c.wire());
}

/// Each byte as a decimal number followed by a space.
pub open spec fn spaced_decimals(data: Seq<u8>) -> Seq<u8>
    decreases data.len(),
{
    if data.len() == 0 {
        Seq::empty()
    } else {
        spaced_decimals(data.drop_last()) + decimal(data.last() as nat) + seq![32u8]
    }
}

/// The numbers of a payload, written out, are ASCII.
pub proof fn lemma_spaced_decimals_ascii(data: Seq<u8>)
    ensures
        all_ascii(spaced_decimals(data)),
    decreases data.len(),
{
    if data.len() > 0 {
        lemma_spaced_decimals_ascii(data.drop_last());
        lemma_decimal_ascii(data.last() as nat);
    }
}

/// A well-framed chunk is shown as ASCII text, character for byte.
pub proof fn lemma_render_is_text(c: ChunkView)
    requires
        c.framed(),
    ensures
        all_ascii(c.render()),
        text_of_bytes(c.render()) == ascii_text(c.render()),
{
    lemma_decimal_ascii(c.length as nat);
    lemma_decimal_ascii(c.crc as nat);
    lemma_spaced_decimals_ascii(c.data);
    assert(all_ascii(c.tag));
    lemma_ascii_is_text(c.render());
}

/// Cuts the chunk at the start of `b` into its four parts, without looking
/// at the checksum. Bytes after the chunk are not read.
pub open spec fn frame_chunk(b: Seq<u8>) -> Result<ChunkView, PngError> {
    if b.len() < 12 {
        Err(PngError::ChunkTooShort)
    } else if !all_letters(b.subrange(4, 8)) {
        Err(PngError::InvalidChunkType)
    } else if b.len() - 12 < be_u32(b.subrange(0, 4)) {
        Err(PngError::Truncated)
    } else {
        let n = be_u32(b.subrange(0, 4));
        Ok(
            ChunkView {
                length: n,
                tag: b.subrange(4, 8),
                data: b.subrange(8, 8 + n),
                crc: be_u32(b.subrange(8 + n, 12 + n)),
            },
        )
    }
}

/// What comes of a framed chunk once its checksum has been computed.
pub open spec fn checked(c: ChunkView, computed: u32) -> Result<ChunkView, PngError> {
    if c.crc == computed {
        Ok(c)
    } else {
        Err(PngError::CrcMismatch)
    }
}

/// Parses the chunk at the start of `b`: framing first, then the checksum.
pub open spec fn parse_chunk(b: Seq<u8>) -> Result<ChunkView, PngError> {
    match frame_chunk(b) {
        Ok(c) => checked(c, crc32_iso_hdlc(c.tag + c.data)),
        Err(e) => Err(e),
    }
}

/// A chunk that parses is well formed, and its wire bytes are the bytes
/// it was parsed from.
pub proof fn lemma_parse_then_wire(b: Seq<u8>)
    requires
        parse_chunk(b) is Ok,
    ensures
        parse_chunk(b).unwrap().wf(),
        parse_chunk(b).unwrap().wire_len() <= b.len(),
        parse_chunk(b).unwrap().wire() == b.take(parse_chunk(b).unwrap().wire_len()),
{
    let c = parse_chunk(b).unwrap();
    let n = be_u32(b.subrange(0, 4));
    lemma_be_bytes_of_be_u32(b.subrange(0, 4));
    lemma_be_bytes_of_be_u32(b.subrange(8 + n, 12 + n));
    assert(c.wire() =~= b.take(c.wire_len()));
}

/// The wire bytes of a well-formed chunk, whatever follows them, parse to
/// that chunk.
pub proof fn lemma_wire_then_parse(c: ChunkView, rest: Seq<u8>)
    requires
        c.wf(),
    ensures
        c.wire().len() == c.wire_len(),
        parse_chunk(c.wire() + rest) == Ok::<ChunkView, PngError>(c),
{
    let b = c.wire() + rest;
    lemma_be_u32_of_be_bytes(c.length);
    lemma_be_u32_of_be_bytes(c.crc);
    let n = c.length;
    assert(b.subrange(0, 4) =~= be_bytes(c.length));
    assert(b.subrange(4, 8) =~= c.tag);
    assert(b.subrange(8, 8 + n) =~= c.data);
    assert(b.subrange(8 + n, 12 + n) =~= be_bytes(c.crc));
}

/// A chunk of a PNG file.
pub struct Chunk {
    length: u32,
    chunk_type: ChunkType,
    data: Vec<u8>,
    crc_val: u32,
}

impl View for Chunk {
    type V = ChunkView;

    closed spec fn view(&self) -> ChunkView {
        ChunkView {
            length: self.length,
            tag: self.chunk_type@,
            data: self.data@,
            crc: self.crc_val,
        }
    }
}

impl Chunk {
    /// The invariant that both constructors establish.
    pub open spec fn wf(&self) -> bool {
        self@.wf()
    }

    /// The checksum of a type tag followed by a payload.
    pub fn get_crc(chunk_type: &ChunkType, data: &Vec<u8>) -> (r: u32)
        ensures
            r == crc32_iso_hdlc(chunk_type@ + data@),
    {
        let tag: [u8; 4] = chunk_type.bytes();
        let mut input: Vec<u8> = Vec::new();
        push_all(&mut input, tag.as_slice());
        push_all(&mut input, data.as_slice());
        assert(input@ =~= chunk_type@ + data@);
        crc32_checksum(input.as_slice())
    }

    /// Decides on a framed chunk once its checksum has been computed: the
    /// stored checksum must equal the computed one.
    pub fn check_crc(stored: u32, computed: u32) -> (r: Result<(), PngError>)
        ensures
            stored == computed ==> r is Ok,
            stored != computed ==> r == Err::<(), PngError>(PngError::CrcMismatch),
    {
        if stored == computed {
            Ok(())
        } else {
            Err(PngError::CrcMismatch)
        }
    }

    /// Builds a chunk from a type tag and a payload, with a fresh checksum.
    pub fn new(chunk_type: ChunkType, data: Vec<u8>) -> (r: Chunk)
        requires
            data@.len() <= u32::MAX,
        ensures
            r@ == built(chunk_type@, data@),
            r@.crc_ok(),
            chunk_type.wf() ==> r.wf(),
    {
        let tmp_crc: u32 = Chunk::get_crc(&chunk_type, &data);
        Chunk { length: data.len() as u32, chunk_type, data, crc_val: tmp_crc }
    }

    /// Cuts the chunk at the start of `value` into its parts.
    fn frame(value: &[u8]) -> (r: Result<Chunk, PngError>)
        ensures
            match frame_chunk(value@) {
                Ok(c) => r is Ok && r.unwrap()@ == c && c.framed(),
                Err(e) => r == Err::<Chunk, PngError>(e),
            },
    {
        if value.len() < 12 {
            return Err(PngError::ChunkTooShort);
        }
        let length: u32 = read_be_u32(value, 0);
        let tag: [u8; 4] = [value[4], value[5], value[6], value[7]];
        assert(tag@ =~= value@.subrange(4, 8));
        let chunk_type = match ChunkType::try_from(tag) {
            Ok(t) => t,
            Err(e) => { return Err(e); },
        };
        let n: usize = length as usize;
        if value.len() - 12 < n {
            return Err(PngError::Truncated);
        }
        let mut data: Vec<u8> = Vec::new();
        push_all(&mut data, vstd::slice::slice_subrange(value, 8, 8 + n));
        assert(data@ =~= value@.subrange(8, 8 + n));
        let crc_val: u32 = read_be_u32(value, 8 + n);
        Ok(Chunk { length, chunk_type, data, crc_val })
    }

    /// Parses the chunk at the start of `value`. Bytes after the chunk are
    /// not read. No chunk with a wrong checksum is returned.
    pub fn try_from(value: &[u8]) -> (r: Result<Chunk, PngError>)
        ensures
            match parse_chunk(value@) {
                Ok(c) => r is Ok && r.unwrap()@ == c && r.unwrap().wf(),
                Err(e) => r == Err::<Chunk, PngError>(e),
            },
    {
        let res = match Chunk::frame(value) {
            Ok(c) => c,
            Err(e) => { return Err(e); },
        };
        let computed: u32 = Chunk::get_crc(&res.chunk_type, &res.data);
        match Chunk::check_crc(res.crc_val, computed) {
            Ok(_) => Ok(res),
            Err(e) => Err(e),
        }
    }

    /// The declared payload length.
    pub fn length(&self) -> (r: u32)
        ensures
            r == self@.length,
    {
        self.length
    }

    /// The type tag.
    pub fn chunk_type(&self) -> (r: &ChunkType)
        ensures
            r@ == self@.tag,
    {
        &self.chunk_type
    }

    /// The payload.
    pub fn data(&self) -> (r: &[u8])
        ensures
            r@ == self@.data,
    {
        self.data.as_slice()
    }

    /// The stored checksum.
    pub fn crc(&self) -> (r: u32)
        ensures
            r == self@.crc,
    {
        self.crc_val
    }

    /// The payload as text; fails unless it is well-formed UTF-8.
    pub fn data_as_string(&self) -> (r: Result<String, PngError>)
        ensures
            valid_utf8(self@.data) ==> r is Ok && r.unwrap()@ == decode_utf8(self@.data),
            !valid_utf8(self@.data) ==> r == Err::<String, PngError>(PngError::NotUtf8),
    {
        let mut copy: Vec<u8> = Vec::new();
        push_all(&mut copy, self.data.as_slice());
        match string_from_utf8(copy) {
            Ok(s) => Ok(s),
            Err(_) => Err(PngError::NotUtf8),
        }
    }

    /// The bytes of the line that shows the chunk.
    pub fn render(&self) -> (r: Vec<u8>)
        ensures
            r@ == self@.render(),
    {
        let tag: [u8; 4] = self.chunk_type.bytes();
        let mut out: Vec<u8> = Vec::new();
        push_decimal(&mut out, self.length);
        out.push(32u8);
        push_all(&mut out, tag.as_slice());
        out.push(32u8);
        let ghost head = out@;
        let mut i: usize = 0;
        assert(self.data@.take(0) =~= Seq::<u8>::empty());
        while i < self.data.len()
            invariant
                i <= self.data@.len(),
                out@ == head + spaced_decimals(self.data@.take(i as int)),
            decreases self.data@.len() - i,
        {
            let byte: u8 = self.data[i];
            push_decimal(&mut out, byte as u32);
            out.push(32u8);
            i += 1;
            proof {
                let seen = self.data@.take(i as int);
                assert(seen.drop_last() =~= self.data@.take(i - 1));
                assert(seen.last() == byte);
                assert(out@ =~= head + spaced_decimals(seen));
            }
        }
        assert(self.data@.take(i as int) =~= self.data@);
        push_decimal(&mut out, self.crc_val);
        out.push(32u8);
        assert(out@ =~= self@.render());
        out
    }

    /// The chunk as a line of text: the length, the tag, each payload byte
    /// as a number, and the checksum, each followed by a space.
    pub fn to_string(&self) -> (r: String)
        ensures
            r@ == text_of_bytes(self@.render()),
            self@.framed() ==> r@ == ascii_text(self@.render()),
    {
        proof {
            if self@.framed() {
                lemma_render_is_text(self@);
            }
        }
        string_of_bytes(self.render())
    }

    /// The chunk as it stands in a file.
    pub fn as_bytes(&self) -> (r: Vec<u8>)
        ensures
            r@ == self@.wire(),
    {
        let tag: [u8; 4] = self.chunk_type.bytes();
        let mut out: Vec<u8> = Vec::new();
        push_be_u32(&mut out, self.length);
        push_all(&mut out, tag.as_slice());
        push_all(&mut out, self.data.as_slice());
        push_be_u32(&mut out, self.crc_val);
        assert(out@ =~= self@.wire());
        out
    }
}

} // verus!
