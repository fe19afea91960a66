//! A PNG file as an ordered sequence of chunks behind the fixed signature.

use crate::bytes::push_all;
use crate::chunk::{lemma_parse_then_wire, lemma_render_is_text, lemma_wire_then_parse};
use crate::chunk::{parse_chunk, Chunk, ChunkView};
use crate::chunk_type::{tag_of_text, ChunkType};
use crate::error::PngError;
use crate::text::{all_ascii, ascii_text, lemma_ascii_is_text, string_of_bytes, text_of_bytes};
use vstd::prelude::*;
use vstd::string::StringSliceAdditionalSpecFns;

verus! {

/// The eight bytes with which every PNG file starts.
pub open spec fn signature() -> Seq<u8> {
    seq![137u8, 80u8, 78u8, 71u8, 13u8, 10u8, 26u8, 10u8]
}

/// The bytes of a sequence of chunks, one after the other.
pub open spec fn wire_chunks(cs: Seq<ChunkView>) -> Seq<u8>
    decreases cs.len(),
{
    if cs.len() == 0 {
        Seq::empty()
    } else {
        cs[0].wire() + wire_chunks(cs.skip(1))
    }
}

/// The bytes of a file: the signature, then the chunks.
pub open spec fn wire_png(cs: Seq<ChunkView>) -> Seq<u8> {
    signature() + wire_chunks(cs)
}

/// Puts chunks that were parsed already in front of the outcome of parsing
/// what follows them.
pub open spec fn prepend(acc: Seq<ChunkView>, r: Result<Seq<ChunkView>, PngError>) -> Result<
    Seq<ChunkView>,
    PngError,
> {
    match r {
        Ok(rest) => Ok(acc + rest),
        Err(e) => Err(e),
    }
}

/// Parses chunk after chunk until the bytes are used up. The first chunk
/// that fails to parse fails the whole.
pub open spec fn parse_chunks(b: Seq<u8>) -> Result<Seq<ChunkView>, PngError>
    decreases b.len(),
{
    if b.len() == 0 {
        Ok(Seq::empty())
    } else {
        match parse_chunk(b) {
            Err(e) => Err(e),
            Ok(c) => prepend(seq![c], parse_chunks(b.skip(c.wire_len()))),
        }
    }
}

/// Parses a file: the signature must be there, and then every chunk must
/// parse.
pub open spec fn parse_png(b: Seq<u8>) -> Result<Seq<ChunkView>, PngError> {
    if b.len() < 8 || b.take(8) != signature() {
        Err(PngError::BadSignature)
    } else {
        parse_chunks(b.skip(8))
    }
}

/// Whether every chunk of a sequence is well formed.
pub open spec fn all_wf(cs: Seq<ChunkView>) -> bool {
    forall|i: int| 0 <= i < cs.len() ==> (#[trigger] cs[i]).wf()
}

/// Whether some chunk of the sequence has the tag.
pub open spec fn has_type(cs: Seq<ChunkView>, tag: Seq<u8>) -> bool {
    exists|i: int| 0 <= i < cs.len() && (#[trigger] cs[i]).tag == tag
}

/// Whether the chunk at `i` is the first one with the tag.
pub open spec fn is_first_match(cs: Seq<ChunkView>, tag: Seq<u8>, i: int) -> bool {
    &&& 0 <= i < cs.len()
    &&& cs[i].tag == tag
    &&& forall|j: int| 0 <= j < i ==> (#[trigger] cs[j]).tag != tag
}

/// The index of the first chunk with the tag, where some chunk has it.
pub open spec fn first_index(cs: Seq<ChunkView>, tag: Seq<u8>) -> int {
    choose|i: int| is_first_match(cs, tag, i)
}

/// Where a chunk has the tag, some chunk is the first to have it.
pub proof fn lemma_first_index_exists(cs: Seq<ChunkView>, tag: Seq<u8>)
    requires
        has_type(cs, tag),
    ensures
        is_first_match(cs, tag, first_index(cs, tag)),
{
    let i = choose|i: int| 0 <= i < cs.len() && (#[trigger] cs[i]).tag == tag;
    lemma_first_before(cs, tag, i);
}

/// At or before any chunk with the tag stands the first one with it.
proof fn lemma_first_before(cs: Seq<ChunkView>, tag: Seq<u8>, i: int)
    requires
        0 <= i < cs.len(),
        cs[i].tag == tag,
    ensures
        exists|k: int| is_first_match(cs, tag, k),
    decreases i,
{
    if exists|j: int| 0 <= j < i && (#[trigger] cs[j]).tag == tag {
        let j = choose|j: int| 0 <= j < i && (#[trigger] cs[j]).tag == tag;
        lemma_first_before(cs, tag, j);
    } else {
        assert(is_first_match(cs, tag, i));
    }
}

/// Only one chunk is the first of its type.
pub proof fn lemma_first_index(cs: Seq<ChunkView>, tag: Seq<u8>, i: int)
    requires
        is_first_match(cs, tag, i),
    ensures
        has_type(cs, tag),
        first_index(cs, tag) == i,
{
    let j = first_index(cs, tag);
    assert(is_first_match(cs, tag, j));
    if j < i {
        assert(cs[j].tag != tag);
    }
    if i < j {
        assert(cs[i].tag != tag);
    }
}

/// The views of a vector of chunks.
pub open spec fn views(chunks: Seq<Chunk>) -> Seq<ChunkView> {
    chunks.map_values(|c: Chunk| c@)
}

/// The chunks as lines for a reader, one chunk to a line.
pub open spec fn render_chunks(cs: Seq<ChunkView>) -> Seq<u8>
    decreases cs.len(),
{
    if cs.len() == 0 {
        Seq::empty()
    } else {
        render_chunks(cs.drop_last()) + cs.last().render() + seq![10u8]
    }
}

/// Well-framed chunks are shown as ASCII text, character for byte.
pub proof fn lemma_render_chunks_is_text(cs: Seq<ChunkView>)
    requires
        forall|i: int| 0 <= i < cs.len() ==> (#[trigger] cs[i]).framed(),
    ensures
        all_ascii(render_chunks(cs)),
        text_of_bytes(render_chunks(cs)) == ascii_text(render_chunks(cs)),
    decreases cs.len(),
{
    if cs.len() > 0 {
        let init = cs.drop_last();
        assert forall|i: int| 0 <= i < init.len() implies (#[trigger] init[i]).framed() by {
            assert(init[i] == cs[i]);
        }
        lemma_render_chunks_is_text(init);
        assert(cs.last() == cs[cs.len() - 1]);
        lemma_render_is_text(cs.last());
    }
    lemma_ascii_is_text(render_chunks(cs));
}

/// With no chunks in front, the outcome stays as it is.
pub proof fn lemma_prepend_nothing(r: Result<Seq<ChunkView>, PngError>)
    ensures
        prepend(Seq::empty(), r) == r,
{
    if r is Ok {
        assert(Seq::<ChunkView>::empty() + r.unwrap() =~= r.unwrap());
    }
}

/// Appending a chunk appends its bytes.
pub proof fn lemma_wire_chunks_push(cs: Seq<ChunkView>, c: ChunkView)
    ensures
        wire_chunks(cs.push(c)) == wire_chunks(cs) + c.wire(),
    decreases cs.len(),
{
    if cs.len() == 0 {
        assert(cs.push(c).skip(1) =~= Seq::<ChunkView>::empty());
        assert(wire_chunks(cs.push(c)) =~= c.wire() + wire_chunks(Seq::empty()));
        assert(wire_chunks(cs.push(c)) =~= wire_chunks(cs) + c.wire());
    } else {
        lemma_wire_chunks_push(cs.skip(1), c);
        assert(cs.push(c).skip(1) =~= cs.skip(1).push(c));
        assert(wire_chunks(cs.push(c)) =~= wire_chunks(cs) + c.wire());
    }
}

/// Chunks that parse are well formed, and their bytes are the bytes they
/// were parsed from.
pub proof fn lemma_parse_chunks_then_wire(b: Seq<u8>)
    requires
        parse_chunks(b) is Ok,
    ensures
        all_wf(parse_chunks(b).unwrap()),
        wire_chunks(parse_chunks(b).unwrap()) == b,
    decreases b.len(),
{
    let cs = parse_chunks(b).unwrap();
    if b.len() == 0 {
        assert(wire_chunks(cs) =~= b);
    } else {
        let c = parse_chunk(b).unwrap();
        let k = c.wire_len();
        lemma_parse_then_wire(b);
        lemma_parse_chunks_then_wire(b.skip(k));
        let rest = parse_chunks(b.skip(k)).unwrap();
        assert(cs =~= seq![c] + rest);
        assert(cs.skip(1) =~= rest);
        assert(wire_chunks(cs) =~= b.take(k) + b.skip(k));
        assert(b.take(k) + b.skip(k) =~= b);
        assert forall|i: int| 0 <= i < cs.len() implies (#[trigger] cs[i]).wf() by {
            if i > 0 {
                assert(cs[i] == rest[i - 1]);
            }
        }
    }
}

/// The bytes of well-formed chunks parse to those chunks.
pub proof fn lemma_wire_then_parse_chunks(cs: Seq<ChunkView>)
    requires
        all_wf(cs),
    ensures
        parse_chunks(wire_chunks(cs)) == Ok::<Seq<ChunkView>, PngError>(cs),
    decreases cs.len(),
{
    if cs.len() == 0 {
        assert(cs =~= Seq::<ChunkView>::empty());
    } else {
        let c = cs[0];
        let tail = cs.skip(1);
        let b = wire_chunks(cs);
        assert(c.wf());
        assert forall|i: int| 0 <= i < tail.len() implies (#[trigger] tail[i]).wf() by {
            assert(tail[i] == cs[i + 1]);
        }
        lemma_wire_then_parse(c, wire_chunks(tail));
        lemma_wire_then_parse_chunks(tail);
        assert(c.wire().len() == c.wire_len());
        assert(b.skip(c.wire_len()) =~= wire_chunks(tail));
        assert(seq![c] + tail =~= cs);
    }
}

/// Parsing a file and writing it out again gives the bytes that were
/// parsed, and every chunk that was parsed is well formed.
pub proof fn law_parse_then_serialize(b: Seq<u8>)
    requires
        parse_png(b) is Ok,
    ensures
        all_wf(parse_png(b).unwrap()),
        wire_png(parse_png(b).unwrap()) == b,
{
    lemma_parse_chunks_then_wire(b.skip(8));
    assert(b.take(8) + b.skip(8) =~= b);
}

/// Writing out well-formed chunks and parsing the file gives the chunks
/// that were written.
pub proof fn law_serialize_then_parse(cs: Seq<ChunkView>)
    requires
        all_wf(cs),
    ensures
        parse_png(wire_png(cs)) == Ok::<Seq<ChunkView>, PngError>(cs),
{
    let b = wire_png(cs);
    lemma_wire_then_parse_chunks(cs);
    assert(b.take(8) =~= signature());
    assert(b.skip(8) =~= wire_chunks(cs));
}

/// Round trip: the chunks of a file that parsed, written out, parse again,
/// and writing those out gives the same bytes once more.
pub proof fn law_round_trip(b: Seq<u8>)
    requires
        parse_png(b) is Ok,
    ensures
        parse_png(wire_png(parse_png(b).unwrap())) is Ok,
        wire_png(parse_png(wire_png(parse_png(b).unwrap())).unwrap()) == wire_png(
            parse_png(b).unwrap(),
        ),
{
    law_parse_then_serialize(b);
}

/// A buffer of fewer than eight bytes, or one whose first eight bytes are
/// not the signature, is refused for its signature, whatever follows.
pub proof fn law_bad_signature(b: Seq<u8>)
    requires
        b.len() < 8 || exists|i: int| 0 <= i < 8 && b[i] != signature()[i],
    ensures
        parse_png(b) == Err::<Seq<ChunkView>, PngError>(PngError::BadSignature),
{
    if b.len() >= 8 {
        let i = choose|i: int| 0 <= i < 8 && b[i] != signature()[i];
        assert(b.take(8)[i] == b[i]);
    }
}

/// A chunk appended to a container that holds none of its type is the one
/// that a search for its type finds.
pub proof fn law_append_then_find(cs: Seq<ChunkView>, c: ChunkView)
    requires
        !has_type(cs, c.tag),
    ensures
        has_type(cs.push(c), c.tag),
        cs.push(c)[first_index(cs.push(c), c.tag)] == c,
{
    assert forall|j: int| 0 <= j < cs.len() implies (#[trigger] cs.push(c)[j]).tag != c.tag by {
        assert(cs.push(c)[j] == cs[j]);
    }
    assert(is_first_match(cs.push(c), c.tag, cs.len() as int));
    lemma_first_index(cs.push(c), c.tag, cs.len() as int);
}

/// Appending a chunk of one type brings no chunk of another type into a
/// container.
pub proof fn law_append_keeps_absent(cs: Seq<ChunkView>, c: ChunkView, tag: Seq<u8>)
    requires
        !has_type(cs, tag),
        c.tag != tag,
    ensures
        !has_type(cs.push(c), tag),
{
    assert forall|j: int| 0 <= j < cs.push(c).len() implies (#[trigger] cs.push(c)[j]).tag
        != tag by {
        if j < cs.len() {
            assert(cs.push(c)[j] == cs[j]);
        }
    }
}

/// Removing the first chunk of a type takes one chunk out and leaves the
/// others as they were, in their order.
pub proof fn law_remove_first(cs: Seq<ChunkView>, tag: Seq<u8>)
    requires
        has_type(cs, tag),
    ensures
        ({
            let i = first_index(cs, tag);
            &&& is_first_match(cs, tag, i)
            &&& cs.remove(i).len() == cs.len() - 1
            &&& forall|j: int| 0 <= j < i ==> cs.remove(i)[j] == cs[j]
            &&& forall|j: int| i <= j < cs.len() - 1 ==> cs.remove(i)[j] == cs[j + 1]
        }),
{
    lemma_first_index_exists(cs, tag);
}

/// A PNG file: the chunks behind the signature, in file order.
pub struct Png {
    chunks: Vec<Chunk>,
}

impl View for Png {
    type V = Seq<ChunkView>;

    closed spec fn view(&self) -> Seq<ChunkView> {
        views(self.chunks@)
    }
}

impl Png {
    /// Every chunk of the file is well formed.
    pub open spec fn wf(&self) -> bool {
        all_wf(self@)
    }

    /// The signature.
    pub fn header() -> (r: [u8; 8])
        ensures
            r@ == signature(),
    {
        let r: [u8; 8] = [137u8, 80u8, 78u8, 71u8, 13u8, 10u8, 26u8, 10u8];
        assert(r@ =~= signature());
        r
    }

    /// A file of the given chunks.
    pub fn from_chunks(chunks: Vec<Chunk>) -> (r: Png)
        ensures
            r@ == views(chunks@),
    {
        Png { chunks }
    }

    /// Parses a file. The buffer must start with the signature, and every
    /// chunk up to the end of the buffer must parse.
    pub fn try_from(bytes: &[u8]) -> (r: Result<Png, PngError>)
        ensures
            match parse_png(bytes@) {
                Ok(cs) => r is Ok && r.unwrap()@ == cs && r.unwrap().wf(),
                Err(e) => r == Err::<Png, PngError>(e),
            },
    {
        if bytes.len() < 8 {
            return Err(PngError::BadSignature);
        }
        let sig: [u8; 8] = Png::header();
        let mut k: usize = 0;
        while k < 8
            invariant
                k <= 8,
                bytes@.len() >= 8,
                sig@ == signature(),
                forall|j: int| 0 <= j < k ==> bytes@[j] == signature()[j],
            decreases 8 - k,
        {
            if bytes[k] != sig[k] {
                assert(bytes@.take(8)[k as int] != signature()[k as int]);
                return Err(PngError::BadSignature);
            }
            k += 1;
        }
        assert(bytes@.take(8) =~= signature());
        let mut chunks: Vec<Chunk> = Vec::new();
        let mut cursor: usize = 8;
        proof {
            lemma_prepend_nothing(parse_chunks(bytes@.skip(8)));
            assert(views(chunks@) =~= Seq::<ChunkView>::empty());
        }
        while cursor < bytes.len()
            invariant
                8 <= cursor <= bytes@.len(),
                bytes@.take(8) == signature(),
                all_wf(views(chunks@)),
                parse_chunks(bytes@.skip(8)) == prepend(
                    views(chunks@),
                    parse_chunks(bytes@.skip(cursor as int)),
                ),
            decreases bytes@.len() - cursor,
        {
            let rest = vstd::slice::slice_subrange(bytes, cursor, bytes.len());
            assert(rest@ =~= bytes@.skip(cursor as int));
            match Chunk::try_from(rest) {
                Err(e) => {
                    assert(parse_chunks(rest@) == Err::<Seq<ChunkView>, PngError>(e));
                    return Err(e);
                },
                Ok(c) => {
                    proof {
                        lemma_parse_then_wire(rest@);
                    }
                    let step: usize = 12 + c.data().len();
                    let ghost before = views(chunks@);
                    let ghost after = parse_chunks(rest@.skip(step as int));
                    chunks.push(c);
                    cursor += step;
                    proof {
                        assert(views(chunks@) =~= before.push(c@));
                        assert(rest@.skip(step as int) =~= bytes@.skip(cursor as int));
                        if after is Ok {
                            assert(before + (seq![c@] + after.unwrap()) =~= before.push(c@)
                                + after.unwrap());
                        }
                    }
                },
            }
        }
        proof {
            assert(bytes@.skip(cursor as int).len() == 0);
            assert(views(chunks@) + Seq::<ChunkView>::empty() =~= views(chunks@));
        }
        Ok(Png { chunks })
    }

    /// Puts a chunk at the end of the file. Chunks of the same type may be
    /// there already.
    pub fn append_chunk(&mut self, chunk: Chunk)
        ensures
            final(self)@ == old(self)@.push(chunk@),
            old(self).wf() && chunk.wf() ==> final(self).wf(),
    {
        self.chunks.push(chunk);
        assert(self@ =~= old(self)@.push(chunk@));
    }

    /// The index of the first chunk with the tag, if there is one.
    fn position(&self, tag: &ChunkType) -> (r: Option<usize>)
        ensures
            match r {
                Some(i) => is_first_match(self@, tag@, i as int),
                None => !has_type(self@, tag@),
            },
    {
        let mut i: usize = 0;
        while i < self.chunks.len()
            invariant
                i <= self.chunks@.len(),
                forall|j: int| 0 <= j < i ==> (#[trigger] self@[j]).tag != tag@,
            decreases self.chunks@.len() - i,
        {
            if *self.chunks[i].chunk_type() == *tag {
                return Some(i);
            }
            i += 1;
        }
        None
    }

    /// Finds the first chunk of a type given as text. A text that is no
    /// chunk type is an error; that no chunk has the type is not.
    pub fn chunk_by_type(&self, chunk_type: &str) -> (r: Result<Option<&Chunk>, PngError>)
        ensures
            match tag_of_text(chunk_type.spec_bytes()) {
                Err(e) => r == Err::<Option<&Chunk>, PngError>(e),
                Ok(tag) => match r {
                    Ok(Some(c)) => has_type(self@, tag) && c@ == self@[first_index(self@, tag)],
                    Ok(None) => !has_type(self@, tag),
                    Err(_) => false,
                },
            },
    {
        let tag = match ChunkType::from_str(chunk_type) {
            Ok(t) => t,
            Err(e) => {
                return Err(e);
            },
        };
        match self.position(&tag) {
            Some(i) => {
                proof {
                    lemma_first_index(self@, tag@, i as int);
                }
                Ok(Some(&self.chunks[i]))
            },
            None => Ok(None),
        }
    }

    /// Removes the first chunk of a type given as text, and leaves the
    /// others in their order. Fails, and changes nothing, where the text is
    /// no chunk type or no chunk has the type.
    pub fn remove_chunk(&mut self, chunk_type: &str) -> (r: Result<(), PngError>)
        ensures
            match tag_of_text(chunk_type.spec_bytes()) {
                Err(e) => r == Err::<(), PngError>(e) && final(self)@ == old(self)@,
                Ok(tag) => if has_type(old(self)@, tag) {
                    r is Ok && final(self)@ == old(self)@.remove(first_index(old(self)@, tag))
                } else {
                    r == Err::<(), PngError>(PngError::ChunkNotFound) && final(self)@ == old(
                        self,
                    )@
                },
            },
            old(self).wf() ==> final(self).wf(),
    {
        let tag = match ChunkType::from_str(chunk_type) {
            Ok(t) => t,
            Err(e) => {
                return Err(e);
            },
        };
        match self.position(&tag) {
            Some(i) => {
                self.chunks.remove(i);
                proof {
                    lemma_first_index(old(self)@, tag@, i as int);
                    assert(self@ =~= old(self)@.remove(i as int));
                }
                Ok(())
            },
            None => Err(PngError::ChunkNotFound),
        }
    }

    /// The chunks, in file order.
    pub fn chunks(&self) -> (r: &[Chunk])
        ensures
            views(r@) == self@,
    {
        self.chunks.as_slice()
    }

    /// The bytes of the listing of the chunks, one chunk to a line.
    pub fn render(&self) -> (r: Vec<u8>)
        ensures
            r@ == render_chunks(self@),
    {
        let mut out: Vec<u8> = Vec::new();
        let mut i: usize = 0;
        assert(self@.take(0) =~= Seq::<ChunkView>::empty());
        while i < self.chunks.len()
            invariant
                i <= self.chunks@.len(),
                out@ == render_chunks(self@.take(i as int)),
            decreases self.chunks@.len() - i,
        {
            let line: Vec<u8> = self.chunks[i].render();
            push_all(&mut out, line.as_slice());
            out.push(10u8);
            i += 1;
            proof {
                let seen = self@.take(i as int);
                assert(seen.drop_last() =~= self@.take(i - 1));
                assert(seen.last() == self@[i - 1]);
                assert(out@ =~= render_chunks(seen));
            }
        }
        assert(self@.take(i as int) =~= self@);
        out
    }

    /// The listing of the chunks as text, one chunk to a line.
    pub fn to_string(&self) -> (r: String)
        ensures
            r@ == text_of_bytes(render_chunks(self@)),
            self.wf() ==> r@ == ascii_text(render_chunks(self@)),
    {
        proof {
            if self.wf() {
                lemma_render_chunks_is_text(self@);
            }
        }
        string_of_bytes(self.render())
    }

    /// The file as bytes: the signature, then each chunk in order.
    pub fn as_bytes(&self) -> (r: Vec<u8>)
        ensures
            r@ == wire_png(self@),
    {
        let sig: [u8; 8] = Png::header();
        let mut out: Vec<u8> = Vec::new();
        push_all(&mut out, sig.as_slice());
        let mut i: usize = 0;
        assert(self@.take(0) =~= Seq::<ChunkView>::empty());
        while i < self.chunks.len()
            invariant
                i <= self.chunks@.len(),
                out@ == signature() + wire_chunks(self@.take(i as int)),
            decreases self.chunks@.len() - i,
        {
            let piece: Vec<u8> = self.chunks[i].as_bytes();
            proof {
                lemma_wire_chunks_push(self@.take(i as int), self@[i as int]);
                assert(self@.take(i as int).push(self@[i as int]) =~= self@.take(i + 1));
            }
            push_all(&mut out, piece.as_slice());
            i += 1;
            assert(out@ =~= signature() + wire_chunks(self@.take(i as int)));
        }
        assert(self@.take(i as int) =~= self@);
        out
    }
}

} // verus!
