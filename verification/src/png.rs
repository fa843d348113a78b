//! A whole file: the signature, then chunks one after another.

use crate::chunk::{
    lemma_parse_chunk_of_wire, lemma_wire_of_parsed_chunk, parse_chunk, Chunk, ChunkView,
};
use crate::error::PngError;
use crate::text::ascii_text;
use vstd::prelude::*;
use vstd::slice::slice_subrange;

verus! {

/// The eight bytes with which every file starts.
pub open spec fn signature() -> Seq<u8> {
    seq![137u8, 80u8, 78u8, 71u8, 13u8, 10u8, 26u8, 10u8]
}

/// Every chunk has an ASCII type code and data whose length fits in 32 bits.
pub open spec fn all_wf(chunks: Seq<ChunkView>) -> bool {
    forall|i: int| 0 <= i < chunks.len() ==> (#[trigger] chunks[i]).wf()
}

/// What each of the chunks is, in the same order.
pub open spec fn chunk_views(chunks: Seq<Chunk>) -> Seq<ChunkView> {
    chunks.map_values(|chunk: Chunk| chunk@)
}

/// The chunks on the wire, one after another.
pub open spec fn chunks_wire(chunks: Seq<ChunkView>) -> Seq<u8>
    decreases chunks.len(),
{
    if chunks.len() == 0 {
        Seq::empty()
    } else {
        chunks[0].wire() + chunks_wire(chunks.drop_first())
    }
}

/// The file on the wire: the signature, then the chunks.
pub open spec fn png_wire(chunks: Seq<ChunkView>) -> Seq<u8> {
    signature() + chunks_wire(chunks)
}

/// The chunks that `bytes` hold from their first byte to their last, or the
/// failure of the first chunk that cannot be read.
pub open spec fn parse_chunks(bytes: Seq<u8>) -> Result<Seq<ChunkView>, PngError>
    decreases bytes.len(),
{
    if bytes.len() == 0 {
        Ok(Seq::empty())
    } else {
        match parse_chunk(bytes) {
            Err(e) => Err(e),
            Ok(chunk) => {
                proof {
                    lemma_wire_of_parsed_chunk(bytes);
                }
                match parse_chunks(bytes.skip(12 + chunk.data.len() as int)) {
                    Err(e) => Err(e),
                    Ok(rest) => Ok(seq![chunk] + rest),
                }
            },
        }
    }
}

/// The chunks of the file that `bytes` hold, or why they hold none.
pub open spec fn parse_png(bytes: Seq<u8>) -> Result<Seq<ChunkView>, PngError> {
    if bytes.len() < 8 {
        Err(PngError::TruncatedInput)
    } else if bytes.subrange(0, 8) != signature() {
        Err(PngError::BadSignature)
    } else {
        parse_chunks(bytes.skip(8))
    }
}

/// The chunk's type code, read as text, is `text`.
pub open spec fn has_type(chunk: ChunkView, text: Seq<char>) -> bool {
    ascii_text(chunk.chunk_type) == text
}

/// The place of the first chunk whose type is `text`, if there is one.
pub open spec fn first_of_type(chunks: Seq<ChunkView>, text: Seq<char>) -> Option<int>
    decreases chunks.len(),
{
    if chunks.len() == 0 {
        None
    } else if has_type(chunks[0], text) {
        Some(0)
    } else {
        match first_of_type(chunks.drop_first(), text) {
            Some(i) => Some(i + 1),
            None => None,
        }
    }
}

/// The wire of two runs of chunks, one after the other, is the wire of the
/// first followed by the wire of the second.
pub proof fn lemma_chunks_wire_concat(a: Seq<ChunkView>, b: Seq<ChunkView>)
    ensures
        chunks_wire(a + b) == chunks_wire(a) + chunks_wire(b),
    decreases a.len(),
{
    if a.len() > 0 {
        lemma_chunks_wire_concat(a.drop_first(), b);
        assert((a + b).drop_first() =~= a.drop_first() + b);
    }
}

/// What `first_of_type` finds: a chunk of the type that no chunk of the type
/// precedes, or nothing where no chunk has the type.
pub proof fn lemma_first_of_type(chunks: Seq<ChunkView>, text: Seq<char>)
    ensures
        match first_of_type(chunks, text) {
            Some(i) => {
                &&& 0 <= i < chunks.len()
                &&& has_type(chunks[i], text)
                &&& forall|j: int| 0 <= j < i ==> !has_type(#[trigger] chunks[j], text)
            },
            None => forall|j: int| 0 <= j < chunks.len() ==> !has_type(#[trigger] chunks[j], text),
        },
    decreases chunks.len(),
{
    if chunks.len() > 0 && !has_type(chunks[0], text) {
        let rest = chunks.drop_first();
        lemma_first_of_type(rest, text);
        match first_of_type(rest, text) {
            Some(i) => {
                assert forall|j: int| 0 <= j < i + 1 implies !has_type(
                    #[trigger] chunks[j],
                    text,
                ) by {
                    if j > 0 {
                        assert(chunks[j] == rest[j - 1]);
                    }
                }
            },
            None => {
                assert forall|j: int| 0 <= j < chunks.len() implies !has_type(
                    #[trigger] chunks[j],
                    text,
                ) by {
                    if j > 0 {
                        assert(chunks[j] == rest[j - 1]);
                    }
                }
            },
        }
    }
}

/// A sequence is its first `n` items followed by the others.
proof fn lemma_split(bytes: Seq<u8>, n: int)
    requires
        0 <= n <= bytes.len(),
    ensures
        bytes == bytes.subrange(0, n) + bytes.skip(n),
{
}

/// What follows the first of two joined sequences is the second.
proof fn lemma_skip_joined(head: Seq<u8>, tail: Seq<u8>)
    ensures
        (head + tail).skip(head.len() as int) == tail,
{
}

/// A sequence that is not empty is its first item followed by the others.
proof fn lemma_first_and_rest(chunks: Seq<ChunkView>)
    requires
        chunks.len() > 0,
    ensures
        seq![chunks[0]] + chunks.drop_first() == chunks,
{
}

/// The items that follow the first of a sequence.
proof fn lemma_rest_of_joined(first: ChunkView, rest: Seq<ChunkView>)
    ensures
        (seq![first] + rest).len() > 0,
        (seq![first] + rest)[0] == first,
        (seq![first] + rest).drop_first() == rest,
{
}

/// Reading the wire of a run of chunks gives the same chunks in the same order.
pub proof fn lemma_parse_chunks_of_wire(chunks: Seq<ChunkView>)
    requires
        all_wf(chunks),
    ensures
        parse_chunks(chunks_wire(chunks)) == Ok::<Seq<ChunkView>, PngError>(chunks),
    decreases chunks.len(),
{
    if chunks.len() > 0 {
        let first = chunks[0];
        let rest = chunks.drop_first();
        assert(all_wf(rest));
        let head = first.wire();
        let tail = chunks_wire(rest);
        let bytes = chunks_wire(chunks);
        assert(head.len() == 12 + first.data.len() && parse_chunk(bytes) == Ok::<
            ChunkView,
            PngError,
        >(first)) by {
            lemma_parse_chunk_of_wire(first, tail);
        }
        assert(parse_chunks(tail) == Ok::<Seq<ChunkView>, PngError>(rest)) by {
            lemma_parse_chunks_of_wire(rest);
        }
        assert(bytes.skip(12 + first.data.len() as int) == tail) by {
            lemma_skip_joined(head, tail);
        }
        assert(seq![first] + rest == chunks) by {
            lemma_first_and_rest(chunks);
        }
    } else {
        assert(chunks =~= Seq::<ChunkView>::empty());
    }
}

/// Reading the wire of a file gives the same chunks in the same order.
pub proof fn lemma_parse_png_of_wire(chunks: Seq<ChunkView>)
    requires
        all_wf(chunks),
    ensures
        parse_png(png_wire(chunks)) == Ok::<Seq<ChunkView>, PngError>(chunks),
{
    lemma_parse_chunks_of_wire(chunks);
    let bytes = png_wire(chunks);
    assert(bytes.subrange(0, 8) =~= signature());
    assert(bytes.skip(8) =~= chunks_wire(chunks));
}

/// The bytes from which a run of chunks was read are the wire of those chunks.
pub proof fn lemma_wire_of_parsed_chunks(bytes: Seq<u8>)
    requires
        parse_chunks(bytes) is Ok,
    ensures
        all_wf(parse_chunks(bytes).unwrap()),
        chunks_wire(parse_chunks(bytes).unwrap()) == bytes,
    decreases bytes.len(),
{
    let chunks = parse_chunks(bytes).unwrap();
    if bytes.len() > 0 {
        let first = parse_chunk(bytes).unwrap();
        let n = 12 + first.data.len() as int;
        let tail = bytes.skip(n);
        let rest = parse_chunks(tail).unwrap();
        assert(first.wf() && n <= bytes.len() && bytes.subrange(0, n) == first.wire()) by {
            lemma_wire_of_parsed_chunk(bytes);
        }
        assert(all_wf(rest) && chunks_wire(rest) == tail) by {
            lemma_wire_of_parsed_chunks(tail);
        }
        assert(chunks.len() > 0 && chunks[0] == first && chunks.drop_first() == rest) by {
            lemma_rest_of_joined(first, rest);
        }
        lemma_split(bytes, n);
        assert(all_wf(chunks));
    }
}

/// The bytes from which a file was read are the wire of that file.
pub proof fn lemma_wire_of_parsed_png(bytes: Seq<u8>)
    requires
        parse_png(bytes) is Ok,
    ensures
        all_wf(parse_png(bytes).unwrap()),
        png_wire(parse_png(bytes).unwrap()) == bytes,
{
    let tail = bytes.skip(8);
    assert(bytes.len() >= 8 && bytes.subrange(0, 8) == signature() && parse_png(bytes)
        == parse_chunks(tail));
    lemma_wire_of_parsed_chunks(tail);
    lemma_split(bytes, 8);
}

/// What a search finds after a chunk was added at the end: what it found
/// before, and the new chunk only where nothing was found before and the new
/// chunk has the type.
pub proof fn lemma_first_of_type_after_push(
    chunks: Seq<ChunkView>,
    chunk: ChunkView,
    text: Seq<char>,
)
    ensures
        first_of_type(chunks.push(chunk), text) == match first_of_type(chunks, text) {
            Some(i) => Some(i),
            None => if has_type(chunk, text) {
                Some(chunks.len() as int)
            } else {
                None
            },
        },
{
    let longer = chunks.push(chunk);
    lemma_first_of_type(chunks, text);
    lemma_first_of_type(longer, text);
    assert(longer[chunks.len() as int] == chunk);
    assert forall|j: int| 0 <= j < chunks.len() implies #[trigger] longer[j] == chunks[j] by {}
    if let Some(i) = first_of_type(chunks, text) {
        assert(has_type(longer[i], text));
    }
}

/// After the first chunk of a type was taken out, a search for the type finds
/// nothing exactly when no other chunk has the type.
pub proof fn lemma_first_of_type_after_remove(chunks: Seq<ChunkView>, text: Seq<char>)
    requires
        first_of_type(chunks, text) is Some,
    ensures
        first_of_type(chunks.remove(first_of_type(chunks, text).unwrap()), text) is None
            <==> forall|j: int|
            0 <= j < chunks.len() && j != first_of_type(chunks, text).unwrap() ==> !has_type(
                #[trigger] chunks[j],
                text,
            ),
{
    let i = first_of_type(chunks, text).unwrap();
    let shorter = chunks.remove(i);
    lemma_first_of_type(chunks, text);
    lemma_first_of_type(shorter, text);
    if first_of_type(shorter, text) is None {
        assert forall|j: int| 0 <= j < chunks.len() && j != i implies !has_type(
            #[trigger] chunks[j],
            text,
        ) by {
            if j > i {
                assert(shorter[j - 1] == chunks[j]);
            }
        }
    }
}

/// A chunk added to a file that holds no chunk of its type is the chunk that
/// a search for its type finds; once it is taken out again, the file is what
/// it was and the search finds nothing.
pub proof fn lemma_append_find_remove(chunks: Seq<ChunkView>, chunk: ChunkView)
    requires
        first_of_type(chunks, ascii_text(chunk.chunk_type)) is None,
    ensures
        ({
            let text = ascii_text(chunk.chunk_type);
            let longer = chunks.push(chunk);
            &&& first_of_type(longer, text) == Some(chunks.len() as int)
            &&& longer[first_of_type(longer, text).unwrap()] == chunk
            &&& longer.remove(first_of_type(longer, text).unwrap()) == chunks
            &&& first_of_type(longer.remove(first_of_type(longer, text).unwrap()), text) is None
        }),
{
    lemma_first_of_type_after_push(chunks, chunk, ascii_text(chunk.chunk_type));
}

/// A file: its chunks, in the order in which they stand in it.
#[derive(Debug)]
pub struct Png {
    chunks: Vec<Chunk>,
}

impl View for Png {
    type V = Seq<ChunkView>;

    closed spec fn view(&self) -> Seq<ChunkView> {
        chunk_views(self.chunks@)
    }
}

impl Png {
    /// The eight bytes with which every file starts.
    pub const STANDARD_HEADER: [u8; 8] = [137, 80, 78, 71, 13, 10, 26, 10];

    /// Makes a file of the given chunks.
    pub fn from_chunks(chunks: Vec<Chunk>) -> (png: Png)
        ensures
            png@ == chunk_views(chunks@),
    {
        Png { chunks }
    }

    /// The signature.
    pub fn header(&self) -> (r: &[u8; 8])
        ensures
            r@ == signature(),
    {
        &Png::STANDARD_HEADER
    }

    /// The chunks, in order.
    pub fn chunks(&self) -> (r: &[Chunk])
        ensures
            chunk_views(r@) == self@,
    {
        self.chunks.as_slice()
    }

    /// Adds a chunk after the last one.
    pub fn append_chunk(&mut self, chunk: Chunk)
        ensures
            final(self)@ == old(self)@.push(chunk@),
    {
        self.chunks.push(chunk);
    }

    /// The place of the first chunk whose type is `chunk_type`.
    fn position(&self, chunk_type: &str) -> (r: Option<usize>)
        ensures
            match r {
                Some(i) => i < self.chunks@.len() && first_of_type(self@, chunk_type@) == Some(
                    i as int,
                ),
                None => first_of_type(self@, chunk_type@) is None,
            },
    {
        let wanted = chunk_type.to_owned();
        let mut i: usize = 0;
        while i < self.chunks.len()
            invariant
                0 <= i <= self.chunks@.len(),
                wanted@ == chunk_type@,
                forall|j: int| 0 <= j < i ==> !has_type(#[trigger] self@[j], chunk_type@),
            decreases self.chunks@.len() - i,
        {
            let found = self.chunks[i].chunk_type().to_string() == wanted;
            assert(found == has_type(self@[i as int], chunk_type@));
            if found {
                proof {
                    lemma_first_of_type(self@, chunk_type@);
                }
                return Some(i);
            }
            i += 1;
        }
        proof {
            lemma_first_of_type(self@, chunk_type@);
        }
        None
    }

    /// The first chunk whose type is `chunk_type`.
    pub fn chunk_by_type(&self, chunk_type: &str) -> (r: Option<&Chunk>)
        ensures
            match r {
                Some(chunk) => first_of_type(self@, chunk_type@) is Some && chunk@
                    == self@[first_of_type(self@, chunk_type@).unwrap()],
                None => first_of_type(self@, chunk_type@) is None,
            },
    {
        match self.position(chunk_type) {
            Some(i) => Some(&self.chunks[i]),
            None => None,
        }
    }

    /// Takes out the first chunk whose type is `chunk_type` and returns it; the
    /// others keep their order.
    pub fn remove_chunk(&mut self, chunk_type: &str) -> (r: Result<Chunk, PngError>)
        ensures
            match r {
                Ok(chunk) => {
                    &&& first_of_type(old(self)@, chunk_type@) is Some
                    &&& chunk@ == old(self)@[first_of_type(old(self)@, chunk_type@).unwrap()]
                    &&& final(self)@ == old(self)@.remove(
                        first_of_type(old(self)@, chunk_type@).unwrap(),
                    )
                },
                Err(e) => {
                    &&& e == PngError::NotFound
                    &&& first_of_type(old(self)@, chunk_type@) is None
                    &&& final(self)@ == old(self)@
                },
            },
    {
        match self.position(chunk_type) {
            Some(i) => {
                let chunk = self.chunks.remove(i);
                Ok(chunk)
            },
            None => Err(PngError::NotFound),
        }
    }

    /// The bytes of the file: the signature, then each chunk in order.
    pub fn as_bytes(&self) -> (r: Vec<u8>)
        ensures
            r@ == png_wire(self@),
            all_wf(self@),
            parse_png(r@) == Ok::<Seq<ChunkView>, PngError>(self@),
    {
        let mut bytes: Vec<u8> = Vec::new();
        bytes.extend_from_slice(self.header().as_slice());
        let mut i: usize = 0;
        while i < self.chunks.len()
            invariant
                0 <= i <= self.chunks@.len(),
                bytes@ == signature() + chunks_wire(self@.take(i as int)),
                forall|j: int| 0 <= j < i ==> (#[trigger] self@[j]).wf(),
            decreases self.chunks@.len() - i,
        {
            let chunk_bytes = self.chunks[i].as_bytes();
            proof {
                let done = self@.take(i as int);
                let one = seq![self@[i as int]];
                lemma_chunks_wire_concat(done, one);
                assert(self@.take(i + 1) =~= done + one);
                assert(chunks_wire(one.drop_first()) =~= Seq::<u8>::empty());
            }
            bytes.extend_from_slice(chunk_bytes.as_slice());
            i += 1;
        }
        assert(self@.take(i as int) =~= self@);
        proof {
            lemma_parse_png_of_wire(self@);
        }
        bytes
    }
}

impl<'a> TryFrom<&'a [u8]> for Png {
    type Error = PngError;

    /// Reads a file: the signature, then chunks up to the last byte.
    fn try_from(bytes: &'a [u8]) -> (r: Result<Png, PngError>)
        ensures
            match r {
                Ok(png) => parse_png(bytes@) == Ok::<Seq<ChunkView>, PngError>(png@) && png_wire(
                    png@,
                ) == bytes@,
                Err(e) => parse_png(bytes@) == Err::<Seq<ChunkView>, PngError>(e),
            },
    {
        if bytes.len() < 8 {
            return Err(PngError::TruncatedInput);
        }
        let mut k: usize = 0;
        while k < 8
            invariant
                0 <= k <= 8,
                bytes@.len() >= 8,
                forall|j: int| 0 <= j < k ==> bytes@[j] == #[trigger] signature()[j],
            decreases 8 - k,
        {
            if bytes[k] != Png::STANDARD_HEADER[k] {
                return Err(PngError::BadSignature);
            }
            k += 1;
        }
        let mut chunks: Vec<Chunk> = Vec::new();
        let mut pos: usize = 8;
        while pos < bytes.len()
            invariant
                8 <= pos <= bytes@.len(),
                bytes@.subrange(0, 8) == signature(),
                parse_chunks(bytes@.skip(8)) == match parse_chunks(bytes@.skip(pos as int)) {
                    Ok(rest) => Ok::<Seq<ChunkView>, PngError>(chunk_views(chunks@) + rest),
                    Err(e) => Err::<Seq<ChunkView>, PngError>(e),
                },
            decreases bytes@.len() - pos,
        {
            let rest = slice_subrange(bytes, pos, bytes.len());
            match Chunk::try_from(rest) {
                Err(e) => {
                    return Err(e);
                },
                Ok(chunk) => {
                    let length = chunk.length();
                    proof {
                        lemma_wire_of_parsed_chunk(rest@);
                        let done = chunk_views(chunks@);
                        let next = pos + 12 + length;
                        assert(bytes@.skip(pos as int).skip(12 + length) =~= bytes@.skip(next));
                        assert(chunk_views(chunks@.push(chunk)) =~= done.push(chunk@));
                        match parse_chunks(bytes@.skip(next)) {
                            Ok(tail) => {
                                assert(done.push(chunk@) + tail =~= done + (seq![chunk@] + tail));
                            },
                            Err(_) => {},
                        }
                    }
                    pos = pos + 12 + length as usize;
                    chunks.push(chunk);
                },
            }
        }
        proof {
            lemma_wire_of_parsed_png(bytes@);
        }
        Ok(Png { chunks })
    }
}

/// `try_from` is specified by its own `ensures`, over the view of the file;
/// the value-level form that the trait offers is left unused.
impl<'a> vstd::std_specs::convert::TryFromSpecImpl<&'a [u8]> for Png {
    open spec fn obeys_try_from_spec() -> bool {
        false
    }

    open spec fn try_from_spec(bytes: &'a [u8]) -> Result<Self, PngError> {
        arbitrary()
    }
}

} // verus!
