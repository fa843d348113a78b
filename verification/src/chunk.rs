//! One chunk: a length, a type code, the data, and a checksum over the type
//! code and the data.
//!
//! On the wire a chunk is the length of its data as four big-endian bytes, the
//! four bytes of its type code, the data, and the checksum as four big-endian
//! bytes.

use crate::be32::{
    be_bytes, be_value, from_be_bytes, lemma_be_bytes_of_value, lemma_be_value_of_bytes,
    to_be_bytes,
};
use crate::checksum::{crc32_checksum, crc32_iso_hdlc};
use crate::chunk_type::{is_type_code, ChunkType};
use crate::error::PngError;
use crate::text::{ascii_text, decimal_digits, decimal_string, is_ascii_bytes};
use vstd::prelude::*;
use vstd::slice::{slice_subrange, slice_to_vec};
use vstd::string::StringExecFns;
use vstd::utf8::{decode_utf8, encode_utf8_decode_utf8, valid_utf8};

verus! {

/// What a chunk is: its type code and its data. The length and the checksum
/// follow from these.
pub struct ChunkView {
    pub chunk_type: Seq<u8>,
    pub data: Seq<u8>,
}

impl ChunkView {
    /// The type code is four ASCII bytes and the length of the data fits in 32 bits.
    pub open spec fn wf(self) -> bool {
        is_type_code(self.chunk_type) && self.data.len() <= u32::MAX
    }

    /// The number of bytes of data.
    pub open spec fn length(self) -> u32 {
        self.data.len() as u32
    }

    /// The checksum over the type code followed by the data.
    pub open spec fn crc(self) -> u32 {
        crc32_iso_hdlc(self.chunk_type + self.data)
    }

    /// The bytes of the chunk on the wire.
    pub open spec fn wire(self) -> Seq<u8> {
        be_bytes(self.length()) + self.chunk_type + self.data + be_bytes(self.crc())
    }
}

/// The chunk that stands at the start of `bytes`, or why there is none.
///
/// The bytes must hold the twelve bytes that every chunk has, an ASCII type
/// code, as many bytes of data as the length says, and the checksum of type
/// code and data. Bytes that follow the chunk are not looked at.
///
/// The definition is opaque, to keep proofs about whole files small: a proof
/// that needs it says `reveal(parse_chunk)`.
#[verifier::opaque]
pub open spec fn parse_chunk(bytes: Seq<u8>) -> Result<ChunkView, PngError> {
    if bytes.len() < 12 {
        Err(PngError::TruncatedInput)
    } else if !is_ascii_bytes(bytes.subrange(4, 8)) {
        Err(PngError::InvalidChunkType)
    } else {
        let length = be_value(bytes.subrange(0, 4));
        if bytes.len() < 12 + length {
            Err(PngError::TruncatedInput)
        } else {
            let chunk = ChunkView {
                chunk_type: bytes.subrange(4, 8),
                data: bytes.subrange(8, 8 + length),
            };
            if be_value(bytes.subrange(8 + length, 12 + length)) != chunk.crc() {
                Err(PngError::CrcMismatch)
            } else {
                Ok(chunk)
            }
        }
    }
}

/// Reading the wire of a chunk gives the chunk back, whatever follows it.
pub proof fn lemma_parse_chunk_of_wire(chunk: ChunkView, rest: Seq<u8>)
    requires
        chunk.wf(),
    ensures
        chunk.wire().len() == 12 + chunk.data.len(),
        parse_chunk(chunk.wire() + rest) == Ok::<ChunkView, PngError>(chunk),
{
    lemma_parse_with_stored_crc(chunk, chunk.crc(), rest);
}

/// The bytes from which a chunk was read start with the wire of that chunk.
pub proof fn lemma_wire_of_parsed_chunk(bytes: Seq<u8>)
    requires
        parse_chunk(bytes) is Ok,
    ensures
        parse_chunk(bytes).unwrap().wf(),
        12 + parse_chunk(bytes).unwrap().data.len() <= bytes.len(),
        bytes.subrange(0, 12 + parse_chunk(bytes).unwrap().data.len() as int) == parse_chunk(
            bytes,
        ).unwrap().wire(),
{
    reveal(parse_chunk);
    let length = be_value(bytes.subrange(0, 4));
    lemma_be_bytes_of_value(bytes.subrange(0, 4));
    lemma_be_bytes_of_value(bytes.subrange(8 + length, 12 + length));
}

/// What is read from a chunk's length, type code and data followed by any
/// stored checksum: the chunk where the stored checksum is the checksum of
/// type code and data, and a checksum mismatch in every other case.
pub proof fn lemma_parse_with_stored_crc(chunk: ChunkView, stored: u32, rest: Seq<u8>)
    requires
        chunk.wf(),
    ensures
        parse_chunk(
            be_bytes(chunk.length()) + chunk.chunk_type + chunk.data + be_bytes(stored) + rest,
        ) == if stored == chunk.crc() {
            Ok::<ChunkView, PngError>(chunk)
        } else {
            Err::<ChunkView, PngError>(PngError::CrcMismatch)
        },
{
    reveal(parse_chunk);
    let bytes = be_bytes(chunk.length()) + chunk.chunk_type + chunk.data + be_bytes(stored) + rest;
    let length = chunk.data.len() as int;
    lemma_be_value_of_bytes(chunk.length());
    lemma_be_value_of_bytes(stored);
    assert(bytes.subrange(0, 4) =~= be_bytes(chunk.length()));
    assert(bytes.subrange(4, 8) =~= chunk.chunk_type);
    assert(bytes.subrange(8, 8 + length) =~= chunk.data);
    assert(bytes.subrange(8 + length, 12 + length) =~= be_bytes(stored));
}

/// A change to the stored checksum of a chunk on the wire, in any of its
/// bits, is always found: what is read is a checksum mismatch.
pub proof fn lemma_corrupt_crc_is_found(chunk: ChunkView, stored: Seq<u8>)
    requires
        chunk.wf(),
        stored.len() == 4,
        stored != be_bytes(chunk.crc()),
    ensures
        parse_chunk(be_bytes(chunk.length()) + chunk.chunk_type + chunk.data + stored) == Err::<
            ChunkView,
            PngError,
        >(PngError::CrcMismatch),
{
    lemma_be_bytes_of_value(stored);
    lemma_parse_with_stored_crc(chunk, be_value(stored), Seq::empty());
    assert(be_bytes(chunk.length()) + chunk.chunk_type + chunk.data + stored + Seq::<u8>::empty()
        =~= be_bytes(chunk.length()) + chunk.chunk_type + chunk.data + stored);
}

/// A change to the data of a chunk on the wire that keeps its length is found
/// as a checksum mismatch exactly when it changes the checksum.
pub proof fn lemma_corrupt_data_is_found(chunk: ChunkView, data: Seq<u8>)
    requires
        chunk.wf(),
        data.len() == chunk.data.len(),
    ensures
        parse_chunk(be_bytes(chunk.length()) + chunk.chunk_type + data + be_bytes(chunk.crc()))
            == if crc32_iso_hdlc(chunk.chunk_type + data) == chunk.crc() {
            Ok::<ChunkView, PngError>(ChunkView { chunk_type: chunk.chunk_type, data })
        } else {
            Err::<ChunkView, PngError>(PngError::CrcMismatch)
        },
{
    let changed = ChunkView { chunk_type: chunk.chunk_type, data };
    lemma_parse_with_stored_crc(changed, chunk.crc(), Seq::empty());
    assert(be_bytes(changed.length()) + chunk.chunk_type + data + be_bytes(chunk.crc())
        + Seq::<u8>::empty() =~= be_bytes(chunk.length()) + chunk.chunk_type + data + be_bytes(
        chunk.crc(),
    ));
}

/// A chunk whose length and checksum agree with its type code and data.
#[derive(Debug)]
pub struct Chunk {
    chunk_length: u32,
    chunk_type: ChunkType,
    chunk_data: Vec<u8>,
    chunk_crc: u32,
}

impl View for Chunk {
    type V = ChunkView;

    closed spec fn view(&self) -> ChunkView {
        ChunkView { chunk_type: self.chunk_type@, data: self.chunk_data@ }
    }
}

impl Chunk {
    /// The bytes of a chunk that holds no data.
    pub const SIZE_WITHOUT_DATA: usize = 12;

    #[verifier::type_invariant]
    closed spec fn inv(self) -> bool {
        &&& is_type_code(self.chunk_type@)
        &&& self.chunk_length == self.chunk_data@.len()
        &&& self.chunk_crc == crc32_iso_hdlc(self.chunk_type@ + self.chunk_data@)
    }

    /// Makes a chunk of a type code and data, and computes its checksum.
    pub fn new(chunk_type: ChunkType, data: Vec<u8>) -> (chunk: Chunk)
        requires
            data@.len() <= u32::MAX,
        ensures
            chunk@ == (ChunkView { chunk_type: chunk_type@, data: data@ }),
            chunk@.wf(),
    {
        let chunk_length: u32 = data.len() as u32;
        let type_bytes = chunk_type.bytes();
        let type_vec = slice_to_vec(type_bytes.as_slice());
        let chunk_crc = Self::calculate_crc(&type_vec, &data);
        Chunk { chunk_length, chunk_type, chunk_data: data, chunk_crc }
    }

    /// The number of bytes of data.
    pub fn length(&self) -> (r: u32)
        ensures
            r == self@.length(),
            self@.wf(),
    {
        proof {
            use_type_invariant(self);
        }
        self.chunk_length
    }

    /// The type code.
    pub fn chunk_type(&self) -> (r: &ChunkType)
        ensures
            r@ == self@.chunk_type,
    {
        &self.chunk_type
    }

    /// The data.
    pub fn data(&self) -> (r: &[u8])
        ensures
            r@ == self@.data,
    {
        self.chunk_data.as_slice()
    }

    /// The checksum over the type code and the data.
    pub fn crc(&self) -> (r: u32)
        ensures
            r == self@.crc(),
    {
        proof {
            use_type_invariant(self);
        }
        self.chunk_crc
    }

    /// The checksum over `chunk_type` followed by `chunk_data`.
    pub fn calculate_crc(chunk_type: &Vec<u8>, chunk_data: &Vec<u8>) -> (r: u32)
        ensures
            r == crc32_iso_hdlc(chunk_type@ + chunk_data@),
    {
        let mut crc_input: Vec<u8> = Vec::new();
        crc_input.extend_from_slice(chunk_type.as_slice());
        crc_input.extend_from_slice(chunk_data.as_slice());
        assert(crc_input@ =~= chunk_type@ + chunk_data@);
        crc32_checksum(crc_input.as_slice())
    }

    /// Compares the checksum stored with a chunk with the one computed from
    /// its type code and data.
    pub fn check_crc(stored: u32, computed: u32) -> (r: Result<(), PngError>)
        ensures
            r == if stored == computed {
                Ok::<(), PngError>(())
            } else {
                Err::<(), PngError>(PngError::CrcMismatch)
            },
    {
        if stored == computed {
            Ok(())
        } else {
            Err(PngError::CrcMismatch)
        }
    }

    /// The data as text, where it is valid UTF-8.
    pub fn data_as_string(&self) -> (r: Result<String, PngError>)
        ensures
            r is Ok <==> valid_utf8(self@.data),
            r matches Ok(s) ==> s@ == decode_utf8(self@.data),
            r matches Err(e) ==> e == PngError::EncodingError,
    {
        match String::from_utf8(slice_to_vec(self.chunk_data.as_slice())) {
            Ok(s) => {
                proof {
                    encode_utf8_decode_utf8(s@);
                }
                Ok(s)
            },
            Err(_) => Err(PngError::EncodingError),
        }
    }

    /// The chunk in one line of text: the length, the type code, the data and
    /// the checksum, with one space between them. The data must be valid UTF-8.
    pub fn to_string(&self) -> (r: String)
        requires
            valid_utf8(self@.data),
        ensures
            r@ == ascii_text(decimal_digits(self@.length() as nat)) + seq![' '] + ascii_text(
                self@.chunk_type,
            ) + seq![' '] + decode_utf8(self@.data) + seq![' '] + ascii_text(
                decimal_digits(self@.crc() as nat),
            ),
    {
        proof {
            use_type_invariant(self);
            reveal_strlit(" ");
        }
        let data = match self.data_as_string() {
            Ok(data) => data,
            Err(_) => vstd::pervasive::unreached(),
        };
        let mut line = decimal_string(self.chunk_length);
        line.append(" ");
        line.append(self.chunk_type.to_string().as_str());
        line.append(" ");
        line.append(data.as_str());
        line.append(" ");
        line.append(decimal_string(self.chunk_crc).as_str());
        line
    }

    /// The bytes of the chunk on the wire.
    pub fn as_bytes(&self) -> (r: Vec<u8>)
        ensures
            r@ == self@.wire(),
            self@.wf(),
            parse_chunk(r@) == Ok::<ChunkView, PngError>(self@),
    {
        proof {
            use_type_invariant(self);
            lemma_parse_chunk_of_wire(self@, Seq::empty());
        }
        let mut bytes: Vec<u8> = Vec::new();
        bytes.extend_from_slice(to_be_bytes(self.chunk_length).as_slice());
        bytes.extend_from_slice(self.chunk_type.bytes().as_slice());
        bytes.extend_from_slice(self.chunk_data.as_slice());
        bytes.extend_from_slice(to_be_bytes(self.chunk_crc).as_slice());
        assert(bytes@ =~= self@.wire());
        bytes
    }
}

impl<'a> TryFrom<&'a [u8]> for Chunk {
    type Error = PngError;

    /// Reads the chunk that stands at the start of `bytes`.
    fn try_from(bytes: &'a [u8]) -> (r: Result<Chunk, PngError>)
        ensures
            match r {
                Ok(chunk) => parse_chunk(bytes@) == Ok::<ChunkView, PngError>(chunk@),
                Err(e) => parse_chunk(bytes@) == Err::<ChunkView, PngError>(e),
            },
    {
        proof {
            reveal(parse_chunk);
        }
        if bytes.len() < Chunk::SIZE_WITHOUT_DATA {
            return Err(PngError::TruncatedInput);
        }
        let length_bytes: [u8; 4] = [bytes[0], bytes[1], bytes[2], bytes[3]];
        assert(length_bytes@ =~= bytes@.subrange(0, 4));
        let chunk_length = from_be_bytes(length_bytes);
        let type_bytes: [u8; 4] = [bytes[4], bytes[5], bytes[6], bytes[7]];
        assert(type_bytes@ =~= bytes@.subrange(4, 8));
        let chunk_type = match ChunkType::try_from(type_bytes) {
            Ok(chunk_type) => chunk_type,
            Err(e) => {
                return Err(e);
            },
        };
        if bytes.len() - Chunk::SIZE_WITHOUT_DATA < chunk_length as usize {
            return Err(PngError::TruncatedInput);
        }
        let data_end: usize = 8 + chunk_length as usize;
        let chunk_data = slice_to_vec(slice_subrange(bytes, 8, data_end));
        let crc_bytes: [u8; 4] = [
            bytes[data_end],
            bytes[data_end + 1],
            bytes[data_end + 2],
            bytes[data_end + 3],
        ];
        assert(crc_bytes@ =~= bytes@.subrange(data_end as int, data_end + 4));
        let chunk_crc = from_be_bytes(crc_bytes);
        let expected_crc = Chunk::calculate_crc(
            &slice_to_vec(chunk_type.bytes().as_slice()),
            &chunk_data,
        );
        match Chunk::check_crc(chunk_crc, expected_crc) {
            Ok(()) => Ok(Chunk { chunk_length, chunk_type, chunk_data, chunk_crc }),
            Err(e) => Err(e),
        }
    }
}

/// `try_from` is specified by its own `ensures`, over the view of the chunk;
/// the value-level form that the trait offers is left unused.
impl<'a> vstd::std_specs::convert::TryFromSpecImpl<&'a [u8]> for Chunk {
    open spec fn obeys_try_from_spec() -> bool {
        false
    }

    open spec fn try_from_spec(bytes: &'a [u8]) -> Result<Self, PngError> {
        arbitrary()
    }
}

impl PartialEq for Chunk {
    fn eq(&self, other: &Self) -> (r: bool) {
        proof {
            use_type_invariant(self);
            use_type_invariant(other);
        }
        let same_type = self.chunk_type == other.chunk_type;
        let same_data = self.chunk_data == other.chunk_data;
        assert(same_data == (self.chunk_data@ =~= other.chunk_data@));
        self.chunk_length == other.chunk_length && same_type && same_data && self.chunk_crc
            == other.chunk_crc
    }
}

impl Eq for Chunk {

}

impl vstd::std_specs::cmp::PartialEqSpecImpl for Chunk {
    open spec fn obeys_eq_spec() -> bool {
        true
    }

    open spec fn eq_spec(&self, other: &Self) -> bool {
        self@ == other@
    }
}

} // verus!
