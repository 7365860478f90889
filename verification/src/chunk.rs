use crate::chunk_type::{valid_type_bytes, ChunkType};
use crate::encoding::{be32, crc32, crc32_of, lemma_u32_be_of_be32, string_from_utf8, u32_be,
    u32_from_be_bytes, u32_to_be_bytes};
use crate::error::PngError;
use vstd::prelude::*;
use vstd::slice::slice_to_vec;
use vstd::utf8::{decode_utf8, encode_utf8, valid_utf8};

verus! {

/// The mathematical content of one chunk: its four type bytes, its data
/// bytes, and the CRC stored with them.
pub struct ChunkModel {
    pub typ: Seq<u8>,
    pub data: Seq<u8>,
    pub crc: u32,
}

impl ChunkModel {
    /// The chunk invariant: a valid type code, data short enough for the
    /// 32-bit length field, and a CRC equal to the CRC-32 of type and data.
    pub open spec fn wf(&self) -> bool {
        &&& valid_type_bytes(self.typ)
        &&& self.data.len() <= u32::MAX
        &&& self.crc == crc32_of(self.typ + self.data)
    }

    /// The chunk's wire form: big-endian length, the four type bytes, the
    /// data, and the big-endian CRC.
    pub open spec fn bytes(&self) -> Seq<u8> {
        be32(self.data.len() as u32) + self.typ + self.data + be32(self.crc)
    }
}

/// What parsing a buffer that should hold exactly one chunk yields: the
/// buffer must be long enough for the fixed fields, its length field must
/// match the buffer exactly, the stored CRC must equal the CRC-32 of type
/// and data, and the type bytes must be four ASCII letters.
pub open spec fn spec_parse_chunk(bytes: Seq<u8>) -> Result<ChunkModel, PngError> {
    if bytes.len() < 12 {
        Err(PngError::Truncated)
    } else {
        let declared = u32_be(bytes.subrange(0, 4)) as int;
        if bytes.len() != 12 + declared {
            Err(PngError::Truncated)
        } else {
            let typ = bytes.subrange(4, 8);
            let data = bytes.subrange(8, 8 + declared);
            let stored = u32_be(bytes.subrange(8 + declared, 12 + declared));
            if stored != crc32_of(typ + data) {
                Err(PngError::CrcMismatch)
            } else if !valid_type_bytes(typ) {
                Err(PngError::InvalidTypeBytes)
            } else {
                Ok(ChunkModel { typ, data, crc: stored })
            }
        }
    }
}

/// One length-prefixed, type-tagged, CRC-protected record of a PNG stream.
#[derive(Debug)]
pub struct Chunk {
    pub chunk_length: u32,
    pub chunk_type: ChunkType,
    pub chunk_data: Vec<u8>,
    pub chunk_crc: u32,
}

impl View for Chunk {
    type V = ChunkModel;

    open spec fn view(&self) -> ChunkModel {
        ChunkModel { typ: self.chunk_type@, data: self.chunk_data@, crc: self.chunk_crc }
    }
}

impl Chunk {
    /// The in-memory invariant: the type's flags agree with its bytes, the
    /// stored length equals the data's length, and the model invariant holds.
    pub open spec fn wf(&self) -> bool {
        &&& self.chunk_type.wf()
        &&& self.chunk_length == self.chunk_data@.len()
        &&& self@.wf()
    }

    /// Builds a fresh chunk from a type code and a payload, computing the
    /// CRC over the type bytes followed by the data.
    pub fn new(chunk_type: ChunkType, data: Vec<u8>) -> (r: Chunk)
        requires
            chunk_type.wf(),
            data@.len() <= u32::MAX,
        ensures
            r@ == (ChunkModel {
                typ: chunk_type@,
                data: data@,
                crc: crc32_of(chunk_type@ + data@),
            }),
            r.wf(),
    {
        let crc = crc_over(&chunk_type, &data);
        Chunk { chunk_length: data.len() as u32, chunk_type, chunk_data: data, chunk_crc: crc }
    }

    /// Builds a fresh chunk from a type given as a string, failing exactly
    /// when the string is not four ASCII letters.
    pub fn new_no_state(chunk_type: String, data: Vec<u8>) -> (r: Result<Chunk, PngError>)
        requires
            data@.len() <= u32::MAX,
        ensures
            r is Ok <==> valid_type_bytes(encode_utf8(chunk_type@)),
            r matches Ok(c) ==> c@ == (ChunkModel {
                typ: encode_utf8(chunk_type@),
                data: data@,
                crc: crc32_of(encode_utf8(chunk_type@) + data@),
            }) && c.wf(),
            r is Err ==> r == Err::<Chunk, PngError>(PngError::InvalidTypeBytes),
    {
        match ChunkType::from_str(chunk_type.as_str()) {
            Ok(t) => Ok(Chunk::new(t, data)),
            Err(e) => Err(e),
        }
    }

    /// The length of the data, as the 32-bit length field holds it.
    pub fn length(&self) -> (r: u32)
        requires
            self.wf(),
        ensures
            r == self@.data.len(),
    {
        self.chunk_length
    }

    /// The chunk's type code.
    pub fn chunk_type(&self) -> (r: &ChunkType)
        ensures
            r == self.chunk_type,
    {
        &self.chunk_type
    }

    /// The chunk's data bytes.
    pub fn data(&self) -> (r: &[u8])
        ensures
            r@ == self@.data,
    {
        self.chunk_data.as_slice()
    }

    /// The CRC stored with the chunk.
    pub fn crc(&self) -> (r: u32)
        ensures
            r == self@.crc,
    {
        self.chunk_crc
    }

    /// The chunk's wire form.
    pub fn as_bytes(&self) -> (r: Vec<u8>)
        requires
            self.wf(),
        ensures
            r@ == self@.bytes(),
    {
        let mut out: Vec<u8> = Vec::new();
        let len_bytes = u32_to_be_bytes(self.chunk_length);
        out.push(len_bytes[0]);
        out.push(len_bytes[1]);
        out.push(len_bytes[2]);
        out.push(len_bytes[3]);
        out.push(self.chunk_type.chunk_type[0]);
        out.push(self.chunk_type.chunk_type[1]);
        out.push(self.chunk_type.chunk_type[2]);
        out.push(self.chunk_type.chunk_type[3]);
        let mut i: usize = 0;
        while i < self.chunk_data.len()
            invariant
                i <= self.chunk_data@.len(),
                out@ == be32(self.chunk_length) + self.chunk_type@ + self.chunk_data@.take(
                    i as int,
                ),
            decreases self.chunk_data@.len() - i,
        {
            out.push(self.chunk_data[i]);
            proof {
                assert(self.chunk_data@.take(i + 1) =~= self.chunk_data@.take(i as int).push(
                    self.chunk_data@[i as int],
                ));
            }
            i += 1;
        }
        let crc_bytes = u32_to_be_bytes(self.chunk_crc);
        out.push(crc_bytes[0]);
        out.push(crc_bytes[1]);
        out.push(crc_bytes[2]);
        out.push(crc_bytes[3]);
        proof {
            assert(self.chunk_data@.take(self.chunk_data@.len() as int) =~= self.chunk_data@);
            assert(out@ =~= self@.bytes());
        }
        out
    }

    /// The chunk's data read as UTF-8 text, failing exactly when the data is
    /// not valid UTF-8.
    pub fn data_as_string(&self) -> (r: Result<String, PngError>)
        ensures
            r is Ok <==> valid_utf8(self@.data),
            r matches Ok(s) ==> s@ == decode_utf8(self@.data),
            r is Err ==> r == Err::<String, PngError>(PngError::InvalidUtf8),
    {
        let copy = slice_to_vec(self.chunk_data.as_slice());
        match string_from_utf8(copy) {
            Some(s) => Ok(s),
            None => Err(PngError::InvalidUtf8),
        }
    }

    /// Parses a buffer holding exactly one chunk, verifying its CRC and its
    /// type code; the result is exactly what `spec_parse_chunk` says.
    pub fn try_from(source: &[u8]) -> (r: Result<Chunk, PngError>)
        ensures
            r matches Ok(c) ==> spec_parse_chunk(source@) == Ok::<ChunkModel, PngError>(c@)
                && c.wf(),
            r matches Err(e) ==> spec_parse_chunk(source@) == Err::<ChunkModel, PngError>(e),
    {
        let n = source.len();
        if n < 12 {
            return Err(PngError::Truncated);
        }
        let declared = u32_from_be_bytes(&source[0..4]);
        proof {
            assert(source@.subrange(0, 4) == source@.subrange(0int, 4int));
        }
        if declared as usize != n - 12 {
            return Err(PngError::Truncated);
        }
        let computed = crc32(&source[4..n - 4]);
        let stored = u32_from_be_bytes(&source[n - 4..n]);
        let ghost d = declared as int;
        proof {
            assert(source@.subrange(8 + d, 12 + d) =~= source@.subrange(n - 4, n as int));
            assert(source@.subrange(4int, n - 4) =~= source@.subrange(4, 8) + source@.subrange(
                8,
                8 + d,
            ));
        }
        if computed != stored {
            return Err(PngError::CrcMismatch);
        }
        let typ_arr: [u8; 4] = [source[4], source[5], source[6], source[7]];
        proof {
            assert(typ_arr@ =~= source@.subrange(4, 8));
        }
        let chunk_type = match ChunkType::try_from(typ_arr) {
            Ok(t) => t,
            Err(e) => {
                return Err(e);
            },
        };
        let chunk_data = slice_to_vec(&source[8..n - 4]);
        proof {
            assert(chunk_data@ =~= source@.subrange(8, 8 + d));
        }
        Ok(
            Chunk {
                chunk_length: declared,
                chunk_type,
                chunk_data,
                chunk_crc: stored,
            },
        )
    }
}

/// Parsing a chunk's own wire form recovers it when its stored CRC is the
/// CRC-32 of its type and data, and fails with a CRC mismatch for any other
/// stored CRC.
pub proof fn lemma_parse_chunk_bytes(m: ChunkModel)
    requires
        valid_type_bytes(m.typ),
        m.data.len() <= u32::MAX,
    ensures
        spec_parse_chunk(m.bytes()) == (if m.crc == crc32_of(m.typ + m.data) {
            Ok::<ChunkModel, PngError>(m)
        } else {
            Err::<ChunkModel, PngError>(PngError::CrcMismatch)
        }),
{
    let bytes = m.bytes();
    let d = m.data.len() as int;
    assert(bytes.len() == 12 + d);
    assert(bytes.subrange(0, 4) =~= be32(m.data.len() as u32));
    lemma_u32_be_of_be32(m.data.len() as u32);
    assert(bytes.subrange(4, 8) =~= m.typ);
    assert(bytes.subrange(8, 8 + d) =~= m.data);
    assert(bytes.subrange(8 + d, 12 + d) =~= be32(m.crc));
    lemma_u32_be_of_be32(m.crc);
}

/// Flipping any single bit of the stored CRC field of a serialized chunk
/// makes parsing fail with a CRC mismatch.
pub proof fn lemma_crc_bit_flip_detected(m: ChunkModel, k: u32)
    requires
        m.wf(),
        k < 32,
    ensures
        spec_parse_chunk(
            (ChunkModel { typ: m.typ, data: m.data, crc: m.crc ^ (1u32 << k) }).bytes(),
        ) == Err::<ChunkModel, PngError>(PngError::CrcMismatch),
{
    let crc = m.crc;
    assert(crc ^ (1u32 << k) != crc) by (bit_vector)
        requires
            k < 32,
    ;
    lemma_parse_chunk_bytes(ChunkModel { typ: m.typ, data: m.data, crc: m.crc ^ (1u32 << k) });
}

/// The CRC-32 of a chunk type's bytes followed by the payload bytes.
fn crc_over(chunk_type: &ChunkType, data: &Vec<u8>) -> (r: u32)
    ensures
        r == crc32_of(chunk_type@ + data@),
{
    let mut buf: Vec<u8> = Vec::new();
    buf.push(chunk_type.chunk_type[0]);
    buf.push(chunk_type.chunk_type[1]);
    buf.push(chunk_type.chunk_type[2]);
    buf.push(chunk_type.chunk_type[3]);
    proof {
        assert(buf@ =~= chunk_type@ + data@.take(0));
    }
    let mut i: usize = 0;
    while i < data.len()
        invariant
            i <= data@.len(),
            buf@ == chunk_type@ + data@.take(i as int),
        decreases data@.len() - i,
    {
        buf.push(data[i]);
        proof {
            assert(data@.take(i + 1) =~= data@.take(i as int).push(data@[i as int]));
            assert(buf@ =~= chunk_type@ + data@.take(i + 1));
        }
        i += 1;
    }
    proof {
        assert(data@.take(data@.len() as int) =~= data@);
    }
    crc32(buf.as_slice())
}

} // verus!
