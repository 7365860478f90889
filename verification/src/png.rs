use crate::chunk::{Chunk, ChunkModel};
use crate::chunk_type::{valid_type_bytes, ChunkType};
use crate::encoding::{be32, crc32, crc32_of, lemma_be32_of_u32_be, lemma_u32_be_of_be32, u32_be,
    u32_from_be_bytes};
use crate::error::PngError;
use vstd::prelude::*;
use vstd::slice::slice_to_vec;

verus! {

/// The fixed eight-byte signature every PNG byte stream begins with.
pub open spec fn png_sig() -> Seq<u8> {
    seq![0x89u8, 0x50u8, 0x4eu8, 0x47u8, 0x0du8, 0x0au8, 0x1au8, 0x0au8]
}

/// The wire form of a chunk sequence: each chunk's bytes, in order.
pub open spec fn chunks_bytes(cs: Seq<ChunkModel>) -> Seq<u8>
    decreases cs.len(),
{
    if cs.len() == 0 {
        Seq::empty()
    } else {
        cs[0].bytes() + chunks_bytes(cs.drop_first())
    }
}

/// The wire form of a whole container: the signature, then every chunk.
pub open spec fn png_bytes(cs: Seq<ChunkModel>) -> Seq<u8> {
    png_sig() + chunks_bytes(cs)
}

/// What parsing the bytes after the signature yields: chunks read one after
/// the other until the input is exhausted, with the first failure, if any,
/// reported as the whole result.
pub open spec fn spec_parse_chunks(bytes: Seq<u8>) -> Result<Seq<ChunkModel>, PngError>
    decreases bytes.len(),
{
    if bytes.len() == 0 {
        Ok(Seq::empty())
    } else if bytes.len() < 12 {
        Err(PngError::Truncated)
    } else {
        let declared = u32_be(bytes.subrange(0, 4)) as int;
        if bytes.len() < 12 + declared {
            Err(PngError::Truncated)
        } else {
            let typ = bytes.subrange(4, 8);
            let data = bytes.subrange(8, 8 + declared);
            let stored = u32_be(bytes.subrange(8 + declared, 12 + declared));
            if stored != crc32_of(typ + data) {
                Err(PngError::CrcMismatch)
            } else if !valid_type_bytes(typ) {
                Err(PngError::InvalidTypeBytes)
            } else {
                match spec_parse_chunks(bytes.subrange(12 + declared, bytes.len() as int)) {
                    Ok(rest) => Ok(seq![ChunkModel { typ, data, crc: stored }] + rest),
                    Err(e) => Err(e),
                }
            }
        }
    }
}

/// What parsing a whole buffer yields: a signature check, then the chunks.
pub open spec fn spec_parse_png(bytes: Seq<u8>) -> Result<Seq<ChunkModel>, PngError> {
    if bytes.len() < 8 || bytes.subrange(0, 8) != png_sig() {
        Err(PngError::SignatureMismatch)
    } else {
        spec_parse_chunks(bytes.subrange(8, bytes.len() as int))
    }
}

/// The position of the first chunk of the given type, scanning in sequence
/// order.
pub open spec fn find_first(cs: Seq<ChunkModel>, typ: Seq<u8>) -> Option<int>
    decreases cs.len(),
{
    if cs.len() == 0 {
        None
    } else if cs[0].typ == typ {
        Some(0int)
    } else {
        match find_first(cs.drop_first(), typ) {
            Some(i) => Some(i + 1),
            None => None,
        }
    }
}

/// `find_first` returns the index of the first match, and `None` exactly
/// when no chunk of the type is present.
pub proof fn lemma_find_first(cs: Seq<ChunkModel>, typ: Seq<u8>)
    ensures
        match find_first(cs, typ) {
            None => forall|j: int| 0 <= j < cs.len() ==> cs[j].typ != typ,
            Some(i) => 0 <= i < cs.len() && cs[i].typ == typ && (forall|j: int|
                0 <= j < i ==> cs[j].typ != typ),
        },
    decreases cs.len(),
{
    if cs.len() == 0 {
    } else if cs[0].typ == typ {
    } else {
        let rest = cs.drop_first();
        lemma_find_first(rest, typ);
        assert(forall|j: int| 0 <= j < rest.len() ==> rest[j] == cs[j + 1]);
        match find_first(rest, typ) {
            None => {
                assert forall|j: int| 0 <= j < cs.len() implies cs[j].typ != typ by {
                    if j > 0 {
                        assert(rest[j - 1] == cs[j]);
                    }
                }
            },
            Some(i) => {
                assert(cs[i + 1].typ == typ);
                assert forall|j: int| 0 <= j < i + 1 implies cs[j].typ != typ by {
                    if j > 0 {
                        assert(rest[j - 1] == cs[j]);
                    }
                }
            },
        }
    }
}

/// A whole PNG byte stream in memory: the fixed signature is implicit, and
/// the chunks stand in file order.
#[derive(Debug)]
pub struct Png {
    pub chunks: Vec<Chunk>,
}

impl View for Png {
    type V = Seq<ChunkModel>;

    open spec fn view(&self) -> Seq<ChunkModel> {
        self.chunks@.map(|i: int, c: Chunk| c@)
    }
}

impl Png {
    /// Every chunk held satisfies the chunk invariant.
    pub open spec fn wf(&self) -> bool {
        forall|i: int| 0 <= i < self.chunks@.len() ==> (#[trigger] self.chunks@[i]).wf()
    }

    /// Assembles a container from a chunk list.
    pub fn from_chunks(chunks: Vec<Chunk>) -> (r: Png)
        requires
            forall|i: int| 0 <= i < chunks@.len() ==> (#[trigger] chunks@[i]).wf(),
        ensures
            r@ == chunks@.map(|i: int, c: Chunk| c@),
            r.wf(),
    {
        Png { chunks }
    }

    /// Parses a whole buffer: the signature first, then every chunk, each
    /// with its CRC verified; the result is exactly what `spec_parse_png`
    /// says, and no partially parsed container is ever returned.
    pub fn parse(source: &[u8]) -> (r: Result<Png, PngError>)
        ensures
            r matches Ok(p) ==> spec_parse_png(source@) == Ok::<Seq<ChunkModel>, PngError>(p@)
                && p.wf(),
            r matches Err(e) ==> spec_parse_png(source@) == Err::<Seq<ChunkModel>, PngError>(e),
    {
        if source.len() < 8 {
            return Err(PngError::SignatureMismatch);
        }
        let sig = signature();
        let mut k: usize = 0;
        while k < 8
            invariant
                k <= 8,
                sig@ == png_sig(),
                source@.len() >= 8,
                forall|j: int| 0 <= j < k ==> source@[j] == png_sig()[j],
            decreases 8 - k,
        {
            if source[k] != sig[k] {
                proof {
                    assert(source@.subrange(0, 8)[k as int] != png_sig()[k as int]);
                }
                return Err(PngError::SignatureMismatch);
            }
            k += 1;
        }
        proof {
            assert(source@.subrange(0, 8) =~= png_sig());
        }
        match parse_chunks(source, 8) {
            Ok(chunks) => Ok(Png { chunks }),
            Err(e) => Err(e),
        }
    }

    /// The container's wire form: the signature, then every chunk's bytes.
    pub fn as_bytes(&self) -> (r: Vec<u8>)
        requires
            self.wf(),
        ensures
            r@ == png_bytes(self@),
    {
        let sig = signature();
        let mut out: Vec<u8> = Vec::new();
        out.push(sig[0]);
        out.push(sig[1]);
        out.push(sig[2]);
        out.push(sig[3]);
        out.push(sig[4]);
        out.push(sig[5]);
        out.push(sig[6]);
        out.push(sig[7]);
        proof {
            assert(out@ =~= png_sig() + chunks_bytes(self@.take(0)));
        }
        let mut i: usize = 0;
        while i < self.chunks.len()
            invariant
                i <= self.chunks@.len(),
                self.wf(),
                out@ == png_sig() + chunks_bytes(self@.take(i as int)),
            decreases self.chunks@.len() - i,
        {
            let mut piece = self.chunks[i].as_bytes();
            out.append(&mut piece);
            proof {
                lemma_chunks_bytes_snoc(self@.take(i as int), self@[i as int]);
                assert(self@.take(i + 1) =~= self@.take(i as int).push(self@[i as int]));
            }
            i += 1;
        }
        proof {
            assert(self@.take(self@.len() as int) =~= self@);
        }
        out
    }

    /// Adds a chunk at the end of the sequence; never deduplicates.
    pub fn append_chunk(&mut self, chunk: Chunk)
        requires
            chunk.wf(),
        ensures
            final(self)@ == old(self)@.push(chunk@),
            old(self).wf() ==> final(self).wf(),
    {
        self.chunks.push(chunk);
        proof {
            assert(self@ =~= old(self)@.push(self.chunks@.last()@));
        }
    }

    /// The first chunk of the given type, in sequence order, if any.
    pub fn chunk_by_type(&self, target: &ChunkType) -> (r: Option<&Chunk>)
        ensures
            match find_first(self@, target@) {
                Some(i) => r matches Some(c) && c@ == self@[i],
                None => r is None,
            },
    {
        let mut i: usize = 0;
        while i < self.chunks.len()
            invariant
                i <= self.chunks@.len(),
                forall|j: int| 0 <= j < i ==> self@[j].typ != target@,
            decreases self.chunks@.len() - i,
        {
            if same_type(&self.chunks[i].chunk_type, target) {
                proof {
                    lemma_found_at_first_match(self@, target@, i as int);
                }
                return Some(&self.chunks[i]);
            }
            i += 1;
        }
        proof {
            lemma_no_match_not_found(self@, target@);
        }
        None
    }

    /// Removes and returns the first chunk of the given type; fails with
    /// `NotFound`, leaving the sequence unchanged, when none is present.
    pub fn remove_chunk(&mut self, target: &ChunkType) -> (r: Result<Chunk, PngError>)
        ensures
            match find_first(old(self)@, target@) {
                Some(i) => r matches Ok(c) && c@ == old(self)@[i] && final(self)@ == old(
                    self,
                )@.remove(i),
                None => r == Err::<Chunk, PngError>(PngError::NotFound) && final(self)@ == old(
                    self,
                )@,
            },
            old(self).wf() ==> final(self).wf(),
    {
        let mut i: usize = 0;
        while i < self.chunks.len()
            invariant
                i <= self.chunks@.len(),
                *self == *old(self),
                forall|j: int| 0 <= j < i ==> self@[j].typ != target@,
            decreases self.chunks@.len() - i,
        {
            if same_type(&self.chunks[i].chunk_type, target) {
                proof {
                    lemma_found_at_first_match(self@, target@, i as int);
                }
                let c = self.chunks.remove(i);
                proof {
                    assert(self@ =~= old(self)@.remove(i as int));
                }
                return Ok(c);
            }
            i += 1;
        }
        proof {
            lemma_no_match_not_found(self@, target@);
        }
        Err(PngError::NotFound)
    }
}

/// When a chunk at `i` matches and none before it does, the first match
/// stands exactly at `i`.
pub proof fn lemma_found_at_first_match(cs: Seq<ChunkModel>, typ: Seq<u8>, i: int)
    requires
        0 <= i < cs.len(),
        cs[i].typ == typ,
        forall|j: int| 0 <= j < i ==> cs[j].typ != typ,
    ensures
        find_first(cs, typ) == Some(i),
{
    lemma_find_first(cs, typ);
    match find_first(cs, typ) {
        None => {
            assert(cs[i].typ != typ);
        },
        Some(k) => {
            if k < i {
                assert(cs[k].typ != typ);
            } else if k > i {
                assert(cs[i].typ != typ);
            }
        },
    }
}

/// When no chunk matches, nothing is found.
pub proof fn lemma_no_match_not_found(cs: Seq<ChunkModel>, typ: Seq<u8>)
    requires
        forall|j: int| 0 <= j < cs.len() ==> cs[j].typ != typ,
    ensures
        find_first(cs, typ) is None,
{
    lemma_find_first(cs, typ);
    match find_first(cs, typ) {
        None => {},
        Some(k) => {
            assert(cs[k].typ != typ);
        },
    }
}

/// The fixed eight signature bytes as a value.
pub fn signature() -> (r: [u8; 8])
    ensures
        r@ == png_sig(),
{
    let r: [u8; 8] = [0x89u8, 0x50u8, 0x4eu8, 0x47u8, 0x0du8, 0x0au8, 0x1au8, 0x0au8];
    proof {
        assert(r@ =~= png_sig());
    }
    r
}

/// True exactly when two type codes hold the same four bytes.
fn same_type(a: &ChunkType, b: &ChunkType) -> (r: bool)
    ensures
        r == (a@ == b@),
{
    let r = a.chunk_type[0] == b.chunk_type[0] && a.chunk_type[1] == b.chunk_type[1]
        && a.chunk_type[2] == b.chunk_type[2] && a.chunk_type[3] == b.chunk_type[3];
    proof {
        if r {
            assert(a@ =~= b@);
        }
    }
    r
}

/// Serializing one more chunk appends its bytes at the end.
pub proof fn lemma_chunks_bytes_snoc(cs: Seq<ChunkModel>, m: ChunkModel)
    ensures
        chunks_bytes(cs.push(m)) == chunks_bytes(cs) + m.bytes(),
    decreases cs.len(),
{
    if cs.len() == 0 {
        assert(cs.push(m)[0] == m);
        assert(cs.push(m).drop_first() =~= Seq::<ChunkModel>::empty());
        assert(chunks_bytes(Seq::<ChunkModel>::empty()) == Seq::<u8>::empty());
        assert(chunks_bytes(cs.push(m)) == m.bytes() + Seq::<u8>::empty());
        assert(chunks_bytes(cs.push(m)) =~= chunks_bytes(cs) + m.bytes());
    } else {
        assert(cs.push(m)[0] == cs[0]);
        assert(cs.push(m).drop_first() =~= cs.drop_first().push(m));
        lemma_chunks_bytes_snoc(cs.drop_first(), m);
        assert(chunks_bytes(cs.push(m)) == cs[0].bytes() + (chunks_bytes(cs.drop_first())
            + m.bytes()));
        assert(chunks_bytes(cs.push(m)) =~= chunks_bytes(cs) + m.bytes());
    }
}

/// Parsing the wire form of a sequence of well-formed chunks recovers
/// exactly that sequence.
/// Parsing bytes that begin with one well-formed chunk's wire form reads
/// that chunk off the front and goes on with the rest.
#[verifier::spinoff_prover]
#[verifier::rlimit(100)]
pub proof fn lemma_parse_chunks_head(m: ChunkModel, tail: Seq<u8>)
    requires
        m.wf(),
    ensures
        spec_parse_chunks(m.bytes() + tail) == (match spec_parse_chunks(tail) {
            Ok(rest) => Ok::<Seq<ChunkModel>, PngError>(seq![m] + rest),
            Err(e) => Err::<Seq<ChunkModel>, PngError>(e),
        }),
{
    let bytes = m.bytes() + tail;
    let d = m.data.len() as int;
    assert(m.bytes().len() == 12 + d);
    assert(bytes.len() == 12 + d + tail.len());
    assert(bytes.subrange(0, 4) =~= be32(m.data.len() as u32));
    lemma_u32_be_of_be32(m.data.len() as u32);
    assert(u32_be(bytes.subrange(0, 4)) as int == d);
    assert(bytes.subrange(4, 8) =~= m.typ);
    assert(bytes.subrange(8, 8 + d) =~= m.data);
    assert(bytes.subrange(8 + d, 12 + d) =~= be32(m.crc));
    lemma_u32_be_of_be32(m.crc);
    assert(u32_be(bytes.subrange(8 + d, 12 + d)) == m.crc);
    assert(crc32_of(bytes.subrange(4, 8) + bytes.subrange(8, 8 + d)) == m.crc);
    assert(valid_type_bytes(bytes.subrange(4, 8)));
    assert(bytes.subrange(12 + d, bytes.len() as int) =~= tail);
    assert(ChunkModel {
        typ: bytes.subrange(4, 8),
        data: bytes.subrange(8, 8 + d),
        crc: u32_be(bytes.subrange(8 + d, 12 + d)),
    } == m);
}

/// Parsing the wire form of a sequence of well-formed chunks recovers
/// exactly that sequence.
pub proof fn lemma_chunks_round_trip(cs: Seq<ChunkModel>)
    requires
        forall|i: int| 0 <= i < cs.len() ==> (#[trigger] cs[i]).wf(),
    ensures
        spec_parse_chunks(chunks_bytes(cs)) == Ok::<Seq<ChunkModel>, PngError>(cs),
    decreases cs.len(),
{
    if cs.len() == 0 {
        assert(cs =~= Seq::<ChunkModel>::empty());
        assert(chunks_bytes(cs) == Seq::<u8>::empty());
        assert(spec_parse_chunks(chunks_bytes(cs)) == Ok::<Seq<ChunkModel>, PngError>(
            Seq::empty(),
        ));
    } else {
        let m = cs[0];
        let rest = cs.drop_first();
        assert(forall|i: int| 0 <= i < rest.len() ==> (#[trigger] rest[i]).wf()) by {
            assert(forall|i: int| 0 <= i < rest.len() ==> rest[i] == cs[i + 1]);
        }
        lemma_chunks_round_trip(rest);
        lemma_parse_chunks_head(m, chunks_bytes(rest));
        assert(chunks_bytes(cs) == m.bytes() + chunks_bytes(rest));
        assert(spec_parse_chunks(chunks_bytes(cs)) == Ok::<Seq<ChunkModel>, PngError>(
            seq![m] + rest,
        ));
        assert(seq![m] + rest =~= cs);
    }
}

/// Round trip: the wire form of a well-formed container parses back to the
/// container itself, so re-serializing yields the same bytes.
pub proof fn lemma_png_round_trip(cs: Seq<ChunkModel>)
    requires
        forall|i: int| 0 <= i < cs.len() ==> (#[trigger] cs[i]).wf(),
    ensures
        spec_parse_png(png_bytes(cs)) == Ok::<Seq<ChunkModel>, PngError>(cs),
{
    let bytes = png_bytes(cs);
    assert(bytes.subrange(0, 8) =~= png_sig());
    assert(bytes.subrange(8, bytes.len() as int) =~= chunks_bytes(cs));
    lemma_chunks_round_trip(cs);
}

/// Whatever chunk sequence a buffer parses to, that sequence is well formed
/// and serializes back to the buffer, byte for byte.
#[verifier::spinoff_prover]
#[verifier::rlimit(100)]
pub proof fn lemma_parse_chunks_exact(bytes: Seq<u8>)
    requires
        spec_parse_chunks(bytes) is Ok,
    ensures
        chunks_bytes(spec_parse_chunks(bytes)->Ok_0) == bytes,
        forall|i: int|
            0 <= i < spec_parse_chunks(bytes)->Ok_0.len() ==> (#[trigger] spec_parse_chunks(
                bytes,
            )->Ok_0[i]).wf(),
    decreases bytes.len(),
{
    if bytes.len() == 0 {
        assert(chunks_bytes(Seq::<ChunkModel>::empty()) =~= bytes);
    } else {
        let d = u32_be(bytes.subrange(0, 4)) as int;
        let typ = bytes.subrange(4, 8);
        let data = bytes.subrange(8, 8 + d);
        let stored = u32_be(bytes.subrange(8 + d, 12 + d));
        let m = ChunkModel { typ, data, crc: stored };
        let remainder = bytes.subrange(12 + d, bytes.len() as int);
        lemma_parse_chunks_exact(remainder);
        let rest = spec_parse_chunks(remainder)->Ok_0;
        let cs = spec_parse_chunks(bytes)->Ok_0;
        assert(cs == seq![m] + rest);
        assert(m.bytes() =~= bytes.subrange(0, 12 + d)) by {
            lemma_be32_of_u32_be(bytes.subrange(0, 4));
            lemma_be32_of_u32_be(bytes.subrange(8 + d, 12 + d));
        }
        assert((seq![m] + rest)[0] == m);
        assert((seq![m] + rest).drop_first() =~= rest);
        assert(chunks_bytes(cs) == m.bytes() + chunks_bytes(rest));
        assert(chunks_bytes(cs) =~= bytes);
        assert(m.wf());
        assert(forall|i: int| 0 <= i < cs.len() ==> (#[trigger] cs[i]).wf()) by {
            assert(forall|i: int| 1 <= i < cs.len() ==> cs[i] == rest[i - 1]);
        }
    }
}

/// Whatever a whole buffer parses to serializes back to the buffer.
#[verifier::rlimit(50)]
pub proof fn lemma_parse_png_exact(bytes: Seq<u8>)
    requires
        spec_parse_png(bytes) is Ok,
    ensures
        png_bytes(spec_parse_png(bytes)->Ok_0) == bytes,
{
    let tail = bytes.subrange(8, bytes.len() as int);
    let cs = spec_parse_png(bytes)->Ok_0;
    assert(bytes.len() >= 8 && bytes.subrange(0, 8) == png_sig());
    assert(cs == spec_parse_chunks(tail)->Ok_0);
    lemma_parse_chunks_exact(tail);
    assert(chunks_bytes(cs) == tail);
    assert(png_bytes(cs) == png_sig() + tail);
    assert(png_sig() + tail =~= bytes);
}

/// Appending a chunk of a type not yet present and then removing by that
/// type returns the appended chunk and restores the original sequence.
pub proof fn lemma_append_then_remove(cs: Seq<ChunkModel>, m: ChunkModel)
    requires
        find_first(cs, m.typ) is None,
    ensures
        find_first(cs.push(m), m.typ) == Some(cs.len() as int),
        cs.push(m).remove(cs.len() as int) == cs,
{
    lemma_find_first(cs, m.typ);
    assert forall|j: int| 0 <= j < cs.len() implies cs.push(m)[j].typ != m.typ by {
        assert(cs.push(m)[j] == cs[j]);
    }
    lemma_found_at_first_match(cs.push(m), m.typ, cs.len() as int);
    assert(cs.push(m).remove(cs.len() as int) =~= cs);
}

/// With two chunks of one type appended to a sequence free of that type,
/// removing by the type takes only the first of the two and leaves the
/// second in place.
pub proof fn lemma_remove_first_of_duplicates(cs: Seq<ChunkModel>, m1: ChunkModel, m2: ChunkModel)
    requires
        find_first(cs, m1.typ) is None,
        m2.typ == m1.typ,
    ensures
        find_first(cs.push(m1).push(m2), m1.typ) == Some(cs.len() as int),
        cs.push(m1).push(m2).remove(cs.len() as int) == cs.push(m2),
{
    lemma_find_first(cs, m1.typ);
    let both = cs.push(m1).push(m2);
    assert(both[cs.len() as int] == m1);
    assert forall|j: int| 0 <= j < cs.len() implies both[j].typ != m1.typ by {
        assert(both[j] == cs[j]);
    }
    lemma_found_at_first_match(both, m1.typ, cs.len() as int);
    assert(both.remove(cs.len() as int) =~= cs.push(m2));
}

/// Parses the chunks that begin at `start`, one after the other, to the end
/// of the buffer.
fn parse_chunks(source: &[u8], start: usize) -> (r: Result<Vec<Chunk>, PngError>)
    requires
        start <= source@.len(),
    ensures
        r matches Ok(v) ==> spec_parse_chunks(source@.subrange(start as int, source@.len() as int))
            == Ok::<Seq<ChunkModel>, PngError>(v@.map(|i: int, c: Chunk| c@)) && (forall|i: int|
            0 <= i < v@.len() ==> (#[trigger] v@[i]).wf()),
        r matches Err(e) ==> spec_parse_chunks(
            source@.subrange(start as int, source@.len() as int),
        ) == Err::<Seq<ChunkModel>, PngError>(e),
    decreases source@.len() - start,
{
    let n = source.len();
    let ghost tail = source@.subrange(start as int, n as int);
    if start == n {
        let v: Vec<Chunk> = Vec::new();
        proof {
            assert(v@.map(|i: int, c: Chunk| c@) =~= Seq::<ChunkModel>::empty());
        }
        return Ok(v);
    }
    if n - start < 12 {
        return Err(PngError::Truncated);
    }
    let declared = u32_from_be_bytes(&source[start..start + 4]);
    proof {
        assert(tail.subrange(0, 4) =~= source@.subrange(start as int, start + 4));
    }
    let dlen = declared as usize;
    let ghost d = declared as int;
    if dlen > n - start - 12 {
        return Err(PngError::Truncated);
    }
    let chunk_end = start + 12 + dlen;
    let computed = crc32(&source[start + 4..chunk_end - 4]);
    let stored = u32_from_be_bytes(&source[chunk_end - 4..chunk_end]);
    proof {
        assert(tail.subrange(8 + d, 12 + d) =~= source@.subrange(chunk_end - 4, chunk_end as int));
        assert(tail.subrange(4, 8) =~= source@.subrange(start + 4, start + 8));
        assert(tail.subrange(8, 8 + d) =~= source@.subrange(start + 8, chunk_end - 4));
        assert(tail.subrange(4, 8) + tail.subrange(8, 8 + d) =~= source@.subrange(
            start + 4,
            chunk_end - 4,
        ));
    }
    if computed != stored {
        return Err(PngError::CrcMismatch);
    }
    let typ_arr: [u8; 4] = [source[start + 4], source[start + 5], source[start + 6], source[start
        + 7]];
    proof {
        assert(typ_arr@ =~= tail.subrange(4, 8));
    }
    let chunk_type = match ChunkType::try_from(typ_arr) {
        Ok(t) => t,
        Err(e) => {
            return Err(e);
        },
    };
    let chunk_data = slice_to_vec(&source[start + 8..chunk_end - 4]);
    let head = Chunk { chunk_length: declared, chunk_type, chunk_data, chunk_crc: stored };
    proof {
        assert(head@ == (ChunkModel {
            typ: tail.subrange(4, 8),
            data: tail.subrange(8, 8 + d),
            crc: stored,
        }));
        assert(head.wf());
    }
    let mut rest = match parse_chunks(source, chunk_end) {
        Ok(v) => v,
        Err(e) => {
            proof {
                assert(tail.subrange(12 + d, tail.len() as int) =~= source@.subrange(
                    chunk_end as int,
                    n as int,
                ));
            }
            return Err(e);
        },
    };
    proof {
        assert(tail.subrange(12 + d, tail.len() as int) =~= source@.subrange(
            chunk_end as int,
            n as int,
        ));
    }
    let ghost rest_snap = rest@;
    rest.insert(0, head);
    proof {
        assert(rest@.map(|i: int, c: Chunk| c@) =~= seq![head@] + rest_snap.map(
            |i: int, c: Chunk| c@,
        ));
    }
    Ok(rest)
}

} // verus!
