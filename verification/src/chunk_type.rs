use crate::encoding::{is_alpha, is_lower, is_upper, lemma_ascii_bytes_utf8, string_from_utf8};
use crate::error::PngError;
use vstd::prelude::*;
use vstd::string::StringSliceAdditionalSpecFns;

verus! {

/// True when four bytes are an acceptable chunk type code: exactly four
/// ASCII letters.
pub open spec fn valid_type_bytes(s: Seq<u8>) -> bool {
    s.len() == 4 && (forall|i: int| 0 <= i < s.len() ==> is_alpha(#[trigger] s[i]))
}

/// A four-byte PNG chunk type code together with the semantic flags that the
/// letter case of each byte encodes. The flags are derived once, at
/// construction, and never change.
#[derive(Clone, Copy, Debug)]
pub struct ChunkType {
    pub chunk_type: [u8; 4],
    pub is_valid: bool,
    pub is_public: bool,
    pub is_critical: bool,
    pub is_safe_to_copy: bool,
    pub is_reserved_bit_valid: bool,
}

impl View for ChunkType {
    type V = Seq<u8>;

    open spec fn view(&self) -> Seq<u8> {
        self.chunk_type@
    }
}

impl ChunkType {
    /// The code's invariant: four ASCII letters, and each flag equal to the
    /// case test of its byte.
    pub open spec fn wf(&self) -> bool {
        &&& valid_type_bytes(self.chunk_type@)
        &&& self.is_critical == is_upper(self.chunk_type@[0])
        &&& self.is_public == is_upper(self.chunk_type@[1])
        &&& self.is_reserved_bit_valid == is_upper(self.chunk_type@[2])
        &&& self.is_safe_to_copy == is_lower(self.chunk_type@[3])
        &&& self.is_valid == self.is_reserved_bit_valid
    }

    /// Builds a code from four raw bytes, deriving every flag; rejects any
    /// byte that is not an ASCII letter.
    pub fn try_from(value: [u8; 4]) -> (r: Result<ChunkType, PngError>)
        ensures
            r is Ok <==> valid_type_bytes(value@),
            r matches Ok(t) ==> t@ == value@ && t.wf(),
            r is Err ==> r == Err::<ChunkType, PngError>(PngError::InvalidTypeBytes),
    {
        let b0 = value[0];
        let b1 = value[1];
        let b2 = value[2];
        let b3 = value[3];
        if !(byte_is_alpha(b0) && byte_is_alpha(b1) && byte_is_alpha(b2) && byte_is_alpha(b3)) {
            return Err(PngError::InvalidTypeBytes);
        }
        Ok(
            ChunkType {
                chunk_type: value,
                is_valid: byte_is_upper(b2),
                is_public: byte_is_upper(b1),
                is_critical: byte_is_upper(b0),
                is_safe_to_copy: byte_is_lower(b3),
                is_reserved_bit_valid: byte_is_upper(b2),
            },
        )
    }

    /// Builds a code from a string, deriving every flag; rejects a string
    /// whose bytes are not exactly four ASCII letters.
    pub fn from_str(s: &str) -> (r: Result<ChunkType, PngError>)
        ensures
            r is Ok <==> valid_type_bytes(s.spec_bytes()),
            r matches Ok(t) ==> t@ == s.spec_bytes() && t.wf(),
            r is Err ==> r == Err::<ChunkType, PngError>(PngError::InvalidTypeBytes),
    {
        let bytes = s.as_bytes();
        if bytes.len() != 4 {
            return Err(PngError::InvalidTypeBytes);
        }
        let arr: [u8; 4] = [bytes[0], bytes[1], bytes[2], bytes[3]];
        proof {
            assert(arr@ =~= s.spec_bytes());
        }
        Self::try_from(arr)
    }

    /// The four raw bytes of the code.
    pub fn bytes(&self) -> (r: [u8; 4])
        ensures
            r@ == self@,
    {
        self.chunk_type
    }

    /// True when the reserved bit is valid; the code's overall validity flag.
    pub fn is_valid(&self) -> (r: bool)
        ensures
            r == self.is_valid,
    {
        self.is_valid
    }

    /// True when the first byte is upper case: a critical chunk.
    pub fn is_critical(&self) -> (r: bool)
        ensures
            r == self.is_critical,
    {
        self.is_critical
    }

    /// True when the second byte is upper case: a publicly defined chunk.
    pub fn is_public(&self) -> (r: bool)
        ensures
            r == self.is_public,
    {
        self.is_public
    }

    /// True when the third byte is upper case, as the reserved bit demands.
    pub fn is_reserved_bit_valid(&self) -> (r: bool)
        ensures
            r == self.is_reserved_bit_valid,
    {
        self.is_reserved_bit_valid
    }

    /// True when the fourth byte is lower case: safe to copy unrecognized.
    pub fn is_safe_to_copy(&self) -> (r: bool)
        ensures
            r == self.is_safe_to_copy,
    {
        self.is_safe_to_copy
    }

    /// The code as a four-character string.
    pub fn to_string(&self) -> (r: String)
        requires
            self.wf(),
        ensures
            r@.len() == 4,
            forall|i: int| 0 <= i < 4 ==> r@[i] == self.chunk_type@[i] as char,
    {
        let mut v: Vec<u8> = Vec::new();
        v.push(self.chunk_type[0]);
        v.push(self.chunk_type[1]);
        v.push(self.chunk_type[2]);
        v.push(self.chunk_type[3]);
        proof {
            assert(v@ =~= self.chunk_type@);
            lemma_ascii_bytes_utf8(v@);
        }
        match string_from_utf8(v) {
            Some(s) => s,
            None => vstd::pervasive::unreached(),
        }
    }
}

impl PartialEq for ChunkType {
    fn eq(&self, other: &ChunkType) -> (r: bool) {
        self.chunk_type[0] == other.chunk_type[0] && self.chunk_type[1] == other.chunk_type[1]
            && self.chunk_type[2] == other.chunk_type[2] && self.chunk_type[3]
            == other.chunk_type[3] && self.is_valid == other.is_valid && self.is_public
            == other.is_public && self.is_critical == other.is_critical && self.is_safe_to_copy
            == other.is_safe_to_copy && self.is_reserved_bit_valid == other.is_reserved_bit_valid
    }
}

impl vstd::std_specs::cmp::PartialEqSpecImpl for ChunkType {
    open spec fn obeys_eq_spec() -> bool {
        true
    }

    open spec fn eq_spec(&self, other: &ChunkType) -> bool {
        &&& self.chunk_type@[0] == other.chunk_type@[0]
        &&& self.chunk_type@[1] == other.chunk_type@[1]
        &&& self.chunk_type@[2] == other.chunk_type@[2]
        &&& self.chunk_type@[3] == other.chunk_type@[3]
        &&& self.is_valid == other.is_valid
        &&& self.is_public == other.is_public
        &&& self.is_critical == other.is_critical
        &&& self.is_safe_to_copy == other.is_safe_to_copy
        &&& self.is_reserved_bit_valid == other.is_reserved_bit_valid
    }
}

/// True when the byte is an ASCII upper-case letter.
fn byte_is_upper(b: u8) -> (r: bool)
    ensures
        r == is_upper(b),
{
    65 <= b && b <= 90
}

/// True when the byte is an ASCII lower-case letter.
fn byte_is_lower(b: u8) -> (r: bool)
    ensures
        r == is_lower(b),
{
    97 <= b && b <= 122
}

/// True when the byte is an ASCII letter.
fn byte_is_alpha(b: u8) -> (r: bool)
    ensures
        r == is_alpha(b),
{
    byte_is_upper(b) || byte_is_lower(b)
}

} // verus!
