use crate::chunk::{Chunk, ChunkModel};
use crate::chunk_type::{valid_type_bytes, ChunkType};
use crate::encoding::crc32_of;
use crate::error::PngError;
use crate::png::{find_first, spec_parse_png, Png};
use vstd::prelude::*;
use vstd::string::StrSliceExecFns;
use vstd::utf8::{decode_utf8, encode_utf8, valid_utf8};

verus! {

/// One request to the tool, as the surrounding command-line layer hands it
/// over; every field is a plain value, and all file reading and writing
/// stays with that layer.
pub enum PngArgs {
    Encode(EncodeArgs),
    Decode(DecodeArgs),
    Remove(Remove),
    Print(Print),
}

/// A request to hide a message in a PNG file under a chosen chunk type.
pub struct EncodeArgs {
    pub file_path: String,
    pub chunk_type: String,
    pub message: String,
    pub output_file: Option<String>,
}

/// A request to read the message stored under a chunk type.
pub struct DecodeArgs {
    pub file_path: String,
    pub chunk_type: String,
}

/// A request to remove the first chunk of a given type.
pub struct Remove {
    pub file_path: String,
    pub chunk_type: String,
}

/// A request to print every chunk whose data is text; the printing itself
/// belongs to the surrounding layer.
pub struct Print {
    pub file_path: String,
}

impl EncodeArgs {
    /// Decides an encode request over the file's bytes: builds the new chunk
    /// from the requested type and message, parses the container, and
    /// appends the chunk at the end. The caller reads the file first and
    /// writes the returned container back.
    pub fn process_req(&self, file_bytes: &[u8]) -> (r: Result<Png, PngError>)
        requires
            encode_utf8(self.message@).len() <= u32::MAX,
        ensures
            ({
                let tb = encode_utf8(self.chunk_type@);
                let data = encode_utf8(self.message@);
                if !valid_type_bytes(tb) {
                    r == Err::<Png, PngError>(PngError::InvalidTypeBytes)
                } else {
                    match spec_parse_png(file_bytes@) {
                        Ok(cs) => r matches Ok(p) && p@ == cs.push(
                            ChunkModel { typ: tb, data, crc: crc32_of(tb + data) },
                        ) && p.wf(),
                        Err(e) => r == Err::<Png, PngError>(e),
                    }
                }
            }),
    {
        let data = self.message.as_str().as_bytes_vec();
        let chunk = match Chunk::new_no_state(self.chunk_type.clone(), data) {
            Ok(c) => c,
            Err(e) => {
                return Err(e);
            },
        };
        let mut png = match Png::parse(file_bytes) {
            Ok(p) => p,
            Err(e) => {
                return Err(e);
            },
        };
        png.append_chunk(chunk);
        Ok(png)
    }
}

impl DecodeArgs {
    /// Decides a decode request over the file's bytes: parses the container,
    /// finds the first chunk of the requested type, and reads its data as
    /// UTF-8 text.
    pub fn process_req(&self, file_bytes: &[u8]) -> (r: Result<String, PngError>)
        ensures
            ({
                let tb = encode_utf8(self.chunk_type@);
                if !valid_type_bytes(tb) {
                    r == Err::<String, PngError>(PngError::InvalidTypeBytes)
                } else {
                    match spec_parse_png(file_bytes@) {
                        Err(e) => r == Err::<String, PngError>(e),
                        Ok(cs) => match find_first(cs, tb) {
                            None => r == Err::<String, PngError>(PngError::NotFound),
                            Some(i) => if valid_utf8(cs[i].data) {
                                r matches Ok(s) && s@ == decode_utf8(cs[i].data)
                            } else {
                                r == Err::<String, PngError>(PngError::InvalidUtf8)
                            },
                        },
                    }
                }
            }),
    {
        let target = match ChunkType::from_str(self.chunk_type.as_str()) {
            Ok(t) => t,
            Err(e) => {
                return Err(e);
            },
        };
        let png = match Png::parse(file_bytes) {
            Ok(p) => p,
            Err(e) => {
                return Err(e);
            },
        };
        match png.chunk_by_type(&target) {
            Some(c) => c.data_as_string(),
            None => Err(PngError::NotFound),
        }
    }
}

impl Remove {
    /// Decides a removal request over the file's bytes: parses the container
    /// and removes the first chunk of the requested type. The caller writes
    /// the returned container back if the removal is to persist.
    pub fn process_req(&self, file_bytes: &[u8]) -> (r: Result<Png, PngError>)
        ensures
            ({
                let tb = encode_utf8(self.chunk_type@);
                if !valid_type_bytes(tb) {
                    r == Err::<Png, PngError>(PngError::InvalidTypeBytes)
                } else {
                    match spec_parse_png(file_bytes@) {
                        Err(e) => r == Err::<Png, PngError>(e),
                        Ok(cs) => match find_first(cs, tb) {
                            None => r == Err::<Png, PngError>(PngError::NotFound),
                            Some(i) => r matches Ok(p) && p@ == cs.remove(i) && p.wf(),
                        },
                    }
                }
            }),
    {
        let target = match ChunkType::from_str(self.chunk_type.as_str()) {
            Ok(t) => t,
            Err(e) => {
                return Err(e);
            },
        };
        let mut png = match Png::parse(file_bytes) {
            Ok(p) => p,
            Err(e) => {
                return Err(e);
            },
        };
        match png.remove_chunk(&target) {
            Ok(_) => Ok(png),
            Err(e) => Err(e),
        }
    }
}

} // verus!
