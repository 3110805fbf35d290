//! The packed archive container: its header, its chunk table and the decoding of chunk payloads.
//!
//! An archive starts with a header of [`HEADER_LEN`] bytes: the two signature bytes `R` `W`,
//! a major and a minor version byte, a 256-byte signature block and an 8-byte checksum that
//! are both carried through unread, and the number of chunks as a little-endian `u32`.
//! The chunk table follows: one record of [`RECORD_LEN`] bytes per chunk.

use std::sync::Arc;
use vstd::prelude::*;
use vstd::slice::slice_subrange;

verus! {

/// Length of the archive header in bytes.
pub const HEADER_LEN: usize = 272;

/// Length of one record of the chunk table in bytes.
pub const RECORD_LEN: usize = 32;

/// The only major version of the container format that is understood.
pub const SUPPORTED_MAJOR: u8 = 3;

/// How the payload of a chunk is stored in the archive.
#[derive(Clone, Copy, Debug, PartialEq, Eq, Structural)]
pub enum CompressionKind {
    /// The payload is stored as it is.
    Stored,
    /// The payload is a gzip stream.
    Gzip,
    /// The payload is a Zstandard frame.
    Zstd,
    /// A kind this library cannot decode; the code is kept as it was read.
    Unknown(u8),
}

/// One entry of the chunk table.
#[derive(Clone, Copy, Debug, PartialEq, Eq, Structural)]
pub struct ChunkDescriptor {
    /// Hash of the path of the entry.
    pub hash: u64,
    /// Offset of the stored payload from the start of the archive.
    pub offset: u32,
    /// Length of the stored payload.
    pub length: u32,
    /// Length of the payload once decoded.
    pub decompressed_length: u32,
    /// How the payload is stored.
    pub kind: CompressionKind,
    /// Whether the entry repeats the payload of another entry.
    pub duplicate: bool,
    /// Number of sub-chunks the entry is grouped into.
    pub subchunk_count: u8,
    /// Index of the first sub-chunk of the entry.
    pub subchunk_start: u16,
    /// Checksum of the stored payload, as recorded in the table.
    pub checksum: u64,
}

/// Why a byte source is not an archive.
#[derive(Clone, Copy, Debug, PartialEq, Eq, Structural)]
pub enum ParseError {
    /// The source does not start with the signature bytes.
    BadMagic,
    /// The source announces a version of the format that is not understood.
    UnsupportedVersion { major: u8, minor: u8 },
    /// The source ends before the header or the announced chunk table does.
    Truncated,
}

/// Why the payload of a chunk could not be produced.
#[derive(Clone, Copy, Debug, PartialEq, Eq, Structural)]
pub enum DecodeError {
    /// The stored payload lies outside the archive, cannot be decoded, or is of an unknown kind.
    CorruptChunk { hash: u64 },
    /// The payload decoded to another length than the chunk table announces.
    LengthMismatch { hash: u64, expected: u32, actual: u64 },
}

/// The little-endian number in the two bytes of `b` from `at` on.
pub open spec fn le_u16(b: Seq<u8>, at: int) -> int {
    b[at] as int + 256 * (b[at + 1] as int)
}

/// The little-endian number in the four bytes of `b` from `at` on.
pub open spec fn le_u32(b: Seq<u8>, at: int) -> int {
    le_u16(b, at) + 65536 * le_u16(b, at + 2)
}

/// The little-endian number in the eight bytes of `b` from `at` on.
pub open spec fn le_u64(b: Seq<u8>, at: int) -> int {
    le_u32(b, at) + 4294967296 * le_u32(b, at + 4)
}

/// The compression kind that a code of the chunk table stands for.
pub open spec fn kind_of_code(code: u8) -> CompressionKind {
    if code == 0 {
        CompressionKind::Stored
    } else if code == 1 {
        CompressionKind::Gzip
    } else if code == 3 {
        CompressionKind::Zstd
    } else {
        CompressionKind::Unknown(code)
    }
}

/// The chunk descriptor in the record of `b` that starts at `at`.
pub open spec fn record_at(b: Seq<u8>, at: int) -> ChunkDescriptor {
    ChunkDescriptor {
        hash: le_u64(b, at) as u64,
        offset: le_u32(b, at + 8) as u32,
        length: le_u32(b, at + 12) as u32,
        decompressed_length: le_u32(b, at + 16) as u32,
        kind: kind_of_code((b[at + 20] % 16) as u8),
        duplicate: b[at + 21] != 0,
        subchunk_count: (b[at + 20] / 16) as u8,
        subchunk_start: le_u16(b, at + 22) as u16,
        checksum: le_u64(b, at + 24) as u64,
    }
}

/// The first `count` records of the chunk table of `b`, in table order.
pub open spec fn table_of(b: Seq<u8>, count: int) -> Seq<ChunkDescriptor> {
    Seq::new(count as nat, |i: int| record_at(b, HEADER_LEN as int + RECORD_LEN as int * i))
}

/// Whether `b` starts with the signature of an archive.
pub open spec fn has_magic(b: Seq<u8>) -> bool {
    b.len() >= 2 && b[0] == 0x52 && b[1] == 0x57
}

/// The number of chunks that the header of `b` announces.
pub open spec fn announced_count(b: Seq<u8>) -> int {
    le_u32(b, 268)
}

/// What parsing the bytes `b` gives: the chunk table, or the reason why there is none.
pub open spec fn parse_outcome(b: Seq<u8>) -> Result<Seq<ChunkDescriptor>, ParseError> {
    if !has_magic(b) {
        Err(ParseError::BadMagic)
    } else if b.len() < 4 {
        Err(ParseError::Truncated)
    } else if b[2] != SUPPORTED_MAJOR {
        Err(ParseError::UnsupportedVersion { major: b[2], minor: b[3] })
    } else if b.len() < HEADER_LEN || b.len() < HEADER_LEN + RECORD_LEN * announced_count(b) {
        Err(ParseError::Truncated)
    } else {
        Ok(table_of(b, announced_count(b)))
    }
}

fn read_u16(b: &Vec<u8>, at: usize) -> (v: u16)
    requires
        at + 2 <= b.len(),
    ensures
        v == le_u16(b@, at as int),
{
    let lo: u16 = b[at] as u16;
    let hi: u16 = b[at + 1] as u16;
    lo + 256 * hi
}

fn read_u32(b: &Vec<u8>, at: usize) -> (v: u32)
    requires
        at + 4 <= b.len(),
    ensures
        v == le_u32(b@, at as int),
{
    let lo: u32 = read_u16(b, at) as u32;
    let hi: u32 = read_u16(b, at + 2) as u32;
    lo + 65536 * hi
}

fn read_u64(b: &Vec<u8>, at: usize) -> (v: u64)
    requires
        at + 8 <= b.len(),
    ensures
        v == le_u64(b@, at as int),
{
    let lo: u64 = read_u32(b, at) as u64;
    let hi: u64 = read_u32(b, at + 4) as u64;
    lo + 4294967296 * hi
}

fn kind_from_code(code: u8) -> (k: CompressionKind)
    ensures
        k == kind_of_code(code),
{
    if code == 0 {
        CompressionKind::Stored
    } else if code == 1 {
        CompressionKind::Gzip
    } else if code == 3 {
        CompressionKind::Zstd
    } else {
        CompressionKind::Unknown(code)
    }
}

fn read_record(b: &Vec<u8>, at: usize) -> (c: ChunkDescriptor)
    requires
        at + RECORD_LEN <= b.len(),
    ensures
        c == record_at(b@, at as int),
{
    let packed: u8 = b[at + 20];
    ChunkDescriptor {
        hash: read_u64(b, at),
        offset: read_u32(b, at + 8),
        length: read_u32(b, at + 12),
        decompressed_length: read_u32(b, at + 16),
        kind: kind_from_code(packed % 16),
        duplicate: b[at + 21] != 0,
        subchunk_count: packed / 16,
        subchunk_start: read_u16(b, at + 22),
        checksum: read_u64(b, at + 24),
    }
}

/// A parsed archive: its chunk table and the bytes that the chunks point into.
pub struct ArchiveContainer {
    chunks: Vec<ChunkDescriptor>,
    source: Arc<Vec<u8>>,
}

impl ArchiveContainer {
    /// The chunk table, in table order.
    pub closed spec fn chunk_table(&self) -> Seq<ChunkDescriptor> {
        self.chunks@
    }

    /// The bytes of the archive.
    pub closed spec fn bytes(&self) -> Seq<u8> {
        self.source@
    }

    /// Every archive was parsed from its bytes.
    pub open spec fn wf(&self) -> bool {
        parse_outcome(self.bytes()) == Ok::<Seq<ChunkDescriptor>, ParseError>(self.chunk_table())
    }

    /// Parses `source` as an archive and keeps it as the byte source of the chunks.
    pub fn parse(source: Vec<u8>) -> (r: Result<ArchiveContainer, ParseError>)
        ensures
            match r {
                Ok(a) => a.wf() && a.bytes() == source@,
                Err(e) => parse_outcome(source@) == Err::<Seq<ChunkDescriptor>, ParseError>(e),
            },
    {
        let len = source.len();
        if len < 2 || source[0] != 0x52 || source[1] != 0x57 {
            return Err(ParseError::BadMagic);
        }
        if len < 4 {
            return Err(ParseError::Truncated);
        }
        if source[2] != SUPPORTED_MAJOR {
            return Err(ParseError::UnsupportedVersion { major: source[2], minor: source[3] });
        }
        if len < HEADER_LEN {
            return Err(ParseError::Truncated);
        }
        let count: u32 = read_u32(&source, 268);
        let needed: u64 = HEADER_LEN as u64 + RECORD_LEN as u64 * (count as u64);
        if (len as u64) < needed {
            return Err(ParseError::Truncated);
        }
        let mut chunks: Vec<ChunkDescriptor> = Vec::new();
        let mut i: usize = 0;
        while i < count as usize
            invariant
                i <= count,
                source@.len() == len,
                HEADER_LEN + RECORD_LEN * (count as int) <= source@.len(),
                chunks@ == table_of(source@, i as int),
            decreases count - i,
        {
            let at: usize = HEADER_LEN + RECORD_LEN * i;
            let record = read_record(&source, at);
            chunks.push(record);
            i = i + 1;
        }
        Ok(ArchiveContainer { chunks, source: Arc::new(source) })
    }

    /// The chunk table, in table order.
    pub fn chunks(&self) -> (r: &Vec<ChunkDescriptor>)
        ensures
            r@ == self.chunk_table(),
    {
        &self.chunks
    }

    /// A decoder bound to the bytes of this archive, and a copy of the chunk table.
    pub fn decode(&self) -> (r: (Decoder, Vec<ChunkDescriptor>))
        ensures
            r.0.bytes() == self.bytes(),
            r.0.decoded() == 0,
            r.0.failed() == 0,
            r.1@ == self.chunk_table(),
    {
        (Decoder { source: self.source.clone(), decoded: 0, failed: 0 }, self.chunks.clone())
    }
}

/// What a gzip stream decodes to when at most `limit` bytes of output are taken,
/// or `None` where the stream cannot be decoded.
pub uninterp spec fn gzip_payload(raw: Seq<u8>, limit: u64) -> Option<Seq<u8>>;

/// What a Zstandard frame decodes to when at most `limit` bytes of output are taken,
/// or `None` where the frame cannot be decoded.
pub uninterp spec fn zstd_payload(raw: Seq<u8>, limit: u64) -> Option<Seq<u8>>;

/// Decodes a gzip stream with `flate2::read::GzDecoder`, reading its output to the end
/// but for no more than `limit` bytes. Nothing is proved of the decoder: the contract
/// only gives its result a name, the result being a function of the two arguments.
#[verifier::external_body]
fn inflate_gzip(raw: &[u8], limit: u64) -> (out: Option<Vec<u8>>)
    ensures
        match out {
            Some(v) => gzip_payload(raw@, limit) == Some(v@),
            None => gzip_payload(raw@, limit) is None,
        },
{
    let mut out: Vec<u8> = Vec::new();
    let mut reader = std::io::Read::take(flate2::read::GzDecoder::new(raw), limit);
    match std::io::Read::read_to_end(&mut reader, &mut out) {
        Ok(_) => Some(out),
        Err(_) => None,
    }
}

/// Decodes a Zstandard frame with `ruzstd::decoding::StreamingDecoder`, reading its
/// output to the end but for no more than `limit` bytes. Nothing is proved of the
/// decoder: the contract only gives its result a name, the result being a function of
/// the two arguments.
#[verifier::external_body]
fn inflate_zstd(raw: &[u8], limit: u64) -> (out: Option<Vec<u8>>)
    ensures
        match out {
            Some(v) => zstd_payload(raw@, limit) == Some(v@),
            None => zstd_payload(raw@, limit) is None,
        },
{
    let mut out: Vec<u8> = Vec::new();
    match ruzstd::decoding::StreamingDecoder::new(raw) {
        Ok(frame) => match std::io::Read::read_to_end(&mut std::io::Read::take(frame, limit), &mut out) {
            Ok(_) => Some(out),
            Err(_) => None,
        },
        Err(_) => None,
    }
}

/// Whether the stored payload of `chunk` lies inside an archive of `len` bytes.
pub open spec fn in_bounds(len: nat, chunk: ChunkDescriptor) -> bool {
    chunk.offset + chunk.length <= len
}

/// The stored payload of `chunk` in the archive bytes `b`.
pub open spec fn stored_bytes(b: Seq<u8>, chunk: ChunkDescriptor) -> Seq<u8> {
    b.subrange(chunk.offset as int, chunk.offset + chunk.length)
}

/// How many bytes of output are taken from a codec for `chunk`: one more than announced,
/// so that an overlong payload shows.
pub open spec fn output_limit(chunk: ChunkDescriptor) -> u64 {
    (chunk.decompressed_length + 1) as u64
}

/// What the codec of `chunk` makes of its stored payload `raw`, before the length is checked.
pub open spec fn inflated(chunk: ChunkDescriptor, raw: Seq<u8>) -> Option<Seq<u8>> {
    match chunk.kind {
        CompressionKind::Stored => Some(raw),
        CompressionKind::Gzip => gzip_payload(raw, output_limit(chunk)),
        CompressionKind::Zstd => zstd_payload(raw, output_limit(chunk)),
        CompressionKind::Unknown(_) => None,
    }
}

/// The payload of `chunk` given what its codec produced: the output where it has the
/// announced length, an error otherwise.
pub open spec fn checked_payload(chunk: ChunkDescriptor, output: Option<Seq<u8>>) -> Result<
    Seq<u8>,
    DecodeError,
> {
    match output {
        None => Err(DecodeError::CorruptChunk { hash: chunk.hash }),
        Some(p) => if p.len() == chunk.decompressed_length {
            Ok(p)
        } else {
            Err(
                DecodeError::LengthMismatch {
                    hash: chunk.hash,
                    expected: chunk.decompressed_length,
                    actual: p.len() as u64,
                },
            )
        },
    }
}

/// The decoded payload of `chunk` in the archive bytes `b`, or the reason why there is none.
pub open spec fn payload_outcome(b: Seq<u8>, chunk: ChunkDescriptor) -> Result<Seq<u8>, DecodeError> {
    if !in_bounds(b.len(), chunk) {
        Err(DecodeError::CorruptChunk { hash: chunk.hash })
    } else {
        checked_payload(chunk, inflated(chunk, stored_bytes(b, chunk)))
    }
}

/// Whether the exec result `r` is the outcome `o`.
pub open spec fn is_payload(r: Result<Vec<u8>, DecodeError>, o: Result<Seq<u8>, DecodeError>) -> bool {
    match r {
        Ok(v) => o == Ok::<Seq<u8>, DecodeError>(v@),
        Err(e) => o == Err::<Seq<u8>, DecodeError>(e),
    }
}

/// Checks what a codec produced for `chunk` against the length that the table announces.
pub fn check_payload(chunk: &ChunkDescriptor, output: Option<Vec<u8>>) -> (r: Result<
    Vec<u8>,
    DecodeError,
>)
    ensures
        is_payload(
            r,
            checked_payload(
                *chunk,
                match output {
                    Some(v) => Some(v@),
                    None => None,
                },
            ),
        ),
{
    match output {
        None => Err(DecodeError::CorruptChunk { hash: chunk.hash }),
        Some(p) => {
            if p.len() as u64 == chunk.decompressed_length as u64 {
                Ok(p)
            } else {
                let actual: u64 = p.len() as u64;
                Err(
                    DecodeError::LengthMismatch {
                        hash: chunk.hash,
                        expected: chunk.decompressed_length,
                        actual,
                    },
                )
            }
        },
    }
}

/// Produces chunk payloads from the bytes of one archive. It counts what it has done;
/// a chunk that fails leaves it usable for the next.
pub struct Decoder {
    source: Arc<Vec<u8>>,
    decoded: usize,
    failed: usize,
}

impl Decoder {
    /// The bytes of the archive that the decoder is bound to.
    pub closed spec fn bytes(&self) -> Seq<u8> {
        self.source@
    }

    /// How many payloads the decoder has produced.
    pub closed spec fn decoded(&self) -> nat {
        self.decoded as nat
    }

    /// How many chunks the decoder has failed on.
    pub closed spec fn failed(&self) -> nat {
        self.failed as nat
    }

    /// How many payloads the decoder has produced.
    pub fn decoded_count(&self) -> (n: usize)
        ensures
            n == self.decoded(),
    {
        self.decoded
    }

    /// How many chunks the decoder has failed on.
    pub fn failed_count(&self) -> (n: usize)
        ensures
            n == self.failed(),
    {
        self.failed
    }

    /// The stored payload of `chunk`, where it lies inside the archive.
    pub fn stored_payload(&self, chunk: &ChunkDescriptor) -> (r: Option<&[u8]>)
        ensures
            match r {
                Some(raw) => in_bounds(self.bytes().len(), *chunk) && raw@ == stored_bytes(
                    self.bytes(),
                    *chunk,
                ),
                None => !in_bounds(self.bytes().len(), *chunk),
            },
    {
        let end: u64 = chunk.offset as u64 + chunk.length as u64;
        if end > self.source.len() as u64 {
            None
        } else {
            Some(slice_subrange(self.source.as_slice(), chunk.offset as usize, end as usize))
        }
    }

    /// Decodes the payload of `chunk`. The counters saturate.
    pub fn decode_chunk(&mut self, chunk: &ChunkDescriptor) -> (r: Result<Vec<u8>, DecodeError>)
        ensures
            is_payload(r, payload_outcome(old(self).bytes(), *chunk)),
            final(self).bytes() == old(self).bytes(),
            r is Ok ==> final(self).failed() == old(self).failed() && final(self).decoded() == (
            if old(self).decoded() < usize::MAX {
                old(self).decoded() + 1
            } else {
                old(self).decoded()
            }),
            r is Err ==> final(self).decoded() == old(self).decoded() && final(self).failed() == (
            if old(self).failed() < usize::MAX {
                old(self).failed() + 1
            } else {
                old(self).failed()
            }),
    {
        let limit: u64 = chunk.decompressed_length as u64 + 1;
        let output: Option<Vec<u8>> = match self.stored_payload(chunk) {
            None => None,
            Some(raw) => match chunk.kind {
                CompressionKind::Stored => Some(vstd::slice::slice_to_vec(raw)),
                CompressionKind::Gzip => inflate_gzip(raw, limit),
                CompressionKind::Zstd => inflate_zstd(raw, limit),
                CompressionKind::Unknown(_) => None,
            },
        };
        let r = check_payload(chunk, output);
        if r.is_ok() {
            if self.decoded < usize::MAX {
                self.decoded = self.decoded + 1;
            }
        } else {
            if self.failed < usize::MAX {
                self.failed = self.failed + 1;
            }
        }
        r
    }
}

} // verus!
