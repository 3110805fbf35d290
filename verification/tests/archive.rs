use std::io::Write;
use wad_mount::archive::{
    check_payload, ArchiveContainer, ChunkDescriptor, CompressionKind, DecodeError, ParseError,
    HEADER_LEN, RECORD_LEN,
};

struct Record {
    hash: u64,
    kind_code: u8,
    stored: Vec<u8>,
    decompressed_length: u32,
}

fn archive_with(records: &[Record]) -> Vec<u8> {
    let mut bytes = vec![0u8; HEADER_LEN];
    bytes[0] = b'R';
    bytes[1] = b'W';
    bytes[2] = 3;
    bytes[3] = 4;
    bytes[268..272].copy_from_slice(&(records.len() as u32).to_le_bytes());
    let mut offset = (HEADER_LEN + RECORD_LEN * records.len()) as u32;
    for record in records {
        bytes.extend_from_slice(&record.hash.to_le_bytes());
        bytes.extend_from_slice(&offset.to_le_bytes());
        bytes.extend_from_slice(&(record.stored.len() as u32).to_le_bytes());
        bytes.extend_from_slice(&record.decompressed_length.to_le_bytes());
        bytes.push(record.kind_code);
        bytes.push(0);
        bytes.extend_from_slice(&0u16.to_le_bytes());
        bytes.extend_from_slice(&0u64.to_le_bytes());
        offset += record.stored.len() as u32;
    }
    for record in records {
        bytes.extend_from_slice(&record.stored);
    }
    bytes
}

fn stored(hash: u64, payload: &[u8]) -> Record {
    Record { hash, kind_code: 0, stored: payload.to_vec(), decompressed_length: payload.len() as u32 }
}

fn gzip_of(payload: &[u8]) -> Vec<u8> {
    let mut encoder = flate2::write::GzEncoder::new(Vec::new(), flate2::Compression::default());
    encoder.write_all(payload).unwrap();
    encoder.finish().unwrap()
}

fn zstd_of(payload: &[u8]) -> Vec<u8> {
    ruzstd::encoding::compress_to_vec(payload, ruzstd::encoding::CompressionLevel::Fastest)
}

fn parsed(bytes: Vec<u8>) -> ArchiveContainer {
    match ArchiveContainer::parse(bytes) {
        Ok(archive) => archive,
        Err(e) => panic!("not an archive: {:?}", e),
    }
}

#[test]
fn parse_rejects_a_source_without_the_signature() {
    assert_eq!(ArchiveContainer::parse(Vec::new()).err(), Some(ParseError::BadMagic));
    assert_eq!(ArchiveContainer::parse(vec![b'R']).err(), Some(ParseError::BadMagic));
    assert_eq!(ArchiveContainer::parse(b"PK\x03\x04 some zip".to_vec()).err(), Some(ParseError::BadMagic));
    assert_eq!(ArchiveContainer::parse(vec![b'W', b'R', 3, 0]).err(), Some(ParseError::BadMagic));
}

#[test]
fn parse_rejects_other_versions() {
    let mut bytes = archive_with(&[]);
    bytes[2] = 2;
    bytes[3] = 7;
    assert_eq!(
        ArchiveContainer::parse(bytes).err(),
        Some(ParseError::UnsupportedVersion { major: 2, minor: 7 })
    );
    assert_eq!(
        ArchiveContainer::parse(vec![b'R', b'W', 4, 0]).err(),
        Some(ParseError::UnsupportedVersion { major: 4, minor: 0 })
    );
}

#[test]
fn parse_reports_a_source_that_ends_early() {
    assert_eq!(ArchiveContainer::parse(vec![b'R', b'W']).err(), Some(ParseError::Truncated));
    assert_eq!(ArchiveContainer::parse(vec![b'R', b'W', 3]).err(), Some(ParseError::Truncated));
    let full = archive_with(&[stored(1, b"abc"), stored(2, b"defg")]);
    assert_eq!(ArchiveContainer::parse(full[..HEADER_LEN - 1].to_vec()).err(), Some(ParseError::Truncated));
    assert_eq!(ArchiveContainer::parse(full[..HEADER_LEN].to_vec()).err(), Some(ParseError::Truncated));
    assert_eq!(
        ArchiveContainer::parse(full[..HEADER_LEN + 2 * RECORD_LEN - 1].to_vec()).err(),
        Some(ParseError::Truncated)
    );
    assert!(ArchiveContainer::parse(full[..HEADER_LEN + 2 * RECORD_LEN].to_vec()).is_ok());
}

#[test]
fn parse_of_an_empty_table() {
    let archive = parsed(archive_with(&[]));
    assert_eq!(archive.chunks().len(), 0);
}

#[test]
fn parse_reads_every_field_of_a_record() {
    let mut bytes = vec![0u8; HEADER_LEN];
    bytes[0] = b'R';
    bytes[1] = b'W';
    bytes[2] = 3;
    bytes[268] = 1;
    bytes.extend_from_slice(&0x0123_4567_89ab_cdefu64.to_le_bytes());
    bytes.extend_from_slice(&0x0a0b_0c0du32.to_le_bytes());
    bytes.extend_from_slice(&0x0102_0304u32.to_le_bytes());
    bytes.extend_from_slice(&0xffff_ffffu32.to_le_bytes());
    bytes.push(0x53);
    bytes.push(1);
    bytes.extend_from_slice(&0xbeefu16.to_le_bytes());
    bytes.extend_from_slice(&0xfedc_ba98_7654_3210u64.to_le_bytes());
    let archive = parsed(bytes);
    assert_eq!(
        archive.chunks()[0],
        ChunkDescriptor {
            hash: 0x0123_4567_89ab_cdef,
            offset: 0x0a0b_0c0d,
            length: 0x0102_0304,
            decompressed_length: 0xffff_ffff,
            kind: CompressionKind::Zstd,
            duplicate: true,
            subchunk_count: 5,
            subchunk_start: 0xbeef,
            checksum: 0xfedc_ba98_7654_3210,
        }
    );
}

#[test]
fn parse_maps_the_kind_codes() {
    let records: Vec<Record> = (0u8..6)
        .map(|code| Record { hash: code as u64, kind_code: code, stored: vec![], decompressed_length: 0 })
        .collect();
    let archive = parsed(archive_with(&records));
    let kinds: Vec<CompressionKind> = archive.chunks().iter().map(|c| c.kind).collect();
    assert_eq!(
        kinds,
        vec![
            CompressionKind::Stored,
            CompressionKind::Gzip,
            CompressionKind::Unknown(2),
            CompressionKind::Zstd,
            CompressionKind::Unknown(4),
            CompressionKind::Unknown(5),
        ]
    );
}

#[test]
fn parse_keeps_table_order() {
    let archive = parsed(archive_with(&[stored(30, b"c"), stored(10, b"a"), stored(20, b"b")]));
    let hashes: Vec<u64> = archive.chunks().iter().map(|c| c.hash).collect();
    assert_eq!(hashes, vec![30, 10, 20]);
    let (_, copy) = archive.decode();
    assert_eq!(&copy, archive.chunks());
}

#[test]
fn decode_of_a_stored_chunk() {
    let archive = parsed(archive_with(&[stored(1, b"hello"), stored(2, b""), stored(3, b"world!")]));
    let (mut decoder, chunks) = archive.decode();
    assert_eq!(decoder.decode_chunk(&chunks[0]), Ok(b"hello".to_vec()));
    assert_eq!(decoder.decode_chunk(&chunks[1]), Ok(Vec::new()));
    assert_eq!(decoder.decode_chunk(&chunks[2]), Ok(b"world!".to_vec()));
    assert_eq!(decoder.decoded_count(), 3);
    assert_eq!(decoder.failed_count(), 0);
}

#[test]
fn decode_of_a_gzip_chunk() {
    let payload = b"the quick brown fox jumps over the lazy dog, twice: the quick brown fox".to_vec();
    let packed = gzip_of(&payload);
    assert_ne!(packed, payload);
    let record = Record { hash: 9, kind_code: 1, stored: packed, decompressed_length: payload.len() as u32 };
    let archive = parsed(archive_with(&[record]));
    let (mut decoder, chunks) = archive.decode();
    assert_eq!(decoder.decode_chunk(&chunks[0]), Ok(payload));
}

#[test]
fn decode_of_a_zstd_chunk() {
    let payload: Vec<u8> = (0..2000u32).map(|i| (i % 7) as u8).collect();
    let packed = zstd_of(&payload);
    assert_ne!(packed, payload);
    let record = Record { hash: 9, kind_code: 3, stored: packed, decompressed_length: payload.len() as u32 };
    let archive = parsed(archive_with(&[record]));
    let (mut decoder, chunks) = archive.decode();
    assert_eq!(decoder.decode_chunk(&chunks[0]), Ok(payload));
}

#[test]
fn decode_reports_garbage_as_corrupt() {
    let gzip = Record { hash: 0xaa, kind_code: 1, stored: b"not gzip at all".to_vec(), decompressed_length: 15 };
    let zstd = Record { hash: 0xbb, kind_code: 3, stored: b"not zstd at all".to_vec(), decompressed_length: 15 };
    let other = Record { hash: 0xcc, kind_code: 2, stored: b"redirect".to_vec(), decompressed_length: 8 };
    let archive = parsed(archive_with(&[gzip, zstd, other]));
    let (mut decoder, chunks) = archive.decode();
    assert_eq!(decoder.decode_chunk(&chunks[0]), Err(DecodeError::CorruptChunk { hash: 0xaa }));
    assert_eq!(decoder.decode_chunk(&chunks[1]), Err(DecodeError::CorruptChunk { hash: 0xbb }));
    assert_eq!(decoder.decode_chunk(&chunks[2]), Err(DecodeError::CorruptChunk { hash: 0xcc }));
    assert_eq!(decoder.failed_count(), 3);
    assert_eq!(decoder.decoded_count(), 0);
}

#[test]
fn decode_reports_a_truncated_gzip_stream_as_corrupt() {
    let payload = vec![7u8; 500];
    let mut packed = gzip_of(&payload);
    packed.truncate(packed.len() - 6);
    let record = Record { hash: 5, kind_code: 1, stored: packed, decompressed_length: 500 };
    let archive = parsed(archive_with(&[record]));
    let (mut decoder, chunks) = archive.decode();
    assert_eq!(decoder.decode_chunk(&chunks[0]), Err(DecodeError::CorruptChunk { hash: 5 }));
}

#[test]
fn decode_reports_a_payload_outside_the_archive() {
    let mut bytes = archive_with(&[stored(77, b"0123456789")]);
    bytes.truncate(bytes.len() - 1);
    let archive = parsed(bytes);
    let (mut decoder, chunks) = archive.decode();
    assert_eq!(decoder.decode_chunk(&chunks[0]), Err(DecodeError::CorruptChunk { hash: 77 }));
    let far = ChunkDescriptor { offset: u32::MAX, length: u32::MAX, ..chunks[0] };
    assert_eq!(decoder.decode_chunk(&far), Err(DecodeError::CorruptChunk { hash: 77 }));
}

#[test]
fn decode_checks_the_announced_length() {
    let short = Record { hash: 1, kind_code: 0, stored: b"abc".to_vec(), decompressed_length: 4 };
    let long = Record { hash: 2, kind_code: 1, stored: gzip_of(&[1u8; 100]), decompressed_length: 10 };
    let long_zstd = Record { hash: 3, kind_code: 3, stored: zstd_of(&[1u8; 100]), decompressed_length: 99 };
    let archive = parsed(archive_with(&[short, long, long_zstd]));
    let (mut decoder, chunks) = archive.decode();
    assert_eq!(
        decoder.decode_chunk(&chunks[0]),
        Err(DecodeError::LengthMismatch { hash: 1, expected: 4, actual: 3 })
    );
    assert_eq!(
        decoder.decode_chunk(&chunks[1]),
        Err(DecodeError::LengthMismatch { hash: 2, expected: 10, actual: 11 })
    );
    assert_eq!(
        decoder.decode_chunk(&chunks[2]),
        Err(DecodeError::LengthMismatch { hash: 3, expected: 99, actual: 100 })
    );
}

#[test]
fn decoder_stays_usable_after_a_failure() {
    let bad = Record { hash: 1, kind_code: 1, stored: b"garbage".to_vec(), decompressed_length: 7 };
    let archive = parsed(archive_with(&[stored(0, b"first"), bad, stored(2, b"third")]));
    let (mut decoder, chunks) = archive.decode();
    assert_eq!(decoder.decode_chunk(&chunks[1]), Err(DecodeError::CorruptChunk { hash: 1 }));
    assert_eq!(decoder.decode_chunk(&chunks[0]), Ok(b"first".to_vec()));
    assert_eq!(decoder.decode_chunk(&chunks[2]), Ok(b"third".to_vec()));
    assert_eq!(decoder.decode_chunk(&chunks[1]), Err(DecodeError::CorruptChunk { hash: 1 }));
    assert_eq!(decoder.decoded_count(), 2);
    assert_eq!(decoder.failed_count(), 2);
}

#[test]
fn stored_payload_is_the_slice_the_table_names() {
    let archive = parsed(archive_with(&[stored(1, b"ab"), stored(2, b"cde")]));
    let (decoder, chunks) = archive.decode();
    assert_eq!(decoder.stored_payload(&chunks[1]), Some(&b"cde"[..]));
    let beyond = ChunkDescriptor { length: 4, ..chunks[1] };
    assert_eq!(decoder.stored_payload(&beyond), None);
}

#[test]
fn check_payload_compares_lengths() {
    let chunk = ChunkDescriptor {
        hash: 8,
        offset: 0,
        length: 0,
        decompressed_length: 2,
        kind: CompressionKind::Gzip,
        duplicate: false,
        subchunk_count: 0,
        subchunk_start: 0,
        checksum: 0,
    };
    assert_eq!(check_payload(&chunk, Some(vec![1, 2])), Ok(vec![1, 2]));
    assert_eq!(check_payload(&chunk, None), Err(DecodeError::CorruptChunk { hash: 8 }));
    assert_eq!(
        check_payload(&chunk, Some(vec![1])),
        Err(DecodeError::LengthMismatch { hash: 8, expected: 2, actual: 1 })
    );
}
