use std::io::{Cursor, Write as _};

use docx_reader::entry_stream::{
    entry_metadata, map_archive_error, metadata_from_entry_info, EntryCompression, EntryLookupFault, EntryMetadata,
    StreamingArchive,
};
use docx_reader::events::DocxError;
use docx_reader::inflate::DeflateReader;
use docx_reader::io::{IoError, IoErrorKind};
use docx_reader::package::ZipOpenFault;

fn compressed(content: &[u8]) -> Vec<u8> {
    let mut encoder = flate2::write::DeflateEncoder::new(Vec::new(), flate2::Compression::fast());
    encoder.write_all(content).unwrap();
    encoder.finish().unwrap()
}

/// Reads a DEFLATE stream to its end, appending to `out`.
fn inflate_to_end(reader: &mut DeflateReader, out: &mut Vec<u8>) -> Result<usize, IoError> {
    let mut total = 0;
    let mut chunk = [0u8; 64];
    loop {
        let n = reader.read(&mut chunk)?;
        if n == 0 {
            return Ok(total);
        }
        out.extend_from_slice(&chunk[..n]);
        total += n;
    }
}

/// Reads an entry to its end, appending to `out`.
fn entry_to_end(reader: &mut StreamingArchive, out: &mut Vec<u8>) -> Result<usize, IoError> {
    let mut total = 0;
    let mut chunk = [0u8; 3];
    loop {
        let n = reader.read(&mut chunk)?;
        if n == 0 {
            return Ok(total);
        }
        out.extend_from_slice(&chunk[..n]);
        total += n;
    }
}

#[test]
fn valid_stream_reaches_stable_eof() {
    let encoded = compressed(b"content");
    let mut reader = DeflateReader::new(encoded);
    let mut decoded = Vec::new();
    inflate_to_end(&mut reader, &mut decoded).unwrap();
    assert_eq!(decoded, b"content");
    assert_eq!(reader.read(&mut [0; 1]).unwrap(), 0);
}

#[test]
fn corrupt_stream_returns_invalid_data() {
    let mut reader = DeflateReader::new(vec![0xff; 8]);
    let error = reader
        .read(&mut [0; 8])
        .expect_err("corrupt stream must fail");
    assert_eq!(error.kind(), IoErrorKind::InvalidData);
    assert_eq!(error.to_string(), "corrupt deflate stream");
}

#[test]
fn truncated_stream_with_pending_output_fails_after_returning_that_output() {
    let mut encoded = compressed(b"abcdefghijklmnopqrstuvwxyz");
    encoded.pop().expect("deflate terminator byte");
    let mut reader = DeflateReader::new(encoded);
    let mut decoded = Vec::new();
    let error = inflate_to_end(&mut reader, &mut decoded).expect_err("truncated stream must fail");
    assert_eq!(decoded, b"abcdefghijklmnopqrstuvwxyz");
    assert_eq!(error.kind(), IoErrorKind::UnexpectedEof);
    assert_eq!(error.to_string(), "truncated deflate stream");
}

#[test]
fn empty_buffer_reads_nothing() {
    let mut reader = DeflateReader::new(compressed(b"x"));
    assert_eq!(reader.read(&mut []).unwrap(), 0);
    let mut decoded = Vec::new();
    inflate_to_end(&mut reader, &mut decoded).unwrap();
    assert_eq!(decoded, b"x");
}

fn stored_metadata(compressed_size: u64, uncompressed_size: u64, crc32: u32) -> EntryMetadata {
    EntryMetadata {
        data_start: 0,
        compressed_size,
        uncompressed_size,
        crc32,
        compression: EntryCompression::Stored,
    }
}

#[test]
fn strict_entry_rejects_boundary_and_length_mismatches() {
    let boundary = StreamingArchive::from_source(vec![0], stored_metadata(2, 2, 0), true)
        .err()
        .expect("boundary must fail");
    assert_eq!(
        boundary,
        DocxError::Parse { message: "ZIP entry exceeds archive boundary".to_string(), position: None }
    );

    let mut length = StreamingArchive::from_source(
        b"a".to_vec(),
        stored_metadata(1, 2, crc32fast::hash(b"a")),
        true,
    )
    .unwrap();
    let error = entry_to_end(&mut length, &mut Vec::new()).expect_err("length mismatch must fail");
    assert_eq!(error.kind(), IoErrorKind::InvalidData);
    assert_eq!(error.to_string(), "ZIP entry length mismatch: expected 2, read 1");
}

#[test]
fn strict_entry_rejects_trailing_compressed_bytes() {
    let mut compressed = compressed(b"payload");
    compressed.push(0);
    let compressed_size = u64::try_from(compressed.len()).unwrap();
    let metadata = EntryMetadata {
        data_start: 0,
        compressed_size,
        uncompressed_size: 7,
        crc32: crc32fast::hash(b"payload"),
        compression: EntryCompression::Deflated,
    };
    let mut reader = StreamingArchive::from_source(compressed, metadata, true).unwrap();
    let error = entry_to_end(&mut reader, &mut Vec::new()).expect_err("trailing compressed byte must fail");
    assert_eq!(error.kind(), IoErrorKind::InvalidData);
    assert_eq!(
        error.to_string(),
        format!(
            "ZIP compressed length mismatch: expected {}, read {}",
            compressed_size,
            compressed_size - 1
        )
    );
}

#[test]
fn empty_and_post_verification_reads_return_zero() {
    let mut reader = StreamingArchive::from_source(
        b"a".to_vec(),
        stored_metadata(1, 1, crc32fast::hash(b"a")),
        true,
    )
    .unwrap();
    assert_eq!(reader.read(&mut []).unwrap(), 0);
    let mut bytes = Vec::new();
    entry_to_end(&mut reader, &mut bytes).unwrap();
    assert_eq!(bytes, b"a");
    assert_eq!(reader.read(&mut [0; 1]).unwrap(), 0);
}

#[test]
fn archive_error_mapping_preserves_io_and_parse_kinds() {
    let io_error = map_archive_error(ZipOpenFault::Io("archive stopped".to_string()));
    assert_eq!(io_error, DocxError::Io { message: "archive stopped".to_string() });
    assert_eq!(
        map_archive_error(ZipOpenFault::NotZip("invalid Zip archive: bad archive".to_string())),
        DocxError::Parse {
            message: "not a valid ZIP archive: invalid Zip archive: bad archive".to_string(),
            position: None,
        }
    );
}

fn synth_zip(entries: &[(&str, zip::CompressionMethod, &[u8])]) -> Vec<u8> {
    let mut writer = zip::ZipWriter::new(Cursor::new(Vec::new()));
    for (name, method, content) in entries {
        let options = zip::write::SimpleFileOptions::default().compression_method(*method);
        writer.start_file(*name, options).unwrap();
        writer.write_all(content).unwrap();
    }
    writer.finish().unwrap().into_inner()
}

#[test]
fn entry_metadata_maps_missing_entry_and_source_error() {
    let bytes = synth_zip(&[("present", zip::CompressionMethod::Stored, b"data")]);
    let mut missing = zip::ZipArchive::new(Cursor::new(bytes)).unwrap();
    assert_eq!(
        entry_metadata(&mut missing, "absent").err().expect("missing entry"),
        DocxError::Parse {
            message: "document target not found: specified file not found in archive".to_string(),
            position: None,
        }
    );
}

#[test]
fn stored_and_deflated_entries_stream_and_verify() {
    let text = b"streamed document part, long enough to be worth compressing compressing";
    let bytes = synth_zip(&[
        ("stored.xml", zip::CompressionMethod::Stored, text),
        ("deflated.xml", zip::CompressionMethod::Deflated, text),
    ]);
    for name in ["stored.xml", "deflated.xml"] {
        let mut archive = zip::ZipArchive::new(Cursor::new(bytes.clone())).unwrap();
        let mut strict = StreamingArchive::open_from_archive(bytes.clone(), &mut archive, name).unwrap();
        let mut out = Vec::new();
        entry_to_end(&mut strict, &mut out).unwrap();
        assert_eq!(out, text);

        let mut lenient = StreamingArchive::open(bytes.clone(), name).unwrap();
        let mut out = Vec::new();
        entry_to_end(&mut lenient, &mut out).unwrap();
        assert_eq!(out, text);
    }
}

#[test]
fn strict_entry_rejects_crc_mismatch() {
    let mut reader = StreamingArchive::from_source(b"abc".to_vec(), stored_metadata(3, 3, 0x1234abcd), true).unwrap();
    let error = entry_to_end(&mut reader, &mut Vec::new()).expect_err("crc mismatch must fail");
    assert_eq!(error.kind(), IoErrorKind::InvalidData);
    assert_eq!(
        error.to_string(),
        format!("ZIP entry CRC mismatch: expected 1234abcd, calculated {:08x}", crc32fast::hash(b"abc"))
    );
}

#[test]
fn strict_entry_rejects_more_bytes_than_declared() {
    let mut reader = StreamingArchive::from_source(b"abcdef".to_vec(), stored_metadata(6, 2, 0), true).unwrap();
    let mut buf = [0u8; 6];
    let error = reader.read(&mut buf).expect_err("over-long entry must fail");
    assert_eq!(error.kind(), IoErrorKind::InvalidData);
    assert_eq!(error.to_string(), "ZIP entry exceeds declared length 2");
}

#[test]
fn unsupported_method_is_refused() {
    let metadata = EntryMetadata {
        data_start: 0,
        compressed_size: 1,
        uncompressed_size: 1,
        crc32: 0,
        compression: EntryCompression::Unsupported("Bzip2".to_string()),
    };
    let error = StreamingArchive::from_source(vec![0], metadata, false).err().unwrap();
    assert_eq!(
        error,
        DocxError::Parse { message: "unsupported ZIP compression method: Bzip2".to_string(), position: None }
    );
}

#[test]
fn metadata_from_entry_info_maps_each_outcome() {
    let ok = metadata_from_entry_info(Ok((Some(30), 10, 20, 7, EntryCompression::Deflated)), "word/document.xml").unwrap();
    assert_eq!(
        ok,
        EntryMetadata { data_start: 30, compressed_size: 10, uncompressed_size: 20, crc32: 7, compression: EntryCompression::Deflated }
    );
    assert_eq!(
        metadata_from_entry_info(Ok((None, 10, 20, 7, EntryCompression::Stored)), "word/document.xml").err().unwrap(),
        DocxError::Parse { message: "document target has no data offset: word/document.xml".to_string(), position: None }
    );
    assert_eq!(
        metadata_from_entry_info(Err(EntryLookupFault::Io("disk".to_string())), "x").err().unwrap(),
        DocxError::Io { message: "disk".to_string() }
    );
    assert_eq!(
        metadata_from_entry_info(Err(EntryLookupFault::Other("gone".to_string())), "x").err().unwrap(),
        DocxError::Parse { message: "document target not found: gone".to_string(), position: None }
    );
}
