//! End-to-end archive tests: build, recipher, reread.

use slidetown::agt::builder::AgtBuilder;
use slidetown::agt::reader::AgtReader;
use slidetown::agt::{DecodeError, FormatError};
use slidetown::zlib::chunk_count;
use slidetown::agt::builder::AgtBuilderEntrySource;

fn utf16le_with_bom(text: &str) -> Vec<u8> {
    let mut out = vec![0xFF, 0xFE];
    for u in text.encode_utf16() {
        out.extend_from_slice(&u.to_le_bytes());
    }
    out
}

fn key() -> Vec<u8> {
    vec![0x01, 0x05, 0x06, 0x02, 0x04, 0x03, 0x07, 0x08, 0x31, 0x85, 0x76, 0x39]
}

#[test]
fn round_trip_five_entries() {
    let paths = [
        "NeoData\\NC_chapter.xlt",
        "NeoData\\NC_mission.xlt",
        "NeoData\\NC_object.xlt",
        "NeoData\\NC_objectDef.xlt",
        "NeoData\\NC_quest.xlt",
    ];
    let mut builder = AgtBuilder::new();
    let mut payloads = Vec::new();
    for (i, p) in paths.iter().enumerate() {
        let text = format!("table\t{}\r\nrow\t{}\r\n", p, i);
        let data = utf16le_with_bom(&text);
        payloads.push(data.clone());
        builder.add_entry_memory(p.to_string(), &data);
    }
    let k = key();
    let out = builder.write(&k).expect("archive should build");

    let mut reader = AgtReader::new(out, &k);
    let header = reader.read_header().expect("header should parse");
    assert_eq!(header.file_count, 5);
    assert_eq!(header.version, (1, 1));
    let entries = reader.read_entries(header.file_count).expect("entries should parse");
    assert_eq!(entries.len(), 5);
    for (i, p) in paths.iter().enumerate() {
        assert_eq!(entries[i].path, *p);
        let data = reader.read_entry_data(&entries[i]).expect("entry should decode");
        assert_eq!(data, payloads[i]);
        // The payload reads as UTF-16LE text after the BOM.
        assert_eq!(&data[..2], &[0xFF, 0xFE]);
        let units: Vec<u16> = data[2..]
            .chunks_exact(2)
            .map(|c| u16::from_le_bytes([c[0], c[1]]))
            .collect();
        let text = String::from_utf16(&units).expect("payload should be valid UTF-16");
        assert!(text.contains('\t'));
    }
}

#[test]
fn round_trip_empty_archive() {
    let builder = AgtBuilder::new();
    let k = key();
    let out = builder.write(&k).expect("empty archive should build");
    let mut reader = AgtReader::new(out, &k);
    let header = reader.read_header().expect("header should parse");
    assert_eq!(header.file_count, 0);
    let entries = reader.read_entries(0).expect("empty table should parse");
    assert!(entries.is_empty());
}

#[test]
fn round_trip_multi_chunk_entry() {
    // 16385 bytes: two chunks.
    let data: Vec<u8> = (0..16385u32).map(|i| (i % 251) as u8).collect();
    let mut builder = AgtBuilder::new();
    builder.add_entry_memory("big.bin".to_string(), &data);
    builder.add_entry_memory("empty.bin".to_string(), &[]);
    let k = key();
    let out = builder.write(&k).expect("archive should build");
    let mut reader = AgtReader::new(out, &k);
    let header = reader.read_header().unwrap();
    assert_eq!(header.file_count, 2);
    let entries = reader.read_entries(2).unwrap();
    assert_eq!(entries[0].path, "big.bin");
    assert_eq!(entries[0].chunk_count, 2);
    assert_eq!(entries[0].decompressed_length, 16385);
    assert_eq!(entries[1].path, "empty.bin");
    assert_eq!(entries[1].chunk_count, 0);
    assert_eq!(reader.read_entry_data(&entries[0]).unwrap(), data);
    assert_eq!(reader.read_entry_data(&entries[1]).unwrap(), Vec::<u8>::new());
}

#[test]
fn chunks_are_really_deflated() {
    // A repetitive payload compresses: the archive is smaller than the
    // payload it stores.
    let data = vec![0u8; 16384];
    let mut builder = AgtBuilder::new();
    builder.add_entry_memory("zeros.bin".to_string(), &data);
    let k = key();
    let out = builder.write(&k).unwrap();
    assert!(out.len() < data.len());
}

#[test]
fn non_ascii_path_round_trip() {
    let mut builder = AgtBuilder::new();
    builder.add_entry_memory("daten\\f\u{00e4}hre \u{acbd}.bin".to_string(), &[1, 2, 3]);
    let k = key();
    let out = builder.write(&k).unwrap();
    let mut reader = AgtReader::new(out, &k);
    reader.read_header().unwrap();
    let entries = reader.read_entries(1).unwrap();
    assert_eq!(entries[0].path, "daten\\f\u{00e4}hre \u{acbd}.bin");
    assert_eq!(reader.read_entry_data(&entries[0]).unwrap(), vec![1, 2, 3]);
}

#[test]
fn last_write_wins() {
    let mut builder = AgtBuilder::new();
    builder.add_entry_memory("a".to_string(), &[1, 2, 3]);
    builder.add_entry_memory("b".to_string(), &[9]);
    builder.add_entry_memory("a".to_string(), &[4, 5]);
    let k = key();
    let out = builder.write(&k).unwrap();
    let mut reader = AgtReader::new(out, &k);
    let header = reader.read_header().unwrap();
    assert_eq!(header.file_count, 2);
    let entries = reader.read_entries(2).unwrap();
    assert_eq!(entries[0].path, "a");
    assert_eq!(reader.read_entry_data(&entries[0]).unwrap(), vec![4, 5]);
    assert_eq!(entries[1].path, "b");
    assert_eq!(reader.read_entry_data(&entries[1]).unwrap(), vec![9]);
}

#[test]
fn chunk_count_formula() {
    assert_eq!(chunk_count(0), 0);
    assert_eq!(chunk_count(1), 1);
    assert_eq!(chunk_count(16384), 1);
    assert_eq!(chunk_count(16385), 2);
    assert_eq!(chunk_count(32768), 2);
    assert_eq!(chunk_count(32769), 3);
}

#[test]
fn header_bytes_are_plaintext_below_boundary() {
    // The first 32 bytes do not depend on the key; later bytes do.
    let mut b1 = AgtBuilder::new();
    b1.add_entry_memory("x".to_string(), &[7; 64]);
    let mut b2 = AgtBuilder::new();
    b2.add_entry_memory("x".to_string(), &[7; 64]);
    let k1 = vec![0x11, 0x22, 0x33];
    let k2 = vec![0x44, 0x55];
    let out1 = b1.write(&k1).unwrap();
    let out2 = b2.write(&k2).unwrap();
    assert_eq!(&out1[..32], &out2[..32]);
    assert_ne!(&out1[32..], &out2[32..]);
    // A reader with the wrong key sees the header (it is plaintext) but
    // decodes garbage entries.
    let mut wrong = AgtReader::new(out1.clone(), &k2);
    let header = wrong.read_header().expect("the header itself is plaintext");
    assert_eq!(header.file_count, 1);
    let decoded = wrong.read_entries(1);
    let mut right = AgtReader::new(out1, &k1);
    right.read_header().unwrap();
    let good = right.read_entries(1).unwrap();
    match decoded {
        Ok(e) => assert_ne!(e[0], good[0]),
        Err(_) => (),
    }
}

#[test]
fn bad_magic_is_rejected() {
    let k = key();
    let mut data = vec![0u8; 64];
    data[0] = b'X';
    let mut reader = AgtReader::new(data, &k);
    assert_eq!(reader.read_header(), Err(FormatError::BadMagic));
}

#[test]
fn truncated_header_is_rejected() {
    let k = key();
    let reader_data = vec![0u8; 10];
    let mut reader = AgtReader::new(reader_data, &k);
    assert_eq!(reader.read_header(), Err(FormatError::Truncated));
}

#[test]
fn corrupt_chunk_is_rejected() {
    let mut builder = AgtBuilder::new();
    builder.add_entry_memory("a".to_string(), &[1, 2, 3, 4]);
    let k = key();
    let mut out = builder.write(&k).unwrap();
    let mut reader_ok = AgtReader::new(out.clone(), &k);
    reader_ok.read_header().unwrap();
    let entries = reader_ok.read_entries(1).unwrap();
    // Corrupt the first byte of the compressed chunk.
    let chunk_start = entries[0].chunks_offset as usize + 2;
    out[chunk_start] ^= 0xFF;
    let mut reader = AgtReader::new(out, &k);
    reader.read_header().unwrap();
    let entries = reader.read_entries(1).unwrap();
    assert_eq!(reader.read_entry_data(&entries[0]), Err(DecodeError::BadChunk));
}

#[test]
fn truncated_data_is_rejected() {
    let mut builder = AgtBuilder::new();
    builder.add_entry_memory("a".to_string(), &[1, 2, 3, 4]);
    let k = key();
    let mut out = builder.write(&k).unwrap();
    out.truncate(out.len() - 1);
    let mut reader = AgtReader::new(out, &k);
    reader.read_header().unwrap();
    let entries = reader.read_entries(1).unwrap();
    assert_eq!(reader.read_entry_data(&entries[0]), Err(DecodeError::Truncated));
}

#[test]
fn entry_source_entry_counts_chunks() {
    let src = AgtBuilderEntrySource::Memory { data: vec![0u8; 20000] };
    let e = src.entry("some/path".to_string());
    assert_eq!(e.chunks_offset, 0);
    assert_eq!(e.chunk_count, 2);
    assert_eq!(e.decompressed_length, 20000);
    assert_eq!(e.path, "some/path");
}
