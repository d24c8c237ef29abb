//! Sibling container codec tests on synthesized bytes.

use slidetown::bytes::{ByteReader, ByteWriter};
use slidetown::parsers::levelmodifier::{Header as LmHeader, LevelModifierVersion};
use slidetown::parsers::ntx::{Ntx, NtxEntry, NtxVersion};
use slidetown::parsers::tdf::Tdf;
use slidetown::parsers::{chpath, hit, lbf, lf, lif, llf, lof, loi, strings, ParseError};

#[test]
fn hit_header_round_trip() {
    let h = hit::Header { version_date: 20060720 };
    let mut w = ByteWriter::new();
    h.write(&mut w);
    let bytes = w.into_bytes();
    assert_eq!(&bytes[..4], b"hit\0");
    let mut r = ByteReader::new(bytes);
    assert_eq!(hit::Header::parse(&mut r), Ok(h));
}

#[test]
fn hit_header_rejects_other_version() {
    let h = hit::Header { version_date: 19990101 };
    let mut w = ByteWriter::new();
    h.write(&mut w);
    let mut r = ByteReader::new(w.into_bytes());
    assert_eq!(hit::Header::parse(&mut r), Err(ParseError::BadVersion));
}

#[test]
fn lf_header_and_blocks_round_trip() {
    let h = lf::Header { version_date: 20061220 };
    let mut w = ByteWriter::new();
    h.write(&mut w);
    let b = lf::Block {
        index: 7,
        position_x: 3,
        position_y: 4,
        file_offset: 0,
        file_length: 100,
        unknown: 1,
    };
    let mut offsets: Vec<usize> = Vec::new();
    b.write_recording(&mut w, &mut offsets);
    let bytes = w.into_bytes();
    assert_eq!(offsets, vec![16 + 12]);
    let mut r = ByteReader::new(bytes);
    assert_eq!(lf::Header::parse(&mut r), Ok(h));
    assert_eq!(lf::Block::parse(&mut r), Ok(b));
}

#[test]
fn lif_round_trip() {
    let l = lif::Lif {
        header: lif::Header { unknown1: 5, version_date: 20061213 },
        blocks: vec![lif::Block { index: 0, unk: 9 }, lif::Block { index: 1, unk: 8 }],
    };
    let mut w = ByteWriter::new();
    l.write(&mut w);
    let mut r = ByteReader::new(w.into_bytes());
    let back = lif::Lif::read(&mut r).expect("should parse");
    assert_eq!(back, l);
}

#[test]
fn llf_read_synthesized() {
    let mut w = ByteWriter::new();
    let h = llf::Header { version_date: 20061204, unk: 3 };
    h.write(&mut w);
    w.write_u32(1); // block count
    w.write_u32(12); // block_index
    w.write_u32(200); // file_offset
    w.write_u32(48); // file_length
    let mut r = ByteReader::new(w.into_bytes());
    let l = llf::Llf::read(&mut r).expect("should parse");
    assert_eq!(l.header, h);
    assert_eq!(l.blocks.len(), 1);
    assert_eq!(l.blocks[0].block_index, 12);
    assert_eq!(l.blocks[0].file_offset, 200);
    assert_eq!(l.blocks[0].file_length, 48);
}

#[test]
fn lof_header_round_trip() {
    let h = lof::Header { version_date: 20061222 };
    let mut w = ByteWriter::new();
    h.write(&mut w);
    let mut r = ByteReader::new(w.into_bytes());
    assert_eq!(lof::Header::parse(&mut r), Ok(h));
}

#[test]
fn loi_tables_round_trip() {
    let mut w = ByteWriter::new();
    loi::Header { version_date: 20090403 }.write(&mut w);
    loi::UnknownObject2 { items: vec![1, 2, 3] }.write(&mut w);
    loi::UnknownObject3 { unknown1: 77, items: vec![5] }.write(&mut w);
    // A lamp block: count, tag, ids.
    w.write_u32(2);
    w.write_u32(6);
    w.write_u32(100);
    w.write_u32(101);
    // A traffic light block: count, ids.
    w.write_u32(1);
    w.write_u32(55);
    let mut r = ByteReader::new(w.into_bytes());
    let h = loi::Header::parse(&mut r).unwrap();
    assert_eq!(h.version_date, 20090403);
    let o2 = loi::UnknownObject2::parse(&mut r).unwrap();
    assert_eq!(o2.items, vec![1, 2, 3]);
    let o3 = loi::UnknownObject3::parse(&mut r).unwrap();
    assert_eq!(o3.unknown1, 77);
    assert_eq!(o3.items, vec![5]);
    let lamp = loi::LampBlock::parse(&mut r).unwrap();
    assert_eq!(lamp.unknown_3_per_lamp_id, 6);
    assert_eq!(lamp.lamp_ids, vec![100, 101]);
    let tl = loi::TrafficLightBlock::parse(&mut r).unwrap();
    assert_eq!(tl.traffic_light_ids, vec![55]);
}

#[test]
fn lbf_header_and_block() {
    let mut w = ByteWriter::new();
    w.write_bytes(b"LBF\0kjc\0");
    for x in [1u32, 20061010, 0, 1, 1] {
        w.write_u32(x);
    }
    w.write_u32(1); // object count
    for x in [2u32, 3, 400, 50] {
        w.write_u32(x);
    }
    let mut r = ByteReader::new(w.into_bytes());
    let h = lbf::Header::parse(&mut r).unwrap();
    assert_eq!(h.version_date, 20061010);
    assert_eq!(h.block_count, 1);
    let b = lbf::Block::parse(&mut r).unwrap();
    assert_eq!(b.objects.len(), 1);
    assert_eq!(b.objects[0].index, 3);
    assert_eq!(b.objects[0].file_offset, 400);
    assert_eq!(b.objects[0].file_length, 50);
}

#[test]
fn chpath_header_round_trip() {
    let h = chpath::Header {
        version_date: 20040810,
        nhn: "NHN-AG".to_string(),
        jc: "jc".to_string(),
    };
    let mut w = ByteWriter::new();
    h.write(&mut w);
    let mut r = ByteReader::new(w.into_bytes());
    let back = chpath::Header::parse(&mut r).expect("should parse");
    assert_eq!(back, h);
}

#[test]
fn chpath_header_rejects_wrong_tag() {
    let h = chpath::Header {
        version_date: 20040810,
        nhn: "SOMEONE".to_string(),
        jc: "jc".to_string(),
    };
    let mut w = ByteWriter::new();
    h.write(&mut w);
    let mut r = ByteReader::new(w.into_bytes());
    assert_eq!(chpath::Header::parse(&mut r), Err(ParseError::BadString));
}

#[test]
fn levelmodifier_versions() {
    let s1 = LevelModifierVersion::Stage1;
    let s2 = LevelModifierVersion::Stage2;
    let s3 = LevelModifierVersion::Stage3;
    assert_eq!(s1.stat_range(), 801);
    assert_eq!(s2.stat_range(), 1001);
    assert_eq!(s3.stat_range(), 1601);
    assert_eq!(s1.dura_range(), 801);
    assert_eq!(s2.dura_range(), 1001);
    assert_eq!(s3.dura_range(), 2501);
    assert_eq!(s1.boost_range(), 801);
    assert_eq!(s2.boost_range(), 1001);
    assert_eq!(s3.boost_range(), 1201);
    assert!(!s1.has_stage2_fields());
    assert!(s2.has_stage2_fields());
    assert!(!s3.has_stage2_fields());
}

#[test]
fn levelmodifier_header_round_trip() {
    for v in [
        LevelModifierVersion::Stage1,
        LevelModifierVersion::Stage2,
        LevelModifierVersion::Stage3,
    ] {
        let h = LmHeader { version: v };
        let mut w = ByteWriter::new();
        h.write(&mut w);
        let mut r = ByteReader::new(w.into_bytes());
        assert_eq!(LmHeader::parse(&mut r), Ok(h));
    }
}

#[test]
fn ntx_round_trip_old_layout() {
    // Old layout: 16-byte path, 4-byte size, then DDS data.
    let mut dds = b"DDS ".to_vec();
    dds.extend_from_slice(&[1, 2, 3, 4, 5, 6]);
    let ntx = Ntx {
        version: NtxVersion::Old,
        entries: vec![NtxEntry { path: "a.dds".to_string(), data: dds.clone() }],
    };
    let mut w = ByteWriter::new();
    ntx.write(&mut w).expect("should serialize");
    let bytes = w.into_bytes();
    assert_eq!(bytes.len(), 16 + 4 + dds.len());
    let mut r = ByteReader::new(bytes);
    let back = Ntx::parse(&mut r).expect("should parse");
    assert_eq!(back.version, NtxVersion::Old);
    assert_eq!(back.entries.len(), 1);
    assert_eq!(back.entries[0].path, "a.dds");
    assert_eq!(back.entries[0].data, dds);
}

#[test]
fn ntx_round_trip_new_layout() {
    let mut dds = b"DDS ".to_vec();
    dds.extend_from_slice(&[9; 10]);
    let ntx = Ntx {
        version: NtxVersion::New,
        entries: vec![
            NtxEntry { path: "first.dds".to_string(), data: dds.clone() },
            NtxEntry { path: "second.dds".to_string(), data: dds.clone() },
        ],
    };
    let mut w = ByteWriter::new();
    ntx.write(&mut w).expect("should serialize");
    let mut r = ByteReader::new(w.into_bytes());
    let back = Ntx::parse(&mut r).expect("should parse");
    assert_eq!(back.version, NtxVersion::New);
    assert_eq!(back.entries.len(), 2);
    assert_eq!(back.entries[0].path, "first.dds");
    assert_eq!(back.entries[1].path, "second.dds");
    assert_eq!(back.entries[1].data, dds);
}

#[test]
fn ntx_version_widths() {
    assert_eq!(NtxVersion::New.path_length(), 64);
    assert_eq!(NtxVersion::Old.path_length(), 16);
    assert_eq!(NtxVersion::New.size_length(), 8);
    assert_eq!(NtxVersion::Old.size_length(), 4);
}

#[test]
fn int_prefixed_string_round_trip() {
    let mut w = ByteWriter::new();
    strings::write_int_prefixed_string(&mut w, &"hello there".to_string()).unwrap();
    let mut r = ByteReader::new(w.into_bytes());
    assert_eq!(strings::read_int_prefixed_string(&mut r), Ok("hello there".to_string()));
}

#[test]
fn tdf_read_synthesized() {
    // Bitmap blob of 8 bytes (including its own 4 length bytes), then the
    // fixed fields, then a 1x2 cell table pointing into the string table.
    let mut bytes = Vec::new();
    bytes.extend_from_slice(&3u16.to_le_bytes()); // length.0
    bytes.extend_from_slice(&8u16.to_le_bytes()); // length.1: bitmap byte count
    bytes.extend_from_slice(&[0xAB; 4]); // bitmap payload
    bytes.extend_from_slice(&1u16.to_le_bytes()); // version.0
    bytes.extend_from_slice(&2u16.to_le_bytes()); // version.1
    bytes.extend_from_slice(&2009u16.to_le_bytes());
    bytes.push(12); // month
    bytes.push(31); // day
    bytes.extend_from_slice(&7u32.to_le_bytes()); // flag
    bytes.extend_from_slice(&0u32.to_le_bytes()); // length (unused)
    bytes.extend_from_slice(&2u32.to_le_bytes()); // column count
    bytes.extend_from_slice(&1u32.to_le_bytes()); // row count
    // Cell pointers, relative to the bitmap end.
    let strings_offset = 24 + 4 * 2u32;
    bytes.extend_from_slice(&strings_offset.to_le_bytes());
    let second = strings_offset + 2 * ("hi".len() as u32 + 1);
    bytes.extend_from_slice(&second.to_le_bytes());
    for u in "hi\0yo\0".encode_utf16() {
        bytes.extend_from_slice(&u.to_le_bytes());
    }
    let t = Tdf::read(&bytes).expect("should parse");
    assert_eq!(t.bmp.length, (3, 8));
    assert_eq!(t.bmp.data.len(), 8);
    assert_eq!(t.version, (1, 2));
    assert_eq!(t.year, 2009);
    assert_eq!(t.month, 12);
    assert_eq!(t.day, 31);
    assert_eq!(t.flag, 7);
    assert_eq!(t.rows, vec![vec!["hi".to_string(), "yo".to_string()]]);
}
