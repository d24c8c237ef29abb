//! Tab-separated sheet parsing tests.

use slidetown::parsers::xlt::spoiler_list::{SpoilerList, SpoilerListEntry, SpoilerListMeta};
use slidetown::parsers::xlt::tire_list::{TireList, TireListEntry, TireListMeta};
use slidetown::parsers::xlt::vehicle_list::{
    CarFlag, GradeKind, VehicleKind, VehicleListMeta, VehicleRequirement,
};
use slidetown::parsers::xlt::visual_item_list::{
    VehicleDefinitions, VisualItemCategory, VisualItemList, VisualItemListEntry,
    VisualItemListMeta,
};
use slidetown::parsers::xlt::vshop_item_list::{VShopItemList, VShopItemListEntry, VShopItemListMeta};
use slidetown::parsers::xlt::Xlt;
use slidetown::strutil::{parse_isize, parse_usize, trim};
use slidetown::parsers::nui::FileInfo;

fn row(cells: &[&str]) -> Vec<String> {
    cells.iter().map(|c| c.to_string()).collect()
}

#[test]
fn trim_behaviour() {
    assert_eq!(trim("  abc \r\n"), "abc");
    assert_eq!(trim("abc"), "abc");
    assert_eq!(trim("   \t "), "");
    assert_eq!(trim(""), "");
    assert_eq!(trim(" a b "), "a b");
}

#[test]
fn parse_usize_behaviour() {
    assert_eq!(parse_usize(&"0".to_string()), Some(0));
    assert_eq!(parse_usize(&"123".to_string()), Some(123));
    assert_eq!(parse_usize(&"+7".to_string()), Some(7));
    assert_eq!(parse_usize(&"".to_string()), None);
    assert_eq!(parse_usize(&"+".to_string()), None);
    assert_eq!(parse_usize(&"-3".to_string()), None);
    assert_eq!(parse_usize(&"12x".to_string()), None);
    assert_eq!(parse_usize(&" 12".to_string()), None);
    // Matches usize::from_str on every case above.
    assert_eq!(parse_usize(&"99999999999999999999999999".to_string()), None);
}

#[test]
fn parse_isize_behaviour() {
    assert_eq!(parse_isize(&"-5".to_string()), Some(-5));
    assert_eq!(parse_isize(&"5".to_string()), Some(5));
    assert_eq!(parse_isize(&"+5".to_string()), Some(5));
    assert_eq!(parse_isize(&"-".to_string()), None);
    assert_eq!(parse_isize(&"--1".to_string()), None);
    assert_eq!(parse_isize(&"".to_string()), None);
}

#[test]
fn spoilerlist_022() {
    let xlt = Xlt {
        rows: vec![
            row(&["#SPOILER_LIST", "count"]),
            row(&["", "2"]),
            row(&["idx", "id", "name", "listing", "group", "anim", "kind", "icon", "new"]),
            row(&["1", " 10 ", " Wing A ", "L", "G1", "anim1", "K", "I1", "N"]),
            row(&["2", "11", "Wing B", "L", "G1", "anim2", "K", "I2", "N"]),
            row(&["", "", "", "", "", "", "", "", ""]),
        ],
    };
    let list = SpoilerList::from_xlt(&xlt).expect("should parse");
    assert_eq!(list.meta, SpoilerListMeta { count: 2 });
    assert_eq!(list.entries.len(), 2);
    assert_eq!(list.entries[0].id, 10);
    assert_eq!(list.entries[0].name, "Wing A");
    assert_eq!(list.entries[1].id, 11);
    assert_eq!(list.entries[1].animation, "anim2");
}

#[test]
fn spoiler_entry_rejects_bad_id() {
    let bad = row(&["1", "ten", "n", "l", "g", "a", "k", "i", "n"]);
    assert!(SpoilerListEntry::from_xlt_row(&bad).is_err());
}

#[test]
fn tirelist_022() {
    let xlt = Xlt {
        rows: vec![
            row(&["#TIRE_LIST", "count"]),
            row(&["", "1"]),
            row(&["hdr"]),
            row(&[
                "1", "-2", " Soft ", "L", "TG", "proto", "desc", "file.bin", "180", "125", "UI7",
                "N",
            ]),
        ],
    };
    let list = TireList::from_xlt(&xlt).expect("should parse");
    assert_eq!(list.meta, TireListMeta { count: 1 });
    assert_eq!(list.entries.len(), 1);
    let e: &TireListEntry = &list.entries[0];
    assert_eq!(e.id, -2);
    assert_eq!(e.name, "Soft");
    assert_eq!(e.width, 180);
    assert_eq!(e.diameter, 125);
    assert_eq!(e.file_name, "file.bin");
}

#[test]
fn vshopitem_022() {
    let mut entry_cells = vec!["0".to_string()];
    for i in 0..60 {
        entry_cells.push(format!(" cell{} ", i));
    }
    let xlt = Xlt {
        rows: vec![
            row(&["#VSHOP", "count", "rate", "max"]),
            row(&["", "1", "5", "900"]),
            row(&["hdr"]),
            entry_cells.iter().map(|s| s.to_string()).collect(),
        ],
    };
    let list = VShopItemList::from_xlt(&xlt).expect("should parse");
    assert_eq!(
        list.meta,
        VShopItemListMeta { count: 1, bonus_mito_rate: 5, max_unique_id: 900 },
    );
    assert_eq!(list.entries.len(), 1);
    let e: &VShopItemListEntry = &list.entries[0];
    assert_eq!(e.enabled, "cell0");
    assert_eq!(e.item_id, "cell2");
    assert_eq!(e.refund, "cell59");
}

#[test]
fn vehicle_list_meta_and_vocabularies() {
    let meta_row = row(&["", "", "100", "", "8000", "", "9000"]);
    let meta = VehicleListMeta::from_xlt_row(&meta_row).expect("should parse");
    assert_eq!(
        meta,
        VehicleListMeta { player_car_base: 100, huv_base: 8000, traffic_base: 9000 },
    );
    assert_eq!(
        VehicleKind::from_name(&"PlayerCar".to_string()),
        Some(VehicleKind::PlayerCar),
    );
    assert_eq!(VehicleKind::from_name(&"HUV BOSS".to_string()), Some(VehicleKind::HuvBoss));
    assert_eq!(VehicleKind::from_name(&"boat".to_string()), None);
    assert_eq!(GradeKind::from_name(&"V".to_string()), Some(GradeKind::V));
    assert_eq!(GradeKind::from_name(&"R".to_string()), Some(GradeKind::R));
    assert_eq!(GradeKind::from_name(&"Q".to_string()), None);
    assert_eq!(
        VehicleRequirement::from_name(&"GOTCHA".to_string()),
        Some(VehicleRequirement::Gotcha),
    );
    assert_eq!(
        VehicleRequirement::from_name(&"EVENT".to_string()),
        Some(VehicleRequirement::Event),
    );
    assert_eq!(VehicleRequirement::from_name(&"N/A".to_string()), None);
    assert_eq!(CarFlag::from_name(&"G".to_string()), Some(CarFlag::G));
    assert_eq!(CarFlag::from_name(&"C".to_string()), Some(CarFlag::C));
    assert_eq!(CarFlag::from_name(&"Z".to_string()), None);
}

#[test]
fn visualitem_022() {
    let defs_ids = row(&["", "", "", "", "", "", "", "100", "101", "oops", "102", ""]);
    let defs_names = row(&["", "", "", "", "", "", "", "Car A", "Car B", "Car C", "Car D", ""]);
    let defs_files = row(&["", "", "", "", "", "", "", "a.bin", "b.bin", "c.bin", "d.bin", ""]);
    let entry = row(&["", "7", "3", "i_d_c_00001", "59", "Kicker front 1", "params", "1", "0", "2", ""]);
    let xlt = Xlt {
        rows: vec![
            row(&["#VISUAL", "lc", "ctc", "max"]),
            row(&["", "59", "4", "777"]),
            defs_ids,
            defs_names,
            defs_files,
            row(&["hdr", "hdr"]),
            entry,
            row(&["", ""]),
        ],
    };
    let list = VisualItemList::from_xlt(&xlt).expect("should parse");
    assert_eq!(
        list.meta,
        VisualItemListMeta { list_count: 59, car_type_count: 4, max_unique_id: 777 },
    );
    let d: &VehicleDefinitions = &list.vehicle_definitions;
    // The unparsable id cell is skipped; the names keep all cells.
    assert_eq!(d.ids, vec![100, 101, 102]);
    assert_eq!(d.names, vec!["Car A", "Car B", "Car C", "Car D"]);
    assert_eq!(d.file_names, vec!["a.bin", "b.bin", "c.bin", "d.bin"]);
    assert_eq!(list.entries.len(), 1);
    let e: &VisualItemListEntry = &list.entries[0];
    assert_eq!(e.category, VisualItemCategory::Spoiler);
    assert_eq!(e.category_item_id, 3);
    assert_eq!(e.item_id, "i_d_c_00001");
    assert_eq!(e.id, 59);
    assert_eq!(e.name, "Kicker front 1");
    // Non-zero cells at relative positions 0 and 2.
    assert_eq!(e.enabled_vehicle_id_indices, vec![0, 2]);
}

#[test]
fn visual_item_category_codes() {
    assert_eq!(VisualItemCategory::from_code(1), Some(VisualItemCategory::Paint));
    assert_eq!(VisualItemCategory::from_code(7), Some(VisualItemCategory::Spoiler));
    assert_eq!(VisualItemCategory::from_code(8), Some(VisualItemCategory::Tire));
    assert_eq!(VisualItemCategory::from_code(54), Some(VisualItemCategory::GCoinBox));
    assert_eq!(VisualItemCategory::from_code(37), None);
    assert_eq!(VisualItemCategory::from_code(0), None);
    assert_eq!(VisualItemCategory::from_code(55), None);
}

#[test]
fn file_info_from_attributes() {
    let attrs = vec![
        ("Time".to_string(), "2009-01-01".to_string()),
        ("Type".to_string(), "Dialog".to_string()),
        ("Nation".to_string(), "2".to_string()),
    ];
    let f = FileInfo::from_attributes(&attrs).expect("should build");
    assert_eq!(f.time, "2009-01-01");
    assert_eq!(f.kind, "Dialog");
    assert_eq!(f.nation, Some(2));
    let attrs2 = vec![("Type".to_string(), "Dialog".to_string())];
    assert!(FileInfo::from_attributes(&attrs2).is_err());
    let attrs3 = vec![
        ("Time".to_string(), "t".to_string()),
        ("Type".to_string(), "d".to_string()),
    ];
    let f3 = FileInfo::from_attributes(&attrs3).expect("should build");
    assert_eq!(f3.nation, None);
}

#[test]
fn xlt_read_write_round_trip() {
    let xlt = Xlt {
        rows: vec![
            row(&["#LIST", "count"]),
            row(&["", "2"]),
            row(&["a", "b", "c"]),
            row(&["one cell"]),
            row(&["h\u{e9}llo", "\u{d55c}\u{d55c}2"]),
        ],
    };
    let bytes = xlt.write();
    assert_eq!(&bytes[..2], &[0xFF, 0xFE]);
    let back = Xlt::read(&bytes).expect("should parse");
    assert_eq!(back, xlt);
}

#[test]
fn xlt_read_synthesized_utf16() {
    // BOM, then "x\ty\r\nz" in UTF-16LE: two rows, the last unterminated.
    let mut bytes = vec![0xFF, 0xFE];
    for u in "x\ty\r\nz".encode_utf16() {
        bytes.extend_from_slice(&u.to_le_bytes());
    }
    let xlt = Xlt::read(&bytes).expect("should parse");
    assert_eq!(xlt.rows, vec![vec!["x".to_string(), "y".to_string()], vec!["z".to_string()]]);
}

#[test]
fn xlt_read_rejects_trailing_carriage_return() {
    let mut bytes = vec![0xFF, 0xFE];
    for u in "a\r".encode_utf16() {
        bytes.extend_from_slice(&u.to_le_bytes());
    }
    assert!(Xlt::read(&bytes).is_err());
}

#[test]
fn xlt_read_empty_document() {
    let bytes = vec![0xFF, 0xFE];
    let xlt = Xlt::read(&bytes).expect("should parse");
    assert!(xlt.rows.is_empty());
}
