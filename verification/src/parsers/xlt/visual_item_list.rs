//! Visual item sheet: metadata, the vehicle definition rows, and one entry
//! per row with per-vehicle enablement flags.

use vstd::prelude::*;

use crate::parsers::xlt::Xlt;
use crate::parsers::ParseError;
use crate::strutil::{parse_usize, spec_parse_usize, spec_trim, trim};

verus! {

/// Sheet-level metadata.
#[derive(Debug, Clone, Copy, PartialEq, Eq, Structural)]
pub struct VisualItemListMeta {
    pub list_count: usize,
    pub car_type_count: usize,
    pub max_unique_id: usize,
}

/// What the metadata row denotes.
pub open spec fn spec_meta_of_row(row: Seq<Seq<char>>) -> Option<VisualItemListMeta> {
    if row.len() < 4 {
        None
    } else {
        if spec_parse_usize(row[1]) is None || spec_parse_usize(row[2]) is None
            || spec_parse_usize(row[3]) is None {
            None
        } else {
            Some(
                VisualItemListMeta {
                    list_count: spec_parse_usize(row[1]).unwrap(),
                    car_type_count: spec_parse_usize(row[2]).unwrap(),
                    max_unique_id: spec_parse_usize(row[3]).unwrap(),
                },
            )
        }
    }
}

impl VisualItemListMeta {
    /// Read the metadata row.
    pub fn from_xlt_row(row: &Vec<String>) -> (res: Result<VisualItemListMeta, ParseError>)
        ensures
            ({
                let rv = row@.map_values(|s: String| s@);
                match res {
                    Ok(m) => spec_meta_of_row(rv) == Some(m),
                    Err(_) => spec_meta_of_row(rv) is None,
                }
            }),
    {
        if row.len() < 4 {
            return Err(ParseError::BadString);
        }
        let list_count = match parse_usize(&row[1]) {
            Some(x) => x,
            None => {
                return Err(ParseError::BadString);
            },
        };
        let car_type_count = match parse_usize(&row[2]) {
            Some(x) => x,
            None => {
                return Err(ParseError::BadString);
            },
        };
        let max_unique_id = match parse_usize(&row[3]) {
            Some(x) => x,
            None => {
                return Err(ParseError::BadString);
            },
        };
        Ok(VisualItemListMeta { list_count, car_type_count, max_unique_id })
    }
}

/// The closed vocabulary of visual item categories, keyed by the numeric
/// code stored in the sheet.
#[derive(Debug, Clone, Copy, PartialEq, Eq, Structural)]
pub enum VisualItemCategory {
    Paint,
    Neon,
    WindowColor,
    AeroBumper,
    AeroHood,
    AeroKit,
    Spoiler,
    Tire,
    NumberPlate,
    MufflerFlame,
    Decal,
    Horn,
    Engine,
    Upgrade,
    ExpDrink,
    InventoryExpansion,
    MitoDrink,
    RepairGirl,
    PartsBox,
    StickerGlue,
    TurboMan,
    GarageExtension,
    DoubleUpgrade,
    HalfCharge,
    SetLubeAlpha,
    SetLubeBeta,
    MitoPrize,
    ItemDrink,
    PortableModKit,
    CarRental,
    RentItem,
    GlossyPaint,
    UseItem,
    AutoFillup,
    AutoQuickslot,
    NameChange,
    UpgradeTimed,
    AutoDrive,
    BuffDummy,
    PassiveAssist,
    Hongpao,
    CarTransformationEx,
    ChannelReplayPass,
    ChannelGhostPass,
    RoofItem,
    GlossyTire,
    Package,
    DiscountCoupon,
    AirDuct,
    GachaCoin,
    GCoinBox,
}

/// The category a numeric code denotes.
pub open spec fn spec_category_of(n: int) -> Option<VisualItemCategory> {
    if false {
        None
    } else if n == 1 {
        Some(VisualItemCategory::Paint)
    } else if n == 2 {
        Some(VisualItemCategory::Neon)
    } else if n == 3 {
        Some(VisualItemCategory::WindowColor)
    } else if n == 4 {
        Some(VisualItemCategory::AeroBumper)
    } else if n == 5 {
        Some(VisualItemCategory::AeroHood)
    } else if n == 6 {
        Some(VisualItemCategory::AeroKit)
    } else if n == 7 {
        Some(VisualItemCategory::Spoiler)
    } else if n == 8 {
        Some(VisualItemCategory::Tire)
    } else if n == 9 {
        Some(VisualItemCategory::NumberPlate)
    } else if n == 10 {
        Some(VisualItemCategory::MufflerFlame)
    } else if n == 11 {
        Some(VisualItemCategory::Decal)
    } else if n == 12 {
        Some(VisualItemCategory::Horn)
    } else if n == 13 {
        Some(VisualItemCategory::Engine)
    } else if n == 14 {
        Some(VisualItemCategory::Upgrade)
    } else if n == 15 {
        Some(VisualItemCategory::ExpDrink)
    } else if n == 16 {
        Some(VisualItemCategory::InventoryExpansion)
    } else if n == 17 {
        Some(VisualItemCategory::MitoDrink)
    } else if n == 18 {
        Some(VisualItemCategory::RepairGirl)
    } else if n == 19 {
        Some(VisualItemCategory::PartsBox)
    } else if n == 20 {
        Some(VisualItemCategory::StickerGlue)
    } else if n == 21 {
        Some(VisualItemCategory::TurboMan)
    } else if n == 22 {
        Some(VisualItemCategory::GarageExtension)
    } else if n == 23 {
        Some(VisualItemCategory::DoubleUpgrade)
    } else if n == 24 {
        Some(VisualItemCategory::HalfCharge)
    } else if n == 25 {
        Some(VisualItemCategory::SetLubeAlpha)
    } else if n == 26 {
        Some(VisualItemCategory::SetLubeBeta)
    } else if n == 27 {
        Some(VisualItemCategory::MitoPrize)
    } else if n == 28 {
        Some(VisualItemCategory::ItemDrink)
    } else if n == 29 {
        Some(VisualItemCategory::PortableModKit)
    } else if n == 30 {
        Some(VisualItemCategory::CarRental)
    } else if n == 31 {
        Some(VisualItemCategory::RentItem)
    } else if n == 32 {
        Some(VisualItemCategory::GlossyPaint)
    } else if n == 33 {
        Some(VisualItemCategory::UseItem)
    } else if n == 34 {
        Some(VisualItemCategory::AutoFillup)
    } else if n == 35 {
        Some(VisualItemCategory::AutoQuickslot)
    } else if n == 36 {
        Some(VisualItemCategory::NameChange)
    } else if n == 38 {
        Some(VisualItemCategory::UpgradeTimed)
    } else if n == 39 {
        Some(VisualItemCategory::AutoDrive)
    } else if n == 40 {
        Some(VisualItemCategory::BuffDummy)
    } else if n == 41 {
        Some(VisualItemCategory::PassiveAssist)
    } else if n == 42 {
        Some(VisualItemCategory::Hongpao)
    } else if n == 43 {
        Some(VisualItemCategory::CarTransformationEx)
    } else if n == 44 {
        Some(VisualItemCategory::ChannelReplayPass)
    } else if n == 45 {
        Some(VisualItemCategory::ChannelGhostPass)
    } else if n == 47 {
        Some(VisualItemCategory::RoofItem)
    } else if n == 48 {
        Some(VisualItemCategory::GlossyTire)
    } else if n == 49 {
        Some(VisualItemCategory::Package)
    } else if n == 51 {
        Some(VisualItemCategory::DiscountCoupon)
    } else if n == 52 {
        Some(VisualItemCategory::AirDuct)
    } else if n == 53 {
        Some(VisualItemCategory::GachaCoin)
    } else if n == 54 {
        Some(VisualItemCategory::GCoinBox)
    } else {
        None
    }
}

impl VisualItemCategory {
    /// The category of a numeric code.
    pub fn from_code(n: usize) -> (res: Option<VisualItemCategory>)
        ensures
            res == spec_category_of(n as int),
    {
        if false {
            None
        } else if n == 1 {
            Some(VisualItemCategory::Paint)
        } else if n == 2 {
            Some(VisualItemCategory::Neon)
        } else if n == 3 {
            Some(VisualItemCategory::WindowColor)
        } else if n == 4 {
            Some(VisualItemCategory::AeroBumper)
        } else if n == 5 {
            Some(VisualItemCategory::AeroHood)
        } else if n == 6 {
            Some(VisualItemCategory::AeroKit)
        } else if n == 7 {
            Some(VisualItemCategory::Spoiler)
        } else if n == 8 {
            Some(VisualItemCategory::Tire)
        } else if n == 9 {
            Some(VisualItemCategory::NumberPlate)
        } else if n == 10 {
            Some(VisualItemCategory::MufflerFlame)
        } else if n == 11 {
            Some(VisualItemCategory::Decal)
        } else if n == 12 {
            Some(VisualItemCategory::Horn)
        } else if n == 13 {
            Some(VisualItemCategory::Engine)
        } else if n == 14 {
            Some(VisualItemCategory::Upgrade)
        } else if n == 15 {
            Some(VisualItemCategory::ExpDrink)
        } else if n == 16 {
            Some(VisualItemCategory::InventoryExpansion)
        } else if n == 17 {
            Some(VisualItemCategory::MitoDrink)
        } else if n == 18 {
            Some(VisualItemCategory::RepairGirl)
        } else if n == 19 {
            Some(VisualItemCategory::PartsBox)
        } else if n == 20 {
            Some(VisualItemCategory::StickerGlue)
        } else if n == 21 {
            Some(VisualItemCategory::TurboMan)
        } else if n == 22 {
            Some(VisualItemCategory::GarageExtension)
        } else if n == 23 {
            Some(VisualItemCategory::DoubleUpgrade)
        } else if n == 24 {
            Some(VisualItemCategory::HalfCharge)
        } else if n == 25 {
            Some(VisualItemCategory::SetLubeAlpha)
        } else if n == 26 {
            Some(VisualItemCategory::SetLubeBeta)
        } else if n == 27 {
            Some(VisualItemCategory::MitoPrize)
        } else if n == 28 {
            Some(VisualItemCategory::ItemDrink)
        } else if n == 29 {
            Some(VisualItemCategory::PortableModKit)
        } else if n == 30 {
            Some(VisualItemCategory::CarRental)
        } else if n == 31 {
            Some(VisualItemCategory::RentItem)
        } else if n == 32 {
            Some(VisualItemCategory::GlossyPaint)
        } else if n == 33 {
            Some(VisualItemCategory::UseItem)
        } else if n == 34 {
            Some(VisualItemCategory::AutoFillup)
        } else if n == 35 {
            Some(VisualItemCategory::AutoQuickslot)
        } else if n == 36 {
            Some(VisualItemCategory::NameChange)
        } else if n == 38 {
            Some(VisualItemCategory::UpgradeTimed)
        } else if n == 39 {
            Some(VisualItemCategory::AutoDrive)
        } else if n == 40 {
            Some(VisualItemCategory::BuffDummy)
        } else if n == 41 {
            Some(VisualItemCategory::PassiveAssist)
        } else if n == 42 {
            Some(VisualItemCategory::Hongpao)
        } else if n == 43 {
            Some(VisualItemCategory::CarTransformationEx)
        } else if n == 44 {
            Some(VisualItemCategory::ChannelReplayPass)
        } else if n == 45 {
            Some(VisualItemCategory::ChannelGhostPass)
        } else if n == 47 {
            Some(VisualItemCategory::RoofItem)
        } else if n == 48 {
            Some(VisualItemCategory::GlossyTire)
        } else if n == 49 {
            Some(VisualItemCategory::Package)
        } else if n == 51 {
            Some(VisualItemCategory::DiscountCoupon)
        } else if n == 52 {
            Some(VisualItemCategory::AirDuct)
        } else if n == 53 {
            Some(VisualItemCategory::GachaCoin)
        } else if n == 54 {
            Some(VisualItemCategory::GCoinBox)
        } else {
            None
        }
    }
}

/// The vehicle id/name/file rows that item enablement columns refer to.
#[derive(Debug, Clone, PartialEq)]
pub struct VehicleDefinitions {
    pub ids: Vec<usize>,
    pub names: Vec<String>,
    pub file_names: Vec<String>,
}

/// The numeric cells of the region starting at `i`, keeping only the ones
/// that parse.
pub open spec fn spec_ids_of(cells: Seq<Seq<char>>, i: int) -> Seq<usize>
    decreases cells.len() - i,
{
    if i < 0 || i >= cells.len() || spec_trim(cells[i]).len() == 0 {
        Seq::empty()
    } else {
        match spec_parse_usize(cells[i]) {
            Some(x) => seq![x] + spec_ids_of(cells, i + 1),
            None => spec_ids_of(cells, i + 1),
        }
    }
}

/// The cells of the region starting at `i`, unchanged.
pub open spec fn spec_names_of(cells: Seq<Seq<char>>, i: int) -> Seq<Seq<char>>
    decreases cells.len() - i,
{
    if i < 0 || i >= cells.len() || spec_trim(cells[i]).len() == 0 {
        Seq::empty()
    } else {
        seq![cells[i]] + spec_names_of(cells, i + 1)
    }
}

impl VehicleDefinitions {
    /// Read the three definition rows: ids, display names and file names,
    /// each from column 8 up to the first blank cell.
    pub fn from_xlt_rows(ids_row: &Vec<String>, names_row: &Vec<String>, file_names_row: &Vec<
        String,
    >) -> (res: Result<VehicleDefinitions, ParseError>)
        ensures
            ({
                let iv = ids_row@.map_values(|s: String| s@);
                let nv = names_row@.map_values(|s: String| s@);
                let fv = file_names_row@.map_values(|s: String| s@);
                match res {
                    Ok(d) => {
                        &&& d.ids@ == spec_ids_of(iv, 7)
                        &&& d.names@.map_values(|s: String| s@) == spec_names_of(nv, 7)
                        &&& d.file_names@.map_values(|s: String| s@) == spec_names_of(fv, 7)
                    },
                    Err(_) => false,
                }
            }),
    {
        let ids = read_ids_region(ids_row);
        let names = read_names_region(names_row);
        let file_names = read_names_region(file_names_row);
        Ok(VehicleDefinitions { ids, names, file_names })
    }
}

/// Collect the numeric cells of a definition row.
fn read_ids_region(row: &Vec<String>) -> (res: Vec<usize>)
    ensures
        res@ == spec_ids_of(row@.map_values(|s: String| s@), 7),
{
    let ghost rv = row@.map_values(|s: String| s@);
    let mut out: Vec<usize> = Vec::new();
    let mut i: usize = 7;
    proof {
        assert(out@ + spec_ids_of(rv, 7) =~= spec_ids_of(rv, 7));
    }
    while i < row.len()
        invariant
            rv == row@.map_values(|s: String| s@),
            7 <= i,
            i <= rv.len() || i == 7,
            out@ + spec_ids_of(rv, i as int) == spec_ids_of(rv, 7),
        decreases rv.len() - i,
    {
        proof {
            assert(rv[i as int] == row@[i as int]@);
        }
        let t = trim(row[i].as_str());
        if t.unicode_len() == 0 {
            proof {
                assert(spec_ids_of(rv, i as int) =~= Seq::<usize>::empty());
                assert(out@ + Seq::<usize>::empty() =~= out@);
            }
            return out;
        }
        let ghost out0 = out@;
        match parse_usize(&row[i]) {
            Some(x) => {
                out.push(x);
                proof {
                    assert(spec_ids_of(rv, i as int) == seq![x] + spec_ids_of(rv, i as int + 1));
                    assert(out@ =~= out0 + seq![x]);
                    assert(out@ + spec_ids_of(rv, i as int + 1) =~= out0 + spec_ids_of(
                        rv,
                        i as int,
                    ));
                }
            },
            None => {
                proof {
                    assert(spec_ids_of(rv, i as int) == spec_ids_of(rv, i as int + 1));
                }
            },
        }
        i = i + 1;
    }
    proof {
        assert(spec_ids_of(rv, i as int) =~= Seq::<usize>::empty());
        assert(out@ + Seq::<usize>::empty() =~= out@);
    }
    out
}

/// Collect the cells of a definition row.
fn read_names_region(row: &Vec<String>) -> (res: Vec<String>)
    ensures
        res@.map_values(|s: String| s@) == spec_names_of(row@.map_values(|s: String| s@), 7),
{
    let ghost rv = row@.map_values(|s: String| s@);
    let mut out: Vec<String> = Vec::new();
    let mut i: usize = 7;
    proof {
        assert(out@.map_values(|s: String| s@) =~= Seq::<Seq<char>>::empty());
        assert(out@.map_values(|s: String| s@) + spec_names_of(rv, 7) =~= spec_names_of(rv, 7));
    }
    while i < row.len()
        invariant
            rv == row@.map_values(|s: String| s@),
            7 <= i,
            i <= rv.len() || i == 7,
            out@.map_values(|s: String| s@) + spec_names_of(rv, i as int) == spec_names_of(rv, 7),
        decreases rv.len() - i,
    {
        proof {
            assert(rv[i as int] == row@[i as int]@);
        }
        let t = trim(row[i].as_str());
        if t.unicode_len() == 0 {
            proof {
                assert(spec_names_of(rv, i as int) =~= Seq::<Seq<char>>::empty());
                assert(out@.map_values(|s: String| s@) + Seq::<Seq<char>>::empty()
                    =~= out@.map_values(|s: String| s@));
            }
            return out;
        }
        let ghost out0 = out@;
        let cell = row[i].clone();
        out.push(cell);
        proof {
            let m0 = out0.map_values(|s: String| s@);
            let m1 = out@.map_values(|s: String| s@);
            assert(m1 =~= m0 + seq![rv[i as int]]) by {
                assert forall|k: int| 0 <= k < m1.len() implies m1[k] == (m0 + seq![
                    rv[i as int],
                ])[k] by {
                    if k < m0.len() {
                        assert(out@[k] == out0[k]);
                    }
                }
            }
            assert(spec_names_of(rv, i as int) == seq![rv[i as int]] + spec_names_of(
                rv,
                i as int + 1,
            ));
            assert(m1 + spec_names_of(rv, i as int + 1) =~= m0 + spec_names_of(rv, i as int));
        }
        i = i + 1;
    }
    proof {
        assert(spec_names_of(rv, i as int) =~= Seq::<Seq<char>>::empty());
        assert(out@.map_values(|s: String| s@) + Seq::<Seq<char>>::empty() =~= out@.map_values(
            |s: String| s@,
        ));
    }
    out
}

/// The relative positions (within the enablement region) of the vehicles
/// an item is enabled for: cells that parse to a non-zero number.
pub open spec fn spec_indices_of(cells: Seq<Seq<char>>, i: int, base: int) -> Seq<usize>
    decreases cells.len() - i,
{
    if i < 0 || i >= cells.len() || spec_trim(cells[i]).len() == 0 || base < 0 || base
        > usize::MAX {
        Seq::empty()
    } else {
        let rest = spec_indices_of(cells, i + 1, base + 1);
        match spec_parse_usize(spec_trim(cells[i])) {
            Some(x) => if x != 0 {
                seq![base as usize] + rest
            } else {
                rest
            },
            None => rest,
        }
    }
}

/// One visual item entry.
#[derive(Debug, Clone, PartialEq)]
pub struct VisualItemListEntry {
    pub category: VisualItemCategory,
    pub category_item_id: usize,
    pub item_id: String,
    pub id: usize,
    pub name: String,
    pub parameters: String,
    pub enabled_vehicle_id_indices: Vec<usize>,
}

/// The mathematical image of an entry.
pub ghost struct VisualItemListEntryV {
    pub category: VisualItemCategory,
    pub category_item_id: usize,
    pub item_id: Seq<char>,
    pub id: usize,
    pub name: Seq<char>,
    pub parameters: Seq<char>,
    pub enabled_vehicle_id_indices: Seq<usize>,
}

impl View for VisualItemListEntry {
    type V = VisualItemListEntryV;

    open spec fn view(&self) -> VisualItemListEntryV {
        VisualItemListEntryV {
            category: self.category,
            category_item_id: self.category_item_id,
            item_id: self.item_id@,
            id: self.id,
            name: self.name@,
            parameters: self.parameters@,
            enabled_vehicle_id_indices: self.enabled_vehicle_id_indices@,
        }
    }
}

/// What an entry row denotes.
pub open spec fn spec_entry_of_row(row: Seq<Seq<char>>) -> Option<VisualItemListEntryV> {
    if row.len() < 7 {
        None
    } else if spec_parse_usize(spec_trim(row[1])) is None || spec_parse_usize(spec_trim(row[2]))
        is None || spec_parse_usize(spec_trim(row[4])) is None {
        None
    } else {
        match spec_category_of(spec_parse_usize(spec_trim(row[1])).unwrap() as int) {
            None => None,
            Some(category) => Some(
                VisualItemListEntryV {
                    category,
                    category_item_id: spec_parse_usize(spec_trim(row[2])).unwrap(),
                    item_id: row[3],
                    id: spec_parse_usize(spec_trim(row[4])).unwrap(),
                    name: row[5],
                    parameters: row[6],
                    enabled_vehicle_id_indices: spec_indices_of(row, 7, 0),
                },
            ),
        }
    }
}

impl VisualItemListEntry {
    /// Read one entry row.
    pub fn from_xlt_row(row: &Vec<String>) -> (res: Result<VisualItemListEntry, ParseError>)
        ensures
            ({
                let rv = row@.map_values(|s: String| s@);
                match res {
                    Ok(e) => spec_entry_of_row(rv) == Some(e@),
                    Err(_) => spec_entry_of_row(rv) is None,
                }
            }),
    {
        let ghost rv = row@.map_values(|s: String| s@);
        if row.len() < 7 {
            return Err(ParseError::BadString);
        }
        let cat_cell = trim(row[1].as_str());
        let cat_code = match parse_usize(&cat_cell) {
            Some(x) => x,
            None => {
                return Err(ParseError::BadString);
            },
        };
        let category = match VisualItemCategory::from_code(cat_code) {
            Some(c) => c,
            None => {
                return Err(ParseError::BadString);
            },
        };
        let cii_cell = trim(row[2].as_str());
        let category_item_id = match parse_usize(&cii_cell) {
            Some(x) => x,
            None => {
                return Err(ParseError::BadString);
            },
        };
        let id_cell = trim(row[4].as_str());
        let id = match parse_usize(&id_cell) {
            Some(x) => x,
            None => {
                return Err(ParseError::BadString);
            },
        };
        let item_id = row[3].clone();
        let name = row[5].clone();
        let parameters = row[6].clone();
        let enabled_vehicle_id_indices = read_indices_region(row);
        let e = VisualItemListEntry {
            category,
            category_item_id,
            item_id,
            id,
            name,
            parameters,
            enabled_vehicle_id_indices,
        };
        Ok(e)
    }
}

/// Collect the enabled-vehicle indices of an entry row.
fn read_indices_region(row: &Vec<String>) -> (res: Vec<usize>)
    requires
        row@.len() >= 7,
    ensures
        res@ == spec_indices_of(row@.map_values(|s: String| s@), 7, 0),
{
    let ghost rv = row@.map_values(|s: String| s@);
    let mut out: Vec<usize> = Vec::new();
    let mut i: usize = 7;
    proof {
        assert(out@ + spec_indices_of(rv, 7, 0) =~= spec_indices_of(rv, 7, 0));
    }
    while i < row.len()
        invariant
            rv == row@.map_values(|s: String| s@),
            7 <= i,
            i <= rv.len() || i == 7,
            rv.len() >= 7,
            i - 7 <= usize::MAX,
            out@ + spec_indices_of(rv, i as int, i - 7) == spec_indices_of(rv, 7, 0),
        decreases rv.len() - i,
    {
        proof {
            assert(rv[i as int] == row@[i as int]@);
        }
        let t = trim(row[i].as_str());
        if t.unicode_len() == 0 {
            proof {
                assert(spec_indices_of(rv, i as int, i - 7) =~= Seq::<usize>::empty());
                assert(out@ + Seq::<usize>::empty() =~= out@);
            }
            return out;
        }
        let ghost out0 = out@;
        let keep = match parse_usize(&t) {
            Some(x) => x != 0,
            None => false,
        };
        if keep {
            out.push(i - 7);
            proof {
                assert(spec_indices_of(rv, i as int, i - 7) == seq![(i - 7) as usize]
                    + spec_indices_of(rv, i as int + 1, i - 6));
                assert(out@ =~= out0 + seq![(i - 7) as usize]);
                assert(out@ + spec_indices_of(rv, i as int + 1, i - 6) =~= out0 + spec_indices_of(
                    rv,
                    i as int,
                    i - 7,
                ));
            }
        } else {
            proof {
                assert(spec_indices_of(rv, i as int, i - 7) == spec_indices_of(
                    rv,
                    i as int + 1,
                    i - 6,
                ));
            }
        }
        i = i + 1;
    }
    proof {
        assert(spec_indices_of(rv, i as int, i - 7) =~= Seq::<usize>::empty());
        assert(out@ + Seq::<usize>::empty() =~= out@);
    }
    out
}

/// The entry region starting at row `i`: consecutive rows whose second
/// cell is non-empty after trimming; every such row must parse.
pub open spec fn spec_entries_of(rows: Seq<Seq<Seq<char>>>, i: int) -> Option<
    Seq<VisualItemListEntryV>,
>
    decreases rows.len() - i,
{
    if i < 0 || i >= rows.len() || rows[i].len() < 2 || spec_trim(rows[i][1]).len() == 0 {
        Some(Seq::empty())
    } else {
        match spec_entry_of_row(rows[i]) {
            None => None,
            Some(e) => match spec_entries_of(rows, i + 1) {
                None => None,
                Some(rest) => Some(seq![e] + rest),
            },
        }
    }
}

/// A whole visual item sheet.
#[derive(Debug, Clone, PartialEq)]
pub struct VisualItemList {
    pub meta: VisualItemListMeta,
    pub vehicle_definitions: VehicleDefinitions,
    pub entries: Vec<VisualItemListEntry>,
}

impl VisualItemList {
    /// Read a sheet: the metadata on the second row, the vehicle
    /// definition rows, a header, then entries until the first row with an
    /// empty second cell.
    pub fn from_xlt(xlt: &Xlt) -> (res: Result<VisualItemList, ParseError>)
        ensures
            ({
                let rows = xlt.spec_rows();
                match res {
                    Ok(l) => {
                        &&& rows.len() >= 6
                        &&& spec_meta_of_row(rows[1]) == Some(l.meta)
                        &&& l.vehicle_definitions.ids@ == spec_ids_of(rows[2], 7)
                        &&& l.vehicle_definitions.names@.map_values(|s: String| s@)
                            == spec_names_of(rows[3], 7)
                        &&& l.vehicle_definitions.file_names@.map_values(|s: String| s@)
                            == spec_names_of(rows[4], 7)
                        &&& spec_entries_of(rows, 6) == Some(
                            l.entries@.map_values(|e: VisualItemListEntry| e@),
                        )
                    },
                    Err(_) => rows.len() < 6 || spec_meta_of_row(rows[1]) is None
                        || spec_entries_of(rows, 6) is None,
                }
            }),
    {
        let ghost rows = xlt.spec_rows();
        let n = xlt.rows.len();
        if n < 6 {
            return Err(ParseError::BadString);
        }
        let meta = match VisualItemListMeta::from_xlt_row(&xlt.rows[1]) {
            Ok(m) => m,
            Err(e) => {
                proof {
                    assert(rows[1] == xlt.rows@[1]@.map_values(|s: String| s@));
                }
                return Err(e);
            },
        };
        proof {
            assert(rows[1] == xlt.rows@[1]@.map_values(|s: String| s@));
            assert(rows[2] == xlt.rows@[2]@.map_values(|s: String| s@));
            assert(rows[3] == xlt.rows@[3]@.map_values(|s: String| s@));
            assert(rows[4] == xlt.rows@[4]@.map_values(|s: String| s@));
        }
        let vehicle_definitions = match VehicleDefinitions::from_xlt_rows(
            &xlt.rows[2],
            &xlt.rows[3],
            &xlt.rows[4],
        ) {
            Ok(d) => d,
            Err(e) => {
                return Err(e);
            },
        };
        let mut entries: Vec<VisualItemListEntry> = Vec::new();
        let mut i: usize = 6;
        proof {
            if spec_entries_of(rows, 6) is Some {
                let all = spec_entries_of(rows, 6).unwrap();
                assert(entries@.map_values(|e: VisualItemListEntry| e@) =~= Seq::<
                    VisualItemListEntryV,
                >::empty());
                assert(entries@.map_values(|e: VisualItemListEntry| e@) + all =~= all);
            }
        }
        while i < n
            invariant
                rows == xlt.spec_rows(),
                n == rows.len(),
                n == xlt.rows@.len(),
                n >= 6,
                spec_meta_of_row(rows[1]) == Some(meta),
                vehicle_definitions.ids@ == spec_ids_of(rows[2], 7),
                vehicle_definitions.names@.map_values(|s: String| s@) == spec_names_of(rows[3], 7),
                vehicle_definitions.file_names@.map_values(|s: String| s@) == spec_names_of(
                    rows[4],
                    7,
                ),
                6 <= i <= n,
                spec_entries_of(rows, 6) matches Some(all) ==> spec_entries_of(rows, i as int)
                    matches Some(rest) && all == entries@.map_values(
                    |e: VisualItemListEntry| e@,
                ) + rest,
                (spec_entries_of(rows, i as int) is None) <==> (spec_entries_of(rows, 6) is None),
            decreases n - i,
        {
            proof {
                assert(rows[i as int] == xlt.rows@[i as int]@.map_values(|s: String| s@));
            }
            let row = &xlt.rows[i];
            let stop = if row.len() < 2 {
                true
            } else {
                let second = trim(row[1].as_str());
                proof {
                    assert(rows[i as int][1] == row@[1]@);
                }
                second.unicode_len() == 0
            };
            if stop {
                proof {
                    assert(spec_entries_of(rows, i as int) == Some(Seq::<
                        VisualItemListEntryV,
                    >::empty()));
                    if spec_entries_of(rows, 6) is Some {
                        let all = spec_entries_of(rows, 6).unwrap();
                        assert(entries@.map_values(|e: VisualItemListEntry| e@) + Seq::<
                            VisualItemListEntryV,
                        >::empty() =~= entries@.map_values(|e: VisualItemListEntry| e@));
                    }
                }
                return Ok(VisualItemList { meta, vehicle_definitions, entries });
            }
            let ghost entries_before = entries@;
            let e = match VisualItemListEntry::from_xlt_row(row) {
                Ok(e) => e,
                Err(err) => {
                    proof {
                        assert(spec_entry_of_row(rows[i as int]) is None);
                        assert(spec_entries_of(rows, i as int) is None);
                    }
                    return Err(err);
                },
            };
            entries.push(e);
            i = i + 1;
            proof {
                let m1 = entries@.map_values(|e: VisualItemListEntry| e@);
                let m0 = entries_before.map_values(|e: VisualItemListEntry| e@);
                assert(m1 =~= m0 + seq![e@]) by {
                    assert forall|k: int| 0 <= k < m1.len() implies m1[k] == (m0 + seq![e@])[k] by {
                        if k < m0.len() {
                            assert(entries@[k] == entries_before[k]);
                        } else {
                            assert(entries@[k] == e);
                        }
                    }
                }
                if spec_entries_of(rows, 6) is Some {
                    let all = spec_entries_of(rows, 6).unwrap();
                    let rest0 = spec_entries_of(rows, i - 1).unwrap();
                    let rest1 = spec_entries_of(rows, i as int);
                    assert(rest1 is Some);
                    assert(rest0 == seq![e@] + rest1.unwrap());
                    assert(all =~= m1 + rest1.unwrap());
                } else {
                    assert(spec_entries_of(rows, i - 1) is None);
                    assert(spec_entry_of_row(rows[i - 1]) is Some);
                    assert(spec_entries_of(rows, i as int) is None);
                }
            }
        }
        proof {
            assert(spec_entries_of(rows, n as int) == Some(Seq::<VisualItemListEntryV>::empty()));
            if spec_entries_of(rows, 6) is Some {
                let all = spec_entries_of(rows, 6).unwrap();
                assert(entries@.map_values(|e: VisualItemListEntry| e@) + Seq::<
                    VisualItemListEntryV,
                >::empty() =~= entries@.map_values(|e: VisualItemListEntry| e@));
            } else {
                assert(false);
            }
        }
        Ok(VisualItemList { meta, vehicle_definitions, entries })
    }
}

} // verus!
