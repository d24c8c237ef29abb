//! Vehicle shop item sheet: a count row, a header row, then one entry per row.

use vstd::prelude::*;

use crate::parsers::xlt::Xlt;
use crate::parsers::ParseError;
use crate::strutil::{parse_usize, spec_parse_usize, spec_trim, trim};

verus! {

/// Sheet-level metadata.
#[derive(Debug, Clone, Copy, PartialEq, Eq, Structural)]
pub struct VShopItemListMeta {
    pub count: usize,
    pub bonus_mito_rate: usize,
    pub max_unique_id: usize,
}

/// What the metadata row denotes: its numeric cells parsed.
pub open spec fn spec_meta_of_row(row: Seq<Seq<char>>) -> Option<VShopItemListMeta> {
    if row.len() < 4 {
        None
    } else {
        if spec_parse_usize(row[1]) is None || spec_parse_usize(row[2]) is None || spec_parse_usize(row[3]) is None {
            None
        } else {
            Some(
                VShopItemListMeta {
                    count: spec_parse_usize(row[1]).unwrap(),
                    bonus_mito_rate: spec_parse_usize(row[2]).unwrap(),
                    max_unique_id: spec_parse_usize(row[3]).unwrap(),
                },
            )
        }
    }
}

impl VShopItemListMeta {
    /// Read the metadata row.
    pub fn from_xlt_row(row: &Vec<String>) -> (res: Result<VShopItemListMeta, ParseError>)
        ensures
            ({
                let rv = row@.map_values(|s: String| s@);
                match res {
                    Ok(m) => spec_meta_of_row(rv) == Some(m),
                    Err(_) => spec_meta_of_row(rv) is None,
                }
            }),
    {
        if row.len() < 4 {
            return Err(ParseError::BadString);
        }
        let count = match parse_usize(&row[1]) {
            Some(x) => x,
            None => {
                return Err(ParseError::BadString);
            },
        };
        let bonus_mito_rate = match parse_usize(&row[2]) {
            Some(x) => x,
            None => {
                return Err(ParseError::BadString);
            },
        };
        let max_unique_id = match parse_usize(&row[3]) {
            Some(x) => x,
            None => {
                return Err(ParseError::BadString);
            },
        };
        Ok(VShopItemListMeta { count, bonus_mito_rate, max_unique_id })
    }
}

/// One entry.
#[derive(Debug, Clone, PartialEq)]
pub struct VShopItemListEntry {
    pub enabled: String,
    pub id: String,
    pub item_id: String,
    pub name: String,
    pub description: String,
    pub top: String,
    pub top_category: String,
    pub main: String,
    pub main_category: String,
    pub sub: String,
    pub sub_category: String,
    pub sub_category_name: String,
    pub refer_visualitem: String,
    pub sell_stage: String,
    pub close_stage: String,
    pub unequipable: String,
    pub pc_room_part: String,
    pub feature: String,
    pub default_part: String,
    pub display_order: String,
    pub instant: String,
    pub hot: String,
    pub car_shop_hot: String,
    pub event: String,
    pub rebate: String,
    pub use_mito: String,
    pub mito_price: String,
    pub sell_mito: String,
    pub use_gcoin: String,
    pub use_mileage: String,
    pub period_7d: String,
    pub price_7d: String,
    pub mito_price_7d: String,
    pub mile_price_7d: String,
    pub bonus_mito_7d: String,
    pub period_30d: String,
    pub price_30d: String,
    pub mito_price_30d: String,
    pub mile_price_30d: String,
    pub bonus_mito_30d: String,
    pub period_90d: String,
    pub price_90d: String,
    pub mito_price_90d: String,
    pub mile_price_90d: String,
    pub bonus_mito_90d: String,
    pub period_365d: String,
    pub price_365d: String,
    pub mito_price_365d: String,
    pub mile_price_365d: String,
    pub bonus_mito_365d: String,
    pub period_0d: String,
    pub price_0d: String,
    pub mito_price_0d: String,
    pub mile_price_0d: String,
    pub bonus_mito_0d: String,
    pub bonus_speed: String,
    pub bonus_accel: String,
    pub bonus_boost: String,
    pub bonus_crash: String,
    pub refund: String,
}

/// The mathematical image of an entry.
pub ghost struct VShopItemListEntryV {
    pub enabled: Seq<char>,
    pub id: Seq<char>,
    pub item_id: Seq<char>,
    pub name: Seq<char>,
    pub description: Seq<char>,
    pub top: Seq<char>,
    pub top_category: Seq<char>,
    pub main: Seq<char>,
    pub main_category: Seq<char>,
    pub sub: Seq<char>,
    pub sub_category: Seq<char>,
    pub sub_category_name: Seq<char>,
    pub refer_visualitem: Seq<char>,
    pub sell_stage: Seq<char>,
    pub close_stage: Seq<char>,
    pub unequipable: Seq<char>,
    pub pc_room_part: Seq<char>,
    pub feature: Seq<char>,
    pub default_part: Seq<char>,
    pub display_order: Seq<char>,
    pub instant: Seq<char>,
    pub hot: Seq<char>,
    pub car_shop_hot: Seq<char>,
    pub event: Seq<char>,
    pub rebate: Seq<char>,
    pub use_mito: Seq<char>,
    pub mito_price: Seq<char>,
    pub sell_mito: Seq<char>,
    pub use_gcoin: Seq<char>,
    pub use_mileage: Seq<char>,
    pub period_7d: Seq<char>,
    pub price_7d: Seq<char>,
    pub mito_price_7d: Seq<char>,
    pub mile_price_7d: Seq<char>,
    pub bonus_mito_7d: Seq<char>,
    pub period_30d: Seq<char>,
    pub price_30d: Seq<char>,
    pub mito_price_30d: Seq<char>,
    pub mile_price_30d: Seq<char>,
    pub bonus_mito_30d: Seq<char>,
    pub period_90d: Seq<char>,
    pub price_90d: Seq<char>,
    pub mito_price_90d: Seq<char>,
    pub mile_price_90d: Seq<char>,
    pub bonus_mito_90d: Seq<char>,
    pub period_365d: Seq<char>,
    pub price_365d: Seq<char>,
    pub mito_price_365d: Seq<char>,
    pub mile_price_365d: Seq<char>,
    pub bonus_mito_365d: Seq<char>,
    pub period_0d: Seq<char>,
    pub price_0d: Seq<char>,
    pub mito_price_0d: Seq<char>,
    pub mile_price_0d: Seq<char>,
    pub bonus_mito_0d: Seq<char>,
    pub bonus_speed: Seq<char>,
    pub bonus_accel: Seq<char>,
    pub bonus_boost: Seq<char>,
    pub bonus_crash: Seq<char>,
    pub refund: Seq<char>,
}

impl View for VShopItemListEntry {
    type V = VShopItemListEntryV;

    open spec fn view(&self) -> VShopItemListEntryV {
        VShopItemListEntryV {
            enabled: self.enabled@,
            id: self.id@,
            item_id: self.item_id@,
            name: self.name@,
            description: self.description@,
            top: self.top@,
            top_category: self.top_category@,
            main: self.main@,
            main_category: self.main_category@,
            sub: self.sub@,
            sub_category: self.sub_category@,
            sub_category_name: self.sub_category_name@,
            refer_visualitem: self.refer_visualitem@,
            sell_stage: self.sell_stage@,
            close_stage: self.close_stage@,
            unequipable: self.unequipable@,
            pc_room_part: self.pc_room_part@,
            feature: self.feature@,
            default_part: self.default_part@,
            display_order: self.display_order@,
            instant: self.instant@,
            hot: self.hot@,
            car_shop_hot: self.car_shop_hot@,
            event: self.event@,
            rebate: self.rebate@,
            use_mito: self.use_mito@,
            mito_price: self.mito_price@,
            sell_mito: self.sell_mito@,
            use_gcoin: self.use_gcoin@,
            use_mileage: self.use_mileage@,
            period_7d: self.period_7d@,
            price_7d: self.price_7d@,
            mito_price_7d: self.mito_price_7d@,
            mile_price_7d: self.mile_price_7d@,
            bonus_mito_7d: self.bonus_mito_7d@,
            period_30d: self.period_30d@,
            price_30d: self.price_30d@,
            mito_price_30d: self.mito_price_30d@,
            mile_price_30d: self.mile_price_30d@,
            bonus_mito_30d: self.bonus_mito_30d@,
            period_90d: self.period_90d@,
            price_90d: self.price_90d@,
            mito_price_90d: self.mito_price_90d@,
            mile_price_90d: self.mile_price_90d@,
            bonus_mito_90d: self.bonus_mito_90d@,
            period_365d: self.period_365d@,
            price_365d: self.price_365d@,
            mito_price_365d: self.mito_price_365d@,
            mile_price_365d: self.mile_price_365d@,
            bonus_mito_365d: self.bonus_mito_365d@,
            period_0d: self.period_0d@,
            price_0d: self.price_0d@,
            mito_price_0d: self.mito_price_0d@,
            mile_price_0d: self.mile_price_0d@,
            bonus_mito_0d: self.bonus_mito_0d@,
            bonus_speed: self.bonus_speed@,
            bonus_accel: self.bonus_accel@,
            bonus_boost: self.bonus_boost@,
            bonus_crash: self.bonus_crash@,
            refund: self.refund@,
        }
    }
}

/// What an entry row denotes: numeric cells parsed after trimming, text
/// cells trimmed.
pub open spec fn spec_entry_of_row(row: Seq<Seq<char>>) -> Option<VShopItemListEntryV> {
    if row.len() < 61 {
        None
    } else if false {
        None
    } else {
        Some(
            VShopItemListEntryV {
                enabled: spec_trim(row[1]),
                id: spec_trim(row[2]),
                item_id: spec_trim(row[3]),
                name: spec_trim(row[4]),
                description: spec_trim(row[5]),
                top: spec_trim(row[6]),
                top_category: spec_trim(row[7]),
                main: spec_trim(row[8]),
                main_category: spec_trim(row[9]),
                sub: spec_trim(row[10]),
                sub_category: spec_trim(row[11]),
                sub_category_name: spec_trim(row[12]),
                refer_visualitem: spec_trim(row[13]),
                sell_stage: spec_trim(row[14]),
                close_stage: spec_trim(row[15]),
                unequipable: spec_trim(row[16]),
                pc_room_part: spec_trim(row[17]),
                feature: spec_trim(row[18]),
                default_part: spec_trim(row[19]),
                display_order: spec_trim(row[20]),
                instant: spec_trim(row[21]),
                hot: spec_trim(row[22]),
                car_shop_hot: spec_trim(row[23]),
                event: spec_trim(row[24]),
                rebate: spec_trim(row[25]),
                use_mito: spec_trim(row[26]),
                mito_price: spec_trim(row[27]),
                sell_mito: spec_trim(row[28]),
                use_gcoin: spec_trim(row[29]),
                use_mileage: spec_trim(row[30]),
                period_7d: spec_trim(row[31]),
                price_7d: spec_trim(row[32]),
                mito_price_7d: spec_trim(row[33]),
                mile_price_7d: spec_trim(row[34]),
                bonus_mito_7d: spec_trim(row[35]),
                period_30d: spec_trim(row[36]),
                price_30d: spec_trim(row[37]),
                mito_price_30d: spec_trim(row[38]),
                mile_price_30d: spec_trim(row[39]),
                bonus_mito_30d: spec_trim(row[40]),
                period_90d: spec_trim(row[41]),
                price_90d: spec_trim(row[42]),
                mito_price_90d: spec_trim(row[43]),
                mile_price_90d: spec_trim(row[44]),
                bonus_mito_90d: spec_trim(row[45]),
                period_365d: spec_trim(row[46]),
                price_365d: spec_trim(row[47]),
                mito_price_365d: spec_trim(row[48]),
                mile_price_365d: spec_trim(row[49]),
                bonus_mito_365d: spec_trim(row[50]),
                period_0d: spec_trim(row[51]),
                price_0d: spec_trim(row[52]),
                mito_price_0d: spec_trim(row[53]),
                mile_price_0d: spec_trim(row[54]),
                bonus_mito_0d: spec_trim(row[55]),
                bonus_speed: spec_trim(row[56]),
                bonus_accel: spec_trim(row[57]),
                bonus_boost: spec_trim(row[58]),
                bonus_crash: spec_trim(row[59]),
                refund: spec_trim(row[60]),
            },
        )
    }
}

impl VShopItemListEntry {
    /// Read one entry row.
    pub fn from_xlt_row(row: &Vec<String>) -> (res: Result<VShopItemListEntry, ParseError>)
        ensures
            ({
                let rv = row@.map_values(|s: String| s@);
                match res {
                    Ok(e) => spec_entry_of_row(rv) == Some(e@),
                    Err(_) => spec_entry_of_row(rv) is None,
                }
            }),
    {
        if row.len() < 61 {
            return Err(ParseError::BadString);
        }
        let enabled = trim(row[1].as_str());
        let id = trim(row[2].as_str());
        let item_id = trim(row[3].as_str());
        let name = trim(row[4].as_str());
        let description = trim(row[5].as_str());
        let top = trim(row[6].as_str());
        let top_category = trim(row[7].as_str());
        let main = trim(row[8].as_str());
        let main_category = trim(row[9].as_str());
        let sub = trim(row[10].as_str());
        let sub_category = trim(row[11].as_str());
        let sub_category_name = trim(row[12].as_str());
        let refer_visualitem = trim(row[13].as_str());
        let sell_stage = trim(row[14].as_str());
        let close_stage = trim(row[15].as_str());
        let unequipable = trim(row[16].as_str());
        let pc_room_part = trim(row[17].as_str());
        let feature = trim(row[18].as_str());
        let default_part = trim(row[19].as_str());
        let display_order = trim(row[20].as_str());
        let instant = trim(row[21].as_str());
        let hot = trim(row[22].as_str());
        let car_shop_hot = trim(row[23].as_str());
        let event = trim(row[24].as_str());
        let rebate = trim(row[25].as_str());
        let use_mito = trim(row[26].as_str());
        let mito_price = trim(row[27].as_str());
        let sell_mito = trim(row[28].as_str());
        let use_gcoin = trim(row[29].as_str());
        let use_mileage = trim(row[30].as_str());
        let period_7d = trim(row[31].as_str());
        let price_7d = trim(row[32].as_str());
        let mito_price_7d = trim(row[33].as_str());
        let mile_price_7d = trim(row[34].as_str());
        let bonus_mito_7d = trim(row[35].as_str());
        let period_30d = trim(row[36].as_str());
        let price_30d = trim(row[37].as_str());
        let mito_price_30d = trim(row[38].as_str());
        let mile_price_30d = trim(row[39].as_str());
        let bonus_mito_30d = trim(row[40].as_str());
        let period_90d = trim(row[41].as_str());
        let price_90d = trim(row[42].as_str());
        let mito_price_90d = trim(row[43].as_str());
        let mile_price_90d = trim(row[44].as_str());
        let bonus_mito_90d = trim(row[45].as_str());
        let period_365d = trim(row[46].as_str());
        let price_365d = trim(row[47].as_str());
        let mito_price_365d = trim(row[48].as_str());
        let mile_price_365d = trim(row[49].as_str());
        let bonus_mito_365d = trim(row[50].as_str());
        let period_0d = trim(row[51].as_str());
        let price_0d = trim(row[52].as_str());
        let mito_price_0d = trim(row[53].as_str());
        let mile_price_0d = trim(row[54].as_str());
        let bonus_mito_0d = trim(row[55].as_str());
        let bonus_speed = trim(row[56].as_str());
        let bonus_accel = trim(row[57].as_str());
        let bonus_boost = trim(row[58].as_str());
        let bonus_crash = trim(row[59].as_str());
        let refund = trim(row[60].as_str());
        let e = VShopItemListEntry { enabled, id, item_id, name, description, top, top_category, main, main_category, sub, sub_category, sub_category_name, refer_visualitem, sell_stage, close_stage, unequipable, pc_room_part, feature, default_part, display_order, instant, hot, car_shop_hot, event, rebate, use_mito, mito_price, sell_mito, use_gcoin, use_mileage, period_7d, price_7d, mito_price_7d, mile_price_7d, bonus_mito_7d, period_30d, price_30d, mito_price_30d, mile_price_30d, bonus_mito_30d, period_90d, price_90d, mito_price_90d, mile_price_90d, bonus_mito_90d, period_365d, price_365d, mito_price_365d, mile_price_365d, bonus_mito_365d, period_0d, price_0d, mito_price_0d, mile_price_0d, bonus_mito_0d, bonus_speed, bonus_accel, bonus_boost, bonus_crash, refund };
        Ok(e)
    }
}

/// The entry region starting at row `i`: consecutive rows whose first cell
/// is non-empty after trimming; every such row must parse.
pub open spec fn spec_entries_of(rows: Seq<Seq<Seq<char>>>, i: int) -> Option<
    Seq<VShopItemListEntryV>,
>
    decreases rows.len() - i,
{
    if i < 0 || i >= rows.len() || rows[i].len() == 0 || spec_trim(rows[i][0]).len() == 0 {
        Some(Seq::empty())
    } else {
        match spec_entry_of_row(rows[i]) {
            None => None,
            Some(e) => match spec_entries_of(rows, i + 1) {
                None => None,
                Some(rest) => Some(seq![e] + rest),
            },
        }
    }
}

/// A whole sheet.
#[derive(Debug, Clone, PartialEq)]
pub struct VShopItemList {
    pub meta: VShopItemListMeta,
    pub entries: Vec<VShopItemListEntry>,
}

impl VShopItemList {
    /// Read a sheet: the metadata on the second row, a header on the
    /// third, then entries until the first row with an empty first cell.
    pub fn from_xlt(xlt: &Xlt) -> (res: Result<VShopItemList, ParseError>)
        ensures
            ({
                let rows = xlt.spec_rows();
                match res {
                    Ok(l) => {
                        &&& rows.len() >= 3
                        &&& spec_meta_of_row(rows[1]) == Some(l.meta)
                        &&& spec_entries_of(rows, 3) == Some(
                            l.entries@.map_values(|e: VShopItemListEntry| e@),
                        )
                    },
                    Err(_) => rows.len() < 3 || spec_meta_of_row(rows[1]) is None
                        || spec_entries_of(rows, 3) is None,
                }
            }),
    {
        let ghost rows = xlt.spec_rows();
        let n = xlt.rows.len();
        if n < 3 {
            return Err(ParseError::BadString);
        }
        let meta = match VShopItemListMeta::from_xlt_row(&xlt.rows[1]) {
            Ok(m) => m,
            Err(e) => {
                proof {
                    assert(rows[1] == xlt.rows@[1]@.map_values(|s: String| s@));
                }
                return Err(e);
            },
        };
        proof {
            assert(rows[1] == xlt.rows@[1]@.map_values(|s: String| s@));
        }
        let mut entries: Vec<VShopItemListEntry> = Vec::new();
        let mut i: usize = 3;
        proof {
            if spec_entries_of(rows, 3) is Some {
                let all = spec_entries_of(rows, 3).unwrap();
                assert(entries@.map_values(|e: VShopItemListEntry| e@) =~= Seq::<
                    VShopItemListEntryV,
                >::empty());
                assert(entries@.map_values(|e: VShopItemListEntry| e@) + all =~= all);
            }
        }
        while i < n
            invariant
                rows == xlt.spec_rows(),
                n == rows.len(),
                n == xlt.rows@.len(),
                n >= 3,
                spec_meta_of_row(rows[1]) == Some(meta),
                3 <= i <= n,
                spec_entries_of(rows, 3) matches Some(all) ==> spec_entries_of(rows, i as int)
                    matches Some(rest) && all == entries@.map_values(|e: VShopItemListEntry| e@)
                    + rest,
                (spec_entries_of(rows, i as int) is None) <==> (spec_entries_of(rows, 3) is None),
            decreases n - i,
        {
            proof {
                assert(rows[i as int] == xlt.rows@[i as int]@.map_values(|s: String| s@));
            }
            let row = &xlt.rows[i];
            let stop = if row.len() == 0 {
                true
            } else {
                let first = trim(row[0].as_str());
                proof {
                    assert(rows[i as int][0] == row@[0]@);
                }
                first.unicode_len() == 0
            };
            if stop {
                proof {
                    assert(spec_entries_of(rows, i as int) == Some(Seq::<
                        VShopItemListEntryV,
                    >::empty()));
                    if spec_entries_of(rows, 3) is Some {
                        let all = spec_entries_of(rows, 3).unwrap();
                        assert(entries@.map_values(|e: VShopItemListEntry| e@) + Seq::<
                            VShopItemListEntryV,
                        >::empty() =~= entries@.map_values(|e: VShopItemListEntry| e@));
                    }
                }
                return Ok(VShopItemList { meta, entries });
            }
            let ghost entries_before = entries@;
            let e = match VShopItemListEntry::from_xlt_row(row) {
                Ok(e) => e,
                Err(err) => {
                    proof {
                        assert(spec_entry_of_row(rows[i as int]) is None);
                        assert(spec_entries_of(rows, i as int) is None);
                    }
                    return Err(err);
                },
            };
            entries.push(e);
            i = i + 1;
            proof {
                let m1 = entries@.map_values(|e: VShopItemListEntry| e@);
                let m0 = entries_before.map_values(|e: VShopItemListEntry| e@);
                assert(m1 =~= m0 + seq![e@]) by {
                    assert forall|k: int| 0 <= k < m1.len() implies m1[k] == (m0 + seq![e@])[k] by {
                        if k < m0.len() {
                            assert(entries@[k] == entries_before[k]);
                        } else {
                            assert(entries@[k] == e);
                        }
                    }
                }
                if spec_entries_of(rows, 3) is Some {
                    let all = spec_entries_of(rows, 3).unwrap();
                    let rest0 = spec_entries_of(rows, i - 1).unwrap();
                    let rest1 = spec_entries_of(rows, i as int);
                    assert(rest1 is Some);
                    assert(rest0 == seq![e@] + rest1.unwrap());
                    assert(all =~= m1 + rest1.unwrap());
                } else {
                    assert(spec_entries_of(rows, i - 1) is None);
                    assert(spec_entry_of_row(rows[i - 1]) is Some);
                    assert(spec_entries_of(rows, i as int) is None);
                }
            }
        }
        proof {
            assert(spec_entries_of(rows, n as int) == Some(Seq::<VShopItemListEntryV>::empty()));
            if spec_entries_of(rows, 3) is Some {
                let all = spec_entries_of(rows, 3).unwrap();
                assert(entries@.map_values(|e: VShopItemListEntry| e@) + Seq::<
                    VShopItemListEntryV,
                >::empty() =~= entries@.map_values(|e: VShopItemListEntry| e@));
            } else {
                assert(false);
            }
        }
        Ok(VShopItemList { meta, entries })
    }
}

} // verus!
