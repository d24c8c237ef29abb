//! Vehicle sheet: its metadata row and the closed vocabularies its cells
//! draw from.

use vstd::prelude::*;

use crate::parsers::ParseError;
use crate::strutil::{parse_usize, spec_parse_usize};

verus! {

/// Sheet-level metadata: the base ids of the three vehicle families.
#[derive(Debug, Clone, Copy, PartialEq, Eq, Structural)]
pub struct VehicleListMeta {
    pub player_car_base: usize,
    pub huv_base: usize,
    pub traffic_base: usize,
}

/// What the metadata row denotes.
pub open spec fn spec_meta_of_row(row: Seq<Seq<char>>) -> Option<VehicleListMeta> {
    if row.len() < 7 {
        None
    } else {
        if spec_parse_usize(row[2]) is None || spec_parse_usize(row[4]) is None
            || spec_parse_usize(row[6]) is None {
            None
        } else {
            Some(
                VehicleListMeta {
                    player_car_base: spec_parse_usize(row[2]).unwrap(),
                    huv_base: spec_parse_usize(row[4]).unwrap(),
                    traffic_base: spec_parse_usize(row[6]).unwrap(),
                },
            )
        }
    }
}

impl VehicleListMeta {
    /// Read the metadata row: the three family bases stand in columns 3, 5
    /// and 7.
    pub fn from_xlt_row(row: &Vec<String>) -> (res: Result<VehicleListMeta, ParseError>)
        ensures
            ({
                let rv = row@.map_values(|s: String| s@);
                match res {
                    Ok(m) => spec_meta_of_row(rv) == Some(m),
                    Err(_) => spec_meta_of_row(rv) is None,
                }
            }),
    {
        if row.len() < 7 {
            return Err(ParseError::BadString);
        }
        let player_car_base = match parse_usize(&row[2]) {
            Some(x) => x,
            None => {
                return Err(ParseError::BadString);
            },
        };
        let huv_base = match parse_usize(&row[4]) {
            Some(x) => x,
            None => {
                return Err(ParseError::BadString);
            },
        };
        let traffic_base = match parse_usize(&row[6]) {
            Some(x) => x,
            None => {
                return Err(ParseError::BadString);
            },
        };
        Ok(VehicleListMeta { player_car_base, huv_base, traffic_base })
    }
}

/// The vehicle family a row belongs to.
#[derive(Debug, Clone, Copy, PartialEq, Eq, Structural)]
pub enum VehicleKind {
    PlayerCar,
    Player,
    Huv,
    HuvBoss,
    Traffic,
    RacingBattle,
}

/// What a kind cell denotes.
pub open spec fn spec_vehicle_kind_of(s: Seq<char>) -> Option<VehicleKind> {
    if s == "PlayerCar"@ {
        Some(VehicleKind::PlayerCar)
    } else if s == "Player"@ {
        Some(VehicleKind::Player)
    } else if s == "HUV"@ {
        Some(VehicleKind::Huv)
    } else if s == "HUV BOSS"@ {
        Some(VehicleKind::HuvBoss)
    } else if s == "Traffic"@ {
        Some(VehicleKind::Traffic)
    } else if s == "RacingBattle"@ {
        Some(VehicleKind::RacingBattle)
    } else {
        None
    }
}

impl VehicleKind {
    /// Read a kind cell.
    pub fn from_name(s: &String) -> (res: Option<VehicleKind>)
        ensures
            res == spec_vehicle_kind_of(s@),
    {
        if s.eq(&String::from_str("PlayerCar")) {
            Some(VehicleKind::PlayerCar)
        } else if s.eq(&String::from_str("Player")) {
            Some(VehicleKind::Player)
        } else if s.eq(&String::from_str("HUV")) {
            Some(VehicleKind::Huv)
        } else if s.eq(&String::from_str("HUV BOSS")) {
            Some(VehicleKind::HuvBoss)
        } else if s.eq(&String::from_str("Traffic")) {
            Some(VehicleKind::Traffic)
        } else if s.eq(&String::from_str("RacingBattle")) {
            Some(VehicleKind::RacingBattle)
        } else {
            None
        }
    }
}

/// The performance grade vocabulary.
#[derive(Debug, Clone, Copy, PartialEq, Eq, Structural)]
pub enum GradeKind {
    V,
    R,
}

/// What a grade cell denotes.
pub open spec fn spec_grade_kind_of(s: Seq<char>) -> Option<GradeKind> {
    if s == "V"@ {
        Some(GradeKind::V)
    } else if s == "R"@ {
        Some(GradeKind::R)
    } else {
        None
    }
}

impl GradeKind {
    /// Read a grade cell.
    pub fn from_name(s: &String) -> (res: Option<GradeKind>)
        ensures
            res == spec_grade_kind_of(s@),
    {
        if s.eq(&String::from_str("V")) {
            Some(GradeKind::V)
        } else if s.eq(&String::from_str("R")) {
            Some(GradeKind::R)
        } else {
            None
        }
    }
}

/// How a vehicle is obtained.
#[derive(Debug, Clone, Copy, PartialEq, Eq, Structural)]
pub enum VehicleRequirement {
    Gotcha,
    Event,
}

/// What a requirement cell denotes.
pub open spec fn spec_vehicle_requirement_of(s: Seq<char>) -> Option<VehicleRequirement> {
    if s == "GOTCHA"@ {
        Some(VehicleRequirement::Gotcha)
    } else if s == "EVENT"@ {
        Some(VehicleRequirement::Event)
    } else {
        None
    }
}

impl VehicleRequirement {
    /// Read a requirement cell.
    pub fn from_name(s: &String) -> (res: Option<VehicleRequirement>)
        ensures
            res == spec_vehicle_requirement_of(s@),
    {
        if s.eq(&String::from_str("GOTCHA")) {
            Some(VehicleRequirement::Gotcha)
        } else if s.eq(&String::from_str("EVENT")) {
            Some(VehicleRequirement::Event)
        } else {
            None
        }
    }
}

/// Per-vehicle flag letters.
#[derive(Debug, Clone, Copy, PartialEq, Eq, Structural)]
pub enum CarFlag {
    G,
    H,
    B,
    M,
    C,
}

/// What a flag cell denotes.
pub open spec fn spec_car_flag_of(s: Seq<char>) -> Option<CarFlag> {
    if s == "G"@ {
        Some(CarFlag::G)
    } else if s == "H"@ {
        Some(CarFlag::H)
    } else if s == "B"@ {
        Some(CarFlag::B)
    } else if s == "M"@ {
        Some(CarFlag::M)
    } else if s == "C"@ {
        Some(CarFlag::C)
    } else {
        None
    }
}

impl CarFlag {
    /// Read a flag cell.
    pub fn from_name(s: &String) -> (res: Option<CarFlag>)
        ensures
            res == spec_car_flag_of(s@),
    {
        if s.eq(&String::from_str("G")) {
            Some(CarFlag::G)
        } else if s.eq(&String::from_str("H")) {
            Some(CarFlag::H)
        } else if s.eq(&String::from_str("B")) {
            Some(CarFlag::B)
        } else if s.eq(&String::from_str("M")) {
            Some(CarFlag::M)
        } else if s.eq(&String::from_str("C")) {
            Some(CarFlag::C)
        } else {
            None
        }
    }
}

} // verus!
