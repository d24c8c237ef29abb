//! UI document metadata records.  The XML reading itself lives outside the
//! library; these types carry the decoded attribute values, and the
//! constructor maps plain attribute pairs to fields.

use vstd::prelude::*;

use crate::parsers::ParseError;
use crate::strutil::{parse_usize, spec_parse_usize};

verus! {

/// The value of the last attribute named `key`, if any: a later occurrence
/// of a repeated attribute overrides an earlier one.
pub open spec fn spec_find_attr(attrs: Seq<(Seq<char>, Seq<char>)>, key: Seq<char>) -> Option<
    Seq<char>,
>
    decreases attrs.len(),
{
    if attrs.len() == 0 {
        None
    } else if attrs.last().0 == key {
        Some(attrs.last().1)
    } else {
        spec_find_attr(attrs.drop_last(), key)
    }
}

/// Document-level metadata of a UI dialog file.
#[derive(Debug, Clone, PartialEq)]
pub struct FileInfo {
    pub nation: Option<usize>,
    pub time: String,
    pub kind: String,
}

impl FileInfo {
    /// Build the record from decoded attribute pairs: `Time` and `Type`
    /// are required, `Nation` is an optional number.
    pub fn from_attributes(attrs: &Vec<(String, String)>) -> (res: Result<FileInfo, ParseError>)
        ensures
            ({
                let av = attrs@.map_values(|kv: (String, String)| (kv.0@, kv.1@));
                match res {
                    Ok(f) => {
                        &&& spec_find_attr(av, "Time"@) == Some(f.time@)
                        &&& spec_find_attr(av, "Type"@) == Some(f.kind@)
                        &&& match f.nation {
                            Some(x) => spec_find_attr(av, "Nation"@) matches Some(v)
                                && spec_parse_usize(v) == Some(x),
                            None => spec_find_attr(av, "Nation"@) is None,
                        }
                    },
                    Err(_) => {
                        ||| spec_find_attr(av, "Time"@) is None
                        ||| spec_find_attr(av, "Type"@) is None
                        ||| (spec_find_attr(av, "Nation"@) matches Some(v) && spec_parse_usize(v)
                            is None)
                    },
                }
            }),
    {
        let ghost av = attrs@.map_values(|kv: (String, String)| (kv.0@, kv.1@));
        let time_key = String::from_str("Time");
        let kind_key = String::from_str("Type");
        let nation_key = String::from_str("Nation");
        let time = match find_attr(attrs, &time_key) {
            Some(v) => v,
            None => {
                return Err(ParseError::BadString);
            },
        };
        let kind = match find_attr(attrs, &kind_key) {
            Some(v) => v,
            None => {
                return Err(ParseError::BadString);
            },
        };
        let nation = match find_attr(attrs, &nation_key) {
            Some(v) => {
                match parse_usize(&v) {
                    Some(x) => Some(x),
                    None => {
                        return Err(ParseError::BadString);
                    },
                }
            },
            None => None,
        };
        Ok(FileInfo { nation, time, kind })
    }
}

/// The (ignored) component list of a UI dialog file.
#[derive(Debug, Clone, PartialEq)]
pub struct ComponentList {}

/// Find the value of the last attribute with the given key.
pub fn find_attr(attrs: &Vec<(String, String)>, key: &String) -> (res: Option<String>)
    ensures
        ({
            let av = attrs@.map_values(|kv: (String, String)| (kv.0@, kv.1@));
            match res {
                Some(v) => spec_find_attr(av, key@) == Some(v@),
                None => spec_find_attr(av, key@) is None,
            }
        }),
{
    let ghost av = attrs@.map_values(|kv: (String, String)| (kv.0@, kv.1@));
    let mut i: usize = attrs.len();
    proof {
        assert(av.take(i as int) =~= av);
    }
    while i > 0
        invariant
            0 <= i <= attrs@.len(),
            av == attrs@.map_values(|kv: (String, String)| (kv.0@, kv.1@)),
            spec_find_attr(av, key@) == spec_find_attr(av.take(i as int), key@),
        decreases i,
    {
        i = i - 1;
        proof {
            assert(av.take(i as int + 1).last() == av[i as int]);
            assert(av.take(i as int + 1).drop_last() =~= av.take(i as int));
        }
        if attrs[i].0.eq(key) {
            let v = attrs[i].1.clone();
            proof {
                assert(av[i as int].0 == key@);
                assert(spec_find_attr(av.take(i as int + 1), key@) == Some(av[i as int].1));
                assert(v@ == av[i as int].1);
            }
            return Some(v);
        }
        proof {
            assert(av[i as int].0 != key@);
        }
    }
    proof {
        assert(av.take(0) =~= Seq::<(Seq<char>, Seq<char>)>::empty());
    }
    None
}

} // verus!
