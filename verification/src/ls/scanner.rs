//! A directory entry as `ls` reads it.

use vstd::prelude::*;
use crate::ls::links::LinkType;

verus! {

/// One directory entry. Times are whole seconds after the Unix epoch (none
/// when unknown or earlier than the epoch).
pub struct ItemInfo {
    pub name: String,
    pub path: String,
    pub is_dir: bool,
    pub is_file: bool,
    pub link_type: LinkType,
    pub link_target: Option<String>,
    pub size: u64,
    pub create_time: Option<u64>,
    pub modify_time: Option<u64>,
}

/// Seconds as a signed number, as `as i64` wraps them.
pub open spec fn wrap_i64(s: u64) -> int {
    if s <= 0x7fff_ffff_ffff_ffff { s as int } else { s as int - 0x1_0000_0000_0000_0000 }
}

pub fn to_i64_wrapping(s: u64) -> (r: i64)
    ensures
        r as int == wrap_i64(s),
{
    if s <= 0x7fff_ffff_ffff_ffff {
        s as i64
    } else {
        let t = s - 0x8000_0000_0000_0000;
        (t as i64) - 0x7fff_ffff_ffff_ffff - 1
    }
}

impl ItemInfo {
    /// Creation time in seconds after the epoch.
    pub fn create_time_secs(&self) -> (r: Option<i64>)
        ensures
            match self.create_time {
                Some(s) => r is Some && r.unwrap() as int == wrap_i64(s),
                None => r is None,
            },
    {
        match self.create_time {
            Some(s) => Some(to_i64_wrapping(s)),
            None => None,
        }
    }

    /// Modification time in seconds after the epoch.
    pub fn modify_time_secs(&self) -> (r: Option<i64>)
        ensures
            match self.modify_time {
                Some(s) => r is Some && r.unwrap() as int == wrap_i64(s),
                None => r is None,
            },
    {
        match self.modify_time {
            Some(s) => Some(to_i64_wrapping(s)),
            None => None,
        }
    }
}

} // verus!
