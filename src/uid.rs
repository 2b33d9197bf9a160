//! Well-known object and method identifiers, as big-endian 64-bit values.
use vstd::prelude::*;

verus! {

/// The session manager, which opens and closes sessions.
pub const SESSION_MANAGER: u64 = 0x0000_0000_0000_00FF;

/// The Admin security provider.
pub const ADMIN_SP: u64 = 0x0000_0205_0000_0001;

/// The Locking security provider.
pub const LOCKING_SP: u64 = 0x0000_0205_0000_0002;

/// The Admin1 authority of the Locking SP.
pub const ADMIN1: u64 = 0x0000_0009_0001_0001;

/// The global locking range (range 0).
pub const LOCKING_RANGE_GLOBAL: u64 = 0x0000_0802_0000_0001;

/// The base from which the numbered locking ranges count.
pub const LOCKING_RANGE_BASE: u64 = 0x0000_0802_0003_0000;

/// The MBR control object.
pub const MBR_CONTROL: u64 = 0x0000_0803_0000_0001;

pub const START_SESSION: u64 = 0x0000_0000_0000_FF02;

pub const SYNC_SESSION: u64 = 0x0000_0000_0000_FF03;

pub const SET: u64 = 0x0000_0006_0000_0017;

pub const GET: u64 = 0x0000_0006_0000_0016;

/// The object of locking range `index`.
pub open spec fn locking_range_spec(index: u16) -> u64 {
    if index == 0 {
        LOCKING_RANGE_GLOBAL
    } else {
        (LOCKING_RANGE_BASE + index) as u64
    }
}

pub fn locking_range(index: u16) -> (r: u64)
    ensures
        r == locking_range_spec(index),
{
    if index == 0 {
        LOCKING_RANGE_GLOBAL
    } else {
        LOCKING_RANGE_BASE + index as u64
    }
}

} // verus!
