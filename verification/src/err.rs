//! The result codes of the lwIP API.

use vstd::prelude::*;

verus! {

/// No error.
pub const ERR_OK: i8 = 0;

/// Out of memory.
pub const ERR_MEM: i8 = -1;

/// Buffer error.
pub const ERR_BUF: i8 = -2;

/// Routing problem.
pub const ERR_RTE: i8 = -4;

/// Illegal value.
pub const ERR_VAL: i8 = -6;

/// Address or resource in use.
pub const ERR_USE: i8 = -8;

/// Not connected.
pub const ERR_CONN: i8 = -11;

/// Connection aborted.
pub const ERR_ABRT: i8 = -13;

} // verus!
