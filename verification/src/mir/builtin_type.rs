//! The definitions of the built-in types, which every context holds first.
use vstd::prelude::*;

use crate::mir::DefId;

verus! {

pub const UNKNOWN: DefId = 0;
pub const VOID: DefId = 1;
pub const I32: DefId = 2;
pub const STRING: DefId = 3;

} // verus!
