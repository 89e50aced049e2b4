//! Contribution-room engines for Canadian tax-advantaged accounts (RRSP,
//! TFSA, FHSA), the shaping of stored records into per-year engine input, and
//! the decisions of the backup procedure. Money is integer cents throughout.

pub mod order;
pub mod rrsp;
pub mod tfsa;
pub mod fhsa;
pub mod db;
pub mod backup;

use vstd::prelude::*;

verus! {

} // verus!
