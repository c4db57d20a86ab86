//! Turns rows of a Swedbank statement export into transactions for a YNAB
//! budget: payee and memo clean-up, date and amount conversion, and the merge
//! of commission rows into the payments they belong to.

pub mod decimal;
pub mod endpoints;
pub mod payee;
pub mod rollup;
pub mod statement;
pub mod swed;
pub mod text;
pub mod transaction;
pub mod ynab;

use vstd::prelude::*;

verus! {

} // verus!
