//! What the interactive table shows, and how it answers a key.
pub mod bars;
pub mod cells;
pub mod columns;
pub mod detail;
pub mod figures;
pub mod filter;
pub mod frame;
pub mod laws;
pub mod lists;
pub mod pick;
pub mod press;
pub mod rows;
pub mod tanks;
pub mod trend;
use vstd::prelude::*;

verus! {

} // verus!
