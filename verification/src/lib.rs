//! Accounting for processes: which user, application, service or container
//! each process on a Linux host is billed to, and what the tree of them weighs.
use vstd::prelude::*;

pub mod caps;
pub mod classify;
pub mod config;
pub mod containers;
pub mod cpu;
pub mod explain;
pub mod glyph;
pub mod gpu;
pub mod group;
pub mod identity;
pub mod io;
pub mod keys;
pub mod kgp;
pub mod mem;
pub mod mode;
pub mod net;
pub mod once;
pub mod proc;
pub mod psi;
pub mod root;
pub mod rules;
pub mod sixel;
pub mod table;
pub mod text;
pub mod tty;
pub mod types;
pub mod ui;

verus! {

} // verus!
