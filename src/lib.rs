//! Typed memory search: a lane scanner over byte buffers, typed values, and the
//! decision logic of fresh scans, refinements and the tracked-address table.
use vstd::prelude::*;

pub mod data_types;
pub mod error;
pub mod fresh;
pub mod refine;
pub mod value;
pub mod lanes;
pub mod primitive;
pub mod scan;
pub mod scope;
pub mod search;
pub mod settings;
pub mod watch_list;


verus! {

} // verus!
