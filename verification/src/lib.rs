//! Logic of a personal time tracker: what its commands decide, compute and
//! print, stated as contracts over plain values.
use vstd::prelude::*;

pub mod classify;
pub mod classify_auto;
pub mod context;
pub mod events;
pub mod export;
pub mod ids;
pub mod import;
pub mod infer;
pub mod ingest;
pub mod init;
pub mod json;
pub mod machines;
pub mod model;
pub mod order;
pub mod priority;
pub mod text;
pub mod time;
pub mod util;

verus! {

} // verus!
