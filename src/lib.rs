//! In-process metrics aggregation and export pipeline.
use vstd::prelude::*;

pub mod aggregation;
pub mod attributes;
pub mod export;
pub mod logs;
pub mod manual_reader;
pub mod meter;
pub mod meter_provider;
pub mod periodic_reader;
pub mod reader;
pub mod resource;
pub mod trace;

verus! {

} // verus!
