//! Simulation of subtractive milling on a height field.
//!
//! A toolpath (`g_code`, parsed from a command stream by
//! `g_code_instruction`) is run by the executor (`g_code_executor`), which
//! traces each linear motion on the grid's lattice (`trace`) and stamps the
//! cutter's footprint (`footprint`) into the carved surface (`height_map`)
//! by the carve rule (`carve`). Lengths are integers in micrometres; `grid`
//! converts between them and lattice coordinates.
use vstd::prelude::*;

pub mod carve;
pub mod footprint;
pub mod g_code;
pub mod g_code_executor;
pub mod g_code_instruction;
pub mod grid;
pub mod height_map;
pub mod milling_cutter;
pub mod text;
pub mod trace;

verus! {

} // verus!
