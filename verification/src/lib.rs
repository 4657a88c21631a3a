use vstd::prelude::*;

verus! {

} // verus!

pub mod cursor;
pub mod dec;
pub mod render;
pub mod samples;
pub mod csvenc;
pub mod pipeline;
pub mod scale;
pub mod signals;
pub mod timestamp;
pub mod errors;
pub mod header;
pub mod text;
