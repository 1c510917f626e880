pub mod codec;
pub mod coordinator;
pub mod engine;
pub mod log_parser;
pub mod models;
pub mod protocol;
pub mod text;
pub mod utils;

use vstd::prelude::*;

verus! {

} // verus!
