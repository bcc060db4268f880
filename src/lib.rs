use vstd::prelude::*;

pub mod ast;
pub mod compiler;
pub mod env;
pub mod error;
pub mod laws;
pub mod names;
pub mod parser;
pub mod printer;
pub mod reader;
pub mod sigs;
pub mod value;

verus! {

} // verus!
