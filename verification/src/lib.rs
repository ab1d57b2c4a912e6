//! A simulator for a 16-bit teaching architecture: eight registers, a flat
//! memory of 65536 words, three condition codes and software traps.

pub mod condition_code;
pub mod console;
pub mod cpu;
pub mod errors;
pub mod nice_vector;
pub mod operation;
pub mod program;
pub mod utils;
