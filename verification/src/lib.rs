//! State keys, the account state interface of a layer-2 rollup, and the
//! runtime thread plan of its node binary.

pub mod h256;
pub mod blake2b;
pub mod state;
pub mod smt;
pub mod mem_state;
pub mod runtime;
