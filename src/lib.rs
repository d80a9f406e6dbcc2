//! Construction of staking and delegation transactions: script derivation,
//! witness encoding, cell resolution and the confirmation lifecycle.

pub mod molecule;
pub mod ckb;
pub mod scripts;
pub mod witness;
pub mod cells;
pub mod confirm;
pub mod delta;
pub mod decode;
pub mod epoch;
pub mod assemble;
