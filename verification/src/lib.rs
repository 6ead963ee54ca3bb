//! Splitting a file into fixed-size parts, with CRC-32 integrity checks.
//!
//! The crate holds the rules of the splitter: the checksum, the number of
//! parts a file is cut into, the names the parts get, and the decisions of
//! the splitting loop. Reading and writing files is left to the caller.

pub mod chunks;
pub mod crc;
pub mod naming;
pub mod splitter;
