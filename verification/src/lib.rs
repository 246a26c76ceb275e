//! Verified core of the Engram memory service.
pub mod paths;
pub mod text;
pub mod words;
pub mod sorting;
pub mod time;
pub mod checksum;
pub mod storage;
pub mod launch;
pub mod memory;
pub mod parity;
