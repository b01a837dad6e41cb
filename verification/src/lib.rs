//! A small version-control core: an in-memory file system, content-addressed
//! objects, trees, commits and branch operations.

pub mod assoc;
pub mod branch;
pub mod compression;
pub mod encode;
pub mod error;
pub mod file_system;
pub mod io;
pub mod object;
pub mod operation;
pub mod path;
pub mod time;
pub mod util;
