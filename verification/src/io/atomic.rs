//! Each kind of data the repository keeps, read and written on its own.

pub mod head;
pub mod local_commits;
pub mod object;
pub mod staging;
pub mod trace;
pub mod work_branch;
