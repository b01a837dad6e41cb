//! Files of the mock file system.

use vstd::prelude::*;

use crate::file_system::{Stat, StatType};
use crate::time::since_epoch_secs;

verus! {

/// A file of the mock file system.
#[derive(Debug, Clone)]
pub struct MockFile {
    pub create_time: u64,
    pub update_time: u64,
    pub buf: Vec<u8>,
}

impl MockFile {
    /// A file created now.
    pub fn new(buf: Vec<u8>) -> (r: MockFile)
        ensures
            r.buf@ == buf@,
            r.create_time == r.update_time,
    {
        let create_time = since_epoch_secs();
        MockFile { create_time, update_time: create_time, buf }
    }

    pub fn stat(&self) -> (r: Stat)
        ensures
            r.ty == StatType::File,
            r.size == self.buf@.len(),
            r.create_time == self.create_time,
            r.update_time == self.update_time,
    {
        Stat {
            create_time: self.create_time,
            update_time: self.update_time,
            ty: StatType::File,
            size: self.buf.len() as u64,
        }
    }
}

} // verus!
