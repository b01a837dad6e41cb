//! Files of the in-memory file system.

use vstd::prelude::*;

use crate::file_system::{Stat, StatType};
use crate::time::since_epoch_secs;
use crate::util::copy_bytes;

verus! {

/// The content and times of a file.
#[derive(Debug, Clone, PartialEq, Eq)]
pub struct MemoryFileInner {
    pub create_time: u64,
    pub update_time: u64,
    pub buf: Vec<u8>,
}

impl MemoryFileInner {
    /// A file created now.
    pub fn new(buf: Vec<u8>) -> (r: MemoryFileInner)
        ensures
            r.buf@ == buf@,
            r.create_time == r.update_time,
    {
        let create_time = since_epoch_secs();
        MemoryFileInner { create_time, update_time: create_time, buf }
    }

    pub fn stat(&self) -> (r: Stat)
        ensures
            r == (Stat {
                ty: StatType::File,
                size: self.buf@.len() as u64,
                create_time: self.create_time,
                update_time: self.update_time,
            }),
            r.size == self.buf@.len(),
    {
        Stat {
            create_time: self.create_time,
            update_time: self.update_time,
            ty: StatType::File,
            size: self.buf.len() as u64,
        }
    }
}

/// A file of the in-memory file system.
#[derive(Debug, Clone)]
pub struct MemoryFile(pub MemoryFileInner);

impl MemoryFile {
    /// A file created now.
    pub fn new(buf: Vec<u8>) -> (r: MemoryFile)
        ensures
            r.0.buf@ == buf@,
            r.0.create_time == r.0.update_time,
    {
        MemoryFile(MemoryFileInner::new(buf))
    }

    pub fn stat(&self) -> (r: Stat)
        ensures
            r == (Stat {
                ty: StatType::File,
                size: self.0.buf@.len() as u64,
                create_time: self.0.create_time,
                update_time: self.0.update_time,
            }),
            r.size == self.0.buf@.len(),
    {
        self.0.stat()
    }

    /// A copy of the content.
    pub fn buf(&self) -> (r: Vec<u8>)
        ensures
            r@ == self.0.buf@,
    {
        copy_bytes(self.0.buf.as_slice())
    }

    /// Replaces the content.
    pub fn write(&mut self, buf: Vec<u8>)
        ensures
            final(self).0.buf@ == buf@,
            final(self).0.create_time == old(self).0.create_time,
            final(self).0.update_time == old(self).0.update_time,
    {
        self.0.buf = buf;
    }

    pub fn set_update_time(&mut self, update_time: u64)
        ensures
            final(self).0.buf@ == old(self).0.buf@,
            final(self).0.create_time == old(self).0.create_time,
            final(self).0.update_time == update_time,
    {
        self.0.update_time = update_time;
    }
}

} // verus!
