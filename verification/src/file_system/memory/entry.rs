//! Entries of the in-memory file system.

use vstd::prelude::*;

use crate::error::FsError;
use crate::file_system::memory::entry::dir::MemoryDir;
use crate::file_system::memory::entry::file::MemoryFile;
use crate::file_system::{FsNode, Stat, StatType};

pub mod dir;
pub mod file;

verus! {

/// A file or a directory.
pub enum MemoryEntry {
    File(MemoryFile),
    Dir(MemoryDir),
}

impl MemoryEntry {
    /// The entry is a copy of what `base` holds at `p`.
    pub open spec fn stands_for(self, base: MemoryDir, p: Seq<Seq<char>>) -> bool {
        match self {
            MemoryEntry::File(f) => base.lookup(p) == Some(FsNode::File(f.0.buf@)),
            MemoryEntry::Dir(d) => {
                &&& base.lookup(p) == Some(FsNode::Dir)
                &&& d.wf()
                &&& d.location() == base.location() + p
                &&& forall|q: Seq<Seq<char>>| q.len() > 0 ==> #[trigger] d.lookup(q) == base.lookup(p + q)
            },
        }
    }

    pub open spec fn wf(self) -> bool {
        match self {
            MemoryEntry::File(_) => true,
            MemoryEntry::Dir(d) => d.wf(),
        }
    }

    pub fn stat(&self) -> (r: Stat)
        requires
            self.wf(),
        ensures
            match self {
                MemoryEntry::File(f) => r.ty == StatType::File && r.size == f.0.buf@.len() && r.create_time
                    == f.0.create_time && r.update_time == f.0.update_time,
                MemoryEntry::Dir(d) => r.ty == StatType::Dir && r.size == d.0.tree.child_count(Seq::empty()),
            },
    {
        match self {
            MemoryEntry::File(file) => file.stat(),
            MemoryEntry::Dir(dir) => dir.stat(),
        }
    }

    pub fn file(self) -> (r: Result<MemoryFile, FsError>)
        ensures
            match self {
                MemoryEntry::File(f) => r == Ok::<MemoryFile, FsError>(f),
                MemoryEntry::Dir(_) => r matches Err(FsError::ExpectedFile(_)),
            },
    {
        match self {
            MemoryEntry::File(file) => Ok(file),
            MemoryEntry::Dir(_) => Err(FsError::ExpectedFile("expect file bad was dir.".to_owned())),
        }
    }

    pub fn dir(self) -> (r: Result<MemoryDir, FsError>)
        ensures
            match self {
                MemoryEntry::Dir(d) => r == Ok::<MemoryDir, FsError>(d),
                MemoryEntry::File(_) => r matches Err(FsError::ExpectedDir(_)),
            },
    {
        match self {
            MemoryEntry::Dir(dir) => Ok(dir),
            MemoryEntry::File(_) => Err(FsError::ExpectedDir("expect dir bad was file.".to_owned())),
        }
    }

    pub fn dir_ref(&self) -> (r: Result<&MemoryDir, FsError>)
        ensures
            match self {
                MemoryEntry::Dir(d) => r == Ok::<&MemoryDir, FsError>(d),
                MemoryEntry::File(_) => r matches Err(FsError::ExpectedDir(_)),
            },
    {
        match self {
            MemoryEntry::Dir(dir) => Ok(dir),
            MemoryEntry::File(_) => Err(FsError::ExpectedDir("expect dir bad was file.".to_owned())),
        }
    }

    pub fn file_mut(&mut self) -> (r: Result<&mut MemoryFile, FsError>)
        ensures
            *old(self) is File <==> r is Ok,
            *old(self) is Dir ==> *final(self) == *old(self),
            *old(self) is Dir ==> r matches Err(FsError::ExpectedFile(_)),
    {
        match self {
            MemoryEntry::File(file) => Ok(file),
            MemoryEntry::Dir(_) => Err(FsError::ExpectedFile("expect file bad was dir.".to_owned())),
        }
    }

    pub fn dir_mut(&mut self) -> (r: Result<&mut MemoryDir, FsError>)
        ensures
            *old(self) is Dir <==> r is Ok,
            *old(self) is File ==> *final(self) == *old(self),
            *old(self) is File ==> r matches Err(FsError::ExpectedDir(_)),
    {
        match self {
            MemoryEntry::Dir(dir) => Ok(dir),
            MemoryEntry::File(_) => Err(FsError::ExpectedDir("expect dir bad was file.".to_owned())),
        }
    }
}

} // verus!
