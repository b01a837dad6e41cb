//! The branch that is checked out, kept in `.meltos/WORKING` as a JSON string.

use vstd::prelude::*;

use crate::branch::BranchName;
use crate::error::{Error, Result, is_data_error};
use crate::file_system::{FileSystem, after_write, files_of, write_allowed};
use crate::io::{file_bytes, lift};
use crate::io::layout::{fam_working, lemma_working_path, lemma_write_frame, touches_only};
use crate::path::segs;

verus! {

/// The JSON text that `serde_json` writes for a string.
pub uninterp spec fn json_string_encoded(s: Seq<char>) -> Seq<u8>;

/// The string that `serde_json` reads from JSON text, or `None` where the
/// text is not a JSON string.
pub uninterp spec fn json_string_decoded(b: Seq<u8>) -> Option<Seq<char>>;

/// Writes a string as JSON with `serde_json::to_vec`.
///
/// The contract claims that the call succeeds (a string always serialises),
/// that the text is the one named `json_string_encoded` and that
/// `serde_json` reads the same string back from it.
#[verifier::external_body]
fn json_string_to_vec(s: &String) -> (r: Option<Vec<u8>>)
    ensures
        r is Some,
        r matches Some(b) ==> b@ == json_string_encoded(s@) && json_string_decoded(b@) == Some(s@),
{
    match serde_json::to_vec(s) {
        Ok(b) => Some(b),
        Err(_) => None,
    }
}

/// Reads a string from JSON text with `serde_json::from_slice`.
///
/// The contract claims that the result is the one named `json_string_decoded`.
#[verifier::external_body]
fn json_string_from_slice(b: &[u8]) -> (r: Option<String>)
    ensures
        match r {
            Some(s) => json_string_decoded(b@) == Some(s@),
            None => json_string_decoded(b@) is None,
        },
{
    match serde_json::from_slice::<String>(b) {
        Ok(s) => Some(s),
        Err(_) => None,
    }
}

/// The file that names the checked-out branch.
pub open spec fn working_path() -> Seq<char> {
    ".meltos/WORKING"@
}

/// The branch name that the content of the file holds.
pub open spec fn working_decoded(b: Seq<u8>) -> Option<Seq<char>> {
    json_string_decoded(b)
}

/// Reads and writes the checked-out branch.
pub struct WorkingIo;

impl WorkingIo {
    pub fn new() -> (r: WorkingIo) {
        WorkingIo
    }

    /// Records the checked-out branch.
    pub fn write<Fs: FileSystem>(&self, fs: &mut Fs, branch_name: &BranchName) -> (r: Result<()>)
        requires
            old(fs).fs_inv(),
        ensures
            r matches Err(e) ==> is_data_error(e),
            final(fs).fs_inv(),
            r is Ok ==> segs(working_path()).len() > 0 && forall|q: Seq<Seq<char>>|
                #[trigger] final(fs).fs_lookup(q) == after_write(
                    old(fs).fs_lookup(q),
                    q,
                    segs(working_path()),
                    json_string_encoded(branch_name.0@),
                ),
            r is Ok ==> working_decoded(json_string_encoded(branch_name.0@)) == Some(branch_name.0@),
            r is Ok ==> touches_only(*old(fs), *final(fs), fam_working()),
            old(fs).fs_exact() ==> final(fs).fs_exact(),
            old(fs).fs_exact() && write_allowed(files_of(*old(fs)), segs(working_path())) ==> r is Ok,
    {
        let ghost before = *fs;
        proof {
            reveal_strlit(".meltos/WORKING");
        }
        let buf = match json_string_to_vec(&branch_name.0) {
            Some(b) => b,
            None => return Err(Error::Json),
        };
        let r = lift(fs.write_file(".meltos/WORKING", buf.as_slice()));
        proof {
            if r is Ok {
                lemma_working_path();
                lemma_write_frame(before, *fs, segs(working_path()), buf@, fam_working());
            }
        }
        r
    }

    /// The checked-out branch; an error where none is recorded.
    pub fn try_read<Fs: FileSystem>(&self, fs: &Fs) -> (r: Result<BranchName>)
        requires
            fs.fs_inv(),
        ensures
            r matches Err(e) ==> is_data_error(e),
            r matches Ok(b) ==> file_bytes(fs.fs_lookup(segs(working_path()))) matches Some(bytes)
                && working_decoded(bytes) == Some(b.0@),
            fs.fs_lookup(segs(working_path())) is None ==> r is Err,
    {
        match self.read(fs)? {
            Some(b) => Ok(b),
            None => Err(Error::Io(crate::error::FsError::NotFound(".meltos/WORKING".to_owned()))),
        }
    }

    /// The checked-out branch, where one is recorded.
    pub fn read<Fs: FileSystem>(&self, fs: &Fs) -> (r: Result<Option<BranchName>>)
        requires
            fs.fs_inv(),
        ensures
            r matches Err(e) ==> is_data_error(e),
            r matches Ok(Some(b)) ==> file_bytes(fs.fs_lookup(segs(working_path()))) matches Some(bytes)
                && working_decoded(bytes) == Some(b.0@),
            r matches Ok(None) ==> fs.fs_lookup(segs(working_path())) is None,
            (file_bytes(fs.fs_lookup(segs(working_path()))) matches Some(bytes) && working_decoded(bytes) is None)
                ==> r is Err,
            fs.fs_exact() && (fs.fs_lookup(segs(working_path())) is None || (file_bytes(fs.fs_lookup(segs(working_path())))
                matches Some(bytes) && working_decoded(bytes) is Some)) ==> r is Ok,
    {
        let buf = match lift(fs.read_file(".meltos/WORKING"))? {
            Some(b) => b,
            None => return Ok(None),
        };
        match json_string_from_slice(buf.as_slice()) {
            Some(s) => Ok(Some(BranchName(s))),
            None => Err(Error::Json),
        }
    }
}

} // verus!
