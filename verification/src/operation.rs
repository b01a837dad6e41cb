//! The operations of the repository.

use vstd::prelude::*;

use crate::io::atomic::local_commits::LocalCommitsIo;
use crate::io::atomic::work_branch::WorkingIo;
use crate::io::bundle::BundleIo;
use crate::operation::checkout::Checkout;
use crate::operation::commit::Commit;
use crate::operation::init::Init;
use crate::operation::merge::Merge;
use crate::operation::new_branch::NewBranch;
use crate::operation::push::Push;
use crate::operation::save::Save;
use crate::operation::stage::Stage;
use crate::operation::un_stage::UnStage;
use crate::operation::unzip::UnZip;

pub mod checkout;
pub mod commit;
pub mod init;
pub mod merge;
pub mod new_branch;
pub mod push;
pub mod save;
pub mod stage;
pub mod un_stage;
pub mod unzip;

verus! {

/// Every operation of the repository in one place.
pub struct Operations {
    pub init: Init,
    pub stage: Stage,
    pub un_stage: UnStage,
    pub commit: Commit,
    pub push: Push,
    pub save: Save,
    pub bundle: BundleIo,
    pub checkout: Checkout,
    pub unzip: UnZip,
    pub merge: Merge,
    pub new_branch: NewBranch,
    pub local_commits: LocalCommitsIo,
    pub working: WorkingIo,
}

impl Operations {
    pub fn new() -> (r: Operations) {
        Operations {
            init: Init::new(),
            stage: Stage::new(),
            un_stage: UnStage::new(),
            commit: Commit::new(),
            push: Push::new(),
            save: Save::new(),
            bundle: BundleIo::new(),
            checkout: Checkout::new(),
            unzip: UnZip::new(),
            merge: Merge::new(),
            new_branch: NewBranch::new(),
            local_commits: LocalCommitsIo::new(),
            working: WorkingIo::new(),
        }
    }
}

} // verus!
