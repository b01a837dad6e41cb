use meltos_tvc::branch::BranchName;
use meltos_tvc::error::Error;
use meltos_tvc::file_system::memory::MemoryFileSystem;
use meltos_tvc::file_system::mock::MockFileSystem;
use meltos_tvc::file_system::{FilePath, FileSystem};
use meltos_tvc::io::atomic::head::{CommitText, HeadIo};
use meltos_tvc::io::atomic::local_commits::LocalCommitsIo;
use meltos_tvc::io::atomic::object::ObjIo;
use meltos_tvc::io::atomic::staging::StagingIo;
use meltos_tvc::io::atomic::work_branch::WorkingIo;
use meltos_tvc::io::bundle::{Bundle, BundleBranch};
use meltos_tvc::io::commit_obj::CommitObjIo;
use meltos_tvc::io::trace_tree::TraceTreeIo;
use meltos_tvc::io::workspace::WorkspaceIo;
use meltos_tvc::object::commit::{CommitHash, CommitObj};
use meltos_tvc::object::delete::DeleteObj;
use meltos_tvc::object::file::FileObj;
use meltos_tvc::object::local_commits::LocalCommitsObj;
use meltos_tvc::object::tree::TreeObj;
use meltos_tvc::object::{Encodable, ObjHash};
use meltos_tvc::operation::checkout::{CheckOutStatus, Checkout};
use meltos_tvc::operation::commit::Commit;
use meltos_tvc::operation::init::Init;
use meltos_tvc::operation::merge::{Merge, MergedStatus};
use meltos_tvc::operation::new_branch::NewBranch;
use meltos_tvc::operation::push::{Push, Pushable};
use meltos_tvc::operation::save::Save;
use meltos_tvc::operation::stage::Stage;
use meltos_tvc::operation::un_stage::UnStage;
use meltos_tvc::operation::unzip::UnZip;

fn init_owner_branch<Fs: FileSystem>(fs: &mut Fs) -> CommitHash {
    Init::new().execute(fs, &BranchName::owner()).unwrap()
}

#[test]
fn local_commits_is_empty_if_not_committed() {
    let fs = MockFileSystem::default();
    let local_commit_objs = CommitObjIo::new()
        .read_local_commits(&fs, &BranchName::owner())
        .unwrap();
    assert_eq!(local_commit_objs, vec![]);
}

#[test]
fn local_commit_count_is_2() {
    let mut fs = MockFileSystem::default();
    init_owner_branch(&mut fs);
    let branch = BranchName::owner();
    let stage = Stage::new();
    let commit = Commit::new();
    let commit_obj = CommitObjIo::new();

    fs.write_file("workspace/hello.txt", b"hello").unwrap();
    stage.execute(&mut fs, &branch, ".").unwrap();
    commit.execute(&mut fs, &branch, "commit text").unwrap();

    fs.write_file("workspace/hello.txt", b"hello2").unwrap();
    stage.execute(&mut fs, &branch, ".").unwrap();
    commit.execute(&mut fs, &branch, "commit text").unwrap();

    let local_commits = commit_obj.read_local_commits(&fs, &branch).unwrap();
    assert_eq!(local_commits.len(), 3);
}

#[test]
fn read_objs_associated_with_all_commits() {
    let mut fs = MockFileSystem::default();
    let null_commit_hash = init_owner_branch(&mut fs);
    let branch = BranchName::owner();
    let stage = Stage::new();
    let trace = TraceTreeIo::new();
    let commit = Commit::new();
    let obj = ObjIo::new();
    let commit_obj = CommitObjIo::new();

    fs.write_file("workspace/hello/hello", b"hello").unwrap();
    stage.execute(&mut fs, &branch, ".").unwrap();
    let commit_hash1 = commit.execute(&mut fs, &branch, "commit text").unwrap();

    fs.write_file("workspace/src/sample", b"sample").unwrap();
    fs.write_file("workspace/t", b"t").unwrap();
    stage.execute(&mut fs, &branch, ".").unwrap();
    let commit_hash2 = commit.execute(&mut fs, &branch, "commit text").unwrap();

    let mut objs = commit_obj
        .read_obj_hashes(&fs, commit_hash2.clone(), &None)
        .unwrap();
    objs.sort();
    let trace_obj = trace.read(&fs, &commit_hash2).unwrap();
    let mut expect = vec![
        null_commit_hash.clone().0,
        commit_hash1.clone().0,
        commit_hash2.clone().0,
        ObjHash::new(b"FILE\0hello"),
        ObjHash::new(b"FILE\0sample"),
        ObjHash::new(b"FILE\0t"),
    ];
    expect.push(obj.read_to_commit(&fs, &null_commit_hash).unwrap().committed_objs_tree);
    expect.push(obj.read_to_commit(&fs, &commit_hash1).unwrap().committed_objs_tree);
    expect.push(obj.read_to_commit(&fs, &commit_hash2).unwrap().committed_objs_tree);
    for (_, o) in trace_obj.0.iter() {
        expect.push(o.clone());
    }
    expect.sort();
    expect.dedup();
    assert_eq!(objs, expect);
}

#[test]
fn read_only_objs_relative_to_local() {
    let mut fs = MockFileSystem::default();
    let branch = BranchName::owner();
    let stage = Stage::new();
    let commit = Commit::new();
    let local_commit = LocalCommitsIo::new();
    init_owner_branch(&mut fs);

    fs.force_write("workspace/hello.txt", b"hello");
    stage.execute(&mut fs, &branch, ".").unwrap();
    commit.execute(&mut fs, &branch, "").unwrap();
    // the local commits are taken to have been pushed
    local_commit
        .write(&mut fs, &LocalCommitsObj::default(), &branch)
        .unwrap();

    fs.force_write("workspace/hello2.txt", b"hello2");
    stage.execute(&mut fs, &branch, ".").unwrap();
    let commit_hash = commit.execute(&mut fs, &branch, "").unwrap();

    let commit_obj_io = CommitObjIo::new();
    let objs = commit_obj_io
        .read_objs_associated_with_local_commits(&fs, &branch)
        .unwrap();
    let traces = TraceTreeIo::new().read(&fs, &commit_hash).unwrap();
    let hello_hash = traces
        .get(&FilePath::from_path("workspace/hello.txt"))
        .unwrap();
    let hello2_hash = traces
        .get(&FilePath::from_path("workspace/hello2.txt"))
        .unwrap();

    assert!(!objs.iter().any(|o| o.hash == hello_hash));
    assert!(objs.iter().any(|o| o.hash == hello2_hash));
}

#[test]
fn fast_merge() {
    let mut fs = MockFileSystem::default();
    init_owner_branch(&mut fs);
    let second = BranchName::from("second");
    Checkout::new().execute(&mut fs, &second).unwrap();
    fs.force_write("workspace/hello.txt", b"hello");
    Stage::new().execute(&mut fs, &second, ".").unwrap();
    Commit::new()
        .execute(&mut fs, &second, "commit text")
        .unwrap();
    fs.delete("workspace/hello.txt").unwrap();
    Checkout::new()
        .execute(&mut fs, &BranchName::owner())
        .unwrap();

    let status = Merge::new()
        .execute_from_branch(&mut fs, second, BranchName::owner())
        .unwrap();
    assert_eq!(status, MergedStatus::FastSource);
    let file = WorkspaceIo::new()
        .read(&fs, &FilePath::from_path("hello.txt"))
        .unwrap();
    assert!(file.is_some());
}

#[test]
fn fast_merge_from_dist() {
    let mut fs = MockFileSystem::default();
    init_owner_branch(&mut fs);
    let branch = BranchName::owner();
    let second = BranchName::from("second");
    Checkout::new().execute(&mut fs, &second).unwrap();
    Checkout::new().execute(&mut fs, &branch).unwrap();
    fs.force_write("workspace/hello.txt", b"hello");
    Stage::new().execute(&mut fs, &branch, ".").unwrap();
    Commit::new()
        .execute(&mut fs, &branch, "commit text")
        .unwrap();

    let status = Merge::new()
        .execute_from_branch(&mut fs, second, BranchName::owner())
        .unwrap();
    assert_eq!(status, MergedStatus::FastDist);
    let file = WorkspaceIo::new()
        .read(&fs, &FilePath::from_path("hello.txt"))
        .unwrap();
    assert!(file.is_some());
}

#[test]
fn success_merged() {
    let mut fs = MockFileSystem::default();
    let b1 = BranchName::owner();
    let b2 = BranchName::from("session");
    let init = Init::new();
    let checkout = Checkout::new();
    init.execute(&mut fs, &b1).unwrap();
    checkout.execute(&mut fs, &b2).unwrap();
    checkout.execute(&mut fs, &b1).unwrap();
    fs.force_write("workspace/hello.txt", b"hello");
    Stage::new().execute(&mut fs, &b2, ".").unwrap();
    Commit::new().execute(&mut fs, &b2, "TEXT").unwrap();

    checkout.execute(&mut fs, &b2).unwrap();
    fs.force_write("workspace/test.txt", b"HELLO");
    Stage::new().execute(&mut fs, &b1, ".").unwrap();
    Commit::new().execute(&mut fs, &b1, "TEXT").unwrap();

    let merge = Merge::new();
    let status = merge.execute_from_branch(&mut fs, b1, b2).unwrap();
    assert!(matches!(status, MergedStatus::Merged));
    assert!(fs.read_file("workspace/hello.txt").unwrap().is_some());
    assert!(fs.read_file("workspace/test.txt").unwrap().is_some());
}

#[test]
fn init() {
    let mut fs = MemoryFileSystem::default();
    Init::new().execute(&mut fs, &BranchName::owner()).unwrap();
}

#[test]
fn failed_init_if_has_been_initialized() {
    let mut fs = MemoryFileSystem::default();
    let branch = BranchName::owner();
    let init = Init::new();
    init.execute(&mut fs, &branch).unwrap();
    assert!(init.execute(&mut fs, &branch).is_err());
}

#[test]
fn init_created_head_file() {
    let mut fs = MemoryFileSystem::default();
    let branch = BranchName::owner();
    Init::new().execute(&mut fs, &branch).unwrap();
    let head_commit_hash = HeadIo::new().try_read(&fs, &BranchName::owner()).unwrap();
    let commit = Commit::new();
    let null_commit = commit.create_null_commit(TreeObj::default().as_meta().unwrap());
    assert_eq!(head_commit_hash, CommitHash(null_commit.as_meta().unwrap().hash));
}

#[test]
fn staged_workspace_files() {
    let mut fs = MemoryFileSystem::default();
    fs.write_sync("workspace/src/test.rs", b"test");
    let branch = BranchName::owner();
    Init::new().execute(&mut fs, &branch).unwrap();
    assert!(ObjIo::new()
        .read(&fs, &ObjHash::new(b"FILE\0test"))
        .unwrap()
        .is_some());
}

#[test]
fn init_records_the_working_branch() {
    let mut fs = MemoryFileSystem::default();
    Init::new().execute(&mut fs, &BranchName::from("main")).unwrap();
    assert_eq!(WorkingIo::new().try_read(&fs).unwrap(), BranchName::from("main"));
    assert_eq!(BranchName::working(&fs).unwrap(), BranchName::from("main"));
}

#[test]
fn copy_head_file() {
    let mut fs = MemoryFileSystem::default();
    let null_commit_hash = init_owner_branch(&mut fs);
    NewBranch::new()
        .execute(&mut fs, BranchName::owner(), BranchName::from("second"))
        .unwrap();
    let head = HeadIo::new().try_read(&fs, &BranchName::from("second")).unwrap();
    assert_eq!(head, null_commit_hash);
}

#[test]
fn new_branch_from_missing_branch_fails() {
    let mut fs = MemoryFileSystem::default();
    assert!(NewBranch::new()
        .execute(&mut fs, BranchName::from("none"), BranchName::from("second"))
        .is_err());
}

#[test]
fn failed_if_never_staged() {
    let mut fs = MemoryFileSystem::default();
    let branch = BranchName::owner();
    match Commit::new().execute(&mut fs, &branch, "") {
        Err(Error::NotfoundStages) => {}
        _ => panic!("expected NotfoundStages"),
    }
}

#[test]
fn reset_staging_after_committed() {
    let mut fs = MemoryFileSystem::default();
    init_owner_branch(&mut fs);
    let branch = BranchName::owner();
    fs.write_file("workspace/hello", b"hello").unwrap();
    Stage::new().execute(&mut fs, &branch, ".").unwrap();
    Commit::new().execute(&mut fs, &branch, "test").unwrap();
    let staging_tree = StagingIo::new().read(&fs).unwrap().unwrap();
    assert_eq!(staging_tree.len(), 0);
}

#[test]
fn update_head_commit_hash() {
    let mut fs = MemoryFileSystem::default();
    let branch = BranchName::owner();
    let null_commit_hash = init_owner_branch(&mut fs);
    fs.write_file("workspace/hello", b"hello").unwrap();
    Stage::new().execute(&mut fs, &branch, ".").unwrap();
    Commit::new().execute(&mut fs, &branch, "test").unwrap();

    let head_hash = HeadIo::new().try_read(&fs, &BranchName::owner()).unwrap();
    let commit = ObjIo::new().read_to_commit(&fs, &head_hash).unwrap();

    let mut tree = TreeObj::default();
    tree.insert(FilePath::from_path("/workspace/hello"), ObjHash::new(b"FILE\0hello"));
    assert_eq!(
        commit,
        CommitObj {
            parents: vec![null_commit_hash],
            text: CommitText::from("test"),
            committed_objs_tree: tree.as_meta().unwrap().hash,
        }
    );
}

#[test]
fn append_to_local_commit() {
    let mut fs = MemoryFileSystem::default();
    let branch = BranchName::owner();
    let null_commit_hash = init_owner_branch(&mut fs);
    fs.write_file("workspace/hello", b"hello").unwrap();
    Stage::new().execute(&mut fs, &branch, ".").unwrap();
    let commit_hash = Commit::new().execute(&mut fs, &branch, "test").unwrap();
    let local = LocalCommitsIo::new().read(&fs, &branch).unwrap().unwrap();
    assert_eq!(local, LocalCommitsObj(vec![null_commit_hash, commit_hash]))
}

#[test]
fn exists_2_local_commits() {
    let mut fs = MemoryFileSystem::default();
    let branch = BranchName::owner();
    let null_commit_hash = init_owner_branch(&mut fs);
    let stage = Stage::new();
    let commit = Commit::new();
    fs.write_file("workspace/hello", b"hello").unwrap();
    stage.execute(&mut fs, &branch, ".").unwrap();
    let commit_hash1 = commit.execute(&mut fs, &branch, "1").unwrap();
    fs.write_file("workspace/hello2", b"hello2").unwrap();
    stage.execute(&mut fs, &branch, ".").unwrap();
    let commit_hash2 = commit.execute(&mut fs, &branch, "2").unwrap();

    let local = LocalCommitsIo::new().read(&fs, &branch).unwrap().unwrap();
    assert_eq!(
        local,
        LocalCommitsObj(vec![null_commit_hash, commit_hash1, commit_hash2])
    )
}

#[test]
fn create_obj_file_after_staged() {
    let mut fs = MemoryFileSystem::default();
    init_owner_branch(&mut fs);
    let branch = BranchName::owner();
    fs.write_file("workspace/hello", b"hello").unwrap();
    fs.write_file("workspace/src/main.rs", "dasds日本語".as_bytes()).unwrap();
    Stage::new().execute(&mut fs, &branch, ".").unwrap();
    let obj = ObjIo::new();
    let obj1 = obj
        .read_obj(&fs, &ObjHash::new(b"FILE\0hello"))
        .unwrap()
        .unwrap()
        .file()
        .unwrap()
        .0;
    assert_eq!(obj1, b"hello");
    let obj2 = obj
        .read_obj(&fs, &ObjHash::new("FILE\0dasds日本語".as_bytes()))
        .unwrap()
        .unwrap()
        .file()
        .unwrap()
        .0;
    assert_eq!(obj2, "dasds日本語".as_bytes());
}

#[test]
fn create_delete_obj() {
    let mut fs = MemoryFileSystem::default();
    init_owner_branch(&mut fs);
    let branch = BranchName::owner();
    let stage = Stage::new();
    let commit = Commit::new();
    fs.write_file("workspace/hello.txt", b"hello").unwrap();
    stage.execute(&mut fs, &branch, "hello.txt").unwrap();
    commit.execute(&mut fs, &branch, "add hello.txt").unwrap();
    fs.delete("workspace/hello.txt").unwrap();
    stage.execute(&mut fs, &branch, "hello.txt").unwrap();
    commit.execute(&mut fs, &branch, "delete hello.txt").unwrap();

    let hello_hash = FileObj(b"hello".to_vec()).as_meta().unwrap().hash;
    let delete_hello = DeleteObj(hello_hash).as_meta().unwrap();
    let buf = ObjIo::new()
        .read_obj(&fs, &delete_hello.hash)
        .unwrap()
        .unwrap()
        .as_meta()
        .unwrap()
        .buf;
    assert_eq!(buf, delete_hello.buf);
}

#[test]
fn no_moved_if_not_changed_file() {
    let mut fs = MemoryFileSystem::default();
    init_owner_branch(&mut fs);
    let branch = BranchName::owner();
    let stage = Stage::new();
    fs.write_file("workspace/hello.txt", b"hello").unwrap();
    stage.execute(&mut fs, &branch, ".").unwrap();
    match stage.execute(&mut fs, &branch, ".") {
        Err(Error::ChangedFileNotExits) => {}
        _ => panic!("expected ChangedFileNotExits"),
    }
}

#[test]
fn deleted_hello_from_staging() {
    let mut fs = MemoryFileSystem::default();
    let branch = BranchName::owner();
    Init::new().execute(&mut fs, &branch).unwrap();
    fs.write_sync("workspace/hello.txt", b"hello");
    Stage::new().execute(&mut fs, &branch, "hello.txt").unwrap();
    let key = FilePath::from_path("/workspace/hello.txt");
    assert!(StagingIo::new().read(&fs).unwrap().unwrap().contains_key(&key));
    UnStage::new().execute(&mut fs, "/workspace/hello.txt").unwrap();
    assert!(!StagingIo::new().read(&fs).unwrap().unwrap().contains_key(&key));
}

#[test]
fn delete_all_files_from_staging() {
    let mut fs = MemoryFileSystem::default();
    let branch = BranchName::owner();
    Init::new().execute(&mut fs, &branch).unwrap();
    fs.write_sync("workspace/hello.txt", b"hello");
    fs.write_sync("workspace/hello2.txt", b"hello");
    Stage::new().execute(&mut fs, &branch, ".").unwrap();
    assert_eq!(StagingIo::new().read(&fs).unwrap().unwrap().len(), 2);
    UnStage::new().execute_all(&mut fs).unwrap();
    assert_eq!(StagingIo::new().read(&fs).unwrap().unwrap().len(), 0);
}

#[test]
fn unzip_success_if_committed() {
    let mut fs = MemoryFileSystem::default();
    init_owner_branch(&mut fs);
    let branch = BranchName::owner();
    fs.write_file("/workspace/hello", b"hello").unwrap();
    Stage::new().execute(&mut fs, &branch, "hello").unwrap();
    Commit::new().execute(&mut fs, &branch, "commit text").unwrap();
    fs.delete("/workspace/hello").unwrap();

    UnZip::new().execute(&mut fs, &branch).unwrap();
    assert_eq!(fs.try_read_file("/workspace/hello").unwrap(), b"hello");
}

#[test]
fn not_checkout_if_already_working() {
    let mut fs = MemoryFileSystem::default();
    init_owner_branch(&mut fs);
    let checked = Checkout::new().execute(&mut fs, &BranchName::owner()).unwrap();
    assert_eq!(checked, CheckOutStatus::AlreadyCheckedOut);
    let working = WorkingIo::new().try_read(&fs).unwrap();
    assert_eq!(BranchName::owner(), working);
}

#[test]
fn checkout_if_exists_local() {
    let mut fs = MemoryFileSystem::default();
    init_owner_branch(&mut fs);
    let second = BranchName::from("second");
    NewBranch::new()
        .execute(&mut fs, BranchName::owner(), second.clone())
        .unwrap();
    assert_eq!(
        Checkout::new().execute(&mut fs, &second).unwrap(),
        CheckOutStatus::Checkout
    );
    let working = WorkingIo::new().try_read(&fs).unwrap();
    assert_eq!(second, working);
}

#[test]
fn create_new_branch_if_not_exists() {
    let mut fs = MemoryFileSystem::default();
    init_owner_branch(&mut fs);
    let second = BranchName::from("second");
    assert_eq!(
        Checkout::new().execute(&mut fs, &second).unwrap(),
        CheckOutStatus::NewBranch
    );
    let working = WorkingIo::new().try_read(&fs).unwrap();
    assert_eq!(second, working);
}

#[test]
fn remote_hello_txt() {
    let mut fs = MemoryFileSystem::default();
    init_owner_branch(&mut fs);
    let checkout = Checkout::new();
    let b1 = BranchName::owner();
    let b2 = BranchName::from("session");
    checkout.execute(&mut fs, &b2).unwrap();
    checkout.execute(&mut fs, &b1).unwrap();
    fs.write_sync("workspace/hello.txt", b"hello");
    Stage::new().execute(&mut fs, &b1, "hello.txt").unwrap();
    Commit::new().execute(&mut fs, &b1, "commit text").unwrap();
    checkout.execute(&mut fs, &b2).unwrap();
    let hello_txt = fs.read_file("workspace/hello.txt").unwrap();
    assert!(hello_txt.is_none());
}

#[derive(Debug, Default)]
struct MockRemoteClient {
    bundle: Option<Bundle>,
}

impl Pushable<()> for MockRemoteClient {
    fn push(&mut self, bundle: Bundle) -> Result<(), String> {
        self.bundle.replace(bundle);
        Ok(())
    }
}

struct FailingRemote;

impl Pushable<()> for FailingRemote {
    fn push(&mut self, _bundle: Bundle) -> Result<(), String> {
        Err("offline".to_string())
    }
}

#[test]
fn failed_if_no_commit() {
    let mut fs = MockFileSystem::default();
    match Push::new().execute(&mut fs, BranchName::owner(), &mut MockRemoteClient::default()) {
        Err(Error::NotfoundLocalCommits) => {}
        _ => panic!("expected NotfoundLocalCommits"),
    }
}

#[test]
fn push_success_if_committed() {
    let mut fs = MockFileSystem::default();
    init_owner_branch(&mut fs);
    let branch = BranchName::owner();
    fs.write_file("workspace/hello.txt", b"hello").unwrap();
    Stage::new().execute(&mut fs, &branch, ".").unwrap();
    Commit::new().execute(&mut fs, &branch, "commit text").unwrap();
    assert!(Push::new()
        .execute(&mut fs, branch, &mut MockRemoteClient::default())
        .is_ok());
}

#[test]
fn local_commits_is_cleared_if_succeed() {
    let mut fs = MockFileSystem::default();
    init_owner_branch(&mut fs);
    let branch = BranchName::owner();
    fs.write_file("workspace/hello", b"hello").unwrap();
    Stage::new().execute(&mut fs, &branch, ".").unwrap();
    Commit::new().execute(&mut fs, &branch, "commit text").unwrap();
    Push::new()
        .execute(&mut fs, branch.clone(), &mut MockRemoteClient::default())
        .unwrap();
    assert_eq!(CommitObjIo::new().read_local_commits(&fs, &branch).unwrap().len(), 0);
}

#[test]
fn local_commits_kept_if_push_fails() {
    let mut fs = MockFileSystem::default();
    init_owner_branch(&mut fs);
    let branch = BranchName::owner();
    match Push::new().execute(&mut fs, branch.clone(), &mut FailingRemote) {
        Err(Error::FailedConnectServer(message)) => assert_eq!(message, "offline"),
        _ => panic!("expected FailedConnectServer"),
    }
    assert_eq!(CommitObjIo::new().read_local_commits(&fs, &branch).unwrap().len(), 1);
}

#[test]
fn push_param() {
    let mut fs = MockFileSystem::default();
    init_owner_branch(&mut fs);
    let branch = BranchName::owner();
    fs.write_file("workspace/hello.txt", b"hello").unwrap();
    Stage::new().execute(&mut fs, &branch, ".").unwrap();
    Commit::new().execute(&mut fs, &branch, "commit text").unwrap();
    let mut remote = MockRemoteClient::default();
    Push::new().execute(&mut fs, branch.clone(), &mut remote).unwrap();
    let bundle = remote.bundle.unwrap();
    let commits = &bundle.branches[0].commits;
    assert_eq!(
        &commits[commits.len() - 1],
        &HeadIo::new().try_read(&fs, &branch).unwrap()
    );
}

#[test]
fn save_created_head_file() {
    let mut fs = MockFileSystem::default();
    let head = CommitHash(ObjHash::new(b"commit hash"));
    let bundle = Bundle {
        branches: vec![BundleBranch {
            branch_name: BranchName::owner(),
            commits: vec![head.clone()],
        }],
        traces: Vec::with_capacity(0),
        objs: Vec::with_capacity(0),
    };
    Save::new().execute(&mut fs, bundle).unwrap();
    let actual = fs.try_read_file(".meltos/refs/heads/owner").unwrap();
    assert_eq!(actual, head.0.encode());
}

#[test]
fn merge_of_unrelated_histories_is_refused() {
    let mut fs = MemoryFileSystem::default();
    init_owner_branch(&mut fs);
    let tree = TreeObj::new();
    let tree_hash = tree.as_meta().unwrap().hash;
    ObjIo::new().write_obj(&mut fs, &tree).unwrap();
    let other = CommitObj {
        parents: vec![],
        text: CommitText("another history".to_string()),
        committed_objs_tree: tree_hash,
    };
    let other_hash = CommitHash(other.as_meta().unwrap().hash);
    ObjIo::new().write_obj(&mut fs, &other).unwrap();
    let result = Merge::new().execute(&mut fs, other_hash, BranchName::owner());
    assert!(matches!(result, Err(Error::UnrelatedHistories)));
}

#[test]
fn merge_into_a_branch_without_head_fails() {
    let mut fs = MemoryFileSystem::default();
    let head = init_owner_branch(&mut fs);
    let result = Merge::new().execute(&mut fs, head, BranchName::from("nothing"));
    assert!(matches!(result, Err(Error::NotfoundHead(_))));
}

#[test]
fn init_twice_is_refused() {
    let mut fs = MemoryFileSystem::default();
    init_owner_branch(&mut fs);
    let result = Init::new().execute(&mut fs, &BranchName::owner());
    assert!(matches!(result, Err(Error::RepositoryAlreadyInitialized)));
}

#[test]
fn push_bundle_fails_without_local_commits() {
    let fs = MemoryFileSystem::default();
    let r = Push::new().create_push_bundle(&fs, BranchName::owner());
    assert!(matches!(r, Err(Error::NotfoundLocalCommits)));
}

#[test]
fn push_bundle_carries_local_commits_and_traces() {
    let mut fs = MemoryFileSystem::default();
    let branch = BranchName::owner();
    let init = Init::new().execute(&mut fs, &branch).unwrap();
    fs.write_file("workspace/hello", b"hello").unwrap();
    Stage::new().execute(&mut fs, &branch, ".").unwrap();
    let second = Commit::new().execute(&mut fs, &branch, "second").unwrap();
    let bundle = Push::new().create_push_bundle(&fs, branch.clone()).unwrap();
    assert_eq!(bundle.branches.len(), 1);
    assert_eq!(bundle.branches[0].commits, vec![init.clone(), second.clone()]);
    assert_eq!(bundle.traces.len(), 2);
    assert!(bundle.objs.iter().any(|o| o.hash == second.0));
    assert!(bundle.objs.iter().any(|o| o.hash == init.0));
}

#[test]
fn staged_file_object_is_stored() {
    let mut fs = MemoryFileSystem::default();
    let branch = BranchName::owner();
    Init::new().execute(&mut fs, &branch).unwrap();
    fs.write_file("workspace/a.txt", b"staged").unwrap();
    Stage::new().execute(&mut fs, &branch, ".").unwrap();
    let staged = StagingIo::new().read(&fs).unwrap().unwrap();
    let hash = staged.get(&FilePath("/workspace/a.txt".to_string())).unwrap();
    let obj = ObjIo::new().read_to_file(&fs, &hash).unwrap();
    assert_eq!(obj, FileObj(b"staged".to_vec()));
}

#[test]
fn committed_object_reads_back() {
    let mut fs = MemoryFileSystem::default();
    let branch = BranchName::owner();
    let init = Init::new().execute(&mut fs, &branch).unwrap();
    fs.write_file("workspace/a.txt", b"one").unwrap();
    Stage::new().execute(&mut fs, &branch, ".").unwrap();
    let h = Commit::new().execute(&mut fs, &branch, "text").unwrap();
    let c = ObjIo::new().read_to_commit(&fs, &h).unwrap();
    assert_eq!(c.parents, vec![init]);
    assert_eq!(c.text, CommitText("text".to_string()));
}

#[test]
fn init_on_fresh_store_succeeds_on_mock() {
    let mut fs = MockFileSystem::default();
    let h = Init::new().execute(&mut fs, &BranchName::owner()).unwrap();
    assert_eq!(HeadIo::new().read(&fs, &BranchName::owner()).unwrap(), Some(h));
}

#[test]
fn obj_hashes_of_missing_commit_name_it() {
    let fs = MemoryFileSystem::default();
    let from = CommitHash(ObjHash::new(b"no such commit"));
    let r = CommitObjIo::new().read_obj_hashes(&fs, from.clone(), &None);
    match r {
        Err(Error::NotfoundObj(h)) => assert_eq!(h, from.0),
        _ => panic!("expected a missing object"),
    }
}

#[test]
fn local_commits_read_back_empty_after_reset() {
    let mut fs = MemoryFileSystem::default();
    let branch = BranchName::owner();
    Init::new().execute(&mut fs, &branch).unwrap();
    let io = CommitObjIo::new();
    assert_eq!(io.read_local_commits(&fs, &branch).unwrap().len(), 1);
    io.reset_local_commits(&mut fs, &branch).unwrap();
    assert_eq!(io.read_local_commits(&fs, &branch).unwrap().len(), 0);
}
