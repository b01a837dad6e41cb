use meltos_tvc::branch::BranchName;
use meltos_tvc::file_system::memory::MemoryFileSystem;
use meltos_tvc::file_system::mock::MockFileSystem;
use meltos_tvc::file_system::{FilePath, FileSystem};
use meltos_tvc::io::atomic::head::HeadIo;
use meltos_tvc::io::atomic::local_commits::LocalCommitsIo;
use meltos_tvc::io::atomic::object::ObjIo;
use meltos_tvc::io::atomic::staging::StagingIo;
use meltos_tvc::io::atomic::trace::TraceIo;
use meltos_tvc::io::bundle::{Bundle, BundleBranch, BundleIo, BundleObject, BundleTrace};
use meltos_tvc::io::commit_obj::CommitObjIo;
use meltos_tvc::io::trace_tree::TraceTreeIo;
use meltos_tvc::io::workspace::{ChangeFile, WorkspaceIo};
use meltos_tvc::object::commit::CommitHash;
use meltos_tvc::object::delete::DeleteObj;
use meltos_tvc::object::file::FileObj;
use meltos_tvc::object::tree::TreeObj;
use meltos_tvc::object::{CompressedBuf, Encodable, ObjHash};
use meltos_tvc::operation::checkout::{CheckOutStatus, Checkout};
use meltos_tvc::operation::commit::Commit;
use meltos_tvc::operation::init::Init;
use meltos_tvc::operation::merge::{Merge, MergedStatus};
use meltos_tvc::operation::save::Save;
use meltos_tvc::operation::stage::Stage;
use meltos_tvc::operation::unzip::UnZip;

fn file_hash(content: &[u8]) -> ObjHash {
    FileObj(content.to_vec()).as_meta().unwrap().hash
}

#[test]
fn staging_records_changed_files_and_deletes() {
    let mut fs = MemoryFileSystem::default();
    let branch = BranchName::owner();
    Init::new().execute(&mut fs, &branch).unwrap();
    fs.write_sync("/workspace/a.txt", b"a");
    fs.write_sync("/workspace/b.txt", b"b");
    Stage::new().execute(&mut fs, &branch, ".").unwrap();
    Commit::new().execute(&mut fs, &branch, "first").unwrap();

    fs.write_sync("/workspace/a.txt", b"a2");
    fs.delete("/workspace/b.txt").unwrap();
    Stage::new().execute(&mut fs, &branch, ".").unwrap();
    let staged = StagingIo::new().read(&fs).unwrap().unwrap();
    assert_eq!(staged.len(), 2);
    assert_eq!(staged.get(&FilePath::from_path("/workspace/a.txt")), Some(file_hash(b"a2")));
    let delete_b = DeleteObj(file_hash(b"b")).as_meta().unwrap().hash;
    assert_eq!(staged.get(&FilePath::from_path("/workspace/b.txt")), Some(delete_b));
}

#[test]
fn staging_only_below_the_given_path() {
    let mut fs = MemoryFileSystem::default();
    let branch = BranchName::owner();
    Init::new().execute(&mut fs, &branch).unwrap();
    fs.write_sync("/workspace/src/a.txt", b"a");
    fs.write_sync("/workspace/b.txt", b"b");
    Stage::new().execute(&mut fs, &branch, "src").unwrap();
    let staged = StagingIo::new().read(&fs).unwrap().unwrap();
    assert_eq!(staged.len(), 1);
    assert!(staged.contains_key(&FilePath::from_path("/workspace/src/a.txt")));
}

#[test]
fn commit_has_the_former_head_as_parent_and_traces_staged_files() {
    let mut fs = MemoryFileSystem::default();
    let branch = BranchName::owner();
    let first = Init::new().execute(&mut fs, &branch).unwrap();
    fs.write_sync("/workspace/a.txt", b"a");
    Stage::new().execute(&mut fs, &branch, ".").unwrap();
    let second = Commit::new().execute(&mut fs, &branch, "second").unwrap();

    let commit = CommitObjIo::new().read(&fs, &second.0).unwrap();
    assert_eq!(commit.parents, vec![first]);
    assert_eq!(HeadIo::new().try_read(&fs, &branch).unwrap(), second);
    let trace = TraceTreeIo::new().read(&fs, &second).unwrap();
    assert_eq!(trace.get(&FilePath::from_path("/workspace/a.txt")), Some(file_hash(b"a")));
    assert_eq!(StagingIo::new().read(&fs).unwrap().unwrap().len(), 0);
    let local = LocalCommitsIo::new().try_read(&fs, &branch).unwrap();
    assert_eq!(local.0.last(), Some(&second));
}

#[test]
fn trace_tree_read_after_write() {
    let mut fs = MemoryFileSystem::default();
    let mut tree = TreeObj::new();
    tree.insert(FilePath::from_path("/workspace/x"), ObjHash::new(b"x"));
    let c = CommitHash(ObjHash::new(b"commit"));
    TraceTreeIo::new().write(&mut fs, &tree, &c).unwrap();
    assert_eq!(TraceTreeIo::new().read(&fs, &c).unwrap(), tree);
}

#[test]
fn head_write_leaves_other_data() {
    let mut fs = MemoryFileSystem::default();
    fs.write_sync(".meltos/objects/abc", b"obj");
    fs.write_sync("/workspace/a.txt", b"a");
    HeadIo::new().write(&mut fs, &BranchName::from("b"), &CommitHash(ObjHash::new(b"c"))).unwrap();
    assert_eq!(fs.read_file(".meltos/objects/abc").unwrap(), Some(b"obj".to_vec()));
    assert_eq!(fs.read_file("/workspace/a.txt").unwrap(), Some(b"a".to_vec()));
}

#[test]
fn unzip_restores_the_traced_files_only() {
    let mut fs = MemoryFileSystem::default();
    let branch = BranchName::owner();
    Init::new().execute(&mut fs, &branch).unwrap();
    fs.write_sync("/workspace/a.txt", b"a");
    Stage::new().execute(&mut fs, &branch, ".").unwrap();
    Commit::new().execute(&mut fs, &branch, "a").unwrap();
    fs.write_sync("/workspace/untracked.txt", b"u");
    fs.delete("/workspace/a.txt").unwrap();
    UnZip::new().execute(&mut fs, &branch).unwrap();
    assert_eq!(fs.read_file("/workspace/a.txt").unwrap(), Some(b"a".to_vec()));
    assert_eq!(fs.read_file("/workspace/untracked.txt").unwrap(), None);
}

#[test]
fn checkout_of_a_remote_branch_takes_its_head() {
    let mut fs = MemoryFileSystem::default();
    let branch = BranchName::owner();
    let first = Init::new().execute(&mut fs, &branch).unwrap();
    let remote = BranchName::from("remote");
    HeadIo::new().write_remote(&mut fs, &remote, &first).unwrap();
    let status = Checkout::new().execute(&mut fs, &remote).unwrap();
    assert_eq!(status, CheckOutStatus::Checkout);
    assert_eq!(HeadIo::new().try_read(&fs, &remote).unwrap(), first);
}

#[test]
fn merge_commit_has_the_source_as_parent() {
    let mut fs = MockFileSystem::default();
    let b1 = BranchName::owner();
    let b2 = BranchName::from("session");
    Init::new().execute(&mut fs, &b1).unwrap();
    Checkout::new().execute(&mut fs, &b2).unwrap();
    fs.force_write("workspace/one.txt", b"1");
    Stage::new().execute(&mut fs, &b2, ".").unwrap();
    Commit::new().execute(&mut fs, &b2, "one").unwrap();
    Checkout::new().execute(&mut fs, &b1).unwrap();
    fs.force_write("workspace/two.txt", b"2");
    Stage::new().execute(&mut fs, &b1, ".").unwrap();
    let source = Commit::new().execute(&mut fs, &b1, "two").unwrap();

    let status = Merge::new().execute(&mut fs, source.clone(), b2.clone()).unwrap();
    assert_eq!(status, MergedStatus::Merged);
    let head = HeadIo::new().try_read(&fs, &b2).unwrap();
    let commit = CommitObjIo::new().read(&fs, &head.0).unwrap();
    assert_eq!(commit.parents, vec![source.clone()]);
    assert_eq!(commit.text.0, format!("merged {} to session", source.0 .0));
}

#[test]
fn changed_files_reports_each_change_once() {
    let mut fs = MemoryFileSystem::default();
    let branch = BranchName::owner();
    Init::new().execute(&mut fs, &branch).unwrap();
    fs.write_sync("/workspace/kept.txt", b"k");
    fs.write_sync("/workspace/changed.txt", b"c");
    fs.write_sync("/workspace/gone.txt", b"g");
    Stage::new().execute(&mut fs, &branch, ".").unwrap();
    let head = Commit::new().execute(&mut fs, &branch, "all").unwrap();
    fs.write_sync("/workspace/changed.txt", b"c2");
    fs.delete("/workspace/gone.txt").unwrap();
    fs.write_sync("/workspace/new.txt", b"n");

    let trace = TraceTreeIo::new().read(&fs, &head).unwrap();
    let changes = WorkspaceIo::new().changed_files(&fs, trace).unwrap();
    assert_eq!(changes.len(), 3);
    let kind = |p: &str| {
        changes
            .iter()
            .find(|m| m.path.0 == p)
            .map(|m| match m.change {
                ChangeFile::Create(_) => "create",
                ChangeFile::Update(_) => "update",
                ChangeFile::Delete => "delete",
            })
    };
    assert_eq!(kind("/workspace/changed.txt"), Some("update"));
    assert_eq!(kind("/workspace/gone.txt"), Some("delete"));
    assert_eq!(kind("/workspace/new.txt"), Some("create"));
    assert_eq!(kind("/workspace/kept.txt"), None);
}

#[test]
fn total_objs_size_sums_the_stored_objects() {
    let mut fs = MemoryFileSystem::default();
    fs.write_sync(".meltos/objects/a", b"123");
    fs.write_sync(".meltos/objects/b", b"45");
    assert_eq!(ObjIo::new().total_objs_size(&fs).unwrap(), 5);
}

#[test]
fn save_writes_objects_heads_and_traces_in_turn() {
    let mut fs = MemoryFileSystem::default();
    let c1 = CommitHash(ObjHash::new(b"1"));
    let c2 = CommitHash(ObjHash::new(b"2"));
    let bundle = Bundle {
        objs: vec![BundleObject { hash: ObjHash::new(b"o"), compressed_buf: CompressedBuf(b"z".to_vec()) }],
        traces: vec![BundleTrace { commit_hash: c2.clone(), obj_hash: ObjHash::new(b"t") }],
        branches: vec![BundleBranch { branch_name: BranchName::from("x"), commits: vec![c1, c2.clone()] }],
    };
    Save::new().execute(&mut fs, bundle).unwrap();
    assert_eq!(HeadIo::new().try_read(&fs, &BranchName::from("x")).unwrap(), c2.clone());
    assert_eq!(TraceIo::new().read(&fs, &c2).unwrap(), ObjHash::new(b"t"));
    assert_eq!(ObjIo::new().read(&fs, &ObjHash::new(b"o")).unwrap(), Some(CompressedBuf(b"z".to_vec())));
    let created = BundleIo::new().create(&fs).unwrap();
    assert_eq!(created.branches.len(), 1);
    assert_eq!(created.traces.len(), 1);
    assert_eq!(created.objs.len(), 1);
}
