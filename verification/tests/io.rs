use meltos_tvc::branch::BranchName;
use meltos_tvc::file_system::memory::MemoryFileSystem;
use meltos_tvc::file_system::mock::MockFileSystem;
use meltos_tvc::file_system::{FilePath, FileSystem};
use meltos_tvc::io::atomic::head::HeadIo;
use meltos_tvc::io::atomic::local_commits::LocalCommitsIo;
use meltos_tvc::io::atomic::object::ObjIo;
use meltos_tvc::io::atomic::trace::TraceIo;
use meltos_tvc::io::atomic::work_branch::WorkingIo;
use meltos_tvc::io::bundle::{Bundle, BundleIo, BundleObject};
use meltos_tvc::io::commit_hashes::CommitHashIo;
use meltos_tvc::io::workspace::WorkspaceIo;
use meltos_tvc::object::commit::CommitHash;
use meltos_tvc::object::file::FileObj;
use meltos_tvc::object::local_commits::LocalCommitsObj;
use meltos_tvc::object::{CompressedBuf, Encodable, Obj, ObjHash, ObjMeta};
use meltos_tvc::operation::checkout::Checkout;
use meltos_tvc::operation::commit::Commit;
use meltos_tvc::operation::init::Init;
use meltos_tvc::operation::new_branch::NewBranch;
use meltos_tvc::operation::stage::Stage;

fn init_owner_branch<Fs: FileSystem>(fs: &mut Fs) -> CommitHash {
    Init::new().execute(fs, &BranchName::owner()).unwrap()
}

#[test]
fn append_one_commit() {
    let hash = CommitHash(ObjHash::new(b"commit hash"));
    let branch_name = BranchName::owner();
    let mut fs = MemoryFileSystem::default();
    let io = LocalCommitsIo::new();
    io.append(&mut fs, hash.clone(), &branch_name).unwrap();
    let local_commits = io.read(&fs, &branch_name).unwrap().unwrap();
    assert_eq!(local_commits, LocalCommitsObj(vec![hash]));
}

#[test]
fn object_write_object_file() {
    let buf = b"hello world!";
    let mut fs = MemoryFileSystem::default();
    fs.write_sync("workspace/test/hello.txt", buf);

    let io = ObjIo::new();
    let mut objs = WorkspaceIo::new().convert_to_objs(&fs, "test/hello.txt").unwrap();
    let (_, file_obj) = objs.next(&fs).unwrap().unwrap();
    io.write_obj(&mut fs, &Obj::File(file_obj)).unwrap();

    let hello_meta = ObjMeta::compress(b"FILE\0hello world!".to_vec()).unwrap();
    let hello_buf = fs
        .try_read_file(&format!(".meltos/objects/{}", ObjHash::new(b"FILE\0hello world!").0))
        .unwrap();
    assert_eq!(hello_buf, hello_meta.compressed_buf.0);
}

#[test]
fn read_obj() {
    let mut fs = MemoryFileSystem::default();
    let io = ObjIo::new();
    let obj = ObjMeta::compress(b"FILE\0hello world!".to_vec()).unwrap();
    io.write_obj(&mut fs, &FileObj::decode(b"FILE\0hello world!").unwrap())
        .unwrap();
    assert_eq!(io.try_read_obj(&fs, &obj.hash).unwrap().as_meta().unwrap(), obj);
}

#[test]
fn read_missing_obj_fails() {
    let fs = MemoryFileSystem::default();
    assert!(ObjIo::new().read_obj(&fs, &ObjHash::new(b"x")).unwrap().is_none());
    match ObjIo::new().try_read_obj(&fs, &ObjHash::new(b"x")) {
        Err(meltos_tvc::error::Error::NotfoundObj(h)) => assert_eq!(h, ObjHash::new(b"x")),
        _ => panic!("expected NotfoundObj"),
    }
}

#[test]
fn read_all_traces() {
    let mut fs = MemoryFileSystem::default();
    init_owner_branch(&mut fs);
    let branch = BranchName::owner();
    let stage = Stage::new();
    let commit = Commit::new();

    fs.write_file("/workspace/hello.txt", b"hello").unwrap();
    stage.execute(&mut fs, &branch, ".").unwrap();
    let commit_hash1 = commit.execute(&mut fs, &branch, "text").unwrap();

    fs.delete("/workspace/hello.txt").unwrap();
    stage.execute(&mut fs, &branch, ".").unwrap();
    let commit_hash2 = commit.execute(&mut fs, &branch, "text").unwrap();

    let traces = TraceIo::new().read_all(&fs).unwrap();
    assert_eq!(traces.len(), 3);
    assert!(traces.iter().any(|trace| trace.commit_hash == commit_hash1));
    assert!(traces.iter().any(|trace| trace.commit_hash == commit_hash2));
}

#[test]
fn read_head() {
    let mut fs = MemoryFileSystem::default();
    let null_commit_hash = init_owner_branch(&mut fs);
    let bundle = BundleIo::new().create(&fs).unwrap();
    assert_eq!(bundle.branches.len(), 1);
    assert_eq!(&bundle.branches[0].branch_name, &BranchName::owner());
    assert_eq!(&bundle.branches[0].commits[0], &null_commit_hash);
}

#[test]
fn read_2_heads() {
    let mut fs = MemoryFileSystem::default();
    let null_commit = init_owner_branch(&mut fs);
    NewBranch::new()
        .execute(&mut fs, BranchName::owner(), BranchName::from("branch2"))
        .unwrap();

    let mut bundle = BundleIo::new().create(&fs).unwrap();
    assert_eq!(bundle.branches.len(), 2);
    bundle.branches.sort();
    assert_eq!(&bundle.branches[0].branch_name, &BranchName::from("branch2"));
    assert_eq!(&bundle.branches[1].branch_name, &BranchName::owner());
    assert_eq!(&bundle.branches[0].commits[0], &null_commit);
    assert_eq!(&bundle.branches[1].commits[0], &null_commit);

    let branch = BranchName::from("branch2");
    WorkingIo::new().write(&mut fs, &BranchName::from("branch2")).unwrap();
    fs.write_file("workspace/hello.txt", b"hello").unwrap();
    Stage::new().execute(&mut fs, &branch, ".").unwrap();
    let commit_hash = Commit::new().execute(&mut fs, &branch, "text").unwrap();
    let mut bundle = BundleIo::new().create(&fs).unwrap();
    bundle.branches.sort();
    assert_eq!(&bundle.branches[0].branch_name, &BranchName::from("branch2"));
    assert_eq!(&bundle.branches[1].branch_name, &BranchName::owner());
    assert_eq!(&bundle.branches[0].commits[0], &commit_hash);
    assert_eq!(&bundle.branches[1].commits[0], &null_commit);
}

#[test]
fn read_all_objs() {
    let mut fs = MemoryFileSystem::default();
    init_owner_branch(&mut fs);
    let branch = BranchName::owner();
    fs.write_file("workspace/hello.txt", b"hello").unwrap();
    Stage::new().execute(&mut fs, &branch, ".").unwrap();
    Commit::new().execute(&mut fs, &branch, "commit").unwrap();
    let bundle = BundleIo::new().create(&fs).unwrap();
    let objs_count = fs.all_files_in(".meltos/objects").unwrap().len();
    assert_eq!(objs_count, bundle.objs.len());
}

#[test]
fn bundle_obj_data_size() {
    let bundle = Bundle {
        traces: vec![],
        objs: vec![
            BundleObject { hash: ObjHash("a".to_string()), compressed_buf: CompressedBuf(vec![1, 2, 3]) },
            BundleObject { hash: ObjHash("b".to_string()), compressed_buf: CompressedBuf(vec![4]) },
        ],
        branches: vec![],
    };
    assert_eq!(bundle.obj_data_size(), 4);
}

#[test]
fn read_all_objects_in_dir() {
    let mut fs = MemoryFileSystem::default();
    fs.write_file("/workspace/hello/hello.txt", b"hello").unwrap();
    fs.write_file("/workspace/hello/world", b"world").unwrap();
    fs.write_file("/workspace/hello/dir/main.sh", b"echo hi ").unwrap();
    let mut hashes = WorkspaceIo::new()
        .convert_to_objs(&fs, "hello")
        .unwrap()
        .all(&fs)
        .unwrap()
        .into_iter()
        .map(|obj| obj.1.as_meta().unwrap().hash)
        .collect::<Vec<ObjHash>>();
    hashes.sort();
    let mut expect = vec![
        ObjHash::new(b"FILE\0hello"),
        ObjHash::new(b"FILE\0world"),
        ObjHash::new(b"FILE\0echo hi "),
    ];
    expect.sort();
    assert_eq!(hashes, expect);
}

#[test]
fn decode_buffer() {
    let mut fs = MemoryFileSystem::default();
    let obj = FileObj(b"hello".to_vec());
    let meta = obj.as_meta().unwrap();
    ObjIo::new().write(&mut fs, &meta.hash, &meta.compressed_buf).unwrap();
    WorkspaceIo::new()
        .unpack(&mut fs, &FilePath::from_path("hello.txt"), &Obj::File(obj))
        .unwrap();
    assert_eq!(fs.try_read_file("hello.txt").unwrap(), b"hello");
}

#[test]
fn read_all_files() {
    let mut fs = MemoryFileSystem::default();
    fs.write_sync("/workspace/hello.txt", b"hello");
    fs.write_sync("/workspace/dist/index.js", b"index");
    let mut files = WorkspaceIo::new().files(&fs, ".").unwrap();
    files.sort();
    assert_eq!(
        files,
        vec!["/workspace/dist/index.js".to_string(), "/workspace/hello.txt".to_string()]
    );
}

#[test]
fn return_true_if_file_created() {
    let mut fs = MemoryFileSystem::default();
    init_owner_branch(&mut fs);
    fs.write_sync("/workspace/hello.txt", b"hello");
    let is_change = WorkspaceIo::new()
        .is_change(&fs, &BranchName::owner(), &FilePath("hello.txt".to_string()))
        .unwrap();
    assert!(is_change);
}

#[test]
fn return_true_if_file_changed() {
    let mut fs = MemoryFileSystem::default();
    init_owner_branch(&mut fs);
    let branch = BranchName::owner();
    fs.write_sync("/workspace/hello.txt", b"hello");
    Stage::new().execute(&mut fs, &branch, ".").unwrap();
    Commit::new().execute(&mut fs, &branch, "").unwrap();
    fs.write_sync("/workspace/hello.txt", b"hello2");
    let is_change = WorkspaceIo::new()
        .is_change(&fs, &branch, &FilePath("hello.txt".to_string()))
        .unwrap();
    assert!(is_change);
}

#[test]
fn return_false_if_file_not_changed() {
    let mut fs = MemoryFileSystem::default();
    init_owner_branch(&mut fs);
    let branch = BranchName::owner();
    fs.write_sync("/workspace/hello.txt", b"hello");
    Stage::new().execute(&mut fs, &branch, ".").unwrap();
    Commit::new().execute(&mut fs, &branch, "").unwrap();
    let is_change = WorkspaceIo::new()
        .is_change(&fs, &branch, &FilePath("hello.txt".to_string()))
        .unwrap();
    assert!(!is_change);
}

#[test]
fn return_true_if_file_deleted() {
    let mut fs = MemoryFileSystem::default();
    init_owner_branch(&mut fs);
    let branch = BranchName::owner();
    fs.write_sync("/workspace/hello.txt", b"hello");
    Stage::new().execute(&mut fs, &branch, ".").unwrap();
    Commit::new().execute(&mut fs, &branch, "").unwrap();
    fs.delete("/workspace/hello.txt").unwrap();
    let is_change = WorkspaceIo::new()
        .is_change(&fs, &branch, &FilePath("hello.txt".to_string()))
        .unwrap();
    assert!(is_change);
}

#[test]
fn return_false_if_not_exists_both_workspace_and_traces() {
    let mut fs = MemoryFileSystem::default();
    init_owner_branch(&mut fs);
    let is_change = WorkspaceIo::new()
        .is_change(&fs, &BranchName::owner(), &FilePath("hello.txt".to_string()))
        .unwrap();
    assert!(!is_change);
}

#[test]
fn return_false_if_not_exists_both_workspace_and_traces2() {
    let mut fs = MemoryFileSystem::default();
    init_owner_branch(&mut fs);
    fs.write_sync("/workspace/hello.txt", b"hello");
    fs.delete("/workspace/hello.txt").unwrap();
    let is_change = WorkspaceIo::new()
        .is_change(&fs, &BranchName::owner(), &FilePath("hello.txt".to_string()))
        .unwrap();
    assert!(!is_change);
}

#[test]
fn head_write_then_read() {
    let mut fs = MemoryFileSystem::default();
    let head = HeadIo::new();
    let b = BranchName::from("b");
    assert_eq!(head.read(&fs, &b).unwrap(), None);
    let h = CommitHash(ObjHash::new(b"x"));
    head.write(&mut fs, &b, &h).unwrap();
    assert_eq!(head.read(&fs, &b).unwrap(), Some(h.clone()));
    assert_eq!(head.read_all(&fs).unwrap(), vec![(b.clone(), h.clone())]);
    head.write_remote(&mut fs, &b, &h).unwrap();
    assert_eq!(head.try_read_remote(&fs, &b).unwrap(), h);
    head.delete(&mut fs, &b).unwrap();
    assert!(head.try_read(&fs, &b).is_err());
}

#[test]
fn working_branch_is_json() {
    let mut fs = MemoryFileSystem::default();
    assert_eq!(WorkingIo::new().read(&fs).unwrap(), None);
    WorkingIo::new().write(&mut fs, &BranchName::owner()).unwrap();
    assert_eq!(fs.read_file(".meltos/WORKING").unwrap(), Some(b"\"owner\"".to_vec()));
    fs.write_file(".meltos/WORKING", b"not json").unwrap();
    assert!(WorkingIo::new().read(&fs).is_err());
}

#[test]
fn history_of_commits() {
    let mut fs = MockFileSystem::default();
    let null_commit = init_owner_branch(&mut fs);
    let branch = BranchName::owner();
    fs.force_write("workspace/a.txt", b"a");
    Stage::new().execute(&mut fs, &branch, ".").unwrap();
    let c1 = Commit::new().execute(&mut fs, &branch, "1").unwrap();
    let history = CommitHashIo::new().read_all(&fs, c1.clone(), &None).unwrap();
    assert_eq!(history, vec![c1.clone(), null_commit.clone()]);
    let history = CommitHashIo::new().read_all(&fs, c1.clone(), &Some(null_commit)).unwrap();
    assert_eq!(history, vec![c1]);
    let _ = Checkout::new();
}

#[test]
fn total_objs_size_of_fresh_store_is_zero() {
    let fs = MemoryFileSystem::default();
    assert_eq!(ObjIo::new().total_objs_size(&fs).unwrap(), 0);
}

#[test]
fn bundle_of_initialized_store() {
    let mut fs = MemoryFileSystem::default();
    let h = init_owner_branch(&mut fs);
    let bundle = BundleIo::new().create(&fs).unwrap();
    assert_eq!(bundle.branches.len(), 1);
    assert_eq!(bundle.branches[0].commits, vec![h]);
    assert_eq!(bundle.traces.len(), 1);
}
