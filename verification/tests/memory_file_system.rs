use meltos_tvc::file_system::memory::entry::dir::MemoryDir;
use meltos_tvc::file_system::memory::MemoryFileSystem;
use meltos_tvc::file_system::FileSystem;

#[test]
fn it_ignored_mine() {
    let root = MemoryDir::root();
    let entries = root.entry_keys();
    assert_eq!(entries, vec!["."]);

    let names = root.entry_names();
    assert_eq!(names.len(), 0);
}

#[test]
fn without_slash() {
    let mut root = MemoryDir::root();
    root.write_file("hello.txt", b"hello").unwrap();

    assert_eq!(
        root.read(".").unwrap().dir_ref().unwrap().all_files(),
        vec!["hello.txt"]
    );
}

#[test]
fn without_slash_with_in_dir() {
    let mut root = MemoryDir::root();
    root.write_file("a.txt", b"hello").unwrap();
    root.write_file("dir/b.txt", b"hello").unwrap();
    let mut files = root.read(".").unwrap().dir_ref().unwrap().all_files();
    files.sort();
    assert_eq!(files, vec!["a.txt", "dir/b.txt"]);
}

#[test]
fn memory_read_root_dir() {
    let fs = MemoryFileSystem::default();
    let dir = fs.read_dir(".").unwrap();
    assert_eq!(dir.unwrap().len(), 0);
}

#[test]
fn memory_read_root_dir_with_files() {
    let mut fs = MemoryFileSystem::default();
    fs.write_sync("1.txt", b"1");
    fs.write_sync("2.txt", b"2");
    fs.write_sync("3.txt", b"3");

    let dir = fs.read_dir(".").unwrap();
    assert_eq!(dir.unwrap().len(), 3);
}

#[test]
fn memory_create_src_dir() {
    let mut fs = MemoryFileSystem::default();
    fs.create_dir("/src").unwrap();
    let dir = fs.try_read_dir("/src").unwrap();
    assert_eq!(dir.len(), 0);

    fs.write_sync("/src/hello.txt", b"hello");
    let src = fs.try_read_dir("/src").unwrap();
    assert_eq!(src.len(), 1);
}

#[test]
fn memory_create_parent_dirs() {
    let mut fs = MemoryFileSystem::default();
    fs.write_sync("/dist/hello.txt", b"hello");
    fs.write_sync("/dist/hello2.txt", b"hello");
    fs.write_sync("/dist/hello3.txt", b"hello");

    let dist = fs.try_read_dir("/dist").unwrap();
    assert_eq!(dist.len(), 3);
}

#[test]
fn memory_read_hello_world() {
    let mut fs = MemoryFileSystem::default();
    fs.write_sync("/hello.txt", b"hello world");
    fs.write_sync("/dist/hello.txt", b"hello world");
    fs.write_sync("/dist/sample/hello.txt", b"hello world");

    let buf = fs.read_file("/hello.txt").unwrap();
    assert_eq!(buf, Some(b"hello world".to_vec()));
    let buf = fs.read_file("/dist/hello.txt").unwrap();
    assert_eq!(buf, Some(b"hello world".to_vec()));
    let buf = fs.read_file("/dist/sample/hello.txt").unwrap();
    assert_eq!(buf, Some(b"hello world".to_vec()));
}

#[test]
fn memory_read_file_start_with_period() {
    let mut fs = MemoryFileSystem::default();
    fs.write_sync("hello.txt", b"hello world");
    fs.write_sync("dist/hello.txt", b"hello world");
    fs.write_sync("dist/sample/hello.txt", b"hello world");

    let buf = fs.read_file("./hello.txt").unwrap();
    assert_eq!(buf, Some(b"hello world".to_vec()));
    let buf = fs.read_file("./dist/hello.txt").unwrap();
    assert_eq!(buf, Some(b"hello world".to_vec()));
    let buf = fs.read_file("./dist/sample/hello.txt").unwrap();
    assert_eq!(buf, Some(b"hello world".to_vec()));
}

#[test]
fn memory_delete_file() {
    let mut fs = MemoryFileSystem::default();
    fs.write_sync("hello.txt", b"hello world");
    fs.delete("hello.txt").unwrap();

    assert_eq!(fs.read_file("hello.txt").unwrap(), None);
}

#[test]
fn memory_delete_dir() {
    let mut fs = MemoryFileSystem::default();
    fs.create_dir("src").unwrap();
    fs.write_file("src/hello.txt", b"hello").unwrap();

    fs.write_sync("dist/hello.txt", b"hello");
    fs.write_sync("dist/sample/sample.js", b"console.log(`sample`)");

    assert_eq!(fs.read_dir("src").unwrap().unwrap().len(), 1);
    assert_eq!(fs.read_dir("dist/sample").unwrap().unwrap().len(), 1);

    fs.delete("src").unwrap();
    assert!(fs.read_dir("src").unwrap().is_none());
    assert_eq!(fs.read_dir("dist/sample").unwrap().unwrap().len(), 1);
    assert_eq!(fs.try_read_dir("dist").unwrap().len(), 2);

    fs.delete("dist/sample").unwrap();
    assert!(fs.read_dir("src").unwrap().is_none());
    assert!(fs.read_dir("dist/sample").unwrap().is_none());
    assert_eq!(fs.try_read_dir("dist").unwrap().len(), 1);
}

#[test]
fn memory_all_files_with_in_children() {
    let mut fs = MemoryFileSystem::default();
    fs.write_sync("/hello1.txt", b"hello");
    fs.write_sync("/hello2.txt", b"hello");
    fs.write_sync("/hello3.txt", b"hello");

    let mut files = fs.all_files_in(".").unwrap();
    files.sort();
    assert_eq!(
        files,
        vec![
            "/hello1.txt".to_string(),
            "/hello2.txt".to_string(),
            "/hello3.txt".to_string(),
        ]
    );
}

#[test]
fn memory_all_files_recursive() {
    let mut fs = MemoryFileSystem::default();
    fs.write_sync("/hello1.txt", b"hello");
    fs.write_sync("/src/hello2.txt", b"hello");
    fs.write_sync("/src/dist/hello3.txt", b"hello");

    let mut files = fs.all_files_in(".").unwrap();
    files.sort();
    assert_eq!(
        files,
        vec![
            "/hello1.txt".to_string(),
            "/src/dist/hello3.txt".to_string(),
            "/src/hello2.txt".to_string(),
        ]
    );
}

#[test]
fn memory_all_files_relative_to_src() {
    let mut fs = MemoryFileSystem::default();
    fs.write_sync("/hello1.txt", b"hello");
    fs.write_sync("/src/hello2.txt", b"hello");
    fs.write_sync("/src/dist/hello3.txt", b"hello");

    let mut files = fs.all_files_in("/src").unwrap();
    files.sort();
    assert_eq!(
        files,
        vec!["/src/dist/hello3.txt".to_string(), "/src/hello2.txt".to_string(),]
    );
}

#[test]
fn all_files_specified_direct_file_uri() {
    let mut fs = MemoryFileSystem::default();
    fs.write_sync("/hello1.txt", b"hello");

    let files = fs.all_files_in("/hello1.txt").unwrap();
    assert_eq!(files, vec!["/hello1.txt".to_string()]);
}

#[test]
fn memory_return_none_if_not_exists_entry() {
    let mut fs = MemoryFileSystem::default();
    fs.create_dir("src").unwrap();
    let stat = fs.stat("/hello.txt").unwrap();
    assert_eq!(stat, None);
    let stat = fs.stat("/src/hello.txt").unwrap();
    assert_eq!(stat, None);
}

#[test]
fn memory_stat_file() {
    let mut fs = MemoryFileSystem::default();
    fs.write_file("src/hello.txt", b"hello").unwrap();
    let stat = fs.stat("src/hello.txt").unwrap().unwrap();
    assert!(stat.is_file());
    assert_eq!(stat.size, b"hello".len() as u64);
}

#[test]
fn memory_stat_dir() {
    let mut fs = MemoryFileSystem::default();
    fs.create_dir("src").unwrap();
    let stat = fs.stat("src").unwrap().unwrap();
    assert!(stat.is_dir());
    assert_eq!(stat.size, 0);
}

#[test]
fn memory_update_dir_stat() {
    let mut fs = MemoryFileSystem::default();
    fs.create_dir("src").unwrap();

    fs.create_dir("src/dist").unwrap();
    let stat = fs.stat("src").unwrap().unwrap();
    assert_eq!(stat.size, 1);

    fs.write_file("src/hello.txt", b"hello world").unwrap();
    let stat = fs.stat("src").unwrap().unwrap();
    assert_eq!(stat.size, 2);
}

#[test]
fn memory_read() {
    let buf1 = [0, 1, 2, 3];
    let buf2 = [5, 6, 7, 8];
    let mut fs = MemoryFileSystem::default();

    fs.write_file("buf1", &buf1).unwrap();
    fs.write_file("buf2", &buf2).unwrap();
    assert_eq!(fs.read_file("buf1").unwrap().unwrap(), buf1.to_vec());
    assert_eq!(fs.read_file("buf2").unwrap().unwrap(), buf2.to_vec());
}

#[test]
fn memory_write_keeps_create_time_and_updates_content() {
    let mut fs = MemoryFileSystem::default();
    fs.write_file("src/hello.txt", b"hello world").unwrap();
    let stat1 = fs.stat("src/hello.txt").unwrap().unwrap();
    fs.write_file("src/hello.txt", b"hello").unwrap();
    let stat2 = fs.stat("src/hello.txt").unwrap().unwrap();
    assert_eq!(stat1.create_time, stat2.create_time);
    assert_eq!(stat2.size, b"hello".len() as u64);
    assert!(stat1.update_time <= stat2.update_time);
}

#[test]
fn memory_write_below_a_file_fails() {
    let mut fs = MemoryFileSystem::default();
    fs.write_file("a", b"file").unwrap();
    assert!(fs.write_file("a/b", b"below").is_err());
    assert_eq!(fs.read_file("a").unwrap(), Some(b"file".to_vec()));
    assert!(fs.create_dir("a/dir").is_err());
}

#[test]
fn memory_write_root_fails() {
    let mut fs = MemoryFileSystem::default();
    assert!(fs.write_file("/", b"x").is_err());
    assert!(fs.write_file(".", b"x").is_err());
}

#[test]
fn memory_read_of_a_directory_as_file_fails() {
    let mut fs = MemoryFileSystem::default();
    fs.create_dir("src").unwrap();
    assert!(fs.read_file("src").is_err());
    fs.write_sync("a.txt", b"a");
    assert!(fs.read_dir("a.txt").is_err());
}

#[test]
fn memory_try_read_missing_fails() {
    let fs = MemoryFileSystem::default();
    assert!(fs.try_read_file("missing").is_err());
    assert!(fs.try_read_dir("missing").is_err());
}

#[test]
fn memory_project_already_initialized() {
    let mut fs = MemoryFileSystem::default();
    assert!(!fs.project_already_initialized().unwrap());
    fs.create_dir(".meltos").unwrap();
    assert!(!fs.project_already_initialized().unwrap());
    fs.write_sync(".meltos/WORKING", b"x");
    assert!(fs.project_already_initialized().unwrap());
}

#[test]
fn memory_dir_lookup_parent_and_exists() {
    let mut root = MemoryDir::root();
    root.write_file("a/b/c.txt", b"c").unwrap();
    assert!(root.path_exists("a/b"));
    assert!(root.path_exists("a/b/c.txt"));
    assert!(!root.path_exists("a/x"));
    let parent = root.lookup_parent_dir("a/b/c.txt").unwrap();
    assert_eq!(parent.name(), "b");
    assert_eq!(parent.all_files(), vec!["a/b/c.txt"]);
    assert_eq!(parent.entry_names(), vec!["/a/b/c.txt"]);
    assert!(root.lookup_parent_dir("a/b/c.txt/d").is_none());
}

#[test]
fn memory_dir_delete() {
    let mut root = MemoryDir::root();
    root.write_file("a/b.txt", b"b").unwrap();
    root.write_file("c.txt", b"c").unwrap();
    root.delete("a");
    assert!(root.read("a/b.txt").is_none());
    assert!(root.read("c.txt").is_some());
    assert_eq!(root.stat().size, 1);
}

#[test]
fn memory_entry_kinds() {
    let mut root = MemoryDir::root();
    root.write_file("a/b.txt", b"b").unwrap();
    let file = root.try_read("a/b.txt").unwrap();
    assert!(file.dir_ref().is_err());
    assert_eq!(file.file().unwrap().buf(), b"b".to_vec());
    let dir = root.try_read("a").unwrap();
    assert!(dir.dir().is_ok());
    assert!(root.try_read("nothing").is_err());
}

/// Lets the wall clock move on by `d`.
fn memory_wait(d: std::time::Duration) {
    let start = std::time::Instant::now();
    while start.elapsed() < d {}
}

#[test]
fn memory_update_file_stat() {
    let mut fs = MemoryFileSystem::default();
    fs.write_file("src/hello.txt", b"hello world").unwrap();
    let stat1 = fs.stat("src/hello.txt").unwrap().unwrap();
    memory_wait(std::time::Duration::new(1, 100));
    fs.write_file("src/hello.txt", b"hello").unwrap();
    let stat2 = fs.stat("src/hello.txt").unwrap().unwrap();
    assert_eq!(stat1.create_time, stat2.create_time);
    assert_eq!(stat2.size, b"hello".len() as u64);

    assert!(stat1.update_time < stat2.update_time);
}

#[test]
fn memory_dir_one_segment_has_no_parent() {
    let mut root = MemoryDir::root();
    root.write_file("a.txt", b"a").unwrap();
    assert!(root.lookup_parent_dir("a.txt").is_none());
}

#[test]
fn memory_dir_dot_dot_names_the_parent() {
    let mut root = MemoryDir::root();
    root.write_file("a.txt", b"a").unwrap();
    let child = MemoryDir::new("child", Some(&root));
    match child.read("..") {
        Some(meltos_tvc::file_system::memory::entry::MemoryEntry::Dir(parent)) => {
            assert_eq!(parent.all_files(), vec!["a.txt"]);
        }
        _ => panic!("`..` names no directory"),
    }
    assert!(root.read("..").is_none());
}

#[test]
fn memory_set_dir_replaces_entry() {
    let mut root = MemoryDir::new("root", None);
    root.write_file("sub", b"old file").unwrap();
    root.write_file("keep.txt", b"kept").unwrap();
    let mut sub = MemoryDir::new("sub", None);
    sub.write_file("inner/a.txt", b"a").unwrap();
    root.set_dir("sub", sub);
    assert!(root.read("sub/inner/a.txt").is_some());
    assert!(root.read("sub/inner").unwrap().dir_ref().is_ok());
    assert!(root.read("sub").unwrap().dir_ref().is_ok());
    assert!(root.read("keep.txt").is_some());
}
