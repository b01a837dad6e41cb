use meltos_tvc::file_system::mock::dir::MockDir;
use meltos_tvc::file_system::mock::MockFileSystem;
use meltos_tvc::file_system::FileSystem;

#[test]
fn mock_read_root_dir() {
    let fs = MockFileSystem::default();
    let dir = fs.read_dir(".").unwrap();
    assert_eq!(dir.unwrap().len(), 0);
}

#[test]
fn mock_read_root_dir_with_files() {
    let mut fs = MockFileSystem::default();
    fs.force_write("1.txt", b"1");
    fs.force_write("2.txt", b"2");
    fs.force_write("3.txt", b"3");

    let dir = fs.read_dir(".").unwrap();
    assert_eq!(dir.unwrap().len(), 3);
}

#[test]
fn mock_create_src_dir() {
    let mut fs = MockFileSystem::default();
    fs.create_dir("/src").unwrap();
    let dir = fs.try_read_dir("/src").unwrap();
    assert_eq!(dir.len(), 0);

    fs.force_write("/src/hello.txt", b"hello");
    let src = fs.try_read_dir("/src").unwrap();
    assert_eq!(src.len(), 1);
}

#[test]
fn mock_create_parent_dirs() {
    let mut fs = MockFileSystem::default();
    fs.force_write("/dist/hello.txt", b"hello");
    fs.force_write("/dist/hello2.txt", b"hello");
    fs.force_write("/dist/hello3.txt", b"hello");

    let dist = fs.try_read_dir("/dist").unwrap();
    assert_eq!(dist.len(), 3);
}

#[test]
fn mock_read_hello_world() {
    let mut fs = MockFileSystem::default();
    fs.force_write("/hello.txt", b"hello world");
    fs.force_write("/dist/hello.txt", b"hello world");
    fs.force_write("/dist/sample/hello.txt", b"hello world");

    let buf = fs.read_file("/hello.txt").unwrap();
    assert_eq!(buf, Some(b"hello world".to_vec()));
    let buf = fs.read_file("/dist/hello.txt").unwrap();
    assert_eq!(buf, Some(b"hello world".to_vec()));
    let buf = fs.read_file("/dist/sample/hello.txt").unwrap();
    assert_eq!(buf, Some(b"hello world".to_vec()));
}

#[test]
fn mock_read_file_start_with_period() {
    let mut fs = MockFileSystem::default();
    fs.force_write("hello.txt", b"hello world");
    fs.force_write("dist/hello.txt", b"hello world");
    fs.force_write("dist/sample/hello.txt", b"hello world");

    let buf = fs.read_file("./hello.txt").unwrap();
    assert_eq!(buf, Some(b"hello world".to_vec()));
    let buf = fs.read_file("./dist/hello.txt").unwrap();
    assert_eq!(buf, Some(b"hello world".to_vec()));
    let buf = fs.read_file("./dist/sample/hello.txt").unwrap();
    assert_eq!(buf, Some(b"hello world".to_vec()));
}

#[test]
fn mock_delete_file() {
    let mut fs = MockFileSystem::default();
    fs.force_write("hello.txt", b"hello world");
    fs.delete("hello.txt").unwrap();

    assert_eq!(fs.read_file("hello.txt").unwrap(), None);
}

#[test]
fn mock_delete_dir() {
    let mut fs = MockFileSystem::default();
    fs.create_dir("src").unwrap();
    fs.write_file("src/hello.txt", b"hello").unwrap();

    fs.force_write("dist/hello.txt", b"hello");
    fs.force_write("dist/sample/sample.js", b"console.log(`sample`)");

    assert_eq!(fs.read_dir("src").unwrap().unwrap().len(), 1);
    assert_eq!(fs.read_dir("dist/sample").unwrap().unwrap().len(), 1);

    fs.delete("src").unwrap();
    assert!(fs.read_dir("src").unwrap().is_none());
    assert_eq!(fs.read_dir("dist/sample").unwrap().unwrap().len(), 1);
    assert_eq!(fs.try_read_dir("dist").unwrap().len(), 2);

    fs.delete("dist/sample").unwrap();
    assert!(fs.read_dir("src").unwrap().is_none());
    assert!(fs.read_dir("dist/sample").unwrap().is_none());
    assert_eq!(fs.try_read_dir("dist").unwrap().len(), 1);
}

#[test]
fn mock_all_files_with_in_children() {
    let mut fs = MockFileSystem::default();
    fs.force_write("/hello1.txt", b"hello");
    fs.force_write("/hello2.txt", b"hello");
    fs.force_write("/hello3.txt", b"hello");

    let mut files = fs.all_files_in(".").unwrap();
    files.sort();
    assert_eq!(
        files,
        vec![
            "hello1.txt".to_string(),
            "hello2.txt".to_string(),
            "hello3.txt".to_string(),
        ]
    );
}

#[test]
fn mock_all_files_recursive() {
    let mut fs = MockFileSystem::default();
    fs.force_write("/hello1.txt", b"hello");
    fs.force_write("/src/hello2.txt", b"hello");
    fs.force_write("/src/dist/hello3.txt", b"hello");

    let mut files = fs.all_files_in(".").unwrap();
    files.sort();
    assert_eq!(
        files,
        vec![
            "hello1.txt".to_string(),
            "src/dist/hello3.txt".to_string(),
            "src/hello2.txt".to_string(),
        ]
    );
}

#[test]
fn mock_all_files_relative_to_src() {
    let mut fs = MockFileSystem::default();
    fs.force_write("/hello1.txt", b"hello");
    fs.force_write("/src/hello2.txt", b"hello");
    fs.force_write("/src/dist/hello3.txt", b"hello");

    let mut files = fs.all_files_in("/src").unwrap();
    files.sort();
    assert_eq!(
        files,
        vec!["src/dist/hello3.txt".to_string(), "src/hello2.txt".to_string(),]
    );
}

#[test]
fn mock_all_files_specified_direct_file_uri() {
    let mut fs = MockFileSystem::default();
    fs.force_write("/hello1.txt", b"hello");

    let files = fs.all_files_in("/hello1.txt").unwrap();
    assert_eq!(files, vec!["hello1.txt".to_string()]);
}

#[test]
fn mock_return_none_if_not_exists_entry() {
    let mut fs = MockFileSystem::default();
    fs.create_dir("src").unwrap();
    let stat = fs.stat("/hello.txt").unwrap();
    assert_eq!(stat, None);
    let stat = fs.stat("/src/hello.txt").unwrap();
    assert_eq!(stat, None);
}

#[test]
fn mock_stat_file() {
    let mut fs = MockFileSystem::default();
    fs.write_file("src/hello.txt", b"hello").unwrap();
    let stat = fs.stat("src/hello.txt").unwrap().unwrap();
    assert!(stat.is_file());
    assert_eq!(stat.size, b"hello".len() as u64);
}

#[test]
fn mock_stat_dir() {
    let mut fs = MockFileSystem::default();
    fs.create_dir("src").unwrap();
    let stat = fs.stat("src").unwrap().unwrap();
    assert!(stat.is_dir());
    assert_eq!(stat.size, 0);
}

#[test]
fn mock_update_dir_stat() {
    let mut fs = MockFileSystem::default();
    fs.create_dir("src").unwrap();

    fs.create_dir("src/dist").unwrap();
    let stat = fs.stat("src").unwrap().unwrap();
    assert_eq!(stat.size, 1);

    fs.write_file("src/hello.txt", b"hello world").unwrap();
    let stat = fs.stat("src").unwrap().unwrap();
    assert_eq!(stat.size, 2);
}

#[test]
fn mock_read() {
    let buf1 = [0, 1, 2, 3];
    let buf2 = [5, 6, 7, 8];
    let mut fs = MockFileSystem::default();

    fs.write_file("buf1", &buf1).unwrap();
    fs.write_file("buf2", &buf2).unwrap();
    assert_eq!(fs.read_file("buf1").unwrap().unwrap(), buf1.to_vec());
    assert_eq!(fs.read_file("buf2").unwrap().unwrap(), buf2.to_vec());
}

#[test]
fn mock_read_dir_lists_names() {
    let mut fs = MockFileSystem::default();
    fs.force_write("dist/hello.txt", b"hello");
    fs.force_write("dist/sub/x.txt", b"x");
    let mut names = fs.read_dir("dist").unwrap().unwrap();
    names.sort();
    assert_eq!(names, vec!["hello.txt".to_string(), "sub".to_string()]);
}

#[test]
fn mock_all_files_of_missing_path_is_empty() {
    let fs = MockFileSystem::default();
    assert_eq!(fs.all_files_in("nothing").unwrap(), Vec::<String>::new());
}

#[test]
fn mock_dir_all_files_under_parent() {
    let mut dir = MockDir::new();
    dir.write_file("a/b.txt", b"b").unwrap();
    dir.write_file("c.txt", b"c").unwrap();
    let mut files = dir.all_files(Some("root".to_string()));
    files.sort();
    assert_eq!(files, vec!["root/a/b.txt".to_string(), "root/c.txt".to_string()]);
    let mut files = dir.all_files(None);
    files.sort();
    assert_eq!(files, vec!["a/b.txt".to_string(), "c.txt".to_string()]);
}

#[test]
fn mock_dir_lookup_parent() {
    let mut dir = MockDir::new();
    dir.write_file("a/b/c.txt", b"c").unwrap();
    let parent = dir.lookup_parent_dir("a/b/c.txt").unwrap();
    assert_eq!(parent.entry_names(), vec!["c.txt".to_string()]);
    assert!(dir.path_exists("a/b"));
    assert!(!dir.path_exists("a/c"));
    assert!(dir.try_read("a/x").is_err());
    let created = dir.create_dir("a/d").unwrap();
    assert_eq!(created.stat().size, 0);
    assert_eq!(dir.stat().size, 1);
}

/// Lets the wall clock move on by `d`.
fn mock_wait(d: std::time::Duration) {
    let start = std::time::Instant::now();
    while start.elapsed() < d {}
}

#[test]
fn mock_update_file_stat() {
    let mut fs = MockFileSystem::default();
    fs.write_file("src/hello.txt", b"hello world").unwrap();
    let stat1 = fs.stat("src/hello.txt").unwrap().unwrap();
    mock_wait(std::time::Duration::new(1, 100));
    fs.write_file("src/hello.txt", b"hello").unwrap();
    let stat2 = fs.stat("src/hello.txt").unwrap().unwrap();
    assert_eq!(stat1.create_time, stat2.create_time);
    assert_eq!(stat2.size, b"hello".len() as u64);

    assert!(stat1.update_time < stat2.update_time);
}

#[test]
fn mock_dir_one_segment_has_no_parent() {
    let mut dir = MockDir::new();
    dir.write_file("a.txt", b"a").unwrap();
    assert!(dir.lookup_parent_dir("a.txt").is_none());
}

#[test]
fn mock_set_dir_replaces_entry() {
    let mut dir = MockDir::new();
    dir.write_file("sub/old.txt", b"old").unwrap();
    let mut sub = MockDir::new();
    sub.write_file("a.txt", b"a").unwrap();
    dir.set_dir("sub", sub);
    assert!(dir.read("sub/a.txt").is_some());
    assert!(dir.read("sub/old.txt").is_none());
}
