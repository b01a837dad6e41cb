use meltos_tvc::file_system::FilePath;
use meltos_tvc::io::atomic::head::CommitText;
use meltos_tvc::object::commit::{CommitHash, CommitObj};
use meltos_tvc::object::delete::DeleteObj;
use meltos_tvc::object::file::FileObj;
use meltos_tvc::object::local_commits::LocalCommitsObj;
use meltos_tvc::object::tree::TreeObj;
use meltos_tvc::object::{CompressedBuf, Encodable, Obj, ObjHash, ObjMeta};

#[test]
fn hash_is_sha1_in_hex() {
    assert_eq!(
        ObjHash::new(b"").0,
        "da39a3ee5e6b4b0d3255bfef95601890afd80709"
    );
    assert_eq!(
        ObjHash::new(b"abc").0,
        "a9993e364706816aba3e25717850c26c9cd0d89d"
    );
}

#[test]
fn hash_decodes_from_its_encoding() {
    let h = ObjHash::new(b"hello");
    assert_eq!(ObjHash::decode(&h.encode()).unwrap(), h);
    assert!(ObjHash::decode(&[0xff, 0xfe]).is_err());
}

#[test]
fn file_obj_encoding() {
    let f = FileObj(b"hello".to_vec());
    assert_eq!(f.encode(), b"FILE\0hello".to_vec());
    assert_eq!(FileObj::decode(b"FILE\0hello").unwrap(), f);
    assert!(FileObj::decode(b"TREE\0").is_err());
}

#[test]
fn delete_obj_encoding() {
    let d = DeleteObj(ObjHash("abc".to_string()));
    assert_eq!(d.encode(), b"DELETE\0abc".to_vec());
    assert_eq!(DeleteObj::decode(b"DELETE\0abc").unwrap(), d);
}

#[test]
fn tree_obj_roundtrip() {
    let mut t = TreeObj::default();
    t.insert(FilePath::from_path("a.txt"), ObjHash("1".to_string()));
    t.insert(FilePath::from_path("dir/b.txt"), ObjHash("2".to_string()));
    t.insert(FilePath::from_path("a.txt"), ObjHash("3".to_string()));
    assert_eq!(t.len(), 2);
    assert_eq!(t.get(&FilePath::from_path("a.txt")), Some(ObjHash("3".to_string())));
    let decoded = TreeObj::decode(&t.encode()).unwrap();
    assert_eq!(decoded, t);
    match Obj::decode(&t.encode()).unwrap() {
        Obj::Tree(d) => assert_eq!(d, t),
        _ => panic!("expected a tree"),
    }
}

#[test]
fn tree_obj_rejects_duplicate_paths() {
    let t = TreeObj(vec![
        (FilePath::from_path("a"), ObjHash("1".to_string())),
        (FilePath::from_path("a"), ObjHash("2".to_string())),
    ]);
    assert!(TreeObj::decode(&t.encode()).is_err());
}

#[test]
fn tree_obj_remove_and_replace() {
    let mut t = TreeObj::default();
    t.insert(FilePath::from_path("a"), ObjHash("1".to_string()));
    t.insert(FilePath::from_path("b"), ObjHash("2".to_string()));
    assert_eq!(t.remove(&FilePath::from_path("a")), Some(ObjHash("1".to_string())));
    assert_eq!(t.remove(&FilePath::from_path("a")), None);
    assert!(!t.contains_key(&FilePath::from_path("a")));

    let mut other = TreeObj::default();
    other.insert(FilePath::from_path("b"), ObjHash("9".to_string()));
    other.insert(FilePath::from_path("c"), ObjHash("3".to_string()));
    t.replace_by(other);
    assert_eq!(t.get(&FilePath::from_path("b")), Some(ObjHash("9".to_string())));
    assert_eq!(t.get(&FilePath::from_path("c")), Some(ObjHash("3".to_string())));
    assert!(t.changed_hash(&FilePath::from_path("b"), &ObjHash("2".to_string())));
    assert!(!t.changed_hash(&FilePath::from_path("b"), &ObjHash("9".to_string())));
}

#[test]
fn commit_obj_roundtrip() {
    let c = CommitObj {
        parents: vec![CommitHash(ObjHash("p1".to_string())), CommitHash(ObjHash("p2".to_string()))],
        text: CommitText::from("message"),
        committed_objs_tree: ObjHash("tree".to_string()),
    };
    assert_eq!(CommitObj::decode(&c.encode()).unwrap(), c);
    assert!(CommitObj::decode(b"COMMIT\0").unwrap_err() == meltos_tvc::error::Error::InvalidObjBuffer);
}

#[test]
fn local_commits_roundtrip() {
    let l = LocalCommitsObj(vec![CommitHash(ObjHash("a".to_string())), CommitHash(ObjHash("b".to_string()))]);
    assert_eq!(LocalCommitsObj::decode(&l.encode()).unwrap(), l);
    assert_eq!(LocalCommitsObj::decode(&[]).unwrap(), LocalCommitsObj::default());
    assert!(LocalCommitsObj::decode(&[1, 2, 3]).is_err());
}

#[test]
fn obj_meta_compresses_and_expands() {
    let meta = ObjMeta::compress(b"FILE\0hello world!".to_vec()).unwrap();
    assert_eq!(meta.hash, ObjHash::new(b"FILE\0hello world!"));
    assert_ne!(meta.compressed_buf.0, meta.buf);
    match Obj::expand(&meta.compressed_buf).unwrap() {
        Obj::File(f) => assert_eq!(f.0, b"hello world!".to_vec()),
        _ => panic!("expected a file"),
    }
    assert!(Obj::expand(&CompressedBuf(b"not gzip".to_vec())).is_err());
}

#[test]
fn obj_decode_rejects_unknown_tags() {
    assert!(Obj::decode(b"BLOB\0x").is_err());
    assert!(Obj::decode(b"").is_err());
}
