//! Discovering symbols files.

use upload_symbols::hex::encode_hex;
use upload_symbols::paths::{join_path, path_extension, path_file_name, relative_path};
use upload_symbols::sym_files::{
    discover, is_invalid_char, Discovery, Entry, InvalidKeyError, SymbolsFile,
};

const ROOT: &str = "my/upload/directory";
const KEY: &str = "xul.pdb/67060DEB1FD46CFD4C4C44205044422E1/xul.sym";

fn entry(relative: &str) -> Entry {
    Entry {
        path: join_path(ROOT.as_bytes(), relative.as_bytes()),
        depth: relative.split('/').count(),
        is_file: true,
    }
}

fn discover_one(entry: Entry) -> Option<Result<SymbolsFile, InvalidKeyError>> {
    let discovery = Discovery::new(ROOT.as_bytes().to_vec());
    assert!(discovery.covers(&entry));
    discovery.next(entry)
}

#[test]
fn well_placed_file_is_discovered() {
    let file = discover_one(entry(KEY)).unwrap().unwrap();
    assert_eq!(file.key(), KEY);
    assert_eq!(file.path(), &format!("{ROOT}/{KEY}").into_bytes());
    assert_eq!(file.clone().into_key(), KEY);
}

#[test]
fn other_files_are_errors() {
    let shallow = discover_one(entry("a/b")).unwrap().unwrap_err();
    assert!(matches!(&shallow, InvalidKeyError::NotThreeComponents(p) if p == b"a/b"));
    assert_eq!(shallow.message(), "path does not have exactly three components: a/b");
    let deep = discover_one(entry("a/b/c/d")).unwrap().unwrap_err();
    assert_eq!(deep.message(), "path does not have exactly three components: a/b/c/d");
    let id = discover_one(entry("a/xyz/c")).unwrap().unwrap_err();
    assert!(matches!(&id, InvalidKeyError::InvalidDebugId(k) if k == "a/xyz/c"));
    assert_eq!(id.message(), "debug_id must be a hex string: a/xyz/c");
    let character = discover_one(entry("a/12/c#")).unwrap().unwrap_err();
    assert!(matches!(&character, InvalidKeyError::InvalidCharacters(k) if k == "a/12/c#"));
    assert_eq!(character.message(), "key contains invalid characters: a/12/c#");
    let accent = discover_one(entry("a/12/\u{e9}")).unwrap().unwrap_err();
    assert!(matches!(accent, InvalidKeyError::InvalidCharacters(_)));
}

#[test]
fn paths_must_be_utf8() {
    let mut invalid = entry("a/12/c");
    invalid.path.push(0xff);
    let error = discover_one(invalid).unwrap().unwrap_err();
    assert!(matches!(&error, InvalidKeyError::PathNotValidUtf8(p) if p == b"a/12/c\xff"));
    assert_eq!(error.message(), "path not valid UTF-8: a/12/c\u{fffd}");
}

#[test]
fn everything_else_is_skipped() {
    let mut directory = entry("a/12/c");
    directory.is_file = false;
    assert!(discover_one(directory).is_none());
    let broken_link = Entry { is_file: false, ..entry("a/xyz/c") };
    assert!(discover_one(broken_link).is_none());
}

#[test]
fn walks_stay_below_their_root() {
    let discovery = Discovery::new(ROOT.as_bytes().to_vec());
    let elsewhere = Entry { path: b"elsewhere/a/12/c".to_vec(), depth: 3, is_file: true };
    assert!(!discovery.covers(&elsewhere));
    let wrong_depth = Entry {
        path: join_path(ROOT.as_bytes(), b"a/12"),
        depth: 3,
        is_file: true,
    };
    assert!(!discovery.covers(&wrong_depth));
}

#[test]
fn discovery_continues_after_errors() {
    let walk = vec![
        Ok(entry("a/12/c")),
        Err("permission denied".to_string()),
        Ok(entry("a/b")),
        Ok(Entry { is_file: false, ..entry("d") }),
        Ok(entry("d/34/e")),
    ];
    let found = discover(ROOT.as_bytes().to_vec(), walk);
    assert_eq!(found.len(), 4);
    assert_eq!(found[0].as_ref().unwrap().key(), "a/12/c");
    let walk_error = found[1].as_ref().unwrap_err();
    assert!(matches!(walk_error, InvalidKeyError::WalkDirError(m) if m == "permission denied"));
    assert_eq!(walk_error.message(), "error while traversing diretory tree");
    assert!(found[2].is_err());
    assert_eq!(found[3].as_ref().unwrap().key(), "d/34/e");
}

#[test]
fn invalid_characters() {
    for c in "\\^`<>{}[]#%\"'|\n\u{0}\u{7f}\u{80}\u{e9}\u{1f600}".chars() {
        assert!(is_invalid_char(c));
    }
    for c in "abcXYZ019 /.-_~!$&()*+,:;=?@".chars() {
        assert!(!is_invalid_char(c));
    }
}

#[test]
fn only_breakpad_files_are_uncompressed() {
    for (path, expected) in [
        ("a/b/c.sym", false),
        ("a/b/c.SYM", false),
        ("a/b/c.sym/", false),
        ("a/b/c.pd_", true),
        ("a/b/c.sym.gz", true),
        ("a/b/c", true),
        ("a/b/.sym", true),
        ("a/b.sym/c", true),
    ] {
        let file = SymbolsFile::new(path.as_bytes().to_vec(), "key".to_string());
        assert_eq!(file.is_compressed(), expected, "{path}");
    }
}

#[test]
fn paths_are_joined_and_split() {
    assert_eq!(join_path(b"a", b"b"), b"a/b".to_vec());
    assert_eq!(join_path(b"a/", b"b"), b"a/b".to_vec());
    assert_eq!(join_path(b"", b"b"), b"b".to_vec());
    assert_eq!(join_path(b"a", b"/b"), b"/b".to_vec());
    assert_eq!(relative_path(b"a", b"a/b/c"), b"b/c".to_vec());
    assert_eq!(relative_path(b"a/", b"a/b/c"), b"b/c".to_vec());
    assert_eq!(path_file_name(b"a/b.c"), Some(b"b.c".to_vec()));
    assert_eq!(path_file_name(b"a/.."), None);
    assert_eq!(path_file_name(b"/"), None);
    assert_eq!(path_extension(b"a/b.c.d"), Some(b"d".to_vec()));
    assert_eq!(path_extension(b"a/.d"), None);
    assert_eq!(path_extension(b"a/b."), Some(Vec::new()));
}

#[test]
fn bytes_are_written_in_hexadecimal() {
    assert_eq!(encode_hex(&[]), "");
    assert_eq!(encode_hex(&[0x00, 0x0f, 0xa5, 0xff]), "000fa5ff");
}
