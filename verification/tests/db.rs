use zchronod::db::{DbKind, DbKindT, DbKindZchronod, DbPath, DbWrite, RawDbHandler};

fn path(parts: &[&str]) -> DbPath {
    DbPath { components: parts.iter().map(|p| p.as_bytes().to_vec()).collect() }
}

#[test]
fn zchronod_kind_and_files() {
    let k = DbKindZchronod;
    assert_eq!(k.kind(), DbKind::Zchronod);
    assert_eq!(k.filename_inner(), path(&["zchronod", "zchronod"]));
    assert_eq!(k.filename(), path(&["zchronod", "zchronod.sqlite3"]));
    assert!(!k.if_corrupt_wipe());
}

#[test]
fn set_extension_cases() {
    let mut p = path(&["a", "file.txt"]);
    assert!(p.set_extension(b"sqlite3"));
    assert_eq!(p, path(&["a", "file.sqlite3"]));

    let mut p = path(&[".hidden"]);
    assert!(p.set_extension(b"x"));
    assert_eq!(p, path(&[".hidden.x"]));

    let mut p = path(&["a.tar.gz"]);
    assert!(p.set_extension(b""));
    assert_eq!(p, path(&["a.tar"]));

    let mut p = path(&["a", ".."]);
    assert!(!p.set_extension(b"x"));
    assert_eq!(p, path(&["a", ".."]));

    let mut p = path(&[]);
    assert!(!p.set_extension(b"x"));
}

#[test]
fn join_relative_and_absolute() {
    assert_eq!(path(&["/", "data"]).join(&path(&["x", "y"])), path(&["/", "data", "x", "y"]));
    assert_eq!(path(&["data"]).join(&path(&["/", "abs"])), path(&["/", "abs"]));
}

#[test]
fn new_places_file_below_prefix() {
    let db = DbWrite::new(Some(&path(&["/", "tmp"])), DbKindZchronod).unwrap();
    assert_eq!(db.as_read().path(), &path(&["/", "tmp", "zchronod", "zchronod.sqlite3"]));
    let db = DbWrite::new(None, DbKindZchronod).unwrap();
    assert_eq!(db.into_read().path(), &path(&["zchronod", "zchronod.sqlite3"]));
}

#[test]
fn open_twice_gives_same_database() {
    let mut handler = RawDbHandler::new();
    let prefix = path(&["/", "var"]);
    let first = DbWrite::open(&prefix, DbKindZchronod, &mut handler).unwrap();
    assert_eq!(handler.len(), 1);
    let second = DbWrite::open(&prefix, DbKindZchronod, &mut handler).unwrap();
    assert_eq!(handler.len(), 1);
    assert_eq!(first.as_read().path(), second.as_read().path());
    let other = DbWrite::open(&path(&["/", "other"]), DbKindZchronod, &mut handler).unwrap();
    assert_eq!(handler.len(), 2);
    assert_eq!(other.as_read().path(), &path(&["/", "other", "zchronod", "zchronod.sqlite3"]));
}
