use swhid::directory::{dir_manifest, Directory, Entry};

fn name(s: &'static str) -> Vec<u8> {
    s.as_bytes().into()
}

#[test]
fn simple_dir_hash() {
    let dir = Directory::new(vec![
        Entry::new(name("a.txt"), 0o100644, [1; 20]),
        Entry::new(name("b.txt"), 0o100755, [2; 20]),
        Entry::new(name("c.txt"), 0o100644, [0; 20]),
    ])
    .unwrap();

    assert_eq!(
        dir_manifest(dir.entries().into()).unwrap(),
        b"\
        100644 a.txt\0\x01\x01\x01\x01\x01\x01\x01\x01\x01\x01\x01\x01\x01\x01\x01\x01\x01\x01\x01\x01\
        100755 b.txt\0\x02\x02\x02\x02\x02\x02\x02\x02\x02\x02\x02\x02\x02\x02\x02\x02\x02\x02\x02\x02\
        100644 c.txt\0\x00\x00\x00\x00\x00\x00\x00\x00\x00\x00\x00\x00\x00\x00\x00\x00\x00\x00\x00\x00\
        "
    );

    assert_eq!(
        dir.swhid().unwrap().to_string(),
        "swh:1:dir:8863dfedee16d4f5eae8c796f57b90b165e5bd8d"
    );
}

#[test]
fn dir_order() {
    let dir = Directory::new(vec![
        Entry::new(name("a.txt"), 0o100644, [1; 20]),
        Entry::new(name("c.txt"), 0o100644, [0; 20]),
        Entry::new(name("b.txt"), 0o100755, [2; 20]),
    ])
    .unwrap();

    assert_eq!(
        dir_manifest(dir.entries().into()).unwrap(),
        b"\
        100644 a.txt\0\x01\x01\x01\x01\x01\x01\x01\x01\x01\x01\x01\x01\x01\x01\x01\x01\x01\x01\x01\x01\
        100755 b.txt\0\x02\x02\x02\x02\x02\x02\x02\x02\x02\x02\x02\x02\x02\x02\x02\x02\x02\x02\x02\x02\
        100644 c.txt\0\x00\x00\x00\x00\x00\x00\x00\x00\x00\x00\x00\x00\x00\x00\x00\x00\x00\x00\x00\x00\
        "
    );

    assert_eq!(
        dir.swhid().unwrap().to_string(),
        "swh:1:dir:8863dfedee16d4f5eae8c796f57b90b165e5bd8d"
    );
}

#[test]
fn empty_dir_hash() {
    let dir = Directory::new(vec![]).unwrap();

    assert_eq!(dir_manifest(dir.entries().into()).unwrap(), b"");

    assert_eq!(
        dir.swhid().unwrap().to_string(),
        "swh:1:dir:4b825dc642cb6eb9a060e54bf8d69288fbee4904"
    );
}

#[test]
fn dir_with_symlinks() {
    let dir = Directory::new(vec![
        Entry::new(name("a.txt"), 0o100644, [1; 20]),
        Entry::new(name("b.txt"), 0o120000, [2; 20]),
    ])
    .unwrap();

    assert_eq!(
        dir_manifest(dir.entries().into()).unwrap(),
        b"\
        100644 a.txt\0\x01\x01\x01\x01\x01\x01\x01\x01\x01\x01\x01\x01\x01\x01\x01\x01\x01\x01\x01\x01\
        120000 b.txt\0\x02\x02\x02\x02\x02\x02\x02\x02\x02\x02\x02\x02\x02\x02\x02\x02\x02\x02\x02\x02\
        "
    );

    assert_eq!(
        dir.swhid().unwrap().to_string(),
        "swh:1:dir:277f7807173d7053469ccbab70958b3bc9d5c9f6"
    );
}

#[test]
fn dir_with_subdir() {
    let dir = Directory::new(vec![
        Entry::new(name("a.txt"), 0o100644, [1; 20]),
        Entry::new(name("b"), 0o040000, [2; 20]),
    ])
    .unwrap();

    assert_eq!(
        dir_manifest(dir.entries().into()).unwrap(),
        b"\
        100644 a.txt\x00\x01\x01\x01\x01\x01\x01\x01\x01\x01\x01\x01\x01\x01\x01\x01\x01\x01\x01\x01\x01\
        40000 b\x00\x02\x02\x02\x02\x02\x02\x02\x02\x02\x02\x02\x02\x02\x02\x02\x02\x02\x02\x02\x02\
        "
    );

    assert_eq!(
        dir.swhid().unwrap().to_string(),
        "swh:1:dir:c890b32febf94c3163b67778ae8b26bb631610a3",
    );
}
