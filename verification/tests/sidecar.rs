use swhid::permissions::{EntryExec, PermissionsSource};
use swhid::sidecar::{forward_slashes, ManifestPermissionsSource};

const TABLE: &str = r#"
# executable bits
[[file]]
path = "bin/tool"
executable = true

[[file]]
path = "scripts\run.sh"
executable = true

[[file]]
  path = "README.md"
  executable = false
"#;

#[test]
fn a_table_is_read() {
    let table = ManifestPermissionsSource::parse(TABLE).unwrap();
    assert_eq!(table.executable("bin/tool"), EntryExec::Known(true));
    assert_eq!(table.executable("scripts/run.sh"), EntryExec::Known(true));
    assert_eq!(table.executable("scripts\\run.sh"), EntryExec::Known(true));
    assert_eq!(table.executable("README.md"), EntryExec::Known(false));
    assert_eq!(table.executable("readme.md"), EntryExec::Unknown);
    assert_eq!(table.executable("bin"), EntryExec::Unknown);
    assert_eq!(table.executable(""), EntryExec::Unknown);
    assert_eq!(table.executable_of("bin/tool").unwrap(), EntryExec::Known(true));
    assert_eq!(table.executable_of("other").unwrap(), EntryExec::Unknown);
}

#[test]
fn a_text_without_records() {
    for text in ["", "path = \"a\"\nexecutable = true\n", "[file]\npath = \"a\"\nexecutable = true"] {
        let table = ManifestPermissionsSource::parse(text).unwrap();
        assert_eq!(table.executable("a"), EntryExec::Unknown);
    }
}

#[test]
fn a_record_needs_a_path_and_a_bit() {
    let table = ManifestPermissionsSource::parse(
        "[[file]]\npath = \"only-path\"\n[[file]]\nexecutable = true\n[[file]]\nexecutable = true\npath = \"both\"",
    )
    .unwrap();
    assert_eq!(table.executable("only-path"), EntryExec::Unknown);
    assert_eq!(table.executable("both"), EntryExec::Known(true));
}

#[test]
fn the_last_record_of_a_path_stands() {
    let table = ManifestPermissionsSource::parse(
        "[[file]]\npath = \"a\"\nexecutable = true\n[[file]]\npath = \"a\"\nexecutable = false\n",
    )
    .unwrap();
    assert_eq!(table.executable("a"), EntryExec::Known(false));
    // and within a record the last line of a key
    let table = ManifestPermissionsSource::parse(
        "[[file]]\npath = \"a\"\npath = \"b\"\nexecutable = false\nexecutable = true\n",
    )
    .unwrap();
    assert_eq!(table.executable("a"), EntryExec::Unknown);
    assert_eq!(table.executable("b"), EntryExec::Known(true));
}

#[test]
fn lines_are_read_loosely() {
    let table = ManifestPermissionsSource::parse(
        "x[[file]]path = \"same line\"\r\n\t executable=yes it is true \u{a0}\n\
         [[file]][[file]]\npathological \"q\"uoted\"\nexecutable\n\
         [[file]]\npath = \"no end\nexecutable = TRUE\n\
         [[file]]\n path = 'single'\nexecutable = true\n",
    )
    .unwrap();
    assert_eq!(table.executable("same line"), EntryExec::Known(true));
    assert_eq!(table.executable("q\"uoted"), EntryExec::Known(false));
    assert_eq!(table.executable("no end"), EntryExec::Unknown);
    assert_eq!(table.executable("single"), EntryExec::Unknown);
}

#[test]
fn absolute_paths_are_refused() {
    let e = ManifestPermissionsSource::parse("[[file]]\npath = \"/etc/passwd\"\nexecutable = true")
        .err()
        .unwrap();
    assert_eq!(
        e.to_string(),
        "invalid SWHID format: Manifest contains absolute path: /etc/passwd"
    );
    assert!(ManifestPermissionsSource::parse("[[file]]\npath = \"\\\\srv\"\nexecutable = true").is_err());
    // a drive letter counts where it is asked for
    let text = "[[file]]\npath = \"C:\\\\bin\"\nexecutable = true";
    assert!(ManifestPermissionsSource::parse(text).is_ok());
    assert!(ManifestPermissionsSource::parse_with(text, false).is_ok());
    let e = ManifestPermissionsSource::parse_with(text, true).err().unwrap();
    assert_eq!(
        e.to_string(),
        "invalid SWHID format: Manifest contains absolute path: C:\\\\bin"
    );
}

#[test]
fn parent_segments_are_refused() {
    for path in ["..", "../a", "a/..", "a/../b", "a\\\\..\\\\b", "..\\\\"] {
        let text = format!("[[file]]\npath = \"{path}\"\nexecutable = true");
        let e = ManifestPermissionsSource::parse(&text).err().unwrap();
        assert_eq!(
            e.to_string(),
            format!("invalid SWHID format: Manifest contains '..' in path: {path}")
        );
    }
    for path in ["a..b", "...", "..a/b", "a/b..", ". ."] {
        let text = format!("[[file]]\npath = \"{path}\"\nexecutable = true");
        let table = ManifestPermissionsSource::parse(&text).unwrap();
        assert_eq!(table.executable(path), EntryExec::Known(true));
    }
    // the first record that is refused ends it
    let e = ManifestPermissionsSource::parse(
        "[[file]]\npath = \"ok\"\nexecutable = true\n[[file]]\npath = \"/a\"\nexecutable = true\n[[file]]\npath = \"..\"\nexecutable = true",
    )
    .err()
    .unwrap();
    assert_eq!(
        e.to_string(),
        "invalid SWHID format: Manifest contains absolute path: /a"
    );
    // a record without a bit is not looked at
    assert!(ManifestPermissionsSource::parse("[[file]]\npath = \"/a\"\n").is_ok());
}

#[test]
fn normalize_path() {
    assert_eq!(
        ManifestPermissionsSource::normalize_path("a\\b/c", false).unwrap(),
        "a/b/c"
    );
    assert_eq!(ManifestPermissionsSource::normalize_path("", false).unwrap(), "");
    assert!(ManifestPermissionsSource::normalize_path("/", false).is_err());
    assert!(ManifestPermissionsSource::normalize_path("a/../b", true).is_err());
    assert!(ManifestPermissionsSource::normalize_path("a:b", true).is_err());
    assert_eq!(ManifestPermissionsSource::normalize_path("a:b", false).unwrap(), "a:b");
}

#[test]
fn slashes() {
    assert_eq!(forward_slashes("a\\b\\c"), "a/b/c");
    assert_eq!(forward_slashes("a/b\\"), "a/b/");
    assert_eq!(forward_slashes(""), "");
    assert_eq!(forward_slashes("é\\:"), "é/:");
}
