use swhid::permissions::{resolve_file_permissions, EntryExec, EntryPerms, PermissionPolicy};

#[test]
fn entry_perms_to_git_mode_string() {
    assert_eq!(
        EntryPerms::File { executable: false }.to_git_mode_string(),
        "100644"
    );
    assert_eq!(
        EntryPerms::File { executable: true }.to_git_mode_string(),
        "100755"
    );
    assert_eq!(EntryPerms::Directory.to_git_mode_string(), "040000");
    assert_eq!(EntryPerms::Symlink.to_git_mode_string(), "120000");
    assert_eq!(EntryPerms::RevisionRef.to_git_mode_string(), "160000");
}

#[test]
fn entry_perms_to_swh_mode_u32() {
    assert_eq!(
        EntryPerms::File { executable: false }.to_swh_mode_u32(),
        0o100644
    );
    assert_eq!(
        EntryPerms::File { executable: true }.to_swh_mode_u32(),
        0o100755
    );
    assert_eq!(EntryPerms::Directory.to_swh_mode_u32(), 0o040000);
    assert_eq!(EntryPerms::Symlink.to_swh_mode_u32(), 0o120000);
    assert_eq!(EntryPerms::RevisionRef.to_swh_mode_u32(), 0o160000);
}

#[test]
fn entry_perms_from_mode() {
    assert_eq!(
        EntryPerms::from_mode(0o100644).unwrap(),
        EntryPerms::File { executable: false }
    );
    assert_eq!(
        EntryPerms::from_mode(0o100755).unwrap(),
        EntryPerms::File { executable: true }
    );
    assert_eq!(
        EntryPerms::from_mode(0o040000).unwrap(),
        EntryPerms::Directory
    );
    assert_eq!(
        EntryPerms::from_mode(0o120000).unwrap(),
        EntryPerms::Symlink
    );
    assert_eq!(
        EntryPerms::from_mode(0o160000).unwrap(),
        EntryPerms::RevisionRef
    );
}

#[test]
fn resolve_file_permissions_known() {
    let path = "test.txt";
    assert_eq!(
        resolve_file_permissions(EntryExec::Known(true), PermissionPolicy::Strict, path)
            .unwrap(),
        EntryPerms::File { executable: true }
    );
    assert_eq!(
        resolve_file_permissions(EntryExec::Known(false), PermissionPolicy::Strict, path)
            .unwrap(),
        EntryPerms::File { executable: false }
    );
}

#[test]
fn resolve_file_permissions_unknown_strict() {
    let path = "test.txt";
    let result = resolve_file_permissions(EntryExec::Unknown, PermissionPolicy::Strict, path);
    assert!(result.is_err());
    assert!(result.unwrap_err().to_string().contains("Cannot determine executable bit"));
}

#[test]
fn resolve_file_permissions_unknown_best_effort() {
    let path = "test.txt";
    assert_eq!(
        resolve_file_permissions(EntryExec::Unknown, PermissionPolicy::BestEffort, path)
            .unwrap(),
        EntryPerms::File { executable: false }
    );
}
