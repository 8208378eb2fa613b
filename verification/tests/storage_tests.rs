use afs::storage::{hex_digit_count, path_join, resolve_dir_path, LocalStorage, NfsStorage};

#[test]
fn test_resolve_dir_path() {
    let base = "/data";
    let id = "a1b2c3d4e5f6789012345678abcdef90";
    let path = resolve_dir_path(base, id);
    assert_eq!(path, "/data/90/ef/a1b2c3d4e5f6789012345678abcdef90");
}

#[test]
fn resolve_skips_non_hex_characters() {
    // The layout is taken from the hexadecimal digits only.
    assert_eq!(resolve_dir_path("/data", "ab-cd-xyz"), "/data/cd/ab/ab-cd-xyz");
    assert_eq!(hex_digit_count("ab-cd-xyz"), 4);
}

#[test]
fn resolve_with_trailing_slash_and_empty_base() {
    assert_eq!(resolve_dir_path("/data/", "0123"), "/data/23/01/0123");
    assert_eq!(resolve_dir_path("", "0123"), "23/01/0123");
}

#[test]
fn hex_digit_count_counts_both_cases() {
    assert_eq!(hex_digit_count(""), 0);
    assert_eq!(hex_digit_count("gGzZ"), 0);
    assert_eq!(hex_digit_count("aAfF09"), 6);
}

#[test]
fn path_join_follows_unix_rules() {
    assert_eq!(path_join("/a", "b"), "/a/b");
    assert_eq!(path_join("/a/", "b"), "/a/b");
    assert_eq!(path_join("/a", "/b"), "/b");
    assert_eq!(path_join("", "b"), "b");
    assert_eq!(path_join("/a", ""), "/a/");
}

#[test]
fn local_storage_paths() {
    let s = LocalStorage::new("/srv/afs".to_string());
    assert_eq!(s.base_path(), "/srv/afs");
    let id = "a1b2c3d4e5f6789012345678abcdef90";
    assert_eq!(s.dir_root(id), "/srv/afs/90/ef/a1b2c3d4e5f6789012345678abcdef90");
    assert_eq!(s.full_path(id, "sub/test.txt"), "/srv/afs/90/ef/a1b2c3d4e5f6789012345678abcdef90/sub/test.txt");
}

#[test]
fn nfs_storage_paths() {
    let s = NfsStorage::new("/mnt/nfs".to_string());
    assert_eq!(s.mount_path(), "/mnt/nfs");
    let id = "00000000000000000000000000001234";
    assert_eq!(s.dir_root(id), "/mnt/nfs/34/12/00000000000000000000000000001234");
    assert_eq!(s.full_path(id, "f"), "/mnt/nfs/34/12/00000000000000000000000000001234/f");
}
