use afs::cli::{config_text, dir_list_row, fs_add_config, fs_list_row, pad_right, permission_str, rule};

#[test]
fn fs_add_local_needs_base_path() {
    let c = fs_add_config("local", Some("/data"), None, None, None).unwrap();
    assert_eq!(c, vec![("base_path".to_string(), "/data".to_string())]);
    let e = fs_add_config("local", None, None, None, None).unwrap_err();
    assert_eq!(e, "--base-path is required for local filesystem");
}

#[test]
fn fs_add_nfs_needs_mount_path() {
    let c = fs_add_config("nfs", None, Some("10.0.0.1"), Some("/export"), Some("/mnt/nfs")).unwrap();
    assert_eq!(
        c,
        vec![
            ("nfs_server".to_string(), "10.0.0.1".to_string()),
            ("nfs_path".to_string(), "/export".to_string()),
            ("mount_path".to_string(), "/mnt/nfs".to_string()),
        ]
    );
    let c = fs_add_config("nfs", Some("/ignored"), None, None, Some("/mnt/nfs")).unwrap();
    assert_eq!(c, vec![("mount_path".to_string(), "/mnt/nfs".to_string())]);
    let e = fs_add_config("nfs", None, Some("s"), None, None).unwrap_err();
    assert_eq!(e, "--mount-path is required for NFS filesystem");
}

#[test]
fn fs_add_refuses_unknown_types() {
    let e = fs_add_config("s3", None, None, None, None).unwrap_err();
    assert_eq!(e, "unsupported filesystem type: s3. Use 'local' or 'nfs'");
}

#[test]
fn permission_display() {
    assert_eq!(permission_str(0), "read-only");
    assert_eq!(permission_str(1), "read-write");
    assert_eq!(permission_str(7), "read-write");
}

#[test]
fn table_formatting_matches_left_aligned_columns() {
    assert_eq!(pad_right("ab", 4), format!("{:<4}", "ab"));
    assert_eq!(pad_right("abcdef", 4), "abcdef");
    assert_eq!(pad_right("é", 3), format!("{:<3}", "é"));
    assert_eq!(rule(5), "-----");
    assert_eq!(rule(0), "");
    assert_eq!(
        fs_list_row("local-dev", "local", "base_path=/data", "2024-01-01 00:00:00"),
        format!("{:<20} {:<10} {:<30} {}", "local-dev", "local", "base_path=/data", "2024-01-01 00:00:00")
    );
    assert_eq!(
        dir_list_row("abc", "local-dev", "read-write", "active", "2024-01-01 00:00:00"),
        format!("{:<36} {:<20} {:<12} {:<10} {}", "abc", "local-dev", "read-write", "active", "2024-01-01 00:00:00")
    );
}

#[test]
fn config_text_joins_pairs() {
    let c = vec![("a".to_string(), "1".to_string()), ("b".to_string(), "2".to_string())];
    assert_eq!(config_text(&c), "a=1, b=2");
    assert_eq!(config_text(&Vec::new()), "");
}
