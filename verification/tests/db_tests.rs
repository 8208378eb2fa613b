use afs::db::{Database, DbError, DirRecord, FsRecord, SessionRecord};

fn local_dev(db: &mut Database) {
    db.register_fs("local-dev", "local", r#"{"base_path":"/data"}"#).unwrap();
}

#[test]
fn test_fs_lifecycle() {
    let mut db = Database::open(":memory:").unwrap();

    db.register_fs("local-dev", "local", r#"{"base_path":"/data"}"#).unwrap();
    db.register_fs("nfs-team", "nfs", r#"{"mount_path":"/nfs"}"#).unwrap();

    let fss = db.list_fs().unwrap();
    assert_eq!(fss.len(), 2);

    let fs = db.get_fs("local-dev").unwrap().unwrap();
    assert_eq!(fs.fs_type, "local");

    assert!(db.unregister_fs("nfs-team").unwrap());
    assert_eq!(db.list_fs().unwrap().len(), 1);

    assert!(!db.unregister_fs("nonexistent").unwrap());
}

#[test]
fn test_dir_lifecycle() {
    let mut db = Database::open(":memory:").unwrap();
    local_dev(&mut db);

    let dir = db.create_dir("local-dev").unwrap();
    assert_eq!(dir.id.len(), 32);
    assert_eq!(dir.access_key.len(), 32);
    assert_eq!(dir.permission, "READ_WRITE");
    assert_eq!(dir.fs_name, "local-dev");
    assert_eq!(dir.status, "active");

    let result = db.validate_token(&dir.id, &dir.access_key).unwrap();
    assert!(result.is_some());
    let (d, f) = result.unwrap();
    assert_eq!(d.id, dir.id);
    assert_eq!(f.name, "local-dev");

    let result = db.validate_token(&dir.id, "wrong-key").unwrap();
    assert!(result.is_none());

    let dirs = db.list_dirs(None).unwrap();
    assert_eq!(dirs.len(), 1);
    let dirs = db.list_dirs(Some("local-dev")).unwrap();
    assert_eq!(dirs.len(), 1);
    let dirs = db.list_dirs(Some("nonexistent")).unwrap();
    assert_eq!(dirs.len(), 0);

    assert!(db.delete_dir(&dir.id, &dir.access_key).unwrap());
    let dirs = db.list_dirs(None).unwrap();
    assert_eq!(dirs.len(), 0);

    let result = db.validate_token(&dir.id, &dir.access_key).unwrap();
    assert!(result.is_none());
}

#[test]
fn db_test_cannot_unregister_fs_with_active_dirs() {
    let mut db = Database::open(":memory:").unwrap();
    local_dev(&mut db);
    let _dir = db.create_dir("local-dev").unwrap();

    let err = db.unregister_fs("local-dev").unwrap_err();
    assert!(err.message().contains("active dir(s) exist"));
}

#[test]
fn test_cannot_create_dir_on_nonexistent_fs() {
    let mut db = Database::open(":memory:").unwrap();
    let err = db.create_dir("nonexistent").unwrap_err();
    assert!(err.message().contains("not found"));
}

#[test]
fn test_session_lifecycle() {
    let mut db = Database::open(":memory:").unwrap();
    local_dev(&mut db);
    let dir1 = db.create_dir("local-dev").unwrap();
    let dir2 = db.create_dir("local-dev").unwrap();

    let s1 = db.register_session(&dir1.id, "stream-a", "/mnt/agent1").unwrap();
    assert_eq!(s1.session_id.len(), 32);
    assert_eq!(s1.dir_id, dir1.id);

    let s2 = db.register_session(&dir1.id, "stream-b", "/mnt/agent2").unwrap();
    let _s3 = db.register_session(&dir2.id, "stream-a", "/mnt/agent1-dir2").unwrap();

    let sessions = db.get_sessions_for_dir(&dir1.id).unwrap();
    assert_eq!(sessions.len(), 2);

    let sessions = db.get_sessions_by_stream("stream-a").unwrap();
    assert_eq!(sessions.len(), 2);

    assert!(db.deregister_session(&s2.session_id).unwrap());
    assert!(!db.deregister_session("nonexistent").unwrap());
    let sessions = db.get_sessions_for_dir(&dir1.id).unwrap();
    assert_eq!(sessions.len(), 1);

    let deleted = db.delete_sessions_by_stream("stream-a").unwrap();
    assert_eq!(deleted, 2);
    assert_eq!(db.get_sessions_for_dir(&dir1.id).unwrap().len(), 0);
    assert_eq!(db.get_sessions_for_dir(&dir2.id).unwrap().len(), 0);
}

#[test]
fn test_session_heartbeat_reconciliation() {
    let mut db = Database::open(":memory:").unwrap();
    local_dev(&mut db);
    let dir1 = db.create_dir("local-dev").unwrap();
    let dir2 = db.create_dir("local-dev").unwrap();

    db.register_session(&dir1.id, "stream-a", "/mnt/a").unwrap();

    db.reconcile_sessions_from_heartbeat("stream-a", &[(dir1.id.as_str(), "/mnt/a"), (dir2.id.as_str(), "/mnt/b")])
        .unwrap();

    let sessions = db.get_sessions_by_stream("stream-a").unwrap();
    assert_eq!(sessions.len(), 2);

    db.reconcile_sessions_from_heartbeat("stream-a", &[(dir2.id.as_str(), "/mnt/b")]).unwrap();

    let sessions = db.get_sessions_by_stream("stream-a").unwrap();
    assert_eq!(sessions.len(), 1);
    assert_eq!(sessions[0].dir_id, dir2.id);
}

#[test]
fn test_reconcile_empty_heartbeat_clears_sessions() {
    let mut db = Database::open(":memory:").unwrap();
    local_dev(&mut db);
    let dir1 = db.create_dir("local-dev").unwrap();
    let dir2 = db.create_dir("local-dev").unwrap();

    db.register_session(&dir1.id, "stream-a", "/mnt/a").unwrap();
    db.register_session(&dir2.id, "stream-a", "/mnt/b").unwrap();
    assert_eq!(db.get_sessions_by_stream("stream-a").unwrap().len(), 2);

    db.reconcile_sessions_from_heartbeat("stream-a", &[]).unwrap();
    assert_eq!(db.get_sessions_by_stream("stream-a").unwrap().len(), 0);
}

#[test]
fn test_delete_sessions_by_nonexistent_stream() {
    let mut db = Database::open(":memory:").unwrap();
    let deleted = db.delete_sessions_by_stream("nonexistent").unwrap();
    assert_eq!(deleted, 0);
}

#[test]
fn test_get_sessions_for_nonexistent_dir() {
    let db = Database::open(":memory:").unwrap();
    let sessions = db.get_sessions_for_dir("nonexistent").unwrap();
    assert!(sessions.is_empty());
}

#[test]
fn test_multiple_sessions_same_dir_different_streams() {
    let mut db = Database::open(":memory:").unwrap();
    local_dev(&mut db);
    let dir = db.create_dir("local-dev").unwrap();

    let s1 = db.register_session(&dir.id, "stream-a", "/mnt/a").unwrap();
    let s2 = db.register_session(&dir.id, "stream-b", "/mnt/b").unwrap();

    let sessions = db.get_sessions_for_dir(&dir.id).unwrap();
    assert_eq!(sessions.len(), 2);

    assert_eq!(db.get_sessions_by_stream("stream-a").unwrap().len(), 1);
    assert_eq!(db.get_sessions_by_stream("stream-b").unwrap().len(), 1);

    db.deregister_session(&s1.session_id).unwrap();
    assert_eq!(db.get_sessions_for_dir(&dir.id).unwrap().len(), 1);
    assert_eq!(db.get_sessions_for_dir(&dir.id).unwrap()[0].session_id, s2.session_id);
}

#[test]
fn test_reconcile_idempotent() {
    let mut db = Database::open(":memory:").unwrap();
    local_dev(&mut db);
    let dir = db.create_dir("local-dev").unwrap();

    let mounts = [(&*dir.id, "/mnt/a")];

    db.reconcile_sessions_from_heartbeat("stream-a", &mounts).unwrap();
    assert_eq!(db.get_sessions_by_stream("stream-a").unwrap().len(), 1);

    db.reconcile_sessions_from_heartbeat("stream-a", &mounts).unwrap();
    assert_eq!(db.get_sessions_by_stream("stream-a").unwrap().len(), 1);

    db.reconcile_sessions_from_heartbeat("stream-a", &mounts).unwrap();
    assert_eq!(db.get_sessions_by_stream("stream-a").unwrap().len(), 1);
}

// --- Further cases ---

#[test]
fn open_file_path_is_refused() {
    match Database::open("/var/lib/afs/afs.db") {
        Err(DbError::NotInMemory(p)) => assert_eq!(p, "/var/lib/afs/afs.db"),
        _ => panic!("expected NotInMemory"),
    }
}

#[test]
fn register_duplicate_fs_is_refused() {
    let mut db = Database::new();
    local_dev(&mut db);
    let err = db.register_fs("local-dev", "nfs", "{}").unwrap_err();
    assert_eq!(err.message(), "failed to register fs");
    assert_eq!(db.list_fs().unwrap().len(), 1);
    assert_eq!(db.get_fs("local-dev").unwrap().unwrap().fs_type, "local");
}

#[test]
fn unregister_error_message_counts_active_dirs() {
    let mut db = Database::new();
    local_dev(&mut db);
    db.create_dir("local-dev").unwrap();
    db.create_dir("local-dev").unwrap();
    let err = db.unregister_fs("local-dev").unwrap_err();
    assert_eq!(err.message(), "cannot unregister fs 'local-dev': 2 active dir(s) exist");
}

#[test]
fn create_dir_error_message_names_fs() {
    let mut db = Database::new();
    let err = db.create_dir("ghost").unwrap_err();
    assert_eq!(err.message(), "filesystem 'ghost' not found");
}

#[test]
fn deleted_dir_is_purged_with_its_fs() {
    let mut db = Database::new();
    local_dev(&mut db);
    let dir = db.create_dir("local-dev").unwrap();
    assert!(db.delete_dir(&dir.id, &dir.access_key).unwrap());
    assert!(!db.delete_dir(&dir.id, &dir.access_key).unwrap());
    assert!(db.unregister_fs("local-dev").unwrap());
    let (fs, dirs, sessions) = db.records();
    assert!(fs.is_empty());
    assert!(dirs.is_empty());
    assert!(sessions.is_empty());
}

#[test]
fn unregister_blocked_by_sessions_of_deleted_dir() {
    let mut db = Database::new();
    local_dev(&mut db);
    let dir = db.create_dir("local-dev").unwrap();
    db.register_session(&dir.id, "stream-a", "/mnt/a").unwrap();
    assert!(db.delete_dir(&dir.id, &dir.access_key).unwrap());
    let err = db.unregister_fs("local-dev").unwrap_err();
    assert_eq!(err.message(), "FOREIGN KEY constraint failed");
    assert_eq!(db.list_fs().unwrap().len(), 1);
}

#[test]
fn register_session_for_unknown_dir_is_refused() {
    let mut db = Database::new();
    let err = db.register_session("nonexistent", "stream-a", "/mnt/a").unwrap_err();
    assert_eq!(err.message(), "failed to register session");
}

#[test]
fn reconcile_with_unknown_dir_changes_nothing() {
    let mut db = Database::new();
    local_dev(&mut db);
    let dir = db.create_dir("local-dev").unwrap();
    db.register_session(&dir.id, "stream-a", "/mnt/a").unwrap();
    let err = db.reconcile_sessions_from_heartbeat("stream-a", &[("nonexistent", "/mnt/x")]).unwrap_err();
    assert_eq!(err.message(), "FOREIGN KEY constraint failed");
    assert_eq!(db.get_sessions_by_stream("stream-a").unwrap().len(), 1);
}

#[test]
fn reconcile_leaves_other_streams_alone() {
    let mut db = Database::new();
    local_dev(&mut db);
    let dir = db.create_dir("local-dev").unwrap();
    db.register_session(&dir.id, "stream-b", "/mnt/b").unwrap();
    db.reconcile_sessions_from_heartbeat("stream-a", &[]).unwrap();
    assert_eq!(db.get_sessions_by_stream("stream-b").unwrap().len(), 1);
}

#[test]
fn missing_mounts_lists_each_unreported_pair_once() {
    let mut db = Database::new();
    local_dev(&mut db);
    let d1 = db.create_dir("local-dev").unwrap();
    let d2 = db.create_dir("local-dev").unwrap();
    db.register_session(&d1.id, "stream-a", "/mnt/a").unwrap();
    let missing = db.missing_mounts(
        "stream-a",
        &[(d1.id.as_str(), "/mnt/a"), (d2.id.as_str(), "/mnt/b"), (d2.id.as_str(), "/mnt/b")],
    );
    assert_eq!(missing, vec![(d2.id.clone(), "/mnt/b".to_string())]);
}

#[test]
fn reconcile_with_given_ids_and_time() {
    let mut db = Database::new();
    local_dev(&mut db);
    let d1 = db.create_dir("local-dev").unwrap();
    db.reconcile_with(
        "stream-a",
        &[(d1.id.as_str(), "/mnt/a")],
        vec!["0123456789abcdef0123456789abcdef".to_string()],
        "2024-01-02 03:04:05".to_string(),
    )
    .unwrap();
    let s = db.get_sessions_by_stream("stream-a").unwrap();
    assert_eq!(s.len(), 1);
    assert_eq!(s[0].session_id, "0123456789abcdef0123456789abcdef");
    assert_eq!(s[0].mountpoint, "/mnt/a");
    assert_eq!(s[0].created_at, "2024-01-02 03:04:05");
}

#[test]
fn created_records_carry_timestamps() {
    let mut db = Database::new();
    local_dev(&mut db);
    let fs = db.get_fs("local-dev").unwrap().unwrap();
    let ts = fs.created_at.as_bytes();
    assert_eq!(ts.len(), 19);
    assert_eq!(ts[4], b'-');
    assert_eq!(ts[10], b' ');
    assert_eq!(ts[13], b':');
}

#[test]
fn ids_are_lowercase_hex() {
    let mut db = Database::new();
    local_dev(&mut db);
    let dir = db.create_dir("local-dev").unwrap();
    assert!(dir.id.chars().all(|c| c.is_ascii_hexdigit() && !c.is_ascii_uppercase()));
    assert_ne!(dir.id, dir.access_key);
}

#[test]
fn restore_accepts_well_formed_tables() {
    let mut db = Database::new();
    local_dev(&mut db);
    let dir = db.create_dir("local-dev").unwrap();
    db.register_session(&dir.id, "stream-a", "/mnt/a").unwrap();
    let (fs, dirs, sessions) = db.records();
    let again = Database::restore(fs.clone(), dirs.clone(), sessions.clone()).unwrap();
    assert_eq!(again.list_dirs(None).unwrap().len(), 1);
    assert_eq!(again.get_sessions_by_stream("stream-a").unwrap().len(), 1);
}

fn fs_rec(name: &str) -> FsRecord {
    FsRecord {
        name: name.to_string(),
        fs_type: "local".to_string(),
        config: "{}".to_string(),
        created_at: "2024-01-01 00:00:00".to_string(),
    }
}

fn dir_rec(id: &str, fs: &str, status: &str) -> DirRecord {
    DirRecord {
        id: id.to_string(),
        access_key: "k".to_string(),
        permission: "READ_WRITE".to_string(),
        fs_name: fs.to_string(),
        created_at: "2024-01-01 00:00:00".to_string(),
        status: status.to_string(),
    }
}

fn session_rec(id: &str, dir: &str) -> SessionRecord {
    SessionRecord {
        session_id: id.to_string(),
        dir_id: dir.to_string(),
        stream_id: "s".to_string(),
        mountpoint: "/m".to_string(),
        created_at: "2024-01-01 00:00:00".to_string(),
    }
}

#[test]
fn restore_refuses_broken_tables() {
    assert!(Database::restore(vec![fs_rec("a"), fs_rec("a")], vec![], vec![]).is_none());
    assert!(Database::restore(vec![fs_rec("a")], vec![dir_rec("d", "b", "active")], vec![]).is_none());
    assert!(Database::restore(vec![fs_rec("a")], vec![dir_rec("d", "a", "gone")], vec![]).is_none());
    assert!(Database::restore(vec![fs_rec("a")], vec![dir_rec("d", "a", "active"), dir_rec("d", "a", "deleted")], vec![]).is_none());
    assert!(Database::restore(vec![fs_rec("a")], vec![dir_rec("d", "a", "active")], vec![session_rec("s", "x")]).is_none());
    assert!(Database::restore(
        vec![fs_rec("a")],
        vec![dir_rec("d", "a", "active")],
        vec![session_rec("s", "d"), session_rec("s", "d")]
    )
    .is_none());
    assert!(Database::restore(vec![fs_rec("a")], vec![dir_rec("d", "a", "deleted")], vec![session_rec("s", "d")]).is_some());
}

#[test]
fn create_dir_with_taken_id_is_refused() {
    let mut db = Database::new();
    local_dev(&mut db);
    let d = db
        .create_dir_with("local-dev", "id1".to_string(), "k1".to_string(), "2024-01-01 00:00:00".to_string())
        .unwrap();
    assert_eq!(d.permission, "READ_WRITE");
    assert_eq!(d.status, "active");
    let err = db
        .create_dir_with("local-dev", "id1".to_string(), "k2".to_string(), "2024-01-01 00:00:00".to_string())
        .unwrap_err();
    assert_eq!(err.message(), "failed to create dir");
    assert_eq!(db.list_dirs(None).unwrap().len(), 1);
}

#[test]
fn reconcile_with_clashing_ids_changes_nothing() {
    let mut db = Database::new();
    local_dev(&mut db);
    let d = db.create_dir("local-dev").unwrap();
    let s = db.register_session(&d.id, "stream-b", "/mnt/b").unwrap();
    let err = db
        .reconcile_with("stream-a", &[(d.id.as_str(), "/mnt/a")], vec![s.session_id.clone()], "2024-01-01 00:00:00".to_string())
        .unwrap_err();
    assert_eq!(err.message(), "UNIQUE constraint failed");
    assert!(db.get_sessions_by_stream("stream-a").unwrap().is_empty());
}

#[test]
fn random_source_error_message() {
    assert_eq!(DbError::RandomUnavailable.message(), "random source unavailable");
    let s = afs::controller::rpc_error(afs::controller::Code::NotFound, DbError::RandomUnavailable);
    assert_eq!(s.code, afs::controller::Code::Unavailable);
    let s = afs::controller::rpc_error(afs::controller::Code::NotFound, DbError::CreateDirFailed);
    assert_eq!((s.code, s.message.as_str()), (afs::controller::Code::NotFound, "failed to create dir"));
}

#[test]
fn reconcile_with_nothing_missing_only_drops_stale() {
    let mut db = Database::new();
    local_dev(&mut db);
    let d = db.create_dir("local-dev").unwrap();
    db.register_session(&d.id, "stream-a", "/mnt/a").unwrap();
    db.register_session(&d.id, "stream-a", "/mnt/b").unwrap();
    db.reconcile_sessions_from_heartbeat("stream-a", &[(d.id.as_str(), "/mnt/b")]).unwrap();
    let s = db.get_sessions_by_stream("stream-a").unwrap();
    assert_eq!(s.len(), 1);
    assert_eq!(s[0].mountpoint, "/mnt/b");
}
