use afs::controller::{
    permission_from_str, Code, ControllerServiceImpl, CreateDirRequest, DeleteDirRequest, ListDirsRequest,
    Permission, RegisterFsRequest, UnregisterFsRequest, ValidateTokenRequest,
};
use afs::db::Database;

fn start_controller() -> ControllerServiceImpl {
    ControllerServiceImpl::new(Database::open(":memory:").unwrap())
}

fn config(k: &str, v: &str) -> Vec<(String, String)> {
    vec![(k.to_string(), v.to_string())]
}

fn get<'a>(c: &'a [(String, String)], key: &str) -> Option<&'a String> {
    c.iter().find(|(k, _)| k == key).map(|(_, v)| v)
}

#[test]
fn test_full_workflow() {
    let mut client = start_controller();

    let resp = client
        .register_fs(RegisterFsRequest {
            name: "local-test".to_string(),
            fs_type: "local".to_string(),
            config: config("base_path", "/tmp/afs-test"),
        })
        .unwrap();
    assert_eq!(resp.name, "local-test");

    let resp = client.list_fs().unwrap();
    assert_eq!(resp.filesystems.len(), 1);
    assert_eq!(resp.filesystems[0].name, "local-test");
    assert_eq!(resp.filesystems[0].fs_type, "local");

    let resp = client.create_dir(CreateDirRequest { fs_name: "local-test".to_string() }).unwrap();
    assert_eq!(resp.id.len(), 32);
    assert_eq!(resp.access_key.len(), 32);
    assert_eq!(resp.permission.to_i32(), Permission::ReadWrite.to_i32());
    let dir_id = resp.id;
    let access_key = resp.access_key;

    let resp = client
        .validate_token(ValidateTokenRequest { id: dir_id.clone(), access_key: access_key.clone() })
        .unwrap();
    assert!(resp.valid);
    assert_eq!(resp.permission.to_i32(), Permission::ReadWrite.to_i32());
    assert_eq!(resp.fs_type, "local");
    assert_eq!(get(&resp.fs_config, "base_path").unwrap(), "/tmp/afs-test");

    let resp = client
        .validate_token(ValidateTokenRequest { id: dir_id.clone(), access_key: "wrong-key".to_string() })
        .unwrap();
    assert!(!resp.valid);

    let resp = client.list_dirs(ListDirsRequest { fs_name: "local-test".to_string() }).unwrap();
    assert_eq!(resp.dirs.len(), 1);
    assert_eq!(resp.dirs[0].id, dir_id);

    let resp2 = client.create_dir(CreateDirRequest { fs_name: "local-test".to_string() }).unwrap();

    let resp = client.list_dirs(ListDirsRequest { fs_name: String::new() }).unwrap();
    assert_eq!(resp.dirs.len(), 2);

    client
        .delete_dir(DeleteDirRequest { id: resp2.id.clone(), access_key: resp2.access_key.clone() })
        .unwrap();

    let resp = client.list_dirs(ListDirsRequest { fs_name: String::new() }).unwrap();
    assert_eq!(resp.dirs.len(), 1);

    let resp = client
        .validate_token(ValidateTokenRequest { id: resp2.id, access_key: resp2.access_key })
        .unwrap();
    assert!(!resp.valid);

    client
        .delete_dir(DeleteDirRequest { id: dir_id.clone(), access_key: access_key.clone() })
        .unwrap();

    client.unregister_fs(UnregisterFsRequest { name: "local-test".to_string() }).unwrap();

    let resp = client.list_fs().unwrap();
    assert!(resp.filesystems.is_empty());
}

#[test]
fn integration_test_test_cannot_unregister_fs_with_active_dirs() {
    let mut client = start_controller();
    client
        .register_fs(RegisterFsRequest {
            name: "local-test".to_string(),
            fs_type: "local".to_string(),
            config: config("base_path", "/tmp/afs-test"),
        })
        .unwrap();
    client.create_dir(CreateDirRequest { fs_name: "local-test".to_string() }).unwrap();

    let err = client.unregister_fs(UnregisterFsRequest { name: "local-test".to_string() }).unwrap_err();
    assert_eq!(err.code, Code::FailedPrecondition);
}

#[test]
fn test_create_dir_on_nonexistent_fs() {
    let mut client = start_controller();
    let err = client.create_dir(CreateDirRequest { fs_name: "nonexistent".to_string() }).unwrap_err();
    assert_eq!(err.code, Code::NotFound);
}

#[test]
fn test_multiple_filesystems() {
    let mut client = start_controller();
    client
        .register_fs(RegisterFsRequest {
            name: "local-dev".to_string(),
            fs_type: "local".to_string(),
            config: config("base_path", "/tmp/dev"),
        })
        .unwrap();
    client
        .register_fs(RegisterFsRequest {
            name: "nfs-shared".to_string(),
            fs_type: "nfs".to_string(),
            config: config("mount_path", "/mnt/nfs"),
        })
        .unwrap();

    let dir1 = client.create_dir(CreateDirRequest { fs_name: "local-dev".to_string() }).unwrap();
    let dir2 = client.create_dir(CreateDirRequest { fs_name: "nfs-shared".to_string() }).unwrap();

    let resp = client.list_dirs(ListDirsRequest { fs_name: String::new() }).unwrap();
    assert_eq!(resp.dirs.len(), 2);

    let resp = client.list_dirs(ListDirsRequest { fs_name: "local-dev".to_string() }).unwrap();
    assert_eq!(resp.dirs.len(), 1);
    assert_eq!(resp.dirs[0].fs_name, "local-dev");

    let resp = client.validate_token(ValidateTokenRequest { id: dir1.id, access_key: dir1.access_key }).unwrap();
    assert_eq!(resp.fs_type, "local");

    let resp = client.validate_token(ValidateTokenRequest { id: dir2.id, access_key: dir2.access_key }).unwrap();
    assert_eq!(resp.fs_type, "nfs");
}

#[test]
fn test_register_fs_duplicate_name() {
    let mut client = start_controller();
    let req = || RegisterFsRequest {
        name: "local-dup".to_string(),
        fs_type: "local".to_string(),
        config: config("base_path", "/tmp/dup"),
    };
    client.register_fs(req()).unwrap();
    let err = client.register_fs(req()).unwrap_err();
    assert_eq!(err.code, Code::AlreadyExists);
}

#[test]
fn test_register_fs_empty_fields() {
    let mut client = start_controller();
    let err = client
        .register_fs(RegisterFsRequest { name: String::new(), fs_type: "local".to_string(), config: Vec::new() })
        .unwrap_err();
    assert_eq!(err.code, Code::InvalidArgument);

    let err = client
        .register_fs(RegisterFsRequest { name: "test".to_string(), fs_type: String::new(), config: Vec::new() })
        .unwrap_err();
    assert_eq!(err.code, Code::InvalidArgument);
}

#[test]
fn test_unregister_fs_not_found() {
    let mut client = start_controller();
    let err = client.unregister_fs(UnregisterFsRequest { name: "nonexistent".to_string() }).unwrap_err();
    assert_eq!(err.code, Code::NotFound);
}

#[test]
fn test_unregister_fs_empty_name() {
    let mut client = start_controller();
    let err = client.unregister_fs(UnregisterFsRequest { name: String::new() }).unwrap_err();
    assert_eq!(err.code, Code::InvalidArgument);
}

#[test]
fn test_delete_dir_invalid_key() {
    let mut client = start_controller();
    client
        .register_fs(RegisterFsRequest {
            name: "local-test".to_string(),
            fs_type: "local".to_string(),
            config: config("base_path", "/tmp/test"),
        })
        .unwrap();
    let dir = client.create_dir(CreateDirRequest { fs_name: "local-test".to_string() }).unwrap();
    let err = client
        .delete_dir(DeleteDirRequest { id: dir.id, access_key: "wrong-key".to_string() })
        .unwrap_err();
    assert_eq!(err.code, Code::NotFound);
}

#[test]
fn test_delete_dir_empty_fields() {
    let mut client = start_controller();
    let err = client
        .delete_dir(DeleteDirRequest { id: String::new(), access_key: "key".to_string() })
        .unwrap_err();
    assert_eq!(err.code, Code::InvalidArgument);
}

#[test]
fn test_validate_token_empty_fields() {
    let client = start_controller();
    let err = client
        .validate_token(ValidateTokenRequest { id: String::new(), access_key: "key".to_string() })
        .err()
        .unwrap();
    assert_eq!(err.code, Code::InvalidArgument);
}

#[test]
fn test_create_dir_empty_fs_name() {
    let mut client = start_controller();
    let err = client.create_dir(CreateDirRequest { fs_name: String::new() }).unwrap_err();
    assert_eq!(err.code, Code::InvalidArgument);
}

// --- Further cases ---

#[test]
fn permission_strings() {
    assert_eq!(permission_from_str("READ_ONLY"), Permission::ReadOnly);
    assert_eq!(permission_from_str("READ_WRITE"), Permission::ReadWrite);
    assert_eq!(permission_from_str("anything"), Permission::ReadWrite);
    assert_eq!(Permission::ReadOnly.to_i32(), 0);
    assert_eq!(Permission::ReadWrite.to_i32(), 1);
}

#[test]
fn status_messages() {
    let mut client = start_controller();
    let err = client.register_fs(RegisterFsRequest { name: String::new(), fs_type: String::new(), config: Vec::new() }).unwrap_err();
    assert_eq!(err.message, "name is required");
    let err = client.unregister_fs(UnregisterFsRequest { name: "ghost".to_string() }).unwrap_err();
    assert_eq!(err.message, "fs 'ghost' not found");
    let err = client.create_dir(CreateDirRequest { fs_name: "ghost".to_string() }).unwrap_err();
    assert_eq!(err.message, "filesystem 'ghost' not found");
    client
        .register_fs(RegisterFsRequest { name: "a".to_string(), fs_type: "local".to_string(), config: config("base_path", "/x") })
        .unwrap();
    client.create_dir(CreateDirRequest { fs_name: "a".to_string() }).unwrap();
    let err = client.unregister_fs(UnregisterFsRequest { name: "a".to_string() }).unwrap_err();
    assert_eq!(err.message, "cannot unregister fs 'a': 1 active dir(s) exist");
    let err = client
        .delete_dir(DeleteDirRequest { id: "x".to_string(), access_key: "y".to_string() })
        .unwrap_err();
    assert_eq!(err.message, "dir not found or invalid access key");
}

#[test]
fn config_round_trips_through_the_store() {
    let mut client = start_controller();
    client
        .register_fs(RegisterFsRequest {
            name: "n".to_string(),
            fs_type: "nfs".to_string(),
            config: vec![
                ("nfs_server".to_string(), "10.0.0.1".to_string()),
                ("mount_path".to_string(), "/mnt/n".to_string()),
            ],
        })
        .unwrap();
    let stored = client.db().get_fs("n").unwrap().unwrap().config;
    assert_eq!(stored, r#"{"mount_path":"/mnt/n","nfs_server":"10.0.0.1"}"#);
    let listed = client.list_fs().unwrap();
    let c = &listed.filesystems[0].config;
    assert_eq!(c.len(), 2);
    assert_eq!(get(c, "nfs_server").unwrap(), "10.0.0.1");
    assert_eq!(get(c, "mount_path").unwrap(), "/mnt/n");
}

#[test]
fn unparsable_stored_config_lists_as_empty() {
    let mut db = Database::new();
    db.register_fs("raw", "local", "not json").unwrap();
    let client = ControllerServiceImpl::new(db);
    let listed = client.list_fs().unwrap();
    assert!(listed.filesystems[0].config.is_empty());
}

#[test]
fn invalid_token_reports_no_permission() {
    let client = start_controller();
    let resp = client
        .validate_token(ValidateTokenRequest { id: "x".to_string(), access_key: "y".to_string() })
        .unwrap();
    assert!(!resp.valid);
    assert_eq!(resp.permission, Permission::ReadOnly);
    assert!(resp.fs_type.is_empty());
    assert!(resp.fs_config.is_empty());
}
