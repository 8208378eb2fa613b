use afs::cli::revoke_report;
use afs::controller::{
    Code, ControllerServiceImpl, CreateDirRequest, CreateDirResponse, DeleteDirRequest, DeregisterSessionRequest,
    ListDirsRequest, RegisterFsRequest, RegisterSessionRequest, RevokeDirRequest, RevokeDirResponse,
};
use afs::db::Database;

fn start_controller() -> ControllerServiceImpl {
    ControllerServiceImpl::new(Database::open(":memory:").unwrap())
}

fn setup(client: &mut ControllerServiceImpl) -> CreateDirResponse {
    client
        .register_fs(RegisterFsRequest {
            name: "local-test".to_string(),
            fs_type: "local".to_string(),
            config: vec![("base_path".to_string(), "/tmp/test".to_string())],
        })
        .unwrap();
    client.create_dir(CreateDirRequest { fs_name: "local-test".to_string() }).unwrap()
}

fn register(client: &mut ControllerServiceImpl, dir_id: &str, mountpoint: &str, stream_id: &str) -> String {
    client
        .register_session(RegisterSessionRequest {
            dir_id: dir_id.to_string(),
            mountpoint: mountpoint.to_string(),
            stream_id: stream_id.to_string(),
        })
        .unwrap()
        .session_id
}

/// Revokes directory `id`: a session is reached when its stream is among
/// `connected`.
fn revoke(client: &mut ControllerServiceImpl, id: &str, key: &str, connected: &[&str]) -> Result<RevokeDirResponse, Code> {
    let targets = client
        .revoke_targets(&RevokeDirRequest { id: id.to_string(), access_key: key.to_string() })
        .map_err(|e| e.code)?;
    let outcomes: Vec<(String, bool)> =
        targets.into_iter().map(|s| { let reached = connected.contains(&s.stream_id.as_str()); (s.session_id, reached) }).collect();
    Ok(client.finish_revoke(&outcomes))
}

#[test]
fn test_session_registration_and_deregistration() {
    let mut client = start_controller();
    let dir = setup(&mut client);

    let s1 = register(&mut client, &dir.id, "/mnt/agent1", "stream-abc");
    assert_eq!(s1.len(), 32);
    let s2 = register(&mut client, &dir.id, "/mnt/agent2", "stream-def");

    client.deregister_session(DeregisterSessionRequest { session_id: s1.clone() }).unwrap();

    let err = client.deregister_session(DeregisterSessionRequest { session_id: s1 }).unwrap_err();
    assert_eq!(err.code, Code::NotFound);

    client.deregister_session(DeregisterSessionRequest { session_id: s2 }).unwrap();
}

#[test]
fn test_revoke_dir_with_no_sessions() {
    let mut client = start_controller();
    let dir = setup(&mut client);

    let resp = revoke(&mut client, &dir.id, &dir.access_key, &[]).unwrap();
    assert_eq!(resp.sessions_revoked, 0);
    assert_eq!(resp.errors, 0);

    let list = client.list_dirs(ListDirsRequest { fs_name: "local-test".to_string() }).unwrap();
    assert_eq!(list.dirs.len(), 1);
    assert_eq!(list.dirs[0].id, dir.id);
}

#[test]
fn test_revoke_dir_invalid_key() {
    let mut client = start_controller();
    let dir = setup(&mut client);
    let err = revoke(&mut client, &dir.id, "wrong-key", &[]).unwrap_err();
    assert_eq!(err, Code::PermissionDenied);
}

#[test]
fn test_revoke_cleans_up_sessions_with_no_stream() {
    let mut client = start_controller();
    let dir = setup(&mut client);
    register(&mut client, &dir.id, "/mnt/agent1", "fake-stream-1");
    register(&mut client, &dir.id, "/mnt/agent2", "fake-stream-2");

    let resp = revoke(&mut client, &dir.id, &dir.access_key, &[]).unwrap();
    assert_eq!(resp.sessions_revoked, 0);
    assert_eq!(resp.errors, 2);
}

#[test]
fn test_session_stream_heartbeat_and_force_unmount() {
    let mut client = start_controller();
    let dir = setup(&mut client);

    assert!(client.heartbeat("test-stream-001", &[(dir.id.as_str(), "/mnt/test")]).unwrap());

    let targets = client
        .revoke_targets(&RevokeDirRequest { id: dir.id.clone(), access_key: dir.access_key.clone() })
        .unwrap();
    assert_eq!(targets.len(), 1);
    assert_eq!(targets[0].mountpoint, "/mnt/test");
    assert_eq!(targets[0].stream_id, "test-stream-001");
    let resp = client.finish_revoke(&vec![(targets[0].session_id.clone(), true)]);
    assert_eq!(resp.sessions_revoked, 1);
    assert_eq!(resp.errors, 0);
}

#[test]
fn test_register_session_empty_fields() {
    let mut client = start_controller();
    let cases = [("", "/mnt/test", "stream-1"), ("some-dir", "", "stream-1"), ("some-dir", "/mnt/test", "")];
    for (dir_id, mountpoint, stream_id) in cases {
        let err = client
            .register_session(RegisterSessionRequest {
                dir_id: dir_id.to_string(),
                mountpoint: mountpoint.to_string(),
                stream_id: stream_id.to_string(),
            })
            .unwrap_err();
        assert_eq!(err.code, Code::InvalidArgument);
    }
}

#[test]
fn test_deregister_session_empty_id() {
    let mut client = start_controller();
    let err = client.deregister_session(DeregisterSessionRequest { session_id: String::new() }).unwrap_err();
    assert_eq!(err.code, Code::InvalidArgument);
}

#[test]
fn test_revoke_dir_empty_fields() {
    let mut client = start_controller();
    let err = revoke(&mut client, "", "some-key", &[]).unwrap_err();
    assert_eq!(err, Code::InvalidArgument);
    let err = revoke(&mut client, "some-id", "", &[]).unwrap_err();
    assert_eq!(err, Code::InvalidArgument);
}

#[test]
fn test_delete_dir_cleans_up_sessions() {
    let mut client = start_controller();
    let dir = setup(&mut client);
    register(&mut client, &dir.id, "/mnt/agent1", "fake-stream");
    register(&mut client, &dir.id, "/mnt/agent2", "fake-stream");

    // Sessions are revoked first, then the directory is deleted.
    revoke(&mut client, &dir.id, &dir.access_key, &[]).unwrap();
    client.delete_dir(DeleteDirRequest { id: dir.id.clone(), access_key: dir.access_key.clone() }).unwrap();

    let list = client.list_dirs(ListDirsRequest { fs_name: "local-test".to_string() }).unwrap();
    assert!(list.dirs.is_empty());
    assert!(client.db().get_sessions_for_dir(&dir.id).unwrap().is_empty());
}

#[test]
fn test_revoke_idempotent() {
    let mut client = start_controller();
    let dir = setup(&mut client);
    register(&mut client, &dir.id, "/mnt/test", "fake-stream");

    let resp = revoke(&mut client, &dir.id, &dir.access_key, &[]).unwrap();
    assert_eq!(resp.errors, 1);
    assert_eq!(resp.sessions_revoked, 0);

    let resp = revoke(&mut client, &dir.id, &dir.access_key, &[]).unwrap();
    assert_eq!(resp.sessions_revoked, 0);
    assert_eq!(resp.errors, 0);

    let list = client.list_dirs(ListDirsRequest { fs_name: "local-test".to_string() }).unwrap();
    assert_eq!(list.dirs.len(), 1);
}

#[test]
fn test_session_stream_disconnect_cleans_up_sessions() {
    let mut client = start_controller();
    let dir = setup(&mut client);
    let stream = "disconnect-test-stream";

    client.heartbeat(stream, &[(dir.id.as_str(), "/mnt/disconnect-test")]).unwrap();
    let resp = revoke(&mut client, &dir.id, &dir.access_key, &[stream]).unwrap();
    assert_eq!(resp.sessions_revoked, 1);

    client.heartbeat(stream, &[(dir.id.as_str(), "/mnt/disconnect-test2")]).unwrap();
    assert_eq!(client.stream_closed(stream), 1);

    let resp = revoke(&mut client, &dir.id, &dir.access_key, &[]).unwrap();
    assert_eq!(resp.sessions_revoked, 0);
    assert_eq!(resp.errors, 0);
}

#[test]
fn test_session_stream_empty_stream_id_ignored() {
    let mut client = start_controller();
    let dir = setup(&mut client);

    assert!(matches!(client.heartbeat("", &[(dir.id.as_str(), "/mnt/test")]), Ok(false)));
    assert_eq!(client.stream_closed(""), 0);

    let resp = revoke(&mut client, &dir.id, &dir.access_key, &[]).unwrap();
    assert_eq!(resp.sessions_revoked, 0);
    assert_eq!(resp.errors, 0);
}

// --- Further cases ---

#[test]
fn register_session_for_unknown_dir_is_not_found() {
    let mut client = start_controller();
    let err = client
        .register_session(RegisterSessionRequest {
            dir_id: "nope".to_string(),
            mountpoint: "/m".to_string(),
            stream_id: "s".to_string(),
        })
        .unwrap_err();
    assert_eq!((err.code, err.message.as_str()), (Code::NotFound, "failed to register session"));
}

#[test]
fn revoke_counts_reached_and_unreached() {
    let mut client = start_controller();
    let dir = setup(&mut client);
    register(&mut client, &dir.id, "/mnt/a", "up");
    register(&mut client, &dir.id, "/mnt/b", "down");
    register(&mut client, &dir.id, "/mnt/c", "up");
    let resp = revoke(&mut client, &dir.id, &dir.access_key, &["up"]).unwrap();
    assert_eq!((resp.sessions_revoked, resp.errors), (2, 1));
    assert!(client.db().get_sessions_for_dir(&dir.id).unwrap().is_empty());
}

#[test]
fn revoke_leaves_other_directories_alone() {
    let mut client = start_controller();
    let dir = setup(&mut client);
    let other = client.create_dir(CreateDirRequest { fs_name: "local-test".to_string() }).unwrap();
    register(&mut client, &dir.id, "/mnt/a", "s");
    register(&mut client, &other.id, "/mnt/b", "s");
    revoke(&mut client, &dir.id, &dir.access_key, &[]).unwrap();
    assert_eq!(client.db().get_sessions_for_dir(&other.id).unwrap().len(), 1);
}

#[test]
fn revoke_report_lines() {
    assert_eq!(revoke_report("abc", 3, 0), vec!["Revoked 3 session(s) for directory: abc".to_string()]);
    assert_eq!(
        revoke_report("abc", 2, 1),
        vec![
            "Revoked 2 session(s) for directory: abc".to_string(),
            "Warning: 1 session(s) could not be reached (cleaned up anyway)".to_string(),
        ]
    );
}

#[test]
fn delete_dir_removes_its_sessions_even_unrevoked() {
    let mut client = start_controller();
    let dir = setup(&mut client);
    let other = client.create_dir(CreateDirRequest { fs_name: "local-test".to_string() }).unwrap();
    register(&mut client, &dir.id, "/mnt/a", "s1");
    register(&mut client, &dir.id, "/mnt/b", "s2");
    register(&mut client, &other.id, "/mnt/c", "s1");
    client.delete_dir(DeleteDirRequest { id: dir.id.clone(), access_key: dir.access_key.clone() }).unwrap();
    assert!(client.db().get_sessions_for_dir(&dir.id).unwrap().is_empty());
    assert_eq!(client.db().get_sessions_for_dir(&other.id).unwrap().len(), 1);
}

#[test]
fn delete_dir_with_wrong_key_keeps_sessions() {
    let mut client = start_controller();
    let dir = setup(&mut client);
    register(&mut client, &dir.id, "/mnt/a", "s1");
    let err = client.delete_dir(DeleteDirRequest { id: dir.id.clone(), access_key: "nope".to_string() }).unwrap_err();
    assert_eq!(err.code, Code::NotFound);
    assert_eq!(client.db().get_sessions_for_dir(&dir.id).unwrap().len(), 1);
}

#[test]
fn repeated_heartbeat_is_applied_and_changes_nothing() {
    let mut client = start_controller();
    let dir = setup(&mut client);
    let mounts = [(dir.id.as_str(), "/mnt/a")];
    assert!(client.heartbeat("s", &mounts).unwrap());
    let before = client.db().get_sessions_by_stream("s").unwrap();
    assert!(client.heartbeat("s", &mounts).unwrap());
    let after = client.db().get_sessions_by_stream("s").unwrap();
    assert_eq!(before.len(), 1);
    assert_eq!(after.len(), 1);
    assert_eq!(before[0].session_id, after[0].session_id);
}

#[test]
fn heartbeat_naming_unknown_dir_is_refused() {
    let mut client = start_controller();
    setup(&mut client);
    let err = client.heartbeat("s", &[("ghost", "/mnt/a")]).unwrap_err();
    assert_eq!(err.message(), "FOREIGN KEY constraint failed");
}


#[test]
fn finish_revoke_counts_a_failed_send_as_an_error_and_still_forgets_it() {
    let mut client = start_controller();
    let dir = setup(&mut client);
    register(&mut client, &dir.id, "/mnt/send-fail", "send-fail-stream");
    let targets = client
        .revoke_targets(&RevokeDirRequest { id: dir.id.clone(), access_key: dir.access_key.clone() })
        .unwrap();
    // The stream was connected, but the push failed.
    let resp = client.finish_revoke(&vec![(targets[0].session_id.clone(), false)]);
    assert_eq!((resp.sessions_revoked, resp.errors), (0, 1));
    assert!(client.db().get_sessions_for_dir(&dir.id).unwrap().is_empty());
}

#[test]
fn test_revoke_with_connected_stream_send_failure() {
    let mut client = start_controller();
    let dir = setup(&mut client);
    assert!(client.heartbeat("send-fail-stream", &[(dir.id.as_str(), "/mnt/send-fail")]).unwrap());
    let targets = client
        .revoke_targets(&RevokeDirRequest { id: dir.id.clone(), access_key: dir.access_key.clone() })
        .unwrap();
    assert_eq!(targets.len(), 1);
    // The stream is registered, but the receiving side has gone away.
    let resp = client.finish_revoke(&vec![(targets[0].session_id.clone(), false)]);
    let total = resp.sessions_revoked + resp.errors;
    assert_eq!(total, 1);
    assert_eq!(resp.errors, 1);
}

#[test]
fn heartbeat_with_new_mounts_on_known_dirs_is_applied() {
    let mut client = start_controller();
    let dir = setup(&mut client);
    let other = client.create_dir(CreateDirRequest { fs_name: "local-test".to_string() }).unwrap();
    assert!(client.heartbeat("s", &[(dir.id.as_str(), "/mnt/a"), (other.id.as_str(), "/mnt/b")]).unwrap());
    assert_eq!(client.db().get_sessions_by_stream("s").unwrap().len(), 2);
}
