use afs::controller::{Code, Permission, ValidateTokenResponse};
use afs::fuse_fs::{read_range, AttrTime, write_merge, AfsFilesystem, Errno, FileKind, InodeTable, MountPermission, ROOT_INO};
use afs::fuse_service::{
    MountAction, MountEvent, MountPhase, MountState,
    check_validation, create_backend, mount_permission, next_backoff, should_deregister, ActiveMount, Backend,
    FuseServiceImpl, MountRequest, UnmountRequest,
};
use afs::storage::{DirEntry, FileAttr};
use std::time::{Duration, SystemTime, UNIX_EPOCH};

#[test]
fn inode_table_starts_with_root() {
    let t = InodeTable::new();
    assert_eq!(t.len(), 1);
    assert_eq!(t.get_path(ROOT_INO).unwrap(), "");
    assert!(t.get_path(0).is_none());
    assert!(t.get_path(2).is_none());
}

#[test]
fn inode_table_gives_one_inode_per_path() {
    let mut t = InodeTable::new();
    let a = t.get_or_create("a".to_string());
    let b = t.get_or_create("b".to_string());
    let a2 = t.get_or_create("a".to_string());
    assert_eq!(a, 2);
    assert_eq!(b, 3);
    assert_eq!(a2, a);
    assert_eq!(t.len(), 3);
    assert_eq!(t.get_path(b).unwrap(), "b");
    assert_eq!(t.get_or_create(String::new()), ROOT_INO);
}

#[test]
fn read_range_clamps_to_the_data() {
    let data = b"hello world".to_vec();
    assert_eq!(read_range(&data, 0, 5), b"hello".to_vec());
    assert_eq!(read_range(&data, 6, 100), b"world".to_vec());
    assert_eq!(read_range(&data, 11, 4), Vec::<u8>::new());
    assert_eq!(read_range(&data, 50, 4), Vec::<u8>::new());
}

#[test]
fn write_merge_overwrites_and_extends() {
    assert_eq!(write_merge(b"hello".to_vec(), 1, b"EL"), b"hELlo".to_vec());
    assert_eq!(write_merge(b"ab".to_vec(), 4, b"cd"), b"ab\0\0cd".to_vec());
    assert_eq!(write_merge(Vec::new(), 0, b"x"), b"x".to_vec());
    assert_eq!(write_merge(b"abc".to_vec(), 0, b""), b"abc".to_vec());
}

#[test]
fn write_then_read_gives_back_the_write() {
    let merged = write_merge(b"0123456789".to_vec(), 3, b"XYZ");
    assert_eq!(read_range(&merged, 3, 3), b"XYZ".to_vec());
}

#[test]
fn readonly_mount_refuses_changes() {
    let fs = AfsFilesystem::new("d".to_string(), MountPermission::ReadOnly);
    assert!(fs.is_readonly());
    assert_eq!(fs.begin_change(ROOT_INO, "x"), Err(Errno::Access));
    assert_eq!(fs.begin_write(ROOT_INO), Err(Errno::Access));
    assert_eq!(fs.begin_rename(ROOT_INO, "a", ROOT_INO, "b"), Err(Errno::Access));
    assert_eq!(fs.path_of(ROOT_INO), Ok(String::new()));
}

#[test]
fn readwrite_mount_resolves_paths() {
    let mut fs = AfsFilesystem::new("d".to_string(), MountPermission::ReadWrite);
    assert_eq!(fs.dir_id(), "d");
    assert_eq!(fs.permission(), MountPermission::ReadWrite);
    assert_eq!(fs.begin_change(ROOT_INO, "x"), Ok("x".to_string()));
    let sub = fs.inode_for("sub".to_string());
    assert_eq!(fs.child_path(sub, "f.txt"), Ok("sub/f.txt".to_string()));
    assert_eq!(fs.begin_write(sub), Ok("sub".to_string()));
    assert_eq!(fs.begin_rename(sub, "a", ROOT_INO, "b"), Ok(("sub/a".to_string(), "b".to_string())));
    assert_eq!(fs.begin_change(99, "x"), Err(Errno::NoEntry));
    assert_eq!(fs.path_of(99), Err(Errno::NoEntry));
    assert_eq!(fs.inode_count(), 2);
}

#[test]
fn attributes_follow_storage() {
    let fs = AfsFilesystem::new("d".to_string(), MountPermission::ReadWrite);
    let t = UNIX_EPOCH + Duration::from_secs(1000);
    let file = FileAttr { size: 1025, is_dir: false, modified: t, accessed: t, created: t };
    let a = fs.storage_attr_to_fuse(&file, 7, 1000, 100);
    assert_eq!((a.ino, a.size, a.blocks, a.perm, a.nlink, a.uid, a.gid, a.blksize), (7, 1025, 3, 0o644, 1, 1000, 100, 512));
    assert_eq!(a.kind, FileKind::RegularFile);
    assert_eq!(a.mtime, AttrTime::At(t));
    let dir = FileAttr { size: 0, is_dir: true, modified: t, accessed: t, created: t };
    let a = fs.storage_attr_to_fuse(&dir, 8, 0, 0);
    assert_eq!((a.blocks, a.perm, a.nlink), (0, 0o755, 2));
    assert_eq!(a.kind, FileKind::Directory);
    let r = fs.root_attr(1, 2);
    assert_eq!((r.ino, r.perm, r.nlink, r.uid, r.gid), (ROOT_INO, 0o755, 2, 1, 2));
    assert_eq!((r.atime, r.mtime, r.ctime, r.crtime), (AttrTime::Epoch, AttrTime::Epoch, AttrTime::Epoch, AttrTime::Epoch));
    let now = SystemTime::now();
    let c = fs.created_attr(9, FileKind::RegularFile, 3, 4, now);
    assert_eq!((c.ino, c.size, c.perm, c.nlink), (9, 0, 0o644, 1));
    assert_eq!(c.crtime, AttrTime::At(now));
}

#[test]
fn readdir_lists_dots_then_entries() {
    let mut fs = AfsFilesystem::new("d".to_string(), MountPermission::ReadWrite);
    let entries = vec![
        DirEntry { name: "a.txt".to_string(), is_dir: false, size: 3 },
        DirEntry { name: "sub".to_string(), is_dir: true, size: 0 },
    ];
    let listing = fs.readdir_listing("", &entries, 0);
    let names: Vec<&str> = listing.iter().map(|e| e.name.as_str()).collect();
    assert_eq!(names, vec![".", "..", "a.txt", "sub"]);
    assert_eq!(listing[0].ino, ROOT_INO);
    assert_eq!(listing[3].kind, FileKind::Directory);
    assert_eq!(listing[3].next_offset, 4);
    assert_eq!(fs.path_of(listing[2].ino), Ok("a.txt".to_string()));

    let again = fs.readdir_listing("", &entries, 3);
    assert_eq!(again.len(), 1);
    assert_eq!(again[0].name, "sub");
    assert_eq!(again[0].ino, listing[3].ino);
    assert!(fs.readdir_listing("", &entries, 4).is_empty());
}

#[test]
fn readdir_of_subdirectory_joins_paths() {
    let mut fs = AfsFilesystem::new("d".to_string(), MountPermission::ReadWrite);
    let entries = vec![DirEntry { name: "x".to_string(), is_dir: false, size: 0 }];
    let listing = fs.readdir_listing("sub", &entries, 2);
    assert_eq!(listing.len(), 1);
    assert_eq!(fs.path_of(listing[0].ino), Ok("sub/x".to_string()));
}

fn token(valid: bool, permission: Permission, fs_type: &str, key: &str, value: &str) -> ValidateTokenResponse {
    ValidateTokenResponse {
        valid,
        permission,
        fs_type: fs_type.to_string(),
        fs_config: vec![(key.to_string(), value.to_string())],
    }
}

#[test]
fn mount_permission_rule() {
    assert_eq!(mount_permission(false, Permission::ReadWrite), MountPermission::ReadWrite);
    assert_eq!(mount_permission(true, Permission::ReadWrite), MountPermission::ReadOnly);
    assert_eq!(mount_permission(false, Permission::ReadOnly), MountPermission::ReadOnly);
}

#[test]
fn check_validation_refuses_invalid_tokens() {
    let err = check_validation(token(false, Permission::ReadOnly, "", "", "")).unwrap_err();
    assert_eq!(err.code, Code::PermissionDenied);
    assert_eq!(err.message, "invalid id or access key");
    let ok = check_validation(token(true, Permission::ReadWrite, "local", "base_path", "/x")).unwrap();
    assert_eq!(ok.fs_type, "local");
}

#[test]
fn create_backend_picks_by_type() {
    match create_backend("local", &vec![("base_path".to_string(), "/data".to_string())]).unwrap() {
        Backend::Local(b) => assert_eq!(b.base_path(), "/data"),
        _ => panic!("expected a local backend"),
    }
    match create_backend("nfs", &vec![("mount_path".to_string(), "/mnt/n".to_string())]).unwrap() {
        Backend::Nfs(b) => assert_eq!(b.mount_path(), "/mnt/n"),
        _ => panic!("expected an nfs backend"),
    }
    let err = create_backend("local", &Vec::new()).err().unwrap();
    assert_eq!((err.code, err.message.as_str()), (Code::Internal, "missing base_path in fs config"));
    let err = create_backend("nfs", &vec![("base_path".to_string(), "/x".to_string())]).err().unwrap();
    assert_eq!(err.message, "missing mount_path in fs config");
    let err = create_backend("s3", &Vec::new()).err().unwrap();
    assert_eq!(err.message, "unsupported fs type: s3");
}

#[test]
fn backoff_doubles_up_to_the_cap() {
    assert_eq!(next_backoff(1, 30), 2);
    assert_eq!(next_backoff(16, 30), 30);
    assert_eq!(next_backoff(30, 30), 30);
    assert!(should_deregister("abc"));
    assert!(!should_deregister(""));
}

fn mount(id: &str, mp: &str) -> ActiveMount<u32> {
    ActiveMount {
        id: id.to_string(),
        mountpoint: mp.to_string(),
        permission: MountPermission::ReadWrite,
        session_id: "s".to_string(),
        session: 0,
    }
}

#[test]
fn fuse_service_tracks_mounts() {
    let mut svc: FuseServiceImpl<u32> = FuseServiceImpl::new("127.0.0.1:9100".to_string()).unwrap();
    assert_eq!(svc.stream_id().len(), 32);
    assert_eq!(svc.controller_addr(), "127.0.0.1:9100");
    assert!(svc.mount_statuses().is_empty());

    let req = MountRequest {
        id: "d1".to_string(),
        access_key: "k".to_string(),
        mountpoint: "/mnt/a".to_string(),
        controller_addr: String::new(),
        readonly: false,
    };
    assert!(svc.check_mount_request(&req).is_ok());
    assert_eq!(svc.controller_endpoint(&req.controller_addr), "http://127.0.0.1:9100");
    assert_eq!(svc.controller_endpoint("10.0.0.2:9100"), "http://10.0.0.2:9100");

    svc.record_mount(mount("d1", "/mnt/a"));
    svc.record_mount(mount("d2", "/mnt/b"));
    assert!(svc.is_mounted("/mnt/a"));
    let err = svc.check_mount_request(&req).unwrap_err();
    assert_eq!(err.code, Code::AlreadyExists);
    assert_eq!(err.message, "already mounted at /mnt/a");

    assert_eq!(
        svc.mount_statuses(),
        vec![("d1".to_string(), "/mnt/a".to_string()), ("d2".to_string(), "/mnt/b".to_string())]
    );
    let listed = svc.list_mounts();
    assert_eq!(listed.len(), 2);
    assert_eq!(listed[1].permission, Permission::ReadWrite);

    svc.record_mount(mount("d3", "/mnt/a"));
    assert_eq!(
        svc.mount_statuses(),
        vec![("d2".to_string(), "/mnt/b".to_string()), ("d3".to_string(), "/mnt/a".to_string())]
    );

    assert!(svc.force_unmount("/mnt/b"));
    assert!(!svc.force_unmount("/mnt/b"));
    assert!(!svc.is_mounted("/mnt/b"));

    let m = svc.unmount(&UnmountRequest { mountpoint: "/mnt/a".to_string() }).ok().unwrap();
    assert_eq!(m.id, "d3");
    let err = svc.unmount(&UnmountRequest { mountpoint: "/mnt/a".to_string() }).err().unwrap();
    assert_eq!((err.code, err.message.as_str()), (Code::NotFound, "no mount at /mnt/a"));
    let err = svc.unmount(&UnmountRequest { mountpoint: String::new() }).err().unwrap();
    assert_eq!(err.code, Code::InvalidArgument);
}

#[test]
fn mount_request_requires_every_field() {
    let svc: FuseServiceImpl<u32> = FuseServiceImpl::new(String::new()).unwrap();
    let req = MountRequest {
        id: String::new(),
        access_key: "k".to_string(),
        mountpoint: "/m".to_string(),
        controller_addr: String::new(),
        readonly: true,
    };
    let err = svc.check_mount_request(&req).unwrap_err();
    assert_eq!(err.code, Code::InvalidArgument);
    assert_eq!(err.message, "id, access_key, and mountpoint are required");
}

#[test]
fn reconnect_delay_resets_after_clean_end() {
    assert_eq!(afs::fuse_service::delay_before_reconnect(true, 16), 1);
    assert_eq!(afs::fuse_service::delay_before_reconnect(false, 16), 16);
}

#[test]
fn readdir_allocates_inodes_for_skipped_entries() {
    let mut fs = AfsFilesystem::new("d".to_string(), MountPermission::ReadWrite);
    let entries = vec![
        DirEntry { name: "a".to_string(), is_dir: false, size: 0 },
        DirEntry { name: "b".to_string(), is_dir: false, size: 0 },
    ];
    let listing = fs.readdir_listing("", &entries, 3);
    assert_eq!(listing.len(), 1);
    assert_eq!(fs.inode_count(), 3);
    assert_eq!(fs.path_of(2), Ok("a".to_string()));
}


fn mount_req(mp: &str, readonly: bool) -> MountRequest {
    MountRequest {
        id: "a1b2c3d4e5f6789012345678abcdef90".to_string(),
        access_key: "k".to_string(),
        mountpoint: mp.to_string(),
        controller_addr: String::new(),
        readonly,
    }
}

fn valid_local() -> ValidateTokenResponse {
    token(true, Permission::ReadWrite, "local", "base_path", "/data")
}

#[test]
fn mount_steps_with_lazy_creation() {
    let mut svc: FuseServiceImpl<u32> = FuseServiceImpl::new("127.0.0.1:9100".to_string()).unwrap();
    let st = MountState::new(mount_req("/mnt/a", false));
    let (st, a) = svc.mount_step(st, MountEvent::Begin);
    match a {
        MountAction::Validate(e) => assert_eq!(e, "http://127.0.0.1:9100"),
        _ => panic!("expected Validate"),
    }
    let (st, a) = svc.mount_step(st, MountEvent::Validated(Ok(valid_local())));
    match a {
        MountAction::CheckDir(Backend::Local(b)) => assert_eq!(b.base_path(), "/data"),
        _ => panic!("expected CheckDir"),
    }
    let (st, a) = svc.mount_step(st, MountEvent::DirChecked(Ok(false)));
    assert!(matches!(a, MountAction::InitDir));
    let (st, a) = svc.mount_step(st, MountEvent::DirInitialized(Ok(())));
    assert!(matches!(a, MountAction::CreateMountpoint));
    let (st, a) = svc.mount_step(st, MountEvent::MountpointCreated(Ok(())));
    assert!(matches!(a, MountAction::MountFuse(MountPermission::ReadWrite)));
    let (st, a) = svc.mount_step(st, MountEvent::Mounted(Ok(7)));
    assert!(matches!(a, MountAction::RegisterSession));
    assert!(!svc.is_mounted("/mnt/a"));
    let (st, a) = svc.mount_step(st, MountEvent::SessionRegistered(None));
    match a {
        MountAction::Reply(Ok(mp)) => assert_eq!(mp, "/mnt/a"),
        _ => panic!("expected a reply"),
    }
    assert!(matches!(st.phase, MountPhase::Done));
    assert!(svc.is_mounted("/mnt/a"));
    assert_eq!(svc.mount_statuses(), vec![("a1b2c3d4e5f6789012345678abcdef90".to_string(), "/mnt/a".to_string())]);
    let m = svc.unmount(&UnmountRequest { mountpoint: "/mnt/a".to_string() }).ok().unwrap();
    assert_eq!(m.session, 7);
    assert_eq!(m.session_id, "");
}

#[test]
fn mount_skips_creation_of_existing_dir_and_keeps_readonly() {
    let mut svc: FuseServiceImpl<u32> = FuseServiceImpl::new(String::new()).unwrap();
    let st = MountState::new(mount_req("/mnt/r", true));
    let (st, _) = svc.mount_step(st, MountEvent::Begin);
    let (st, _) = svc.mount_step(st, MountEvent::Validated(Ok(valid_local())));
    let (st, a) = svc.mount_step(st, MountEvent::DirChecked(Ok(true)));
    assert!(matches!(a, MountAction::CreateMountpoint));
    let (st, a) = svc.mount_step(st, MountEvent::MountpointCreated(Ok(())));
    assert!(matches!(a, MountAction::MountFuse(MountPermission::ReadOnly)));
    let (st, _) = svc.mount_step(st, MountEvent::Mounted(Ok(1)));
    let (_, _) = svc.mount_step(st, MountEvent::SessionRegistered(Some("sess".to_string())));
    assert_eq!(svc.list_mounts()[0].permission, Permission::ReadOnly);
    let m = svc.unmount(&UnmountRequest { mountpoint: "/mnt/r".to_string() }).ok().unwrap();
    assert_eq!(m.session_id, "sess");
}

fn reply_err<S>(r: (MountState<S>, MountAction)) -> (Code, String) {
    match r.1 {
        MountAction::Reply(Err(e)) => (e.code, e.message),
        _ => panic!("expected an error reply"),
    }
}

#[test]
fn mount_failures_answer_and_record_nothing() {
    let mut svc: FuseServiceImpl<u32> = FuseServiceImpl::new(String::new()).unwrap();
    let start = |svc: &mut FuseServiceImpl<u32>| {
        let (st, _) = svc.mount_step(MountState::new(mount_req("/mnt/f", false)), MountEvent::Begin);
        st
    };
    let st = start(&mut svc);
    assert_eq!(
        reply_err(svc.mount_step(st, MountEvent::Validated(Ok(token(false, Permission::ReadOnly, "", "", ""))))),
        (Code::PermissionDenied, "invalid id or access key".to_string())
    );
    let st = start(&mut svc);
    let (st, _) = svc.mount_step(st, MountEvent::Validated(Ok(valid_local())));
    assert_eq!(reply_err(svc.mount_step(st, MountEvent::DirChecked(Err("io".to_string())))), (Code::Internal, "io".to_string()));
    let st = start(&mut svc);
    let (st, _) = svc.mount_step(st, MountEvent::Validated(Ok(valid_local())));
    let (st, _) = svc.mount_step(st, MountEvent::DirChecked(Ok(false)));
    assert_eq!(
        reply_err(svc.mount_step(st, MountEvent::DirInitialized(Err("disk full".to_string())))),
        (Code::Internal, "failed to init dir: disk full".to_string())
    );
    let st = start(&mut svc);
    let (st, _) = svc.mount_step(st, MountEvent::Validated(Ok(valid_local())));
    let (st, _) = svc.mount_step(st, MountEvent::DirChecked(Ok(true)));
    let (st, _) = svc.mount_step(st, MountEvent::MountpointCreated(Ok(())));
    assert_eq!(
        reply_err(svc.mount_step(st, MountEvent::Mounted(Err("no fuse".to_string())))),
        (Code::Internal, "failed to mount FUSE: no fuse".to_string())
    );
    let st = start(&mut svc);
    assert_eq!(
        reply_err(svc.mount_step(st, MountEvent::DirChecked(Ok(true)))),
        (Code::Internal, "mount steps out of order".to_string())
    );
    assert!(svc.mount_statuses().is_empty());
}
