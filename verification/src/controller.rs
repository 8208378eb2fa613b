//! The controller's request handling: argument checks, the store operation
//! each request maps to, and the status each outcome is answered with.
use vstd::prelude::*;
use vstd::string::*;
use crate::db::{
    active, active_dir_count, after_reconcile, after_unregister, deleted, dir_listed, fk_blocked, has_dir, has_fs,
    has_session, ids_clash, is_timestamp, lemma_filter_take_step, listing_filter, missing_pairs, mount_views, read_write,
    reconcile_fk_fails, session_not_id, session_not_of_dir, session_not_of_stream, session_of_dir, session_of_stream, session_views,
    token_valid, Database, DbError, DbView, DirView, SessionRecord, SessionView,
};
use crate::fsconfig::{config_from_json_or_empty, config_to_json, keys_distinct, spec_config_from_json, spec_config_json};
use crate::ids::is_hex_id;
use crate::text::{concat3, pair_views, spec_decimal, str_eq};

verus! {

/// Access granted to a directory.
#[derive(Debug, Clone, Copy, PartialEq, Eq, Structural)]
pub enum Permission {
    ReadOnly,
    ReadWrite,
}

impl Permission {
    /// The wire value: 0 for read-only, 1 for read-write.
    pub open spec fn spec_to_i32(self) -> i32 {
        match self {
            Permission::ReadOnly => 0,
            Permission::ReadWrite => 1,
        }
    }

    /// The wire value: 0 for read-only, 1 for read-write.
    pub fn to_i32(self) -> (r: i32)
        ensures
            r == self.spec_to_i32(),
    {
        match self {
            Permission::ReadOnly => 0,
            Permission::ReadWrite => 1,
        }
    }
}

/// The permission a stored permission string stands for: `READ_ONLY` is
/// read-only, anything else read-write.
pub open spec fn spec_permission_from_str(s: Seq<char>) -> Permission {
    if s == "READ_ONLY"@ { Permission::ReadOnly } else { Permission::ReadWrite }
}

/// The permission a stored permission string stands for.
pub fn permission_from_str(s: &str) -> (r: Permission)
    ensures
        r == spec_permission_from_str(s@),
{
    if str_eq(s, "READ_ONLY") { Permission::ReadOnly } else { Permission::ReadWrite }
}

/// The kind of a refused request.
#[derive(Debug, Clone, Copy, PartialEq, Eq, Structural)]
pub enum Code {
    Cancelled,
    Unknown,
    InvalidArgument,
    DeadlineExceeded,
    NotFound,
    AlreadyExists,
    PermissionDenied,
    ResourceExhausted,
    FailedPrecondition,
    Aborted,
    OutOfRange,
    Unimplemented,
    Internal,
    Unavailable,
    DataLoss,
    Unauthenticated,
}

/// A refused request: its kind and a message.
#[derive(Debug)]
pub struct RpcStatus {
    pub code: Code,
    pub message: String,
}

/// A refusal of kind `code` with message `message`.
pub fn status(code: Code, message: &str) -> (r: RpcStatus)
    ensures
        r.code == code,
        r.message@ == message@,
{
    RpcStatus { code, message: String::from_str(message) }
}

/// A refusal of kind `code` for a store error, or `Unavailable` when the
/// random source failed.
pub fn rpc_error(code: Code, e: DbError) -> (r: RpcStatus)
    ensures
        r.code == (if e is RandomUnavailable { Code::Unavailable } else { code }),
        r.message@ == e.spec_message(),
{
    let message = e.message();
    match e {
        DbError::RandomUnavailable => RpcStatus { code: Code::Unavailable, message },
        _ => RpcStatus { code, message },
    }
}

/// The refusal is of kind `code` with message `m`.
pub open spec fn is_status<T>(r: Result<T, RpcStatus>, code: Code, m: Seq<char>) -> bool {
    r matches Err(s) && s.code == code && s.message@ == m
}

/// A request to register filesystem `name` of type `fs_type` with a configuration.
#[derive(Debug)]
pub struct RegisterFsRequest {
    pub name: String,
    pub fs_type: String,
    pub config: Vec<(String, String)>,
}

/// The name of the filesystem registered.
#[derive(Debug)]
pub struct RegisterFsResponse {
    pub name: String,
}

/// A request to unregister filesystem `name`.
#[derive(Debug)]
pub struct UnregisterFsRequest {
    pub name: String,
}

/// The answer to a successful unregistration.
#[derive(Debug)]
pub struct UnregisterFsResponse {}

/// A registered filesystem as the controller reports it.
#[derive(Debug)]
pub struct FsInfo {
    pub name: String,
    pub fs_type: String,
    pub config: Vec<(String, String)>,
    pub created_at: String,
}

/// The registered filesystems.
#[derive(Debug)]
pub struct ListFsResponse {
    pub filesystems: Vec<FsInfo>,
}

/// A request to create a shared directory on filesystem `fs_name`.
#[derive(Debug)]
pub struct CreateDirRequest {
    pub fs_name: String,
}

/// A new directory: its identifier, access key and permission.
#[derive(Debug)]
pub struct CreateDirResponse {
    pub id: String,
    pub access_key: String,
    pub permission: Permission,
}

/// A request to delete directory `id`, guarded by its access key.
#[derive(Debug)]
pub struct DeleteDirRequest {
    pub id: String,
    pub access_key: String,
}

/// The answer to a successful deletion.
#[derive(Debug)]
pub struct DeleteDirResponse {}

/// A request to check the access key of directory `id`.
#[derive(Debug)]
pub struct ValidateTokenRequest {
    pub id: String,
    pub access_key: String,
}

/// Whether a token is valid and, when it is, what it grants.
#[derive(Debug)]
pub struct ValidateTokenResponse {
    pub valid: bool,
    pub permission: Permission,
    pub fs_type: String,
    pub fs_config: Vec<(String, String)>,
}

/// A request to list directories; an empty `fs_name` lists all filesystems.
#[derive(Debug)]
pub struct ListDirsRequest {
    pub fs_name: String,
}

/// A shared directory as the controller reports it.
#[derive(Debug)]
pub struct DirInfo {
    pub id: String,
    pub fs_name: String,
    pub permission: Permission,
    pub status: String,
    pub created_at: String,
}

/// The directories listed.
#[derive(Debug)]
pub struct ListDirsResponse {
    pub dirs: Vec<DirInfo>,
}

/// A request to record that directory `dir_id` is mounted at `mountpoint`
/// by the FUSE server whose session stream is `stream_id`.
#[derive(Debug)]
pub struct RegisterSessionRequest {
    pub dir_id: String,
    pub mountpoint: String,
    pub stream_id: String,
}

/// The identifier of the session recorded.
#[derive(Debug)]
pub struct RegisterSessionResponse {
    pub session_id: String,
}

/// A request to forget session `session_id`.
#[derive(Debug)]
pub struct DeregisterSessionRequest {
    pub session_id: String,
}

/// The answer to a successful deregistration.
#[derive(Debug)]
pub struct DeregisterSessionResponse {}

/// A request to force-unmount every session of directory `id`, guarded by
/// its access key.
#[derive(Debug)]
pub struct RevokeDirRequest {
    pub id: String,
    pub access_key: String,
}

/// How many sessions were told to unmount, and how many could not be reached.
#[derive(Debug)]
pub struct RevokeDirResponse {
    pub sessions_revoked: u32,
    pub errors: u32,
}

/// The identifiers of the sessions a revocation handled.
pub open spec fn outcome_ids(o: Seq<(String, bool)>) -> Seq<Seq<char>> {
    o.map_values(|p: (String, bool)| p.0@)
}

/// Whether each session a revocation handled was reached.
pub open spec fn outcome_flags(o: Seq<(String, bool)>) -> Seq<bool> {
    o.map_values(|p: (String, bool)| p.1)
}

/// Sessions whose identifier is not among `ids`.
pub open spec fn session_not_in(ids: Seq<Seq<char>>) -> spec_fn(SessionView) -> bool {
    |s: SessionView| !ids.contains(s.session_id)
}

/// Number of `true` flags.
pub open spec fn count_true(flags: Seq<bool>) -> nat {
    flags.filter(|b: bool| b).len()
}

/// Number of `false` flags.
pub open spec fn count_false(flags: Seq<bool>) -> nat {
    flags.filter(|b: bool| !b).len()
}

/// Filtering twice is filtering once with both predicates.
pub proof fn lemma_filter_compose(s: Seq<SessionView>, p: spec_fn(SessionView) -> bool, q: spec_fn(SessionView) -> bool)
    ensures
        s.filter(p).filter(q) == s.filter(|x: SessionView| p(x) && q(x)),
    decreases s.len(),
{
    reveal_with_fuel(Seq::filter, 2);
    if s.len() > 0 {
        let d = s.drop_last();
        lemma_filter_compose(d, p, q);
        if p(s.last()) {
            assert(s.filter(p) == d.filter(p).push(s.last()));
            assert(s.filter(p).drop_last() == d.filter(p));
        } else {
            assert(s.filter(p) == d.filter(p));
        }
    }
}

/// The configuration a stored JSON text stands for; text that does not parse
/// stands for the empty configuration.
pub open spec fn stored_config(text: Seq<char>) -> Seq<(Seq<char>, Seq<char>)> {
    match spec_config_from_json(text) {
        Some(c) => c,
        None => Seq::empty(),
    }
}

/// The message for a filesystem that is not registered.
pub open spec fn fs_not_found_message(name: Seq<char>) -> Seq<char> {
    "fs '"@ + name + "' not found"@
}

/// The controller service: the metadata store and the requests it answers.
pub struct ControllerServiceImpl {
    db: Database,
}

impl View for ControllerServiceImpl {
    type V = DbView;

    /// The state of the store.
    closed spec fn view(&self) -> DbView {
        self.db@
    }
}

impl ControllerServiceImpl {
    /// The store is well formed.
    pub open spec fn wf(&self) -> bool {
        self@.wf()
    }

    /// A service over the store `db`.
    pub fn new(db: Database) -> (r: Self)
        requires
            db.wf(),
        ensures
            r.wf(),
            r@ == db@,
    {
        ControllerServiceImpl { db }
    }

    /// The store.
    pub fn db(&self) -> (r: &Database)
        ensures
            r@ == self@,
    {
        &self.db
    }

    /// Registers a filesystem. Its configuration is stored as JSON text.
    pub fn register_fs(&mut self, req: RegisterFsRequest) -> (r: Result<RegisterFsResponse, RpcStatus>)
        requires
            old(self).wf(),
            keys_distinct(pair_views(req.config@)),
        ensures
            final(self).wf(),
            req.name@.len() == 0 ==> is_status(r, Code::InvalidArgument, "name is required"@) && final(self)@ == old(self)@,
            req.name@.len() > 0 && req.fs_type@.len() == 0 ==> is_status(r, Code::InvalidArgument, "fs_type is required"@)
                && final(self)@ == old(self)@,
            r is Err ==> final(self)@ == old(self)@,
            req.name@.len() > 0 && req.fs_type@.len() > 0 && has_fs(old(self)@.fs, req.name@)
                ==> is_status(r, Code::AlreadyExists, "failed to register fs"@),
            req.name@.len() > 0 && req.fs_type@.len() > 0 && !has_fs(old(self)@.fs, req.name@) ==> r is Ok,
            r matches Ok(resp) ==> resp.name@ == req.name@
                && final(self)@.dirs == old(self)@.dirs && final(self)@.sessions == old(self)@.sessions
                && final(self)@.fs.drop_last() == old(self)@.fs
                && final(self)@.fs.len() == old(self)@.fs.len() + 1
                && final(self)@.fs.last().name == req.name@
                && final(self)@.fs.last().fs_type == req.fs_type@
                && final(self)@.fs.last().config == spec_config_json(pair_views(req.config@))
                && stored_config(final(self)@.fs.last().config).to_set() == pair_views(req.config@).to_set()
                && is_timestamp(final(self)@.fs.last().created_at),
    {
        if req.name.as_str().unicode_len() == 0 {
            return Err(status(Code::InvalidArgument, "name is required"));
        }
        if req.fs_type.as_str().unicode_len() == 0 {
            return Err(status(Code::InvalidArgument, "fs_type is required"));
        }
        let config_json = match config_to_json(&req.config) {
            Ok(t) => t,
            Err(m) => return Err(RpcStatus { code: Code::Internal, message: m }),
        };
        match self.db.register_fs(req.name.as_str(), req.fs_type.as_str(), config_json.as_str()) {
            Ok(()) => Ok(RegisterFsResponse { name: req.name }),
            Err(e) => Err(RpcStatus { code: Code::AlreadyExists, message: e.message() }),
        }
    }

    /// Unregisters a filesystem; refused while it has active directories.
    pub fn unregister_fs(&mut self, req: UnregisterFsRequest) -> (r: Result<UnregisterFsResponse, RpcStatus>)
        requires
            old(self).wf(),
        ensures
            final(self).wf(),
            req.name@.len() == 0 ==> is_status(r, Code::InvalidArgument, "name is required"@) && final(self)@ == old(self)@,
            req.name@.len() > 0 && active_dir_count(old(self)@, req.name@) > 0 ==> final(self)@ == old(self)@
                && is_status(r, Code::FailedPrecondition, "cannot unregister fs '"@ + req.name@ + "': "@
                    + spec_decimal(active_dir_count(old(self)@, req.name@)) + " active dir(s) exist"@),
            req.name@.len() > 0 && active_dir_count(old(self)@, req.name@) == 0 && fk_blocked(old(self)@, req.name@)
                ==> final(self)@ == old(self)@ && is_status(r, Code::FailedPrecondition, "FOREIGN KEY constraint failed"@),
            req.name@.len() > 0 && active_dir_count(old(self)@, req.name@) == 0 && !fk_blocked(old(self)@, req.name@)
                ==> final(self)@ == after_unregister(old(self)@, req.name@)
                && (has_fs(old(self)@.fs, req.name@) ==> r is Ok)
                && (!has_fs(old(self)@.fs, req.name@) ==> is_status(r, Code::NotFound, fs_not_found_message(req.name@))),
    {
        if req.name.as_str().unicode_len() == 0 {
            return Err(status(Code::InvalidArgument, "name is required"));
        }
        match self.db.unregister_fs(req.name.as_str()) {
            Ok(true) => Ok(UnregisterFsResponse {}),
            Ok(false) => Err(RpcStatus { code: Code::NotFound, message: concat3("fs '", req.name.as_str(), "' not found") }),
            Err(e) => Err(RpcStatus { code: Code::FailedPrecondition, message: e.message() }),
        }
    }

    /// All registered filesystems with their configurations.
    pub fn list_fs(&self) -> (r: Result<ListFsResponse, RpcStatus>)
        ensures
            r matches Ok(resp) && resp.filesystems@.len() == self@.fs.len()
                && forall|i: int| 0 <= i < self@.fs.len() ==> {
                    let info = #[trigger] resp.filesystems@[i];
                    &&& info.name@ == self@.fs[i].name
                    &&& info.fs_type@ == self@.fs[i].fs_type
                    &&& pair_views(info.config@) == stored_config(self@.fs[i].config)
                    &&& info.created_at@ == self@.fs[i].created_at
                },
    {
        let records = match self.db.list_fs() {
            Ok(v) => v,
            Err(e) => return Err(RpcStatus { code: Code::Internal, message: e.message() }),
        };
        let ghost fv = self@.fs;
        let mut out: Vec<FsInfo> = Vec::new();
        let mut i: usize = 0;
        while i < records.len()
            invariant
                i <= records@.len(),
                fv == self@.fs,
                crate::db::fs_views(records@) == fv,
                out@.len() == i,
                forall|k: int| 0 <= k < i ==> {
                    let info = #[trigger] out@[k];
                    &&& info.name@ == fv[k].name
                    &&& info.fs_type@ == fv[k].fs_type
                    &&& pair_views(info.config@) == stored_config(fv[k].config)
                    &&& info.created_at@ == fv[k].created_at
                },
            decreases records.len() - i,
        {
            let r = &records[i];
            assert(fv[i as int] == r@);
            let info = FsInfo {
                name: r.name.clone(),
                fs_type: r.fs_type.clone(),
                config: config_from_json_or_empty(r.config.as_str()),
                created_at: r.created_at.clone(),
            };
            out.push(info);
            i = i + 1;
        }
        Ok(ListFsResponse { filesystems: out })
    }

    /// Creates a shared directory on a registered filesystem.
    pub fn create_dir(&mut self, req: CreateDirRequest) -> (r: Result<CreateDirResponse, RpcStatus>)
        requires
            old(self).wf(),
        ensures
            final(self).wf(),
            req.fs_name@.len() == 0 ==> is_status(r, Code::InvalidArgument, "fs_name is required"@),
            r is Err ==> final(self)@ == old(self)@,
            req.fs_name@.len() > 0 && !has_fs(old(self)@.fs, req.fs_name@) ==> is_status(r, Code::NotFound,
                "filesystem '"@ + req.fs_name@ + "' not found"@),
            req.fs_name@.len() > 0 && has_fs(old(self)@.fs, req.fs_name@) && r is Err
                ==> is_status(r, Code::Unavailable, "random source unavailable"@),
            r matches Ok(resp) ==> !has_dir(old(self)@.dirs, resp.id@),
            r matches Ok(resp) ==> is_hex_id(resp.id@) && is_hex_id(resp.access_key@) && resp.permission == Permission::ReadWrite
                && final(self)@.fs == old(self)@.fs && final(self)@.sessions == old(self)@.sessions
                && final(self)@.dirs.len() == old(self)@.dirs.len() + 1
                && final(self)@.dirs.drop_last() == old(self)@.dirs
                && final(self)@.dirs.last().id == resp.id@
                && final(self)@.dirs.last().access_key == resp.access_key@
                && final(self)@.dirs.last().permission == read_write()
                && final(self)@.dirs.last().fs_name == req.fs_name@
                && final(self)@.dirs.last().status == active()
                && is_timestamp(final(self)@.dirs.last().created_at),
    {
        if req.fs_name.as_str().unicode_len() == 0 {
            return Err(status(Code::InvalidArgument, "fs_name is required"));
        }
        match self.db.create_dir(req.fs_name.as_str()) {
            Ok(rec) => {
                proof {
                    reveal_strlit("READ_ONLY");
                    reveal_strlit("READ_WRITE");
                    assert(read_write().len() != "READ_ONLY"@.len());
                    assert(final(self)@.dirs.drop_last() =~= old(self)@.dirs);
                }
                let permission = permission_from_str(rec.permission.as_str());
                Ok(CreateDirResponse { id: rec.id, access_key: rec.access_key, permission })
            },
            Err(e) => Err(rpc_error(Code::NotFound, e)),
        }
    }

    /// Deletes a shared directory; its access key is required. Its sessions
    /// are removed first, then it is soft-deleted.
    pub fn delete_dir(&mut self, req: DeleteDirRequest) -> (r: Result<DeleteDirResponse, RpcStatus>)
        requires
            old(self).wf(),
        ensures
            final(self).wf(),
            req.id@.len() == 0 || req.access_key@.len() == 0 ==> is_status(r, Code::InvalidArgument, "id and access_key are required"@)
                && final(self)@ == old(self)@,
            req.id@.len() > 0 && req.access_key@.len() > 0 && !token_valid(old(self)@, req.id@, req.access_key@)
                ==> is_status(r, Code::NotFound, "dir not found or invalid access key"@) && final(self)@ == old(self)@,
            req.id@.len() > 0 && req.access_key@.len() > 0 && token_valid(old(self)@, req.id@, req.access_key@)
                ==> r is Ok && exists|k: int| 0 <= k < old(self)@.dirs.len() && #[trigger] old(self)@.dirs[k].id == req.id@
                && final(self)@ == (DbView {
                    dirs: old(self)@.dirs.update(k, DirView { status: deleted(), ..old(self)@.dirs[k] }),
                    sessions: old(self)@.sessions.filter(session_not_of_dir(req.id@)),
                    ..old(self)@
                }),
            r is Ok ==> final(self)@.sessions.filter(session_of_dir(req.id@)).len() == 0,
    {
        if req.id.as_str().unicode_len() == 0 || req.access_key.as_str().unicode_len() == 0 {
            return Err(status(Code::InvalidArgument, "id and access_key are required"));
        }
        let valid = match self.db.validate_token(req.id.as_str(), req.access_key.as_str()) {
            Ok(Some(_)) => true,
            _ => false,
        };
        if !valid {
            return Err(status(Code::NotFound, "dir not found or invalid access key"));
        }
        let ghost before = self@;
        let _ = self.db.delete_sessions_for_dir(req.id.as_str());
        proof {
            let kept = before.sessions.filter(session_not_of_dir(req.id@));
            assert forall|i: int| 0 <= i < kept.len() implies !#[trigger] session_of_dir(req.id@)(kept[i]) by {
                before.sessions.lemma_filter_pred(session_not_of_dir(req.id@), i);
            }
            crate::db::lemma_filter_none(kept, session_of_dir(req.id@));
            assert(token_valid(self@, req.id@, req.access_key@));
        }
        match self.db.delete_dir(req.id.as_str(), req.access_key.as_str()) {
            Ok(true) => Ok(DeleteDirResponse {}),
            Ok(false) => Err(status(Code::NotFound, "dir not found or invalid access key")),
            Err(e) => Err(RpcStatus { code: Code::Internal, message: e.message() }),
        }
    }

    /// Checks a directory's access key and reports its permission and the
    /// type and configuration of its filesystem.
    pub fn validate_token(&self, req: ValidateTokenRequest) -> (r: Result<ValidateTokenResponse, RpcStatus>)
        requires
            self.wf(),
        ensures
            req.id@.len() == 0 || req.access_key@.len() == 0 ==> is_status(r, Code::InvalidArgument, "id and access_key are required"@),
            req.id@.len() > 0 && req.access_key@.len() > 0 ==> (r matches Ok(resp) && resp.valid == token_valid(self@, req.id@, req.access_key@)),
            r matches Ok(resp) ==> (!resp.valid ==> resp.permission == Permission::ReadOnly && resp.fs_type@.len() == 0
                && resp.fs_config@.len() == 0),
            r matches Ok(resp) ==> resp.valid ==> exists|k: int, j: int|
                0 <= k < self@.dirs.len() && 0 <= j < self@.fs.len()
                && #[trigger] self@.dirs[k].id == req.id@ && self@.dirs[k].access_key == req.access_key@
                && self@.dirs[k].status == active()
                && #[trigger] self@.fs[j].name == self@.dirs[k].fs_name
                && resp.permission == spec_permission_from_str(self@.dirs[k].permission)
                && resp.fs_type@ == self@.fs[j].fs_type
                && pair_views(resp.fs_config@) == stored_config(self@.fs[j].config),
    {
        if req.id.as_str().unicode_len() == 0 || req.access_key.as_str().unicode_len() == 0 {
            return Err(status(Code::InvalidArgument, "id and access_key are required"));
        }
        match self.db.validate_token(req.id.as_str(), req.access_key.as_str()) {
            Ok(Some((dir, fs))) => {
                let fs_config = config_from_json_or_empty(fs.config.as_str());
                let permission = permission_from_str(dir.permission.as_str());
                Ok(ValidateTokenResponse { valid: true, permission, fs_type: fs.fs_type, fs_config })
            },
            Ok(None) => {
                let fs_config: Vec<(String, String)> = Vec::new();
                Ok(ValidateTokenResponse {
                    valid: false,
                    permission: Permission::ReadOnly,
                    fs_type: String::new(),
                    fs_config,
                })
            },
            Err(e) => Err(RpcStatus { code: Code::Internal, message: e.message() }),
        }
    }

    /// Lists active directories, of one filesystem when a name is given.
    pub fn list_dirs(&self, req: ListDirsRequest) -> (r: Result<ListDirsResponse, RpcStatus>)
        ensures
            r matches Ok(resp) && {
                let listed = self@.dirs.filter(dir_listed(listing_filter(Some(req.fs_name@))));
                &&& resp.dirs@.len() == listed.len()
                &&& forall|i: int| 0 <= i < listed.len() ==> {
                    let info = #[trigger] resp.dirs@[i];
                    &&& info.id@ == listed[i].id
                    &&& info.fs_name@ == listed[i].fs_name
                    &&& info.permission == spec_permission_from_str(listed[i].permission)
                    &&& info.status@ == listed[i].status
                    &&& info.created_at@ == listed[i].created_at
                }
            },
    {
        let filter = if req.fs_name.as_str().unicode_len() == 0 { None } else { Some(req.fs_name.as_str()) };
        let records = match self.db.list_dirs(filter) {
            Ok(v) => v,
            Err(e) => return Err(RpcStatus { code: Code::Internal, message: e.message() }),
        };
        let ghost listed = self@.dirs.filter(dir_listed(listing_filter(Some(req.fs_name@))));
        proof {
            let f = match filter { Some(n) => Some(n@), None => None };
            assert(listing_filter(f) == listing_filter(Some(req.fs_name@)));
        }
        let mut out: Vec<DirInfo> = Vec::new();
        let mut i: usize = 0;
        while i < records.len()
            invariant
                i <= records@.len(),
                crate::db::dir_views(records@) == listed,
                out@.len() == i,
                forall|k: int| 0 <= k < i ==> {
                    let info = #[trigger] out@[k];
                    &&& info.id@ == listed[k].id
                    &&& info.fs_name@ == listed[k].fs_name
                    &&& info.permission == spec_permission_from_str(listed[k].permission)
                    &&& info.status@ == listed[k].status
                    &&& info.created_at@ == listed[k].created_at
                },
            decreases records.len() - i,
        {
            let d = &records[i];
            assert(listed[i as int] == d@);
            let info = DirInfo {
                id: d.id.clone(),
                fs_name: d.fs_name.clone(),
                permission: permission_from_str(d.permission.as_str()),
                status: d.status.clone(),
                created_at: d.created_at.clone(),
            };
            out.push(info);
            i = i + 1;
        }
        Ok(ListDirsResponse { dirs: out })
    }

    /// Records a mount session of a directory; every field is required.
    pub fn register_session(&mut self, req: RegisterSessionRequest) -> (r: Result<RegisterSessionResponse, RpcStatus>)
        requires
            old(self).wf(),
        ensures
            final(self).wf(),
            req.dir_id@.len() == 0 || req.mountpoint@.len() == 0 || req.stream_id@.len() == 0
                ==> is_status(r, Code::InvalidArgument, "dir_id, mountpoint, and stream_id are required"@),
            r is Err ==> final(self)@ == old(self)@,
            req.dir_id@.len() > 0 && req.mountpoint@.len() > 0 && req.stream_id@.len() > 0 && !has_dir(old(self)@.dirs, req.dir_id@)
                ==> is_status(r, Code::NotFound, "failed to register session"@),
            req.dir_id@.len() > 0 && req.mountpoint@.len() > 0 && req.stream_id@.len() > 0
                && has_dir(old(self)@.dirs, req.dir_id@) && r is Err
                ==> is_status(r, Code::Unavailable, "random source unavailable"@),
            r matches Ok(resp) ==> !has_session(old(self)@.sessions, resp.session_id@),
            r matches Ok(resp) ==> is_hex_id(resp.session_id@)
                && final(self)@.fs == old(self)@.fs && final(self)@.dirs == old(self)@.dirs
                && final(self)@.sessions.len() == old(self)@.sessions.len() + 1
                && final(self)@.sessions.drop_last() == old(self)@.sessions
                && final(self)@.sessions.last().session_id == resp.session_id@
                && final(self)@.sessions.last().dir_id == req.dir_id@
                && final(self)@.sessions.last().stream_id == req.stream_id@
                && final(self)@.sessions.last().mountpoint == req.mountpoint@
                && is_timestamp(final(self)@.sessions.last().created_at),
    {
        if req.dir_id.as_str().unicode_len() == 0 || req.mountpoint.as_str().unicode_len() == 0
            || req.stream_id.as_str().unicode_len() == 0 {
            return Err(status(Code::InvalidArgument, "dir_id, mountpoint, and stream_id are required"));
        }
        match self.db.register_session(req.dir_id.as_str(), req.stream_id.as_str(), req.mountpoint.as_str()) {
            Ok(rec) => {
                proof {
                    assert(final(self)@.sessions.drop_last() =~= old(self)@.sessions);
                }
                Ok(RegisterSessionResponse { session_id: rec.session_id })
            },
            Err(e) => Err(rpc_error(Code::NotFound, e)),
        }
    }

    /// Forgets a mount session.
    pub fn deregister_session(&mut self, req: DeregisterSessionRequest) -> (r: Result<DeregisterSessionResponse, RpcStatus>)
        requires
            old(self).wf(),
        ensures
            final(self).wf(),
            req.session_id@.len() == 0 ==> is_status(r, Code::InvalidArgument, "session_id is required"@)
                && final(self)@ == old(self)@,
            req.session_id@.len() > 0 ==> final(self)@ == (DbView {
                sessions: old(self)@.sessions.filter(session_not_id(req.session_id@)),
                ..old(self)@
            }),
            req.session_id@.len() > 0 && has_session(old(self)@.sessions, req.session_id@) ==> r is Ok,
            req.session_id@.len() > 0 && !has_session(old(self)@.sessions, req.session_id@)
                ==> is_status(r, Code::NotFound, "session '"@ + req.session_id@ + "' not found"@),
    {
        if req.session_id.as_str().unicode_len() == 0 {
            return Err(status(Code::InvalidArgument, "session_id is required"));
        }
        match self.db.deregister_session(req.session_id.as_str()) {
            Ok(true) => Ok(DeregisterSessionResponse {}),
            Ok(false) => Err(RpcStatus { code: Code::NotFound, message: concat3("session '", req.session_id.as_str(), "' not found") }),
            Err(e) => Err(RpcStatus { code: Code::Internal, message: e.message() }),
        }
    }

    /// The sessions a revocation of a directory must force-unmount: refused
    /// unless the access key opens the directory.
    pub fn revoke_targets(&self, req: &RevokeDirRequest) -> (r: Result<Vec<SessionRecord>, RpcStatus>)
        requires
            self.wf(),
        ensures
            req.id@.len() == 0 || req.access_key@.len() == 0 ==> is_status(r, Code::InvalidArgument, "id and access_key are required"@),
            req.id@.len() > 0 && req.access_key@.len() > 0 && !token_valid(self@, req.id@, req.access_key@)
                ==> is_status(r, Code::PermissionDenied, "invalid id or access key"@),
            req.id@.len() > 0 && req.access_key@.len() > 0 && token_valid(self@, req.id@, req.access_key@)
                ==> (r matches Ok(v) && session_views(v@) == self@.sessions.filter(session_of_dir(req.id@))),
    {
        if req.id.as_str().unicode_len() == 0 || req.access_key.as_str().unicode_len() == 0 {
            return Err(status(Code::InvalidArgument, "id and access_key are required"));
        }
        match self.db.validate_token(req.id.as_str(), req.access_key.as_str()) {
            Ok(Some(_)) => match self.db.get_sessions_for_dir(req.id.as_str()) {
                Ok(v) => Ok(v),
                Err(e) => Err(RpcStatus { code: Code::Internal, message: e.message() }),
            },
            Ok(None) => Err(status(Code::PermissionDenied, "invalid id or access key")),
            Err(e) => Err(RpcStatus { code: Code::Internal, message: e.message() }),
        }
    }

    /// Completes a revocation: every handled session is forgotten, and the
    /// answer counts those that were told to unmount and those that could
    /// not be reached.
    pub fn finish_revoke(&mut self, outcomes: &Vec<(String, bool)>) -> (r: RevokeDirResponse)
        requires
            old(self).wf(),
            outcomes@.len() <= u32::MAX,
        ensures
            final(self).wf(),
            r.sessions_revoked == count_true(outcome_flags(outcomes@)),
            r.errors == count_false(outcome_flags(outcomes@)),
            final(self)@ == (DbView {
                sessions: old(self)@.sessions.filter(session_not_in(outcome_ids(outcomes@))),
                ..old(self)@
            }),
    {
        let ghost ids = outcome_ids(outcomes@);
        let ghost flags = outcome_flags(outcomes@);
        let ghost start = old(self)@;
        let mut revoked: u32 = 0;
        let mut errors: u32 = 0;
        let mut i: usize = 0;
        proof {
            assert(ids.take(0) =~= Seq::<Seq<char>>::empty());
            assert(flags.take(0) =~= Seq::<bool>::empty());
            crate::db::lemma_filter_all(start.sessions, session_not_in(ids.take(0)));
        }
        while i < outcomes.len()
            invariant
                i <= outcomes@.len(),
                outcomes@.len() <= u32::MAX,
                self.wf(),
                ids == outcome_ids(outcomes@),
                flags == outcome_flags(outcomes@),
                start == old(self)@,
                self@ == (DbView { sessions: start.sessions.filter(session_not_in(ids.take(i as int))), ..start }),
                revoked == count_true(flags.take(i as int)),
                errors == count_false(flags.take(i as int)),
                revoked + errors == i,
            decreases outcomes.len() - i,
        {
            let delivered = outcomes[i].1;
            proof {
                lemma_filter_take_step(flags, |b: bool| b, i as int);
                lemma_filter_take_step(flags, |b: bool| !b, i as int);
                assert(flags[i as int] == delivered);
            }
            if delivered {
                revoked = revoked + 1;
            } else {
                errors = errors + 1;
            }
            let ghost before = self@;
            let _ = self.db.deregister_session(outcomes[i].0.as_str());
            proof {
                let p = session_not_in(ids.take(i as int));
                let q = session_not_id(ids[i as int]);
                assert(ids[i as int] == outcomes@[i as int].0@);
                crate::controller::lemma_filter_compose(start.sessions, p, q);
                assert(ids.take(i + 1) =~= ids.take(i as int).push(ids[i as int]));
                assert forall|x: SessionView| (p(x) && q(x)) == #[trigger] session_not_in(ids.take(i + 1))(x) by {
                    if ids.take(i as int).contains(x.session_id) {
                        let k = choose|k: int| 0 <= k < i && #[trigger] ids.take(i as int)[k] == x.session_id;
                        assert(ids.take(i + 1)[k] == x.session_id);
                    }
                    if ids.take(i + 1).contains(x.session_id) {
                        let k = choose|k: int| 0 <= k < i + 1 && #[trigger] ids.take(i + 1)[k] == x.session_id;
                        if k < i {
                            assert(ids.take(i as int)[k] == x.session_id);
                        }
                    }
                    if x.session_id == ids[i as int] {
                        assert(ids.take(i + 1)[i as int] == x.session_id);
                    }
                }
                assert((|x: SessionView| p(x) && q(x)) =~= session_not_in(ids.take(i + 1)));
            }
            i = i + 1;
        }
        proof {
            assert(ids.take(i as int) =~= ids);
            assert(flags.take(i as int) =~= flags);
        }
        RevokeDirResponse { sessions_revoked: revoked, errors }
    }

    /// Applies a heartbeat of stream `stream_id` reporting `mounts`; a
    /// heartbeat without a stream identifier is ignored. Returns whether it
    /// was applied.
    pub fn heartbeat(&mut self, stream_id: &str, mounts: &[(&str, &str)]) -> (r: Result<bool, DbError>)
        requires
            old(self).wf(),
        ensures
            final(self).wf(),
            stream_id@.len() == 0 ==> r == Ok::<bool, DbError>(false) && final(self)@ == old(self)@,
            stream_id@.len() > 0 && reconcile_fk_fails(old(self)@, stream_id@, mount_views(mounts@))
                ==> r == Err::<bool, DbError>(DbError::ForeignKeyViolation),
            r == Err::<bool, DbError>(DbError::ForeignKeyViolation)
                ==> stream_id@.len() > 0 && reconcile_fk_fails(old(self)@, stream_id@, mount_views(mounts@)),
            stream_id@.len() > 0 && !reconcile_fk_fails(old(self)@, stream_id@, mount_views(mounts@))
                && missing_pairs(old(self)@, stream_id@, mount_views(mounts@)).len() == 0
                ==> r == Ok::<bool, DbError>(true)
                    && final(self)@ == after_reconcile(old(self)@, stream_id@, mount_views(mounts@), Seq::empty(), Seq::empty()),
            r is Err ==> final(self)@ == old(self)@
                && (r == Err::<bool, DbError>(DbError::ForeignKeyViolation) || r == Err::<bool, DbError>(DbError::RandomUnavailable)),
            stream_id@.len() > 0 && !reconcile_fk_fails(old(self)@, stream_id@, mount_views(mounts@))
                ==> r == Ok::<bool, DbError>(true) || r == Err::<bool, DbError>(DbError::RandomUnavailable),
            r == Err::<bool, DbError>(DbError::RandomUnavailable)
                ==> missing_pairs(old(self)@, stream_id@, mount_views(mounts@)).len() > 0,
            r == Ok::<bool, DbError>(true) ==> stream_id@.len() > 0 && exists|ids: Seq<Seq<char>>, ts: Seq<char>|
                ids.len() == missing_pairs(old(self)@, stream_id@, mount_views(mounts@)).len()
                && (forall|k: int| 0 <= k < ids.len() ==> is_hex_id(#[trigger] ids[k]))
                && !ids_clash(old(self)@, ids)
                && is_timestamp(ts)
                && final(self)@ == after_reconcile(old(self)@, stream_id@, mount_views(mounts@), ids, ts),
            stream_id@.len() > 0 ==> r != Ok::<bool, DbError>(false),
    {
        if stream_id.unicode_len() == 0 {
            return Ok(false);
        }
        match self.db.reconcile_sessions_from_heartbeat(stream_id, mounts) {
            Ok(()) => Ok(true),
            Err(e) => Err(e),
        }
    }

    /// Forgets every session of a stream that ended. Returns how many there
    /// were; a stream that never named itself held none.
    pub fn stream_closed(&mut self, stream_id: &str) -> (r: usize)
        requires
            old(self).wf(),
        ensures
            final(self).wf(),
            stream_id@.len() == 0 ==> r == 0 && final(self)@ == old(self)@,
            stream_id@.len() > 0 ==> r == old(self)@.sessions.filter(session_of_stream(stream_id@)).len()
                && final(self)@ == (DbView { sessions: old(self)@.sessions.filter(session_not_of_stream(stream_id@)), ..old(self)@ }),
    {
        if stream_id.unicode_len() == 0 {
            return 0;
        }
        match self.db.delete_sessions_by_stream(stream_id) {
            Ok(n) => n,
            Err(_) => 0,
        }
    }
}

/// A revocation forgets exactly the sessions it handled: a handled session
/// is gone afterwards, and every other session is still there.
pub proof fn law_revoke_forgets_handled(sessions: Seq<SessionView>, ids: Seq<Seq<char>>, id: Seq<char>)
    ensures
        ids.contains(id) ==> !has_session(sessions.filter(session_not_in(ids)), id),
        !ids.contains(id) && has_session(sessions, id) ==> has_session(sessions.filter(session_not_in(ids)), id),
{
    let kept = sessions.filter(session_not_in(ids));
    if ids.contains(id) && has_session(kept, id) {
        let i = choose|i: int| 0 <= i < kept.len() && #[trigger] kept[i].session_id == id;
        crate::db::lemma_filter_member(sessions, session_not_in(ids), i);
    }
    if !ids.contains(id) && has_session(sessions, id) {
        let k = choose|k: int| 0 <= k < sessions.len() && #[trigger] sessions[k].session_id == id;
        crate::db::lemma_filter_keeps(sessions, session_not_in(ids), k);
        let j = choose|j: int| 0 <= j < kept.len() && kept[j] == sessions[k];
        assert(kept[j].session_id == id);
    }
}

/// Revoking a directory with the sessions `revoke_targets` listed leaves it
/// without sessions, so a second revocation finds nothing to do.
pub proof fn law_revoke_clears_directory(sessions: Seq<SessionView>, dir_id: Seq<char>, ids: Seq<Seq<char>>)
    requires
        forall|k: int| 0 <= k < sessions.len() && #[trigger] sessions[k].dir_id == dir_id ==> ids.contains(sessions[k].session_id),
    ensures
        sessions.filter(session_not_in(ids)).filter(session_of_dir(dir_id)).len() == 0,
{
    let kept = sessions.filter(session_not_in(ids));
    let left = kept.filter(session_of_dir(dir_id));
    if left.len() > 0 {
        crate::db::lemma_filter_member(kept, session_of_dir(dir_id), 0);
        let j = choose|j: int| 0 <= j < kept.len() && kept[j] == left[0];
        crate::db::lemma_filter_member(sessions, session_not_in(ids), j);
        let k = choose|k: int| 0 <= k < sessions.len() && sessions[k] == kept[j];
        assert(sessions[k].dir_id == dir_id);
    }
}

} // verus!
