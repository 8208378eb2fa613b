//! The FUSE server's request handling: argument checks, the choice of
//! storage backend and permission for a mount, the steps of a mount, and the
//! table of active mounts keyed by mount point.
use vstd::prelude::*;
use vstd::string::*;
use crate::controller::{is_status, status, Code, Permission, RpcStatus, ValidateTokenResponse};
use crate::fsconfig::{config_get, spec_config_get};
use crate::fuse_fs::MountPermission;
use crate::ids::{generate_hex_id, is_hex_id};
use crate::storage::{LocalStorage, NfsStorage};
use crate::text::{concat2, pair_views, str_eq};

verus! {

/// A request to mount directory `id` at `mountpoint`, read-only when asked;
/// an empty `controller_addr` means the server's own controller.
#[derive(Debug)]
pub struct MountRequest {
    pub id: String,
    pub access_key: String,
    pub mountpoint: String,
    pub controller_addr: String,
    pub readonly: bool,
}

/// A request to unmount whatever is mounted at `mountpoint`.
#[derive(Debug)]
pub struct UnmountRequest {
    pub mountpoint: String,
}

/// An active mount as the FUSE server reports it.
#[derive(Debug)]
pub struct MountInfo {
    pub id: String,
    pub mountpoint: String,
    pub permission: Permission,
}

/// The storage backend a filesystem's type and configuration call for.
pub enum Backend {
    Local(LocalStorage),
    Nfs(NfsStorage),
}

/// An active mount: the directory, where it is mounted, with which
/// permission, the controller's session for it, and the handle that keeps
/// the mount alive (dropping it unmounts).
pub struct ActiveMount<S> {
    pub id: String,
    pub mountpoint: String,
    pub permission: MountPermission,
    pub session_id: String,
    pub session: S,
}

/// The contents of an active mount, its handle included.
pub struct MountView<S> {
    pub id: Seq<char>,
    pub mountpoint: Seq<char>,
    pub permission: MountPermission,
    pub session_id: Seq<char>,
    pub session: S,
}

impl<S> View for ActiveMount<S> {
    type V = MountView<S>;

    open spec fn view(&self) -> MountView<S> {
        MountView {
            id: self.id@,
            mountpoint: self.mountpoint@,
            permission: self.permission,
            session_id: self.session_id@,
            session: self.session,
        }
    }
}

/// The contents of a sequence of active mounts.
pub open spec fn mount_views<S>(s: Seq<ActiveMount<S>>) -> Seq<MountView<S>> {
    s.map_values(|m: ActiveMount<S>| m@)
}

/// A mount at `mountpoint` is active.
pub open spec fn has_mount<S>(s: Seq<MountView<S>>, mountpoint: Seq<char>) -> bool {
    exists|k: int| 0 <= k < s.len() && #[trigger] s[k].mountpoint == mountpoint
}

/// Mounts at a mount point other than `mp`.
pub open spec fn mount_not_at<S>(mp: Seq<char>) -> spec_fn(MountView<S>) -> bool {
    |m: MountView<S>| m.mountpoint != mp
}

/// The permission of a mount: read-only when asked for or when the
/// controller grants no more.
pub open spec fn spec_mount_permission(readonly: bool, granted: Permission) -> MountPermission {
    if readonly || granted == Permission::ReadOnly { MountPermission::ReadOnly } else { MountPermission::ReadWrite }
}

/// The wire permission of a mount permission.
pub open spec fn wire_permission(p: MountPermission) -> Permission {
    match p {
        MountPermission::ReadOnly => Permission::ReadOnly,
        MountPermission::ReadWrite => Permission::ReadWrite,
    }
}

/// The permission of a mount.
pub fn mount_permission(readonly: bool, granted: Permission) -> (r: MountPermission)
    ensures
        r == spec_mount_permission(readonly, granted),
{
    if readonly || granted == Permission::ReadOnly { MountPermission::ReadOnly } else { MountPermission::ReadWrite }
}

/// Accepts a token check that succeeded; refuses one that did not.
pub fn check_validation(resp: ValidateTokenResponse) -> (r: Result<ValidateTokenResponse, RpcStatus>)
    ensures
        resp.valid ==> (r matches Ok(v) && v == resp),
        !resp.valid ==> is_status(r, Code::PermissionDenied, "invalid id or access key"@),
{
    if !resp.valid {
        return Err(status(Code::PermissionDenied, "invalid id or access key"));
    }
    Ok(resp)
}

/// The backend a filesystem type and configuration call for, as whether it
/// is local and its root path, or the message it is refused with.
pub open spec fn backend_for(fs_type: Seq<char>, config: Seq<(Seq<char>, Seq<char>)>) -> Result<(bool, Seq<char>), Seq<char>> {
    if fs_type == "local"@ {
        match spec_config_get(config, "base_path"@) {
            Some(p) => Ok((true, p)),
            None => Err("missing base_path in fs config"@),
        }
    } else if fs_type == "nfs"@ {
        match spec_config_get(config, "mount_path"@) {
            Some(p) => Ok((false, p)),
            None => Err("missing mount_path in fs config"@),
        }
    } else {
        Err("unsupported fs type: "@ + fs_type)
    }
}

/// The backend `b` is the one `x` describes.
pub open spec fn backend_is(b: Backend, x: (bool, Seq<char>)) -> bool {
    match b {
        Backend::Local(l) => x.0 && l@ == x.1,
        Backend::Nfs(n) => !x.0 && n@ == x.1,
    }
}

/// The backend for filesystem type `fs_type` with configuration `config`:
/// `local` needs `base_path`, `nfs` needs `mount_path`.
pub fn create_backend(fs_type: &str, config: &Vec<(String, String)>) -> (r: Result<Backend, RpcStatus>)
    ensures
        fs_type@ == "local"@ ==> match spec_config_get(pair_views(config@), "base_path"@) {
            Some(p) => r matches Ok(Backend::Local(b)) && b@ == p,
            None => is_status(r, Code::Internal, "missing base_path in fs config"@),
        },
        fs_type@ == "nfs"@ ==> match spec_config_get(pair_views(config@), "mount_path"@) {
            Some(p) => r matches Ok(Backend::Nfs(b)) && b@ == p,
            None => is_status(r, Code::Internal, "missing mount_path in fs config"@),
        },
        fs_type@ != "local"@ && fs_type@ != "nfs"@ ==> is_status(r, Code::Internal, "unsupported fs type: "@ + fs_type@),
        match backend_for(fs_type@, pair_views(config@)) {
            Ok(x) => r matches Ok(b) && backend_is(b, x),
            Err(m) => is_status(r, Code::Internal, m),
        },
{
    proof {
        reveal_strlit("local");
        reveal_strlit("nfs");
        assert("local"@.len() != "nfs"@.len());
    }
    if str_eq(fs_type, "local") {
        match config_get(config, "base_path") {
            Some(p) => Ok(Backend::Local(LocalStorage::new(p.clone()))),
            None => Err(status(Code::Internal, "missing base_path in fs config")),
        }
    } else if str_eq(fs_type, "nfs") {
        match config_get(config, "mount_path") {
            Some(p) => Ok(Backend::Nfs(NfsStorage::new(p.clone()))),
            None => Err(status(Code::Internal, "missing mount_path in fs config")),
        }
    } else {
        Err(RpcStatus { code: Code::Internal, message: concat2("unsupported fs type: ", fs_type) })
    }
}

/// A session identifier worth telling the controller about: a non-empty one.
pub fn should_deregister(session_id: &str) -> (r: bool)
    ensures
        r == (session_id@.len() > 0),
{
    session_id.unicode_len() > 0
}

/// The delay before the next reconnection: double the last, at most `max`.
pub fn next_backoff(current: u64, max: u64) -> (r: u64)
    requires
        current <= u64::MAX / 2,
    ensures
        r == (if current * 2 < max { current * 2 } else { max as int }),
{
    let doubled = current * 2;
    if doubled < max { doubled } else { max }
}

/// Where a mount request stands: what the server waits for next, with the
/// permission decided so far and, once mounted, the session handle.
pub enum MountPhase<S> {
    Start,
    Validating,
    CheckingDir(MountPermission),
    InitializingDir(MountPermission),
    CreatingMountpoint(MountPermission),
    Mounting(MountPermission),
    Registering(MountPermission, S),
    Done,
}

/// A mount request in progress.
pub struct MountState<S> {
    pub req: MountRequest,
    pub phase: MountPhase<S>,
}

/// What the outside world reports to a mount in progress.
pub enum MountEvent<S> {
    /// The request arrived.
    Begin,
    /// The controller answered the token check, or could not be asked.
    Validated(Result<ValidateTokenResponse, RpcStatus>),
    /// Whether the directory exists in the backend, or why that is unknown.
    DirChecked(Result<bool, String>),
    /// The directory was created in the backend, or why not.
    DirInitialized(Result<(), String>),
    /// The mount point was created, or why not.
    MountpointCreated(Result<(), String>),
    /// The FUSE session was started, or why not.
    Mounted(Result<S, String>),
    /// The controller's session identifier, when registration succeeded.
    SessionRegistered(Option<String>),
}

/// What the server must do next for a mount in progress.
pub enum MountAction {
    /// Ask the controller at this endpoint whether the token is valid.
    Validate(String),
    /// Check whether the directory exists in this backend (kept for later steps).
    CheckDir(Backend),
    /// Create the directory in the backend (lazy creation on first mount).
    InitDir,
    /// Create the mount point.
    CreateMountpoint,
    /// Start the FUSE session with this permission.
    MountFuse(MountPermission),
    /// Register the mount's session with the controller.
    RegisterSession,
    /// Answer the request.
    Reply(Result<String, RpcStatus>),
}

/// The action is a refusal of kind `code` with message `m`.
pub open spec fn replies_err(a: MountAction, code: Code, m: Seq<char>) -> bool {
    a matches MountAction::Reply(Err(s)) && s.code == code && s.message@ == m
}

/// The event is the one the phase waits for.
pub open spec fn step_expected<S>(phase: MountPhase<S>, ev: MountEvent<S>) -> bool {
    match phase {
        MountPhase::Start => ev is Begin,
        MountPhase::Validating => ev is Validated,
        MountPhase::CheckingDir(_) => ev is DirChecked,
        MountPhase::InitializingDir(_) => ev is DirInitialized,
        MountPhase::CreatingMountpoint(_) => ev is MountpointCreated,
        MountPhase::Mounting(_) => ev is Mounted,
        MountPhase::Registering(_, _) => ev is SessionRegistered,
        MountPhase::Done => false,
    }
}

impl<S> MountState<S> {
    /// A mount request that has not been looked at yet.
    pub fn new(req: MountRequest) -> (r: Self)
        ensures
            r.req == req,
            r.phase is Start,
    {
        MountState { req, phase: MountPhase::Start }
    }
}

/// The delay before reconnecting the session stream: back to one second
/// after a stream that ended cleanly, the current delay after a failure.
pub fn delay_before_reconnect(ended_cleanly: bool, current: u64) -> (r: u64)
    ensures
        r == (if ended_cleanly { 1 } else { current }),
{
    if ended_cleanly { 1 } else { current }
}

/// The FUSE server: the controller it asks, the identifier of its session
/// stream, and its active mounts.
pub struct FuseServiceImpl<S> {
    controller_addr: String,
    stream_id: String,
    mounts: Vec<ActiveMount<S>>,
}

impl<S> FuseServiceImpl<S> {
    /// The active mounts.
    pub closed spec fn spec_mounts(&self) -> Seq<MountView<S>> {
        mount_views(self.mounts@)
    }

    /// The controller's address.
    pub closed spec fn spec_controller_addr(&self) -> Seq<char> {
        self.controller_addr@
    }

    /// The identifier of the session stream.
    pub closed spec fn spec_stream_id(&self) -> Seq<char> {
        self.stream_id@
    }

    /// Each mount point holds at most one mount.
    pub open spec fn wf(&self) -> bool {
        forall|i: int, j: int| 0 <= i < j < self.spec_mounts().len() ==> self.spec_mounts()[i].mountpoint != self.spec_mounts()[j].mountpoint
    }

    /// A server with no mounts and a fresh random stream identifier, or
    /// `None` when the operating system's random source fails.
    pub fn new(controller_addr: String) -> (r: Option<Self>)
        ensures
            r matches Some(s) ==> s.wf()
                && s.spec_mounts() == Seq::<MountView<S>>::empty()
                && s.spec_controller_addr() == controller_addr@
                && is_hex_id(s.spec_stream_id()),
    {
        let stream_id = match generate_hex_id() {
            Some(v) => v,
            None => return None,
        };
        let r = FuseServiceImpl { controller_addr, stream_id, mounts: Vec::new() };
        assert(r.spec_mounts() =~= Seq::<MountView<S>>::empty());
        Some(r)
    }

    /// The identifier of the session stream.
    pub fn stream_id(&self) -> (r: &str)
        ensures
            r@ == self.spec_stream_id(),
    {
        self.stream_id.as_str()
    }

    /// The controller's address.
    pub fn controller_addr(&self) -> (r: &str)
        ensures
            r@ == self.spec_controller_addr(),
    {
        self.controller_addr.as_str()
    }

    /// The `(dir_id, mountpoint)` pairs of the active mounts, for a heartbeat.
    pub fn mount_statuses(&self) -> (r: Vec<(String, String)>)
        ensures
            r@.len() == self.spec_mounts().len(),
            forall|k: int| 0 <= k < r@.len() ==> #[trigger] pair_views(r@)[k] == (self.spec_mounts()[k].id, self.spec_mounts()[k].mountpoint),
    {
        let mut out: Vec<(String, String)> = Vec::new();
        let mut i: usize = 0;
        while i < self.mounts.len()
            invariant
                i <= self.mounts@.len(),
                self.spec_mounts().len() == self.mounts@.len(),
                out@.len() == i,
                forall|k: int| 0 <= k < i ==> #[trigger] pair_views(out@)[k] == (self.spec_mounts()[k].id, self.spec_mounts()[k].mountpoint),
            decreases self.mounts.len() - i,
        {
            let ghost prev = out@;
            out.push((self.mounts[i].id.clone(), self.mounts[i].mountpoint.clone()));
            proof {
                assert forall|k: int| 0 <= k < i + 1 implies #[trigger] pair_views(out@)[k] == (self.spec_mounts()[k].id, self.spec_mounts()[k].mountpoint) by {
                    assert(pair_views(out@)[k] == (out@[k].0@, out@[k].1@));
                    if k < i {
                        assert(out@[k] == prev[k]);
                        assert(pair_views(prev)[k] == (prev[k].0@, prev[k].1@));
                    } else {
                        assert(self.spec_mounts()[k] == self.mounts@[k]@);
                    }
                }
            }
            i = i + 1;
        }
        out
    }

    /// The index of the mount at `mountpoint`.
    fn find_mount(&self, mountpoint: &str) -> (r: Option<usize>)
        ensures
            match r {
                Some(k) => k < self.spec_mounts().len() && self.spec_mounts()[k as int].mountpoint == mountpoint@,
                None => !has_mount(self.spec_mounts(), mountpoint@),
            },
    {
        let mut i: usize = 0;
        while i < self.mounts.len()
            invariant
                i <= self.mounts@.len(),
                self.spec_mounts().len() == self.mounts@.len(),
                forall|k: int| 0 <= k < i ==> self.spec_mounts()[k].mountpoint != mountpoint@,
            decreases self.mounts.len() - i,
        {
            if str_eq(self.mounts[i].mountpoint.as_str(), mountpoint) {
                assert(self.spec_mounts()[i as int] == self.mounts@[i as int]@);
                return Some(i);
            }
            assert(self.spec_mounts()[i as int] == self.mounts@[i as int]@);
            i = i + 1;
        }
        None
    }

    /// Whether a mount at `mountpoint` is active.
    pub fn is_mounted(&self, mountpoint: &str) -> (r: bool)
        ensures
            r == has_mount(self.spec_mounts(), mountpoint@),
    {
        self.find_mount(mountpoint).is_some()
    }

    /// Removes the mount at index `k`, handing it back.
    fn take_mount(&mut self, k: usize) -> (r: ActiveMount<S>)
        requires
            old(self).wf(),
            k < old(self).spec_mounts().len(),
        ensures
            final(self).wf(),
            r@ == old(self).spec_mounts()[k as int],
            final(self).spec_mounts() == old(self).spec_mounts().remove(k as int),
            final(self).spec_controller_addr() == old(self).spec_controller_addr(),
            final(self).spec_stream_id() == old(self).spec_stream_id(),
    {
        let ghost old_m = self.mounts@;
        let r = self.mounts.remove(k);
        proof {
            assert(self.mounts@ == old_m.remove(k as int));
            assert(mount_views(self.mounts@) =~= mount_views(old_m).remove(k as int));
            let mv = mount_views(old_m);
            assert forall|i: int, j: int| 0 <= i < j < self.spec_mounts().len() implies self.spec_mounts()[i].mountpoint != self.spec_mounts()[j].mountpoint by {
                let i2 = if i < k { i } else { i + 1 };
                let j2 = if j < k { j } else { j + 1 };
                assert(self.spec_mounts()[i] == mv[i2]);
                assert(self.spec_mounts()[j] == mv[j2]);
            }
        }
        r
    }

    /// Drops the mount at `mountpoint`, which unmounts it. Returns whether
    /// there was one.
    pub fn force_unmount(&mut self, mountpoint: &str) -> (r: bool)
        requires
            old(self).wf(),
        ensures
            final(self).wf(),
            r == has_mount(old(self).spec_mounts(), mountpoint@),
            !r ==> final(self).spec_mounts() == old(self).spec_mounts(),
            r ==> exists|k: int| 0 <= k < old(self).spec_mounts().len()
                && #[trigger] old(self).spec_mounts()[k].mountpoint == mountpoint@
                && final(self).spec_mounts() == old(self).spec_mounts().remove(k),
            !has_mount(final(self).spec_mounts(), mountpoint@),
            final(self).spec_stream_id() == old(self).spec_stream_id(),
    {
        match self.find_mount(mountpoint) {
            Some(k) => {
                let ghost mv = self.spec_mounts();
                let _dropped = self.take_mount(k);
                proof {
                    if has_mount(self.spec_mounts(), mountpoint@) {
                        let j = choose|j: int| 0 <= j < self.spec_mounts().len() && #[trigger] self.spec_mounts()[j].mountpoint == mountpoint@;
                        let j2 = if j < k { j } else { j + 1 };
                        assert(self.spec_mounts()[j] == mv[j2]);
                        if j2 < k {
                            assert(mv[j2].mountpoint != mv[k as int].mountpoint);
                        } else {
                            assert(mv[k as int].mountpoint != mv[j2].mountpoint);
                        }
                    }
                }
                true
            },
            None => false,
        }
    }

    /// Checks a mount request: every field is required and the mount point
    /// must be free.
    pub fn check_mount_request(&self, req: &MountRequest) -> (r: Result<(), RpcStatus>)
        ensures
            req.id@.len() == 0 || req.access_key@.len() == 0 || req.mountpoint@.len() == 0
                ==> is_status(r, Code::InvalidArgument, "id, access_key, and mountpoint are required"@),
            req.id@.len() > 0 && req.access_key@.len() > 0 && req.mountpoint@.len() > 0 && has_mount(self.spec_mounts(), req.mountpoint@)
                ==> is_status(r, Code::AlreadyExists, "already mounted at "@ + req.mountpoint@),
            req.id@.len() > 0 && req.access_key@.len() > 0 && req.mountpoint@.len() > 0 && !has_mount(self.spec_mounts(), req.mountpoint@)
                ==> r is Ok,
    {
        if req.id.as_str().unicode_len() == 0 || req.access_key.as_str().unicode_len() == 0
            || req.mountpoint.as_str().unicode_len() == 0 {
            return Err(status(Code::InvalidArgument, "id, access_key, and mountpoint are required"));
        }
        if self.is_mounted(req.mountpoint.as_str()) {
            return Err(RpcStatus { code: Code::AlreadyExists, message: concat2("already mounted at ", req.mountpoint.as_str()) });
        }
        Ok(())
    }

    /// The endpoint of the controller: the address in the request, or the
    /// server's own when the request names none.
    pub fn controller_endpoint(&self, controller_addr: &str) -> (r: String)
        ensures
            r@ == "http://"@ + (if controller_addr@.len() == 0 { self.spec_controller_addr() } else { controller_addr@ }),
    {
        if controller_addr.unicode_len() == 0 {
            concat2("http://", self.controller_addr.as_str())
        } else {
            concat2("http://", controller_addr)
        }
    }

    /// Records a mount; one already at that mount point is replaced (and
    /// dropped, which unmounts it).
    pub fn record_mount(&mut self, mount: ActiveMount<S>)
        requires
            old(self).wf(),
        ensures
            final(self).wf(),
            has_mount(final(self).spec_mounts(), mount@.mountpoint),
            final(self).spec_mounts().last() == mount@,
            final(self).spec_mounts().drop_last() == old(self).spec_mounts().filter(mount_not_at(mount@.mountpoint)),
            final(self).spec_stream_id() == old(self).spec_stream_id(),
            final(self).spec_controller_addr() == old(self).spec_controller_addr(),
    {
        let ghost mp = mount@.mountpoint;
        let ghost keep = mount_not_at(mp);
        let ghost before = self.spec_mounts();
        match self.find_mount(mount.mountpoint.as_str()) {
            Some(k) => {
                let _replaced = self.take_mount(k);
                proof {
                    crate::fuse_service::lemma_remove_unique_is_filter(before, k as int, mp);
                }
            },
            None => {
                proof {
                    crate::fuse_service::lemma_filter_keeps_all(before, mp);
                }
            },
        }
        let ghost mid = self.spec_mounts();
        self.mounts.push(mount);
        proof {
            assert(self.spec_mounts() =~= mid.push(mount@));
            assert(self.spec_mounts()[mid.len() as int].mountpoint == mp);
            assert(self.spec_mounts().drop_last() =~= mid);
            assert forall|i: int, j: int| 0 <= i < j < self.spec_mounts().len() implies self.spec_mounts()[i].mountpoint != self.spec_mounts()[j].mountpoint by {
                if j == mid.len() {
                    assert(mid == before.filter(keep));
                    before.lemma_filter_pred(keep, i);
                }
            }
        }
    }

    /// One step of mounting a directory: given where the request stands and
    /// what the outside world reported, the next state and what to do.
    /// Validation, backend choice, lazy creation of the directory, the mount
    /// point, the FUSE session and session registration follow each other;
    /// the first failure answers the request, and only the last step records
    /// the mount.
    pub fn mount_step(&mut self, st: MountState<S>, ev: MountEvent<S>) -> (r: (MountState<S>, MountAction))
        requires
            old(self).wf(),
        ensures
            final(self).wf(),
            final(self).spec_stream_id() == old(self).spec_stream_id(),
            final(self).spec_controller_addr() == old(self).spec_controller_addr(),
            r.0.req == st.req,
            (r.1 is Reply) == (r.0.phase is Done),
            !(st.phase is Registering && ev is SessionRegistered) ==> final(self).spec_mounts() == old(self).spec_mounts(),
            r.1 matches MountAction::Reply(Err(_)) ==> final(self).spec_mounts() == old(self).spec_mounts(),
            !step_expected(st.phase, ev) ==> replies_err(r.1, Code::Internal, "mount steps out of order"@),
            st.phase is Start && ev is Begin ==> (
                (st.req.id@.len() == 0 || st.req.access_key@.len() == 0 || st.req.mountpoint@.len() == 0
                    ==> replies_err(r.1, Code::InvalidArgument, "id, access_key, and mountpoint are required"@))
                && (st.req.id@.len() > 0 && st.req.access_key@.len() > 0 && st.req.mountpoint@.len() > 0
                    && has_mount(old(self).spec_mounts(), st.req.mountpoint@)
                    ==> replies_err(r.1, Code::AlreadyExists, "already mounted at "@ + st.req.mountpoint@))
                && (st.req.id@.len() > 0 && st.req.access_key@.len() > 0 && st.req.mountpoint@.len() > 0
                    && !has_mount(old(self).spec_mounts(), st.req.mountpoint@)
                    ==> r.0.phase is Validating && (r.1 matches MountAction::Validate(e) && e@ == "http://"@
                        + (if st.req.controller_addr@.len() == 0 { old(self).spec_controller_addr() } else { st.req.controller_addr@ })))),
            ev matches MountEvent::Validated(Err(e)) ==> (st.phase is Validating ==> r.1 == MountAction::Reply(Err(e))),
            ev matches MountEvent::Validated(Ok(v)) ==> (st.phase is Validating ==> (
                (!v.valid ==> replies_err(r.1, Code::PermissionDenied, "invalid id or access key"@))
                && (v.valid ==> match backend_for(v.fs_type@, pair_views(v.fs_config@)) {
                    Ok(x) => r.1 matches MountAction::CheckDir(b) && backend_is(b, x)
                        && r.0.phase == MountPhase::<S>::CheckingDir(spec_mount_permission(st.req.readonly, v.permission)),
                    Err(m) => replies_err(r.1, Code::Internal, m),
                }))),
            ev matches MountEvent::DirChecked(res) ==> (st.phase matches MountPhase::CheckingDir(p) ==> match res {
                Err(e) => replies_err(r.1, Code::Internal, e@),
                Ok(exists) => if exists {
                    r.1 is CreateMountpoint && r.0.phase == MountPhase::<S>::CreatingMountpoint(p)
                } else {
                    r.1 is InitDir && r.0.phase == MountPhase::<S>::InitializingDir(p)
                },
            }),
            ev matches MountEvent::DirInitialized(res) ==> (st.phase matches MountPhase::InitializingDir(p) ==> match res {
                Err(e) => replies_err(r.1, Code::Internal, "failed to init dir: "@ + e@),
                Ok(_) => r.1 is CreateMountpoint && r.0.phase == MountPhase::<S>::CreatingMountpoint(p),
            }),
            ev matches MountEvent::MountpointCreated(res) ==> (st.phase matches MountPhase::CreatingMountpoint(p) ==> match res {
                Err(e) => replies_err(r.1, Code::Internal, "failed to create mountpoint: "@ + e@),
                Ok(_) => r.1 == MountAction::MountFuse(p) && r.0.phase == MountPhase::<S>::Mounting(p),
            }),
            ev matches MountEvent::Mounted(res) ==> (st.phase matches MountPhase::Mounting(p) ==> match res {
                Err(e) => replies_err(r.1, Code::Internal, "failed to mount FUSE: "@ + e@),
                Ok(s) => r.1 is RegisterSession && r.0.phase == MountPhase::Registering(p, s),
            }),
            ev matches MountEvent::SessionRegistered(o) ==> (st.phase matches MountPhase::Registering(p, s) ==> (
                (r.1 matches MountAction::Reply(Ok(m)) && m@ == st.req.mountpoint@)
                && has_mount(final(self).spec_mounts(), st.req.mountpoint@)
                && final(self).spec_mounts().last() == (MountView {
                    id: st.req.id@,
                    mountpoint: st.req.mountpoint@,
                    permission: p,
                    session_id: match o { Some(x) => x@, None => Seq::<char>::empty() },
                    session: s,
                })
                && final(self).spec_mounts().drop_last() == old(self).spec_mounts().filter(mount_not_at(st.req.mountpoint@)))),
    {
        let MountState { req, phase } = st;
        match phase {
            MountPhase::Start => {
                match ev {
                    MountEvent::Begin => match self.check_mount_request(&req) {
                        Err(e) => (MountState { req, phase: MountPhase::Done }, MountAction::Reply(Err(e))),
                        Ok(()) => {
                            let endpoint = self.controller_endpoint(req.controller_addr.as_str());
                            (MountState { req, phase: MountPhase::Validating }, MountAction::Validate(endpoint))
                        },
                    },
                    _ => Self::out_of_order(req),
                }
            },
            MountPhase::Validating => {
                match ev {
                    MountEvent::Validated(res) => match res {
                        Err(e) => (MountState { req, phase: MountPhase::Done }, MountAction::Reply(Err(e))),
                        Ok(resp) => {
                            let readonly = req.readonly;
                            match check_validation(resp) {
                                Err(e) => (MountState { req, phase: MountPhase::Done }, MountAction::Reply(Err(e))),
                                Ok(v) => {
                                    let p = mount_permission(readonly, v.permission);
                                    match create_backend(v.fs_type.as_str(), &v.fs_config) {
                                        Err(e) => (MountState { req, phase: MountPhase::Done }, MountAction::Reply(Err(e))),
                                        Ok(b) => (MountState { req, phase: MountPhase::CheckingDir(p) }, MountAction::CheckDir(b)),
                                    }
                                },
                            }
                        },
                    },
                    _ => Self::out_of_order(req),
                }
            },
            MountPhase::CheckingDir(p) => {
                match ev {
                    MountEvent::DirChecked(res) => match res {
                        Err(e) => (MountState { req, phase: MountPhase::Done }, MountAction::Reply(Err(RpcStatus { code: Code::Internal, message: e }))),
                        Ok(exists) => if exists {
                            (MountState { req, phase: MountPhase::CreatingMountpoint(p) }, MountAction::CreateMountpoint)
                        } else {
                            (MountState { req, phase: MountPhase::InitializingDir(p) }, MountAction::InitDir)
                        },
                    },
                    _ => Self::out_of_order(req),
                }
            },
            MountPhase::InitializingDir(p) => {
                match ev {
                    MountEvent::DirInitialized(res) => match res {
                        Err(e) => Self::failed(req, "failed to init dir: ", e),
                        Ok(()) => (MountState { req, phase: MountPhase::CreatingMountpoint(p) }, MountAction::CreateMountpoint),
                    },
                    _ => Self::out_of_order(req),
                }
            },
            MountPhase::CreatingMountpoint(p) => {
                match ev {
                    MountEvent::MountpointCreated(res) => match res {
                        Err(e) => Self::failed(req, "failed to create mountpoint: ", e),
                        Ok(()) => (MountState { req, phase: MountPhase::Mounting(p) }, MountAction::MountFuse(p)),
                    },
                    _ => Self::out_of_order(req),
                }
            },
            MountPhase::Mounting(p) => {
                match ev {
                    MountEvent::Mounted(res) => match res {
                        Err(e) => Self::failed(req, "failed to mount FUSE: ", e),
                        Ok(s) => (MountState { req, phase: MountPhase::Registering(p, s) }, MountAction::RegisterSession),
                    },
                    _ => Self::out_of_order(req),
                }
            },
            MountPhase::Registering(p, s) => {
                match ev {
                    MountEvent::SessionRegistered(o) => {
                        let session_id = match o {
                            Some(x) => x,
                            None => String::new(),
                        };
                        let mountpoint = req.mountpoint.clone();
                        let mount = ActiveMount {
                            id: req.id.clone(),
                            mountpoint: req.mountpoint.clone(),
                            permission: p,
                            session_id,
                            session: s,
                        };
                        self.record_mount(mount);
                        (MountState { req, phase: MountPhase::Done }, MountAction::Reply(Ok(mountpoint)))
                    },
                    _ => Self::out_of_order(req),
                }
            },
            MountPhase::Done => Self::out_of_order(req),
        }
    }

    /// The answer to an event the request was not waiting for.
    fn out_of_order(req: MountRequest) -> (r: (MountState<S>, MountAction))
        ensures
            r.0.req == req,
            r.0.phase is Done,
            replies_err(r.1, Code::Internal, "mount steps out of order"@),
    {
        (MountState { req, phase: MountPhase::Done }, MountAction::Reply(Err(status(Code::Internal, "mount steps out of order"))))
    }

    /// The answer to a failed step: an internal error, `what` then the reason.
    fn failed(req: MountRequest, what: &str, e: String) -> (r: (MountState<S>, MountAction))
        ensures
            r.0.req == req,
            r.0.phase is Done,
            replies_err(r.1, Code::Internal, what@ + e@),
    {
        (MountState { req, phase: MountPhase::Done }, MountAction::Reply(Err(RpcStatus { code: Code::Internal, message: concat2(what, e.as_str()) })))
    }

    /// Takes the mount at the requested mount point off the table, handing
    /// it back so that its session can be deregistered before it is dropped.
    pub fn unmount(&mut self, req: &UnmountRequest) -> (r: Result<ActiveMount<S>, RpcStatus>)
        requires
            old(self).wf(),
        ensures
            final(self).wf(),
            req.mountpoint@.len() == 0 ==> is_status(r, Code::InvalidArgument, "mountpoint is required"@)
                && final(self).spec_mounts() == old(self).spec_mounts(),
            req.mountpoint@.len() > 0 && !has_mount(old(self).spec_mounts(), req.mountpoint@)
                ==> is_status(r, Code::NotFound, "no mount at "@ + req.mountpoint@) && final(self).spec_mounts() == old(self).spec_mounts(),
            req.mountpoint@.len() > 0 && has_mount(old(self).spec_mounts(), req.mountpoint@) ==> (r matches Ok(m)
                && m@.mountpoint == req.mountpoint@
                && exists|k: int| 0 <= k < old(self).spec_mounts().len() && old(self).spec_mounts()[k] == m@
                    && final(self).spec_mounts() == old(self).spec_mounts().remove(k)),
            req.mountpoint@.len() > 0 ==> !has_mount(final(self).spec_mounts(), req.mountpoint@),
            final(self).spec_stream_id() == old(self).spec_stream_id(),
    {
        if req.mountpoint.as_str().unicode_len() == 0 {
            return Err(status(Code::InvalidArgument, "mountpoint is required"));
        }
        match self.find_mount(req.mountpoint.as_str()) {
            Some(k) => {
                let ghost mv = self.spec_mounts();
                let m = self.take_mount(k);
                proof {
                    if has_mount(self.spec_mounts(), req.mountpoint@) {
                        let j = choose|j: int| 0 <= j < self.spec_mounts().len() && #[trigger] self.spec_mounts()[j].mountpoint == req.mountpoint@;
                        let j2 = if j < k { j } else { j + 1 };
                        assert(self.spec_mounts()[j] == mv[j2]);
                        if j2 < k {
                            assert(mv[j2].mountpoint != mv[k as int].mountpoint);
                        } else {
                            assert(mv[k as int].mountpoint != mv[j2].mountpoint);
                        }
                    }
                }
                Ok(m)
            },
            None => Err(RpcStatus { code: Code::NotFound, message: concat2("no mount at ", req.mountpoint.as_str()) }),
        }
    }

    /// The active mounts with their permissions.
    pub fn list_mounts(&self) -> (r: Vec<MountInfo>)
        ensures
            r@.len() == self.spec_mounts().len(),
            forall|k: int| 0 <= k < r@.len() ==> {
                let info = #[trigger] r@[k];
                &&& info.id@ == self.spec_mounts()[k].id
                &&& info.mountpoint@ == self.spec_mounts()[k].mountpoint
                &&& info.permission == wire_permission(self.spec_mounts()[k].permission)
            },
    {
        let mut out: Vec<MountInfo> = Vec::new();
        let mut i: usize = 0;
        while i < self.mounts.len()
            invariant
                i <= self.mounts@.len(),
                self.spec_mounts().len() == self.mounts@.len(),
                out@.len() == i,
                forall|k: int| 0 <= k < i ==> {
                    let info = #[trigger] out@[k];
                    &&& info.id@ == self.spec_mounts()[k].id
                    &&& info.mountpoint@ == self.spec_mounts()[k].mountpoint
                    &&& info.permission == wire_permission(self.spec_mounts()[k].permission)
                },
            decreases self.mounts.len() - i,
        {
            let m = &self.mounts[i];
            assert(self.spec_mounts()[i as int] == m@);
            let permission = match m.permission {
                MountPermission::ReadOnly => Permission::ReadOnly,
                MountPermission::ReadWrite => Permission::ReadWrite,
            };
            out.push(MountInfo { id: m.id.clone(), mountpoint: m.mountpoint.clone(), permission });
            i = i + 1;
        }
        out
    }
}

/// With unique mount points, removing the one at `k` is filtering it out.
pub proof fn lemma_remove_unique_is_filter<S>(s: Seq<MountView<S>>, k: int, mp: Seq<char>)
    requires
        0 <= k < s.len(),
        s[k].mountpoint == mp,
        forall|i: int, j: int| 0 <= i < j < s.len() ==> s[i].mountpoint != s[j].mountpoint,
    ensures
        s.remove(k) == s.filter(mount_not_at(mp)),
    decreases s.len(),
{
    reveal_with_fuel(Seq::filter, 1);
    if k == s.len() - 1 {
        lemma_filter_keeps_all(s.drop_last(), mp);
        assert(s.remove(k) =~= s.drop_last());
    } else {
        let d = s.drop_last();
        assert forall|i: int, j: int| 0 <= i < j < d.len() implies d[i].mountpoint != d[j].mountpoint by {
            assert(d[i] == s[i] && d[j] == s[j]);
        }
        assert(d[k] == s[k]);
        lemma_remove_unique_is_filter(d, k, mp);
        assert(s.last().mountpoint != mp);
        assert(s.remove(k) =~= d.remove(k).push(s.last()));
    }
}

/// Filtering out a mount point that no mount has changes nothing.
pub proof fn lemma_filter_keeps_all<S>(s: Seq<MountView<S>>, mp: Seq<char>)
    requires
        forall|i: int| 0 <= i < s.len() ==> s[i].mountpoint != mp,
    ensures
        s.filter(mount_not_at(mp)) == s,
    decreases s.len(),
{
    reveal_with_fuel(Seq::filter, 1);
    if s.len() > 0 {
        let d = s.drop_last();
        assert forall|i: int| 0 <= i < d.len() implies d[i].mountpoint != mp by {
            assert(d[i] == s[i]);
        }
        lemma_filter_keeps_all(d, mp);
        assert(s.last() == s[s.len() - 1]);
        assert(s =~= d.push(s.last()));
    }
}

} // verus!
