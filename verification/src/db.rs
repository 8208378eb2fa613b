//! The controller's metadata store: registered filesystems, shared
//! directories and mount sessions, held as three tables with primary keys
//! and foreign keys, and the operations the controller performs on them.
use vstd::prelude::*;
use vstd::string::*;
use crate::ids::{generate_hex_id, is_hex_id};
use crate::text::{concat3, decimal, pair_views, spec_decimal, str_eq, string_views};
use crate::timestamp::{current_timestamp, is_civil_time, render_timestamp};

verus! {

broadcast use vstd::seq_lib::group_filter_ensures;

/// How many times a new identifier is drawn before a run of draws
/// that are all in use is given up on.
pub const ID_DRAWS: usize = 3;

/// A registered filesystem.
#[derive(Debug)]
pub struct FsRecord {
    pub name: String,
    pub fs_type: String,
    pub config: String,
    pub created_at: String,
}

/// An active mount session.
#[derive(Debug)]
pub struct SessionRecord {
    pub session_id: String,
    pub dir_id: String,
    pub stream_id: String,
    pub mountpoint: String,
    pub created_at: String,
}

/// A shared directory.
#[derive(Debug)]
pub struct DirRecord {
    pub id: String,
    pub access_key: String,
    pub permission: String,
    pub fs_name: String,
    pub created_at: String,
    pub status: String,
}

/// The contents of a filesystem record.
pub struct FsView {
    pub name: Seq<char>,
    pub fs_type: Seq<char>,
    pub config: Seq<char>,
    pub created_at: Seq<char>,
}

/// The contents of a directory record.
pub struct DirView {
    pub id: Seq<char>,
    pub access_key: Seq<char>,
    pub permission: Seq<char>,
    pub fs_name: Seq<char>,
    pub created_at: Seq<char>,
    pub status: Seq<char>,
}

/// The contents of a session record.
pub struct SessionView {
    pub session_id: Seq<char>,
    pub dir_id: Seq<char>,
    pub stream_id: Seq<char>,
    pub mountpoint: Seq<char>,
    pub created_at: Seq<char>,
}

impl View for FsRecord {
    type V = FsView;

    open spec fn view(&self) -> FsView {
        FsView {
            name: self.name@,
            fs_type: self.fs_type@,
            config: self.config@,
            created_at: self.created_at@,
        }
    }
}

impl View for DirRecord {
    type V = DirView;

    open spec fn view(&self) -> DirView {
        DirView {
            id: self.id@,
            access_key: self.access_key@,
            permission: self.permission@,
            fs_name: self.fs_name@,
            created_at: self.created_at@,
            status: self.status@,
        }
    }
}

impl View for SessionRecord {
    type V = SessionView;

    open spec fn view(&self) -> SessionView {
        SessionView {
            session_id: self.session_id@,
            dir_id: self.dir_id@,
            stream_id: self.stream_id@,
            mountpoint: self.mountpoint@,
            created_at: self.created_at@,
        }
    }
}

impl Clone for FsRecord {
    fn clone(&self) -> (r: Self)
        ensures
            r@ == self@,
    {
        FsRecord {
            name: self.name.clone(),
            fs_type: self.fs_type.clone(),
            config: self.config.clone(),
            created_at: self.created_at.clone(),
        }
    }
}

impl Clone for DirRecord {
    fn clone(&self) -> (r: Self)
        ensures
            r@ == self@,
    {
        DirRecord {
            id: self.id.clone(),
            access_key: self.access_key.clone(),
            permission: self.permission.clone(),
            fs_name: self.fs_name.clone(),
            created_at: self.created_at.clone(),
            status: self.status.clone(),
        }
    }
}

impl Clone for SessionRecord {
    fn clone(&self) -> (r: Self)
        ensures
            r@ == self@,
    {
        SessionRecord {
            session_id: self.session_id.clone(),
            dir_id: self.dir_id.clone(),
            stream_id: self.stream_id.clone(),
            mountpoint: self.mountpoint.clone(),
            created_at: self.created_at.clone(),
        }
    }
}


/// A creation timestamp: a UTC civil time rendered as `YYYY-MM-DD HH:MM:SS`.
pub open spec fn is_timestamp(s: Seq<char>) -> bool {
    exists|secs: int, y: int, mo: int, d: int, h: int, mi: int, sec: int|
        0 <= secs && is_civil_time(secs, y, mo, d, h, mi, sec) && s == render_timestamp(y, mo, d, h, mi, sec)
}

/// The status of a live directory.
pub open spec fn active() -> Seq<char> {
    "active"@
}

/// The status of a soft-deleted directory.
pub open spec fn deleted() -> Seq<char> {
    "deleted"@
}

/// The permission every directory is created with.
pub open spec fn read_write() -> Seq<char> {
    "READ_WRITE"@
}

/// The contents of a sequence of filesystem records.
pub open spec fn fs_views(s: Seq<FsRecord>) -> Seq<FsView> {
    s.map_values(|r: FsRecord| r@)
}

/// The contents of a sequence of directory records.
pub open spec fn dir_views(s: Seq<DirRecord>) -> Seq<DirView> {
    s.map_values(|r: DirRecord| r@)
}

/// The contents of a sequence of session records.
pub open spec fn session_views(s: Seq<SessionRecord>) -> Seq<SessionView> {
    s.map_values(|r: SessionRecord| r@)
}

/// The three tables of the store.
pub struct DbView {
    pub fs: Seq<FsView>,
    pub dirs: Seq<DirView>,
    pub sessions: Seq<SessionView>,
}

/// `fs` holds a filesystem named `name`.
pub open spec fn has_fs(fs: Seq<FsView>, name: Seq<char>) -> bool {
    exists|i: int| 0 <= i < fs.len() && #[trigger] fs[i].name == name
}

/// `dirs` holds a directory with identifier `id`.
pub open spec fn has_dir(dirs: Seq<DirView>, id: Seq<char>) -> bool {
    exists|i: int| 0 <= i < dirs.len() && #[trigger] dirs[i].id == id
}

/// `sessions` holds a session with identifier `id`.
pub open spec fn has_session(sessions: Seq<SessionView>, id: Seq<char>) -> bool {
    exists|i: int| 0 <= i < sessions.len() && #[trigger] sessions[i].session_id == id
}

/// Filesystems other than the one named `name`.
pub open spec fn fs_not_named(name: Seq<char>) -> spec_fn(FsView) -> bool {
    |f: FsView| f.name != name
}

/// Directories on filesystem `name` with status `status`.
pub open spec fn dir_on_with_status(name: Seq<char>, status: Seq<char>) -> spec_fn(DirView) -> bool {
    |d: DirView| d.fs_name == name && d.status == status
}

/// Directories that are not soft-deleted ones of filesystem `name`.
pub open spec fn dir_not_deleted_on(name: Seq<char>) -> spec_fn(DirView) -> bool {
    |d: DirView| !(d.fs_name == name && d.status == deleted())
}

/// Active directories, of filesystem `name` when a name is given.
pub open spec fn dir_listed(filter: Option<Seq<char>>) -> spec_fn(DirView) -> bool {
    |d: DirView| d.status == active() && match filter {
        Some(name) => d.fs_name == name,
        None => true,
    }
}

/// Sessions of directory `dir_id`.
pub open spec fn session_of_dir(dir_id: Seq<char>) -> spec_fn(SessionView) -> bool {
    |s: SessionView| s.dir_id == dir_id
}

/// Sessions of directories other than `dir_id`.
pub open spec fn session_not_of_dir(dir_id: Seq<char>) -> spec_fn(SessionView) -> bool {
    |s: SessionView| s.dir_id != dir_id
}

/// Sessions of stream `stream_id`.
pub open spec fn session_of_stream(stream_id: Seq<char>) -> spec_fn(SessionView) -> bool {
    |s: SessionView| s.stream_id == stream_id
}

/// Sessions not of stream `stream_id`.
pub open spec fn session_not_of_stream(stream_id: Seq<char>) -> spec_fn(SessionView) -> bool {
    |s: SessionView| s.stream_id != stream_id
}

/// Sessions other than the one with identifier `id`.
pub open spec fn session_not_id(id: Seq<char>) -> spec_fn(SessionView) -> bool {
    |s: SessionView| s.session_id != id
}

impl DbView {
    /// Primary keys are unique, foreign keys resolve and every directory is
    /// either active or soft-deleted.
    pub open spec fn wf(self) -> bool {
        &&& forall|i: int, j: int| 0 <= i < j < self.fs.len() ==> self.fs[i].name != self.fs[j].name
        &&& forall|i: int, j: int| 0 <= i < j < self.dirs.len() ==> self.dirs[i].id != self.dirs[j].id
        &&& forall|i: int, j: int| 0 <= i < j < self.sessions.len() ==> self.sessions[i].session_id != self.sessions[j].session_id
        &&& forall|i: int| 0 <= i < self.dirs.len() ==> has_fs(self.fs, #[trigger] self.dirs[i].fs_name)
        &&& forall|i: int| 0 <= i < self.sessions.len() ==> has_dir(self.dirs, #[trigger] self.sessions[i].dir_id)
        &&& forall|i: int| 0 <= i < self.dirs.len() ==> #[trigger] self.dirs[i].status == active() || self.dirs[i].status == deleted()
    }

    /// The store with no records.
    pub open spec fn empty() -> DbView {
        DbView { fs: Seq::empty(), dirs: Seq::empty(), sessions: Seq::empty() }
    }
}


/// The field of a session record that a selection compares.
#[derive(Clone, Copy, PartialEq, Eq, Structural)]
pub enum SessionField {
    Id,
    Dir,
    Stream,
}

/// The value of field `f` of session `s`.
pub open spec fn session_field(s: SessionView, f: SessionField) -> Seq<char> {
    match f {
        SessionField::Id => s.session_id,
        SessionField::Dir => s.dir_id,
        SessionField::Stream => s.stream_id,
    }
}

/// Sessions whose field `f` equals `value` (when `keep`) or differs from it.
pub open spec fn session_match(f: SessionField, value: Seq<char>, keep: bool) -> spec_fn(SessionView) -> bool {
    |s: SessionView| (session_field(s, f) == value) == keep
}

/// Filtering keeps keys unique.
pub proof fn lemma_filter_keys_unique<A>(s: Seq<A>, p: spec_fn(A) -> bool, key: spec_fn(A) -> Seq<char>)
    requires
        forall|i: int, j: int| 0 <= i < j < s.len() ==> key(s[i]) != key(s[j]),
    ensures
        forall|i: int, j: int| 0 <= i < j < s.filter(p).len() ==> key(s.filter(p)[i]) != key(s.filter(p)[j]),
    decreases s.len(),
{
    reveal_with_fuel(Seq::filter, 1);
    if s.len() > 0 {
        let d = s.drop_last();
        assert forall|i: int, j: int| 0 <= i < j < d.len() implies key(d[i]) != key(d[j]) by {
            assert(d[i] == s[i] && d[j] == s[j]);
        }
        lemma_filter_keys_unique(d, p, key);
        let fd = d.filter(p);
        if p(s.last()) {
            assert(s.filter(p) == fd.push(s.last()));
            assert forall|i: int, j: int| 0 <= i < j < s.filter(p).len() implies key(s.filter(p)[i]) != key(s.filter(p)[j]) by {
                if j == fd.len() {
                    assert(fd.contains(fd[i]));
                    d.lemma_filter_contains_rev(p, fd[i]);
                    assert(d.contains(fd[i]));
                    let k = choose|k: int| 0 <= k < d.len() && d[k] == fd[i];
                    assert(s[k] == d[k]);
                    assert(s.last() == s[s.len() - 1]);
                } else {
                    assert(s.filter(p)[i] == fd[i]);
                    assert(s.filter(p)[j] == fd[j]);
                }
            }
        } else {
            assert(s.filter(p) == fd);
        }
    }
}

/// Every element of a filtered sequence is an element of the sequence.
pub proof fn lemma_filter_member<A>(s: Seq<A>, p: spec_fn(A) -> bool, i: int)
    requires
        0 <= i < s.filter(p).len(),
    ensures
        exists|k: int| 0 <= k < s.len() && s[k] == s.filter(p)[i],
        p(s.filter(p)[i]),
{
    assert(s.filter(p).contains(s.filter(p)[i]));
    s.lemma_filter_contains_rev(p, s.filter(p)[i]);
    s.lemma_filter_pred(p, i);
}

/// An element that satisfies the predicate is kept.
pub proof fn lemma_filter_keeps<A>(s: Seq<A>, p: spec_fn(A) -> bool, k: int)
    requires
        0 <= k < s.len(),
        p(s[k]),
    ensures
        s.filter(p).contains(s[k]),
        s.filter(p).len() > 0,
{
    s.lemma_filter_contains(p, k);
}

/// The kept and the dropped elements add up to the whole.
pub proof fn lemma_filter_split_len<A>(s: Seq<A>, p: spec_fn(A) -> bool, q: spec_fn(A) -> bool)
    requires
        forall|x: A| #[trigger] p(x) == !q(x),
    ensures
        s.filter(p).len() + s.filter(q).len() == s.len(),
    decreases s.len(),
{
    reveal_with_fuel(Seq::filter, 1);
    if s.len() > 0 {
        lemma_filter_split_len(s.drop_last(), p, q);
    }
}

/// One step of a left-to-right filtering loop.
pub proof fn lemma_filter_take_step<A>(s: Seq<A>, p: spec_fn(A) -> bool, i: int)
    requires
        0 <= i < s.len(),
    ensures
        s.take(i + 1).filter(p) == if p(s[i]) { s.take(i).filter(p).push(s[i]) } else { s.take(i).filter(p) },
{
    reveal_with_fuel(Seq::filter, 1);
    assert(s.take(i + 1).drop_last() =~= s.take(i));
}

/// Some session refers to a soft-deleted directory of filesystem `name`, so
/// purging those directories would break a foreign key.
pub open spec fn fk_blocked(v: DbView, name: Seq<char>) -> bool {
    exists|i: int, k: int|
        0 <= i < v.sessions.len() && 0 <= k < v.dirs.len() && #[trigger] v.dirs[k].id == #[trigger] v.sessions[i].dir_id
            && v.dirs[k].fs_name == name && v.dirs[k].status == deleted()
}

/// Number of active directories on filesystem `name`.
pub open spec fn active_dir_count(v: DbView, name: Seq<char>) -> nat {
    v.dirs.filter(dir_on_with_status(name, active())).len()
}

/// The store after unregistering filesystem `name`: the filesystem and its
/// soft-deleted directories are gone.
pub open spec fn after_unregister(v: DbView, name: Seq<char>) -> DbView {
    DbView {
        fs: v.fs.filter(fs_not_named(name)),
        dirs: v.dirs.filter(dir_not_deleted_on(name)),
        sessions: v.sessions,
    }
}

proof fn lemma_unregister_wf(v: DbView, name: Seq<char>)
    requires
        v.wf(),
        active_dir_count(v, name) == 0,
        !fk_blocked(v, name),
    ensures
        after_unregister(v, name).wf(),
{
    let w = after_unregister(v, name);
    let pf = fs_not_named(name);
    let pd = dir_not_deleted_on(name);
    lemma_filter_keys_unique(v.fs, pf, |f: FsView| f.name);
    lemma_filter_keys_unique(v.dirs, pd, |d: DirView| d.id);
    assert forall|i: int| 0 <= i < w.dirs.len() implies has_fs(w.fs, #[trigger] w.dirs[i].fs_name) by {
        lemma_filter_member(v.dirs, pd, i);
        let k = choose|k: int| 0 <= k < v.dirs.len() && v.dirs[k] == w.dirs[i];
        assert(v.dirs[k].status == active() || v.dirs[k].status == deleted());
        if v.dirs[k].fs_name == name {
            lemma_filter_keeps(v.dirs, dir_on_with_status(name, active()), k);
        }
        let j = choose|j: int| 0 <= j < v.fs.len() && #[trigger] v.fs[j].name == v.dirs[k].fs_name;
        lemma_filter_keeps(v.fs, pf, j);
        let m = choose|m: int| 0 <= m < w.fs.len() && w.fs[m] == v.fs[j];
        assert(w.fs[m].name == w.dirs[i].fs_name);
    }
    assert forall|i: int| 0 <= i < w.sessions.len() implies has_dir(w.dirs, #[trigger] w.sessions[i].dir_id) by {
        let k = choose|k: int| 0 <= k < v.dirs.len() && #[trigger] v.dirs[k].id == v.sessions[i].dir_id;
        if !pd(v.dirs[k]) {
            assert(fk_blocked(v, name));
        }
        lemma_filter_keeps(v.dirs, pd, k);
        let m = choose|m: int| 0 <= m < w.dirs.len() && w.dirs[m] == v.dirs[k];
        assert(w.dirs[m].id == w.sessions[i].dir_id);
    }
    assert forall|i: int| 0 <= i < w.dirs.len() implies #[trigger] w.dirs[i].status == active() || w.dirs[i].status == deleted() by {
        lemma_filter_member(v.dirs, pd, i);
    }
}

/// The directory `id` exists, is active and is guarded by `access_key`.
pub open spec fn token_valid(v: DbView, id: Seq<char>, access_key: Seq<char>) -> bool {
    exists|k: int| 0 <= k < v.dirs.len() && #[trigger] v.dirs[k].id == id && v.dirs[k].access_key == access_key
        && v.dirs[k].status == active()
}

/// The filter that `list_dirs` applies: a non-empty name selects one
/// filesystem, anything else selects all.
pub open spec fn listing_filter(fs_name: Option<Seq<char>>) -> Option<Seq<char>> {
    match fs_name {
        Some(n) => if n.len() > 0 { Some(n) } else { None },
        None => None,
    }
}

/// Removing sessions keeps the store well formed.
proof fn lemma_sessions_filtered_wf(v: DbView, p: spec_fn(SessionView) -> bool)
    requires
        v.wf(),
    ensures
        (DbView { sessions: v.sessions.filter(p), ..v }).wf(),
{
    let w = DbView { sessions: v.sessions.filter(p), ..v };
    lemma_filter_keys_unique(v.sessions, p, |x: SessionView| x.session_id);
    assert forall|i: int| 0 <= i < w.sessions.len() implies has_dir(w.dirs, #[trigger] w.sessions[i].dir_id) by {
        lemma_filter_member(v.sessions, p, i);
    }
}

/// A directory identifier and a mount point.
pub type MountPair = (Seq<char>, Seq<char>);

/// The heartbeat's mounts as pairs of character sequences.
pub open spec fn mount_views(mounts: Seq<(&str, &str)>) -> Seq<MountPair> {
    mounts.map_values(|p: (&str, &str)| (p.0@, p.1@))
}

/// The mount pair of a session.
pub open spec fn session_pair(s: SessionView) -> MountPair {
    (s.dir_id, s.mountpoint)
}

/// The mount pairs of the sessions of stream `stream`, in order.
pub open spec fn stream_pairs(sessions: Seq<SessionView>, stream: Seq<char>) -> Seq<MountPair> {
    sessions.filter(session_of_stream(stream)).map_values(|s: SessionView| session_pair(s))
}

/// The pairs of `mounts` not in `present`, each once, in order of first occurrence.
pub open spec fn fresh_pairs(mounts: Seq<MountPair>, present: Seq<MountPair>) -> Seq<MountPair>
    decreases mounts.len(),
{
    if mounts.len() == 0 {
        Seq::empty()
    } else {
        let prev = fresh_pairs(mounts.drop_last(), present);
        let p = mounts.last();
        if present.contains(p) || prev.contains(p) {
            prev
        } else {
            prev.push(p)
        }
    }
}

/// Sessions that survive a heartbeat of stream `stream` reporting `mounts`:
/// those of other streams and those whose mount is still reported.
pub open spec fn keep_session(stream: Seq<char>, mounts: Seq<MountPair>) -> spec_fn(SessionView) -> bool {
    |s: SessionView| s.stream_id != stream || mounts.contains(session_pair(s))
}

/// New sessions of stream `stream` for `fresh` mounts, with identifiers `ids`.
pub open spec fn new_sessions(fresh: Seq<MountPair>, ids: Seq<Seq<char>>, stream: Seq<char>, created_at: Seq<char>) -> Seq<SessionView> {
    Seq::new(fresh.len(), |k: int| SessionView {
        session_id: ids[k],
        dir_id: fresh[k].0,
        stream_id: stream,
        mountpoint: fresh[k].1,
        created_at: created_at,
    })
}

/// The mounts of a heartbeat that the store does not hold yet for the stream.
pub open spec fn missing_pairs(v: DbView, stream: Seq<char>, mounts: Seq<MountPair>) -> Seq<MountPair> {
    fresh_pairs(mounts, stream_pairs(v.sessions, stream))
}

/// Some missing mount names an unknown directory.
pub open spec fn reconcile_fk_fails(v: DbView, stream: Seq<char>, mounts: Seq<MountPair>) -> bool {
    exists|k: int| 0 <= k < missing_pairs(v, stream, mounts).len()
        && !has_dir(v.dirs, #[trigger] missing_pairs(v, stream, mounts)[k].0)
}

/// The new identifiers repeat one another or an existing session's.
pub open spec fn ids_clash(v: DbView, ids: Seq<Seq<char>>) -> bool {
    ||| exists|k: int| 0 <= k < ids.len() && has_session(v.sessions, #[trigger] ids[k])
    ||| exists|j: int, k: int| 0 <= j < k < ids.len() && #[trigger] ids[j] == #[trigger] ids[k]
}

/// The store after a heartbeat of stream `stream` reporting `mounts`:
/// stale sessions of the stream are gone and missing mounts are added.
pub open spec fn after_reconcile(v: DbView, stream: Seq<char>, mounts: Seq<MountPair>, ids: Seq<Seq<char>>, created_at: Seq<char>) -> DbView {
    DbView {
        sessions: v.sessions.filter(keep_session(stream, mounts))
            + new_sessions(missing_pairs(v, stream, mounts), ids, stream, created_at),
        ..v
    }
}

/// The fresh pairs are pairs of the mounts, absent from `present`, each once.
pub proof fn lemma_fresh_pairs(mounts: Seq<MountPair>, present: Seq<MountPair>)
    ensures
        forall|k: int| 0 <= k < fresh_pairs(mounts, present).len() ==> mounts.contains(#[trigger] fresh_pairs(mounts, present)[k])
            && !present.contains(fresh_pairs(mounts, present)[k]),
        forall|j: int, k: int| 0 <= j < k < fresh_pairs(mounts, present).len() ==> #[trigger] fresh_pairs(mounts, present)[j] != #[trigger] fresh_pairs(mounts, present)[k],
        forall|p: MountPair| mounts.contains(p) && !present.contains(p) ==> #[trigger] fresh_pairs(mounts, present).contains(p),
    decreases mounts.len(),
{
    if mounts.len() > 0 {
        let d = mounts.drop_last();
        lemma_fresh_pairs(d, present);
        let prev = fresh_pairs(d, present);
        let f = fresh_pairs(mounts, present);
        let last = mounts.last();
        let skip = present.contains(last) || prev.contains(last);
        assert(f == if skip { prev } else { prev.push(last) });
        assert(mounts[mounts.len() - 1] == last);
        assert forall|k: int| 0 <= k < f.len() implies mounts.contains(#[trigger] f[k]) && !present.contains(f[k]) by {
            if k < prev.len() {
                assert(f[k] == prev[k]);
                assert(d.contains(prev[k]));
                let m = choose|m: int| 0 <= m < d.len() && d[m] == prev[k];
                assert(mounts[m] == d[m]);
            } else {
                assert(f[k] == last);
            }
        }
        assert forall|j: int, k: int| 0 <= j < k < f.len() implies #[trigger] f[j] != #[trigger] f[k] by {
            if k < prev.len() {
                assert(f[j] == prev[j] && f[k] == prev[k]);
            } else {
                assert(f[k] == last);
                assert(f[j] == prev[j]);
                if prev[j] == last {
                    assert(prev.contains(last));
                }
            }
        }
        assert forall|p: MountPair| mounts.contains(p) && !present.contains(p) implies #[trigger] f.contains(p) by {
            let m = choose|m: int| 0 <= m < mounts.len() && mounts[m] == p;
            if m < mounts.len() - 1 {
                assert(d[m] == p);
                assert(d.contains(p));
                assert(prev.contains(p));
                let k = choose|k: int| 0 <= k < prev.len() && prev[k] == p;
                assert(f[k] == p);
            } else {
                assert(p == last);
                if prev.contains(p) {
                    let k = choose|k: int| 0 <= k < prev.len() && prev[k] == p;
                    assert(f[k] == p);
                } else {
                    assert(f[f.len() - 1] == p);
                }
            }
        }
    }
}

/// Sessions that satisfy `q` survive the double filter when `q` implies `p`.
pub proof fn lemma_filter_filter_implied(s: Seq<SessionView>, p: spec_fn(SessionView) -> bool, q: spec_fn(SessionView) -> bool)
    requires
        forall|x: SessionView| #[trigger] q(x) ==> p(x),
    ensures
        s.filter(p).filter(q) == s.filter(q),
    decreases s.len(),
{
    reveal_with_fuel(Seq::filter, 2);
    if s.len() > 0 {
        lemma_filter_filter_implied(s.drop_last(), p, q);
        let d = s.drop_last();
        if p(s.last()) {
            assert(s.filter(p) == d.filter(p).push(s.last()));
            assert(s.filter(p).drop_last() == d.filter(p));
        } else {
            assert(s.filter(p) == d.filter(p));
        }
    }
}

/// Filtering with a predicate that every element satisfies changes nothing.
pub proof fn lemma_filter_all(s: Seq<SessionView>, p: spec_fn(SessionView) -> bool)
    requires
        forall|i: int| 0 <= i < s.len() ==> #[trigger] p(s[i]),
    ensures
        s.filter(p) == s,
    decreases s.len(),
{
    reveal_with_fuel(Seq::filter, 1);
    if s.len() > 0 {
        let d = s.drop_last();
        assert forall|i: int| 0 <= i < d.len() implies #[trigger] p(d[i]) by {
            assert(d[i] == s[i]);
        }
        lemma_filter_all(d, p);
        assert(p(s[s.len() - 1]));
        assert(s == d.push(s.last()));
    }
}

/// Filtering with a predicate that no element satisfies leaves nothing.
pub proof fn lemma_filter_none(s: Seq<SessionView>, p: spec_fn(SessionView) -> bool)
    requires
        forall|i: int| 0 <= i < s.len() ==> !#[trigger] p(s[i]),
    ensures
        s.filter(p) == Seq::<SessionView>::empty(),
{
    if s.filter(p).len() > 0 {
        lemma_filter_member(s, p, 0);
    }
}

pub(crate) proof fn lemma_reconcile_wf(v: DbView, stream: Seq<char>, mounts: Seq<MountPair>, ids: Seq<Seq<char>>, created_at: Seq<char>)
    requires
        v.wf(),
        ids.len() == missing_pairs(v, stream, mounts).len(),
        !reconcile_fk_fails(v, stream, mounts),
        !ids_clash(v, ids),
    ensures
        after_reconcile(v, stream, mounts, ids, created_at).wf(),
{
    let w = after_reconcile(v, stream, mounts, ids, created_at);
    let p = keep_session(stream, mounts);
    let kept = v.sessions.filter(p);
    let fresh = missing_pairs(v, stream, mounts);
    let added = new_sessions(fresh, ids, stream, created_at);
    lemma_filter_keys_unique(v.sessions, p, |x: SessionView| x.session_id);
    assert(w.sessions == kept + added);
    assert forall|i: int, j: int| 0 <= i < j < w.sessions.len() implies w.sessions[i].session_id != w.sessions[j].session_id by {
        if j < kept.len() {
        } else if i >= kept.len() {
            assert(w.sessions[i].session_id == ids[i - kept.len()]);
            assert(w.sessions[j].session_id == ids[j - kept.len()]);
        } else {
            lemma_filter_member(v.sessions, p, i);
            let m = choose|m: int| 0 <= m < v.sessions.len() && v.sessions[m] == kept[i];
            assert(w.sessions[j].session_id == ids[j - kept.len()]);
            if v.sessions[m].session_id == ids[j - kept.len()] {
                assert(has_session(v.sessions, ids[j - kept.len()]));
            }
        }
    }
    assert forall|i: int| 0 <= i < w.sessions.len() implies has_dir(w.dirs, #[trigger] w.sessions[i].dir_id) by {
        if i < kept.len() {
            lemma_filter_member(v.sessions, p, i);
        } else {
            assert(w.sessions[i].dir_id == fresh[i - kept.len()].0);
        }
    }
}

/// Errors of the store, each naming the rule that refused the operation.
#[derive(Debug)]
pub enum DbError {
    /// A file-backed store was asked of the in-memory opener.
    NotInMemory(String),
    /// Registering a filesystem failed: the name is taken.
    RegisterFsFailed,
    /// A filesystem still has active directories.
    ActiveDirs { name: String, count: u64 },
    /// No filesystem has the given name.
    FsNotFound(String),
    /// Inserting a directory failed: the identifier is taken.
    CreateDirFailed,
    /// Inserting a session failed: its directory is unknown or its identifier is taken.
    RegisterSessionFailed,
    /// A row would refer to a row that does not exist.
    ForeignKeyViolation,
    /// A row would repeat a primary key.
    UniqueViolation,
    /// The operating system's random source failed, or gave only
    /// identifiers already in use, so no fresh identifier could be drawn.
    RandomUnavailable,
}

impl DbError {
    /// What `message` renders.
    pub open spec fn spec_message(&self) -> Seq<char> {
        match self {
            DbError::NotInMemory(p) => "cannot open '"@ + p@ + "' in memory"@,
            DbError::RegisterFsFailed => "failed to register fs"@,
            DbError::ActiveDirs { name, count } =>
                "cannot unregister fs '"@ + name@ + "': "@ + spec_decimal(*count as nat) + " active dir(s) exist"@,
            DbError::FsNotFound(name) => "filesystem '"@ + name@ + "' not found"@,
            DbError::CreateDirFailed => "failed to create dir"@,
            DbError::RegisterSessionFailed => "failed to register session"@,
            DbError::ForeignKeyViolation => "FOREIGN KEY constraint failed"@,
            DbError::UniqueViolation => "UNIQUE constraint failed"@,
            DbError::RandomUnavailable => "random source unavailable"@,
        }
    }

    /// The human-readable rendering of the error.
    pub fn message(&self) -> (r: String)
        ensures
            r@ == self.spec_message(),
    {
        match self {
            DbError::NotInMemory(p) => concat3("cannot open '", p.as_str(), "' in memory"),
            DbError::RegisterFsFailed => String::from_str("failed to register fs"),
            DbError::ActiveDirs { name, count } => {
                let mut r = concat3("cannot unregister fs '", name.as_str(), "': ");
                let n = decimal(*count);
                r.append(n.as_str());
                r.append(" active dir(s) exist");
                r
            },
            DbError::FsNotFound(name) => concat3("filesystem '", name.as_str(), "' not found"),
            DbError::CreateDirFailed => String::from_str("failed to create dir"),
            DbError::RegisterSessionFailed => String::from_str("failed to register session"),
            DbError::ForeignKeyViolation => String::from_str("FOREIGN KEY constraint failed"),
            DbError::UniqueViolation => String::from_str("UNIQUE constraint failed"),
            DbError::RandomUnavailable => String::from_str("random source unavailable"),
        }
    }
}

/// The metadata store.
pub struct Database {
    filesystems: Vec<FsRecord>,
    dirs: Vec<DirRecord>,
    sessions: Vec<SessionRecord>,
}

impl View for Database {
    type V = DbView;

    closed spec fn view(&self) -> DbView {
        DbView {
            fs: fs_views(self.filesystems@),
            dirs: dir_views(self.dirs@),
            sessions: session_views(self.sessions@),
        }
    }
}

impl Database {
    /// The store is well formed.
    pub open spec fn wf(&self) -> bool {
        self@.wf()
    }

    /// An empty store.
    pub fn new() -> (r: Self)
        ensures
            r.wf(),
            r@ == DbView::empty(),
    {
        let r = Database { filesystems: Vec::new(), dirs: Vec::new(), sessions: Vec::new() };
        assert(r@.fs =~= Seq::empty());
        assert(r@.dirs =~= Seq::empty());
        assert(r@.sessions =~= Seq::empty());
        r
    }

    /// Opens the store at `path`. The in-memory store `:memory:` starts
    /// empty; a file-backed store is loaded by its owner and handed to
    /// `restore`.
    pub fn open(path: &str) -> (r: Result<Self, DbError>)
        ensures
            path@ == ":memory:"@ ==> (r matches Ok(db) && db.wf() && db@ == DbView::empty()),
            path@ != ":memory:"@ ==> (r matches Err(DbError::NotInMemory(p)) && p@ == path@),
    {
        if str_eq(path, ":memory:") {
            Ok(Database::new())
        } else {
            Err(DbError::NotInMemory(String::from_str(path)))
        }
    }

    /// The index of the filesystem named `name`.
    fn find_fs(&self, name: &str) -> (r: Option<usize>)
        ensures
            match r {
                Some(i) => i < self@.fs.len() && self@.fs[i as int].name == name@,
                None => !has_fs(self@.fs, name@),
            },
    {
        let mut i: usize = 0;
        while i < self.filesystems.len()
            invariant
                i <= self.filesystems.len(),
                self@.fs.len() == self.filesystems.len(),
                forall|k: int| 0 <= k < i ==> self@.fs[k].name != name@,
            decreases self.filesystems.len() - i,
        {
            if str_eq(self.filesystems[i].name.as_str(), name) {
                return Some(i);
            }
            i = i + 1;
        }
        None
    }

    /// The index of the directory with identifier `id`.
    fn find_dir(&self, id: &str) -> (r: Option<usize>)
        ensures
            match r {
                Some(i) => i < self@.dirs.len() && self@.dirs[i as int].id == id@,
                None => !has_dir(self@.dirs, id@),
            },
    {
        let mut i: usize = 0;
        while i < self.dirs.len()
            invariant
                i <= self.dirs.len(),
                self@.dirs.len() == self.dirs.len(),
                forall|k: int| 0 <= k < i ==> self@.dirs[k].id != id@,
            decreases self.dirs.len() - i,
        {
            if str_eq(self.dirs[i].id.as_str(), id) {
                return Some(i);
            }
            i = i + 1;
        }
        None
    }

    /// The index of the session with identifier `id`.
    fn find_session(&self, id: &str) -> (r: Option<usize>)
        ensures
            match r {
                Some(i) => i < self@.sessions.len() && self@.sessions[i as int].session_id == id@,
                None => !has_session(self@.sessions, id@),
            },
    {
        let mut i: usize = 0;
        while i < self.sessions.len()
            invariant
                i <= self.sessions.len(),
                self@.sessions.len() == self.sessions.len(),
                forall|k: int| 0 <= k < i ==> self@.sessions[k].session_id != id@,
            decreases self.sessions.len() - i,
        {
            if str_eq(self.sessions[i].session_id.as_str(), id) {
                return Some(i);
            }
            i = i + 1;
        }
        None
    }

    // --- Filesystem operations ---

    /// Registers a filesystem created at `created_at`; refused when the
    /// name is taken.
    pub fn register_fs_at(&mut self, name: &str, fs_type: &str, config: &str, created_at: String) -> (r: Result<(), DbError>)
        requires
            old(self).wf(),
        ensures
            final(self).wf(),
            r is Ok <==> !has_fs(old(self)@.fs, name@),
            r is Ok ==> final(self)@ == (DbView {
                fs: old(self)@.fs.push(FsView { name: name@, fs_type: fs_type@, config: config@, created_at: created_at@ }),
                ..old(self)@
            }),
            r is Err ==> r == Err::<(), DbError>(DbError::RegisterFsFailed) && final(self)@ == old(self)@,
    {
        if self.find_fs(name).is_some() {
            return Err(DbError::RegisterFsFailed);
        }
        let rec = FsRecord {
            name: String::from_str(name),
            fs_type: String::from_str(fs_type),
            config: String::from_str(config),
            created_at,
        };
        let ghost old_v = self@;
        self.filesystems.push(rec);
        proof {
            assert(self@.fs =~= old_v.fs.push(rec@));
            assert(self@.dirs =~= old_v.dirs);
            assert(self@.sessions =~= old_v.sessions);
            assert forall|i: int| 0 <= i < self@.dirs.len() implies has_fs(self@.fs, #[trigger] self@.dirs[i].fs_name) by {
                let j = choose|j: int| 0 <= j < old_v.fs.len() && #[trigger] old_v.fs[j].name == old_v.dirs[i].fs_name;
                assert(self@.fs[j] == old_v.fs[j]);
            }
        }
        Ok(())
    }

    /// Registers a filesystem, stamped with the current time; refused when
    /// the name is taken.
    pub fn register_fs(&mut self, name: &str, fs_type: &str, config: &str) -> (r: Result<(), DbError>)
        requires
            old(self).wf(),
        ensures
            final(self).wf(),
            r is Ok <==> !has_fs(old(self)@.fs, name@),
            r is Ok ==> final(self)@.dirs == old(self)@.dirs && final(self)@.sessions == old(self)@.sessions
                && final(self)@.fs.len() == old(self)@.fs.len() + 1
                && final(self)@.fs.drop_last() == old(self)@.fs
                && final(self)@.fs.last().name == name@
                && final(self)@.fs.last().fs_type == fs_type@
                && final(self)@.fs.last().config == config@
                && is_timestamp(final(self)@.fs.last().created_at),
            r is Err ==> r == Err::<(), DbError>(DbError::RegisterFsFailed) && final(self)@ == old(self)@,
    {
        let ts = current_timestamp();
        let ghost t = ts@;
        let r = self.register_fs_at(name, fs_type, config, ts);
        proof {
            if r is Ok {
                assert(final(self)@.fs.drop_last() =~= old(self)@.fs);
            }
        }
        r
    }


    /// Number of active directories on filesystem `name`.
    fn count_active_dirs(&self, name: &str) -> (r: u64)
        ensures
            r == active_dir_count(self@, name@),
    {
        let ghost p = dir_on_with_status(name@, active());
        let mut count: u64 = 0;
        let mut i: usize = 0;
        while i < self.dirs.len()
            invariant
                i <= self.dirs.len(),
                self@.dirs.len() == self.dirs.len(),
                count == self@.dirs.take(i as int).filter(p).len(),
                p == dir_on_with_status(name@, active()),
            decreases self.dirs.len() - i,
        {
            proof {
                lemma_filter_take_step(self@.dirs, p, i as int);
                self@.dirs.take(i as int).lemma_filter_len(p);
            }
            let d = &self.dirs[i];
            if str_eq(d.fs_name.as_str(), name) && str_eq(d.status.as_str(), "active") {
                count = count + 1;
            }
            i = i + 1;
        }
        proof {
            assert(self@.dirs.take(i as int) =~= self@.dirs);
        }
        count
    }

    /// Whether some session refers to a soft-deleted directory of `name`.
    fn sessions_block_purge(&self, name: &str) -> (r: bool)
        requires
            self.wf(),
        ensures
            r == fk_blocked(self@, name@),
    {
        let mut i: usize = 0;
        while i < self.sessions.len()
            invariant
                self.wf(),
                i <= self.sessions.len(),
                self@.sessions.len() == self.sessions.len(),
                self@.dirs.len() == self.dirs.len(),
                forall|i2: int, k: int| 0 <= i2 < i && 0 <= k < self@.dirs.len() && #[trigger] self@.dirs[k].id == #[trigger] self@.sessions[i2].dir_id
                    ==> !(self@.dirs[k].fs_name == name@ && self@.dirs[k].status == deleted()),
            decreases self.sessions.len() - i,
        {
            match self.find_dir(self.sessions[i].dir_id.as_str()) {
                Some(k) => {
                    let d = &self.dirs[k];
                    if str_eq(d.fs_name.as_str(), name) && str_eq(d.status.as_str(), "deleted") {
                        assert(self@.dirs[k as int].id == self@.sessions[i as int].dir_id);
                        return true;
                    }
                    proof {
                        assert forall|k2: int| 0 <= k2 < self@.dirs.len() && #[trigger] self@.dirs[k2].id == self@.sessions[i as int].dir_id
                            implies !(self@.dirs[k2].fs_name == name@ && self@.dirs[k2].status == deleted()) by {
                            if k2 != k {
                                if k2 < k {
                                    assert(self@.dirs[k2].id != self@.dirs[k as int].id);
                                } else {
                                    assert(self@.dirs[k as int].id != self@.dirs[k2].id);
                                }
                            }
                        }
                    }
                },
                None => {},
            }
            i = i + 1;
        }
        false
    }

    /// Sessions selected by `session_match(f, value, keep)`, in order.
    fn select_sessions(&self, f: SessionField, value: &str, keep: bool) -> (r: Vec<SessionRecord>)
        ensures
            session_views(r@) == self@.sessions.filter(session_match(f, value@, keep)),
    {
        let ghost p = session_match(f, value@, keep);
        let mut out: Vec<SessionRecord> = Vec::new();
        let mut i: usize = 0;
        while i < self.sessions.len()
            invariant
                i <= self.sessions.len(),
                self@.sessions.len() == self.sessions.len(),
                session_views(out@) == self@.sessions.take(i as int).filter(p),
                p == session_match(f, value@, keep),
            decreases self.sessions.len() - i,
        {
            proof {
                lemma_filter_take_step(self@.sessions, p, i as int);
            }
            let rec = &self.sessions[i];
            let field = match f {
                SessionField::Id => rec.session_id.as_str(),
                SessionField::Dir => rec.dir_id.as_str(),
                SessionField::Stream => rec.stream_id.as_str(),
            };
            if str_eq(field, value) == keep {
                let ghost prev = out@;
                out.push(rec.clone());
                proof {
                    assert(session_views(out@) =~= session_views(prev).push(self@.sessions[i as int]));
                }
            }
            i = i + 1;
        }
        proof {
            assert(self@.sessions.take(i as int) =~= self@.sessions);
        }
        out
    }

    /// Filesystems other than `name`, in order.
    fn fs_without(&self, name: &str) -> (r: Vec<FsRecord>)
        ensures
            fs_views(r@) == self@.fs.filter(fs_not_named(name@)),
    {
        let ghost p = fs_not_named(name@);
        let mut out: Vec<FsRecord> = Vec::new();
        let mut i: usize = 0;
        while i < self.filesystems.len()
            invariant
                i <= self.filesystems.len(),
                self@.fs.len() == self.filesystems.len(),
                fs_views(out@) == self@.fs.take(i as int).filter(p),
                p == fs_not_named(name@),
            decreases self.filesystems.len() - i,
        {
            proof {
                lemma_filter_take_step(self@.fs, p, i as int);
            }
            let rec = &self.filesystems[i];
            if !str_eq(rec.name.as_str(), name) {
                let ghost prev = out@;
                out.push(rec.clone());
                proof {
                    assert(fs_views(out@) =~= fs_views(prev).push(self@.fs[i as int]));
                }
            }
            i = i + 1;
        }
        proof {
            assert(self@.fs.take(i as int) =~= self@.fs);
        }
        out
    }

    /// Directories other than the soft-deleted ones of `name`, in order.
    fn dirs_without_deleted_on(&self, name: &str) -> (r: Vec<DirRecord>)
        ensures
            dir_views(r@) == self@.dirs.filter(dir_not_deleted_on(name@)),
    {
        let ghost p = dir_not_deleted_on(name@);
        let mut out: Vec<DirRecord> = Vec::new();
        let mut i: usize = 0;
        while i < self.dirs.len()
            invariant
                i <= self.dirs.len(),
                self@.dirs.len() == self.dirs.len(),
                dir_views(out@) == self@.dirs.take(i as int).filter(p),
                p == dir_not_deleted_on(name@),
            decreases self.dirs.len() - i,
        {
            proof {
                lemma_filter_take_step(self@.dirs, p, i as int);
            }
            let rec = &self.dirs[i];
            if !(str_eq(rec.fs_name.as_str(), name) && str_eq(rec.status.as_str(), "deleted")) {
                let ghost prev = out@;
                out.push(rec.clone());
                proof {
                    assert(dir_views(out@) =~= dir_views(prev).push(self@.dirs[i as int]));
                }
            }
            i = i + 1;
        }
        proof {
            assert(self@.dirs.take(i as int) =~= self@.dirs);
        }
        out
    }

    /// Active directories, of filesystem `name` when one is given, in order.
    fn dirs_listed(&self, filter: Option<&str>) -> (r: Vec<DirRecord>)
        ensures
            dir_views(r@) == self@.dirs.filter(dir_listed(match filter { Some(n) => Some(n@), None => None })),
    {
        let ghost f = match filter { Some(n) => Some(n@), None => None };
        let ghost p = dir_listed(f);
        let mut out: Vec<DirRecord> = Vec::new();
        let mut i: usize = 0;
        while i < self.dirs.len()
            invariant
                i <= self.dirs.len(),
                self@.dirs.len() == self.dirs.len(),
                dir_views(out@) == self@.dirs.take(i as int).filter(p),
                p == dir_listed(f),
                f == match filter { Some(n) => Some(n@), None => None::<Seq<char>> },
            decreases self.dirs.len() - i,
        {
            proof {
                lemma_filter_take_step(self@.dirs, p, i as int);
            }
            let rec = &self.dirs[i];
            let on_fs = match filter {
                Some(n) => str_eq(rec.fs_name.as_str(), n),
                None => true,
            };
            if str_eq(rec.status.as_str(), "active") && on_fs {
                let ghost prev = out@;
                out.push(rec.clone());
                proof {
                    assert(dir_views(out@) =~= dir_views(prev).push(self@.dirs[i as int]));
                }
            }
            i = i + 1;
        }
        proof {
            assert(self@.dirs.take(i as int) =~= self@.dirs);
        }
        out
    }

    /// Unregisters filesystem `name`. Refused while it has active
    /// directories; its soft-deleted directories are purged with it. Returns
    /// whether a filesystem of that name was registered.
    pub fn unregister_fs(&mut self, name: &str) -> (r: Result<bool, DbError>)
        requires
            old(self).wf(),
        ensures
            final(self).wf(),
            active_dir_count(old(self)@, name@) > 0 ==> final(self)@ == old(self)@ && (r matches Err(DbError::ActiveDirs { name: n, count: c })
                && n@ == name@ && c == active_dir_count(old(self)@, name@)),
            active_dir_count(old(self)@, name@) == 0 && fk_blocked(old(self)@, name@) ==> final(self)@ == old(self)@
                && r == Err::<bool, DbError>(DbError::ForeignKeyViolation),
            active_dir_count(old(self)@, name@) == 0 && !fk_blocked(old(self)@, name@) ==> final(self)@ == after_unregister(old(self)@, name@)
                && r == Ok::<bool, DbError>(has_fs(old(self)@.fs, name@)),
    {
        let count = self.count_active_dirs(name);
        if count > 0 {
            return Err(DbError::ActiveDirs { name: String::from_str(name), count });
        }
        if self.sessions_block_purge(name) {
            return Err(DbError::ForeignKeyViolation);
        }
        let existed = self.find_fs(name).is_some();
        let ghost v = self@;
        let dirs = self.dirs_without_deleted_on(name);
        let fss = self.fs_without(name);
        self.dirs = dirs;
        self.filesystems = fss;
        proof {
            assert(self@.sessions == v.sessions);
            assert(self@ == after_unregister(v, name@));
            lemma_unregister_wf(v, name@);
        }
        Ok(existed)
    }


    // --- Directory operations ---

    /// Inserts directory `id` with `access_key` on filesystem `fs_name`,
    /// created at `created_at`, active and read-write.
    pub fn create_dir_with(&mut self, fs_name: &str, id: String, access_key: String, created_at: String) -> (r: Result<DirRecord, DbError>)
        requires
            old(self).wf(),
        ensures
            final(self).wf(),
            !has_fs(old(self)@.fs, fs_name@) ==> final(self)@ == old(self)@ && (r matches Err(DbError::FsNotFound(n)) && n@ == fs_name@),
            has_fs(old(self)@.fs, fs_name@) && has_dir(old(self)@.dirs, id@) ==> final(self)@ == old(self)@
                && r matches Err(DbError::CreateDirFailed),
            has_fs(old(self)@.fs, fs_name@) && !has_dir(old(self)@.dirs, id@) ==> (r matches Ok(d)
                && d@ == (DirView { id: id@, access_key: access_key@, permission: read_write(), fs_name: fs_name@, created_at: created_at@, status: active() })
                && final(self)@ == (DbView { dirs: old(self)@.dirs.push(d@), ..old(self)@ })),
    {
        if self.find_fs(fs_name).is_none() {
            return Err(DbError::FsNotFound(String::from_str(fs_name)));
        }
        if self.find_dir(id.as_str()).is_some() {
            return Err(DbError::CreateDirFailed);
        }
        let rec = DirRecord {
            id,
            access_key,
            permission: String::from_str("READ_WRITE"),
            fs_name: String::from_str(fs_name),
            created_at,
            status: String::from_str("active"),
        };
        let out = rec.clone();
        let ghost v = self@;
        self.dirs.push(rec);
        proof {
            assert(self@.dirs =~= v.dirs.push(out@));
            assert(self@.fs =~= v.fs);
            assert(self@.sessions =~= v.sessions);
            assert forall|i: int| 0 <= i < self@.sessions.len() implies has_dir(self@.dirs, #[trigger] self@.sessions[i].dir_id) by {
                let k = choose|k: int| 0 <= k < v.dirs.len() && #[trigger] v.dirs[k].id == v.sessions[i].dir_id;
                assert(self@.dirs[k] == v.dirs[k]);
            }
        }
        Ok(out)
    }

    /// A random directory identifier that no directory holds. A drawn
    /// identifier that is already in use is drawn again, up to
    /// `ID_DRAWS` times; `None` when the random source fails or
    /// every draw was taken.
    fn draw_fresh_dir_id(&self) -> (r: Option<String>)
        ensures
            r matches Some(id) ==> is_hex_id(id@) && !has_dir(self@.dirs, id@),
    {
        let mut attempt: usize = 0;
        while attempt < ID_DRAWS
            decreases ID_DRAWS - attempt,
        {
            let id = match generate_hex_id() {
                Some(id) => id,
                None => return None,
            };
            if self.find_dir(id.as_str()).is_none() {
                return Some(id);
            }
            attempt = attempt + 1;
        }
        None
    }

    /// Creates a directory on filesystem `fs_name` with a fresh random
    /// identifier and access key, stamped with the current time.
    pub fn create_dir(&mut self, fs_name: &str) -> (r: Result<DirRecord, DbError>)
        requires
            old(self).wf(),
        ensures
            final(self).wf(),
            !has_fs(old(self)@.fs, fs_name@) <==> (r matches Err(DbError::FsNotFound(n)) && n@ == fs_name@),
            r is Err ==> final(self)@ == old(self)@,
            r is Err ==> (r matches Err(DbError::FsNotFound(_)) || r matches Err(DbError::RandomUnavailable)),
            r matches Err(DbError::FsNotFound(_)) ==> !has_fs(old(self)@.fs, fs_name@),
            has_fs(old(self)@.fs, fs_name@) ==> r is Ok || r matches Err(DbError::RandomUnavailable),
            r matches Ok(d) ==> !has_dir(old(self)@.dirs, d@.id),
            r matches Ok(d) ==> is_hex_id(d@.id) && is_hex_id(d@.access_key) && d@.permission == read_write()
                && d@.fs_name == fs_name@ && d@.status == active() && is_timestamp(d@.created_at)
                && final(self)@ == (DbView { dirs: old(self)@.dirs.push(d@), ..old(self)@ }),
    {
        if self.get_fs(fs_name)?.is_none() {
            return Err(DbError::FsNotFound(String::from_str(fs_name)));
        }
        let id = match self.draw_fresh_dir_id() {
            Some(v) => v,
            None => return Err(DbError::RandomUnavailable),
        };
        let access_key = match generate_hex_id() {
            Some(v) => v,
            None => return Err(DbError::RandomUnavailable),
        };
        let ts = current_timestamp();
        self.create_dir_with(fs_name, id, access_key, ts)
    }

    /// Soft-deletes directory `id` when `access_key` guards it and it is
    /// active. Returns whether it did.
    pub fn delete_dir(&mut self, id: &str, access_key: &str) -> (r: Result<bool, DbError>)
        requires
            old(self).wf(),
        ensures
            final(self).wf(),
            r == Ok::<bool, DbError>(token_valid(old(self)@, id@, access_key@)),
            !token_valid(old(self)@, id@, access_key@) ==> final(self)@ == old(self)@,
            token_valid(old(self)@, id@, access_key@) ==> exists|k: int|
                0 <= k < old(self)@.dirs.len() && #[trigger] old(self)@.dirs[k].id == id@
                && final(self)@ == (DbView {
                    dirs: old(self)@.dirs.update(k, DirView { status: deleted(), ..old(self)@.dirs[k] }),
                    ..old(self)@
                }),
    {
        match self.find_dir(id) {
            None => Ok(false),
            Some(k) => {
                let d = &self.dirs[k];
                if !(str_eq(d.access_key.as_str(), access_key) && str_eq(d.status.as_str(), "active")) {
                    proof {
                        assert forall|k2: int| 0 <= k2 < self@.dirs.len() && #[trigger] self@.dirs[k2].id == id@
                            implies !(self@.dirs[k2].access_key == access_key@ && self@.dirs[k2].status == active()) by {
                            if k2 < k {
                                assert(self@.dirs[k2].id != self@.dirs[k as int].id);
                            } else if k2 > k {
                                assert(self@.dirs[k as int].id != self@.dirs[k2].id);
                            }
                        }
                    }
                    return Ok(false);
                }
                let rec = DirRecord {
                    id: d.id.clone(),
                    access_key: d.access_key.clone(),
                    permission: d.permission.clone(),
                    fs_name: d.fs_name.clone(),
                    created_at: d.created_at.clone(),
                    status: String::from_str("deleted"),
                };
                let ghost v = self@;
                self.dirs.set(k, rec);
                proof {
                    assert(self@.dirs =~= v.dirs.update(k as int, DirView { status: deleted(), ..v.dirs[k as int] }));
                    assert(self@.fs =~= v.fs);
                    assert(self@.sessions =~= v.sessions);
                    assert forall|i: int| 0 <= i < self@.sessions.len() implies has_dir(self@.dirs, #[trigger] self@.sessions[i].dir_id) by {
                        let k2 = choose|k2: int| 0 <= k2 < v.dirs.len() && #[trigger] v.dirs[k2].id == v.sessions[i].dir_id;
                        assert(self@.dirs[k2].id == v.dirs[k2].id);
                    }
                    assert forall|i: int| 0 <= i < self@.dirs.len() implies has_fs(self@.fs, #[trigger] self@.dirs[i].fs_name) by {
                        assert(self@.dirs[i].fs_name == v.dirs[i].fs_name);
                    }
                    assert forall|i: int, j: int| 0 <= i < j < self@.dirs.len() implies self@.dirs[i].id != self@.dirs[j].id by {
                        assert(self@.dirs[i].id == v.dirs[i].id);
                        assert(self@.dirs[j].id == v.dirs[j].id);
                    }
                    assert(v.dirs[k as int].id == id@);
                }
                Ok(true)
            },
        }
    }

    /// The directory `id` with its filesystem, when `access_key` guards it
    /// and it is active.
    pub fn validate_token(&self, id: &str, access_key: &str) -> (r: Result<Option<(DirRecord, FsRecord)>, DbError>)
        requires
            self.wf(),
        ensures
            r matches Ok(o) && (o is Some <==> token_valid(self@, id@, access_key@)),
            r matches Ok(Some((d, f))) ==> d@.id == id@ && d@.access_key == access_key@ && d@.status == active()
                && (exists|k: int| 0 <= k < self@.dirs.len() && self@.dirs[k] == d@)
                && f@.name == d@.fs_name && (exists|j: int| 0 <= j < self@.fs.len() && self@.fs[j] == f@),
    {
        match self.find_dir(id) {
            None => Ok(None),
            Some(k) => {
                let d = &self.dirs[k];
                if !(str_eq(d.access_key.as_str(), access_key) && str_eq(d.status.as_str(), "active")) {
                    proof {
                        assert forall|k2: int| 0 <= k2 < self@.dirs.len() && #[trigger] self@.dirs[k2].id == id@
                            implies !(self@.dirs[k2].access_key == access_key@ && self@.dirs[k2].status == active()) by {
                            if k2 < k {
                                assert(self@.dirs[k2].id != self@.dirs[k as int].id);
                            } else if k2 > k {
                                assert(self@.dirs[k as int].id != self@.dirs[k2].id);
                            }
                        }
                    }
                    return Ok(None);
                }
                proof {
                    assert(has_fs(self@.fs, self@.dirs[k as int].fs_name));
                }
                match self.find_fs(d.fs_name.as_str()) {
                    Some(j) => {
                        let dir = d.clone();
                        let fs = self.filesystems[j].clone();
                        Ok(Some((dir, fs)))
                    },
                    None => {
                        assert(false);
                        Ok(None)
                    },
                }
            },
        }
    }

    /// Active directories, of filesystem `fs_name` when a non-empty name is
    /// given, in creation order.
    pub fn list_dirs(&self, fs_name: Option<&str>) -> (r: Result<Vec<DirRecord>, DbError>)
        ensures
            r matches Ok(v) && dir_views(v@) == self@.dirs.filter(dir_listed(listing_filter(match fs_name {
                Some(n) => Some(n@),
                None => None,
            }))),
    {
        let filter = match fs_name {
            Some(n) => if n.unicode_len() > 0 { Some(n) } else { None },
            None => None,
        };
        Ok(self.dirs_listed(filter))
    }

    // --- Session operations ---

    /// Inserts session `session_id` of stream `stream_id` for directory
    /// `dir_id` at `mountpoint`, created at `created_at`. Refused when the
    /// directory is unknown or the identifier is taken.
    pub fn register_session_with(
        &mut self,
        dir_id: &str,
        stream_id: &str,
        mountpoint: &str,
        session_id: String,
        created_at: String,
    ) -> (r: Result<SessionRecord, DbError>)
        requires
            old(self).wf(),
        ensures
            final(self).wf(),
            r is Ok <==> has_dir(old(self)@.dirs, dir_id@) && !has_session(old(self)@.sessions, session_id@),
            r is Err ==> final(self)@ == old(self)@ && r matches Err(DbError::RegisterSessionFailed),
            r matches Ok(s) ==> s@ == (SessionView { session_id: session_id@, dir_id: dir_id@, stream_id: stream_id@, mountpoint: mountpoint@, created_at: created_at@ })
                && final(self)@ == (DbView { sessions: old(self)@.sessions.push(s@), ..old(self)@ }),
    {
        if self.find_dir(dir_id).is_none() || self.find_session(session_id.as_str()).is_some() {
            return Err(DbError::RegisterSessionFailed);
        }
        let rec = SessionRecord {
            session_id,
            dir_id: String::from_str(dir_id),
            stream_id: String::from_str(stream_id),
            mountpoint: String::from_str(mountpoint),
            created_at,
        };
        let out = rec.clone();
        let ghost v = self@;
        self.sessions.push(rec);
        proof {
            assert(self@.sessions =~= v.sessions.push(out@));
            assert(self@.fs =~= v.fs);
            assert(self@.dirs =~= v.dirs);
        }
        Ok(out)
    }

    /// Registers a mount session with a fresh random identifier, stamped with
    /// the current time.
    pub fn register_session(&mut self, dir_id: &str, stream_id: &str, mountpoint: &str) -> (r: Result<SessionRecord, DbError>)
        requires
            old(self).wf(),
        ensures
            final(self).wf(),
            !has_dir(old(self)@.dirs, dir_id@) ==> r matches Err(DbError::RegisterSessionFailed),
            r is Err ==> final(self)@ == old(self)@
                && (r matches Err(DbError::RegisterSessionFailed) || r matches Err(DbError::RandomUnavailable)),
            r matches Err(DbError::RegisterSessionFailed) ==> !has_dir(old(self)@.dirs, dir_id@),
            has_dir(old(self)@.dirs, dir_id@) ==> r is Ok || r matches Err(DbError::RandomUnavailable),
            r matches Ok(s) ==> !has_session(old(self)@.sessions, s@.session_id),
            r matches Ok(s) ==> is_hex_id(s@.session_id) && s@.dir_id == dir_id@ && s@.stream_id == stream_id@
                && s@.mountpoint == mountpoint@ && is_timestamp(s@.created_at)
                && final(self)@ == (DbView { sessions: old(self)@.sessions.push(s@), ..old(self)@ }),
    {
        if self.find_dir(dir_id).is_none() {
            return Err(DbError::RegisterSessionFailed);
        }
        let none_taken: Vec<String> = Vec::new();
        let session_id = match self.draw_fresh_session_id(&none_taken) {
            Some(v) => v,
            None => return Err(DbError::RandomUnavailable),
        };
        let ts = current_timestamp();
        self.register_session_with(dir_id, stream_id, mountpoint, session_id, ts)
    }

    /// Removes session `session_id`. Returns whether it existed.
    pub fn deregister_session(&mut self, session_id: &str) -> (r: Result<bool, DbError>)
        requires
            old(self).wf(),
        ensures
            final(self).wf(),
            r == Ok::<bool, DbError>(has_session(old(self)@.sessions, session_id@)),
            final(self)@ == (DbView { sessions: old(self)@.sessions.filter(session_not_id(session_id@)), ..old(self)@ }),
    {
        let existed = self.find_session(session_id).is_some();
        let ghost v = self@;
        let kept = self.select_sessions(SessionField::Id, session_id, false);
        self.sessions = kept;
        proof {
            assert(session_match(SessionField::Id, session_id@, false) == session_not_id(session_id@));
            lemma_sessions_filtered_wf(v, session_not_id(session_id@));
        }
        Ok(existed)
    }

    /// Sessions of directory `dir_id`, in registration order.
    pub fn get_sessions_for_dir(&self, dir_id: &str) -> (r: Result<Vec<SessionRecord>, DbError>)
        ensures
            r matches Ok(v) && session_views(v@) == self@.sessions.filter(session_of_dir(dir_id@)),
    {
        let v = self.select_sessions(SessionField::Dir, dir_id, true);
        proof {
            assert(session_match(SessionField::Dir, dir_id@, true) == session_of_dir(dir_id@));
        }
        Ok(v)
    }

    /// Sessions of stream `stream_id`, in registration order.
    pub fn get_sessions_by_stream(&self, stream_id: &str) -> (r: Result<Vec<SessionRecord>, DbError>)
        ensures
            r matches Ok(v) && session_views(v@) == self@.sessions.filter(session_of_stream(stream_id@)),
    {
        let v = self.select_sessions(SessionField::Stream, stream_id, true);
        proof {
            assert(session_match(SessionField::Stream, stream_id@, true) == session_of_stream(stream_id@));
        }
        Ok(v)
    }

    /// Removes every session of directory `dir_id`. Returns how many there were.
    pub fn delete_sessions_for_dir(&mut self, dir_id: &str) -> (r: Result<usize, DbError>)
        requires
            old(self).wf(),
        ensures
            final(self).wf(),
            r matches Ok(n) && n == old(self)@.sessions.filter(session_of_dir(dir_id@)).len(),
            final(self)@ == (DbView { sessions: old(self)@.sessions.filter(session_not_of_dir(dir_id@)), ..old(self)@ }),
    {
        let ghost v = self@;
        let kept = self.select_sessions(SessionField::Dir, dir_id, false);
        proof {
            assert(session_match(SessionField::Dir, dir_id@, false) == session_not_of_dir(dir_id@));
            lemma_filter_split_len(v.sessions, session_of_dir(dir_id@), session_not_of_dir(dir_id@));
            v.sessions.lemma_filter_len(session_not_of_dir(dir_id@));
        }
        let removed = self.sessions.len() - kept.len();
        self.sessions = kept;
        proof {
            lemma_sessions_filtered_wf(v, session_not_of_dir(dir_id@));
        }
        Ok(removed)
    }

    /// Removes every session of stream `stream_id`. Returns how many there were.
    pub fn delete_sessions_by_stream(&mut self, stream_id: &str) -> (r: Result<usize, DbError>)
        requires
            old(self).wf(),
        ensures
            final(self).wf(),
            r matches Ok(n) && n == old(self)@.sessions.filter(session_of_stream(stream_id@)).len(),
            final(self)@ == (DbView { sessions: old(self)@.sessions.filter(session_not_of_stream(stream_id@)), ..old(self)@ }),
    {
        let ghost v = self@;
        let kept = self.select_sessions(SessionField::Stream, stream_id, false);
        proof {
            assert(session_match(SessionField::Stream, stream_id@, false) == session_not_of_stream(stream_id@));
            lemma_filter_split_len(v.sessions, session_of_stream(stream_id@), session_not_of_stream(stream_id@));
            v.sessions.lemma_filter_len(session_not_of_stream(stream_id@));
        }
        let removed = self.sessions.len() - kept.len();
        self.sessions = kept;
        proof {
            lemma_sessions_filtered_wf(v, session_not_of_stream(stream_id@));
        }
        Ok(removed)
    }


    /// Whether the heartbeat reports directory `d` mounted at `m`.
    fn mounts_contain(mounts: &[(&str, &str)], d: &str, m: &str) -> (r: bool)
        ensures
            r == mount_views(mounts@).contains((d@, m@)),
    {
        let ghost mv = mount_views(mounts@);
        let mut i: usize = 0;
        while i < mounts.len()
            invariant
                i <= mounts@.len(),
                mv == mount_views(mounts@),
                forall|k: int| 0 <= k < i ==> mv[k] != (d@, m@),
            decreases mounts.len() - i,
        {
            let (a, b) = mounts[i];
            if str_eq(a, d) && str_eq(b, m) {
                assert(mv[i as int] == (d@, m@));
                return true;
            }
            i = i + 1;
        }
        false
    }

    /// Whether `pairs` holds directory `d` mounted at `m`.
    fn pairs_contain(pairs: &Vec<(String, String)>, d: &str, m: &str) -> (r: bool)
        ensures
            r == pair_views(pairs@).contains((d@, m@)),
    {
        let ghost pv = pair_views(pairs@);
        let mut i: usize = 0;
        while i < pairs.len()
            invariant
                i <= pairs@.len(),
                pv == pair_views(pairs@),
                forall|k: int| 0 <= k < i ==> pv[k] != (d@, m@),
            decreases pairs.len() - i,
        {
            if str_eq(pairs[i].0.as_str(), d) && str_eq(pairs[i].1.as_str(), m) {
                assert(pv[i as int] == (d@, m@));
                return true;
            }
            i = i + 1;
        }
        false
    }

    /// The mounts that a heartbeat of stream `stream_id` reports and the
    /// store does not hold yet, each once, in order of first report.
    pub fn missing_mounts(&self, stream_id: &str, mounts: &[(&str, &str)]) -> (r: Vec<(String, String)>)
        ensures
            pair_views(r@) == missing_pairs(self@, stream_id@, mount_views(mounts@)),
    {
        let existing = self.select_sessions(SessionField::Stream, stream_id, true);
        proof {
            assert(session_match(SessionField::Stream, stream_id@, true) == session_of_stream(stream_id@));
        }
        let mut present: Vec<(String, String)> = Vec::new();
        let mut i: usize = 0;
        while i < existing.len()
            invariant
                i <= existing.len(),
                session_views(existing@) == self@.sessions.filter(session_of_stream(stream_id@)),
                present@.len() == i,
                forall|k: int| 0 <= k < i ==> #[trigger] pair_views(present@)[k] == session_pair(session_views(existing@)[k]),
            decreases existing.len() - i,
        {
            let ghost prev = present@;
            present.push((existing[i].dir_id.clone(), existing[i].mountpoint.clone()));
            proof {
                assert forall|k: int| 0 <= k < i + 1 implies #[trigger] pair_views(present@)[k] == session_pair(session_views(existing@)[k]) by {
                    assert(pair_views(present@)[k] == (present@[k].0@, present@[k].1@));
                    if k < i {
                        assert(present@[k] == prev[k]);
                        assert(pair_views(prev)[k] == (prev[k].0@, prev[k].1@));
                    } else {
                        assert(present@[k].0@ == existing@[k].dir_id@);
                        assert(present@[k].1@ == existing@[k].mountpoint@);
                        assert(session_views(existing@)[k] == existing@[k]@);
                    }
                }
            }
            i = i + 1;
        }
        let ghost pres = stream_pairs(self@.sessions, stream_id@);
        proof {
            assert(pair_views(present@) =~= pres);
        }
        let ghost mv = mount_views(mounts@);
        let mut fresh: Vec<(String, String)> = Vec::new();
        let mut j: usize = 0;
        while j < mounts.len()
            invariant
                j <= mounts@.len(),
                mv == mount_views(mounts@),
                pair_views(present@) == pres,
                pair_views(fresh@) == fresh_pairs(mv.take(j as int), pres),
            decreases mounts.len() - j,
        {
            let (d, m) = mounts[j];
            proof {
                assert(mv.take(j + 1).drop_last() =~= mv.take(j as int));
                assert(mv.take(j + 1).last() == (d@, m@));
            }
            if !Self::pairs_contain(&present, d, m) && !Self::pairs_contain(&fresh, d, m) {
                let ghost prev = fresh@;
                fresh.push((String::from_str(d), String::from_str(m)));
                proof {
                    assert(pair_views(fresh@) =~= pair_views(prev).push((d@, m@)));
                }
            }
            j = j + 1;
        }
        proof {
            assert(mv.take(j as int) =~= mv);
        }
        fresh
    }

    /// Every mount that a heartbeat of stream `stream_id` would add names a
    /// known directory.
    fn missing_mount_dirs_known(&self, stream_id: &str, mounts: &[(&str, &str)]) -> (r: bool)
        requires
            self.wf(),
        ensures
            r == !reconcile_fk_fails(self@, stream_id@, mount_views(mounts@)),
    {
        let ghost v = self@;
        let ghost mv = mount_views(mounts@);
        let fresh = self.missing_mounts(stream_id, mounts);
        let ghost fv = pair_views(fresh@);
        let mut k: usize = 0;
        while k < fresh.len()
            invariant
                k <= fresh@.len(),
                self@ == v,
                fv == pair_views(fresh@),
                fv == missing_pairs(v, stream_id@, mv),
                mv == mount_views(mounts@),
                v.wf(),
                forall|k2: int| 0 <= k2 < k ==> has_dir(v.dirs, #[trigger] fv[k2].0),
            decreases fresh.len() - k,
        {
            if self.find_dir(fresh[k].0.as_str()).is_none() {
                proof {
                    assert(!has_dir(v.dirs, missing_pairs(v, stream_id@, mv)[k as int].0));
                }
                return false;
            }
            k = k + 1;
        }
        proof {
            assert forall|k2: int| 0 <= k2 < missing_pairs(v, stream_id@, mv).len()
                implies has_dir(v.dirs, #[trigger] missing_pairs(v, stream_id@, mv)[k2].0) by {
                assert(has_dir(v.dirs, fv[k2].0));
            }
        }
        true
    }

    /// Applies a heartbeat of stream `stream_id` reporting `mounts`: stale
    /// sessions of the stream are removed and each missing mount gets a
    /// session with the next of `ids`, created at `created_at`. Refused
    /// without change when a missing mount names an unknown directory or
    /// the identifiers clash.
    pub fn reconcile_with(&mut self, stream_id: &str, mounts: &[(&str, &str)], ids: Vec<String>, created_at: String) -> (r: Result<(), DbError>)
        requires
            old(self).wf(),
            ids@.len() == missing_pairs(old(self)@, stream_id@, mount_views(mounts@)).len(),
        ensures
            final(self).wf(),
            reconcile_fk_fails(old(self)@, stream_id@, mount_views(mounts@)) ==> final(self)@ == old(self)@
                && r == Err::<(), DbError>(DbError::ForeignKeyViolation),
            !reconcile_fk_fails(old(self)@, stream_id@, mount_views(mounts@)) && ids_clash(old(self)@, string_views(ids@))
                ==> final(self)@ == old(self)@ && r == Err::<(), DbError>(DbError::UniqueViolation),
            !reconcile_fk_fails(old(self)@, stream_id@, mount_views(mounts@)) && !ids_clash(old(self)@, string_views(ids@))
                ==> r is Ok && final(self)@ == after_reconcile(old(self)@, stream_id@, mount_views(mounts@), string_views(ids@), created_at@),
    {
        let ghost v = self@;
        let ghost mv = mount_views(mounts@);
        if !self.missing_mount_dirs_known(stream_id, mounts) {
            return Err(DbError::ForeignKeyViolation);
        }
        let fresh = self.missing_mounts(stream_id, mounts);
        let ghost fv = pair_views(fresh@);
        let ghost iv = string_views(ids@);
        let mut a: usize = 0;
        while a < ids.len()
            invariant
                a <= ids@.len(),
                self@ == v,
                v == old(self)@,
                mv == mount_views(mounts@),
                v.wf(),
                !reconcile_fk_fails(v, stream_id@, mv),
                iv == string_views(ids@),
                forall|k2: int| 0 <= k2 < a ==> !has_session(v.sessions, #[trigger] iv[k2]),
                forall|j2: int, k2: int| 0 <= j2 < k2 < a ==> #[trigger] iv[j2] != #[trigger] iv[k2],
            decreases ids.len() - a,
        {
            if self.find_session(ids[a].as_str()).is_some() {
                assert(has_session(v.sessions, iv[a as int]));
                return Err(DbError::UniqueViolation);
            }
            let mut b: usize = 0;
            while b < a
                invariant
                    b <= a,
                    a < ids@.len(),
                    self@ == v,
                    v == old(self)@,
                    mv == mount_views(mounts@),
                    v.wf(),
                    !reconcile_fk_fails(v, stream_id@, mv),
                    iv == string_views(ids@),
                    forall|j2: int| 0 <= j2 < b ==> #[trigger] iv[j2] != iv[a as int],
                decreases a - b,
            {
                if ids[b] == ids[a] {
                    assert(iv[b as int] == iv[a as int]);
                    return Err(DbError::UniqueViolation);
                }
                b = b + 1;
            }
            a = a + 1;
        }
        let ghost p = keep_session(stream_id@, mv);
        let mut kept: Vec<SessionRecord> = Vec::new();
        let mut i: usize = 0;
        while i < self.sessions.len()
            invariant
                i <= self.sessions.len(),
                self@ == v,
                self@.sessions.len() == self.sessions.len(),
                p == keep_session(stream_id@, mv),
                mv == mount_views(mounts@),
                session_views(kept@) == v.sessions.take(i as int).filter(p),
            decreases self.sessions.len() - i,
        {
            proof {
                lemma_filter_take_step(v.sessions, p, i as int);
            }
            let rec = &self.sessions[i];
            let keep = !str_eq(rec.stream_id.as_str(), stream_id)
                || Self::mounts_contain(mounts, rec.dir_id.as_str(), rec.mountpoint.as_str());
            if keep {
                let ghost prev = kept@;
                kept.push(rec.clone());
                proof {
                    assert(session_views(kept@) =~= session_views(prev).push(v.sessions[i as int]));
                }
            }
            i = i + 1;
        }
        proof {
            assert(v.sessions.take(i as int) =~= v.sessions);
        }
        let ghost base = session_views(kept@);
        let ghost added = new_sessions(fv, iv, stream_id@, created_at@);
        let mut c: usize = 0;
        while c < fresh.len()
            invariant
                c <= fresh@.len(),
                fresh@.len() == ids@.len(),
                fv == pair_views(fresh@),
                iv == string_views(ids@),
                added == new_sessions(fv, iv, stream_id@, created_at@),
                session_views(kept@) == base + added.take(c as int),
            decreases fresh.len() - c,
        {
            let rec = SessionRecord {
                session_id: ids[c].clone(),
                dir_id: fresh[c].0.clone(),
                stream_id: String::from_str(stream_id),
                mountpoint: fresh[c].1.clone(),
                created_at: created_at.clone(),
            };
            let ghost prev = kept@;
            kept.push(rec);
            proof {
                assert(added.take(c + 1) =~= added.take(c as int).push(added[c as int]));
                assert(session_views(kept@) =~= session_views(prev).push(added[c as int]));
            }
            c = c + 1;
        }
        proof {
            assert(added.take(c as int) =~= added);
        }
        self.sessions = kept;
        proof {
            assert(self@.sessions == v.sessions.filter(p) + added);
            assert(self@ == after_reconcile(v, stream_id@, mv, iv, created_at@));
            lemma_reconcile_wf(v, stream_id@, mv, iv, created_at@);
        }
        Ok(())
    }

    /// A random session identifier that no session holds and that `taken`
    /// does not list. A drawn identifier that is already in use is drawn
    /// again, up to `ID_DRAWS` times; `None` when the random source
    /// fails or every draw was taken.
    fn draw_fresh_session_id(&self, taken: &Vec<String>) -> (r: Option<String>)
        ensures
            r matches Some(id) ==> is_hex_id(id@) && !has_session(self@.sessions, id@)
                && !string_views(taken@).contains(id@),
    {
        let mut attempt: usize = 0;
        while attempt < ID_DRAWS
            decreases ID_DRAWS - attempt,
        {
            let id = match generate_hex_id() {
                Some(id) => id,
                None => return None,
            };
            if self.find_session(id.as_str()).is_none() {
                let mut b: usize = 0;
                let mut clash = false;
                while b < taken.len()
                    invariant
                        b <= taken@.len(),
                        !clash ==> forall|j: int| 0 <= j < b ==> #[trigger] string_views(taken@)[j] != id@,
                    decreases taken.len() - b,
                {
                    if taken[b] == id {
                        clash = true;
                    }
                    b = b + 1;
                }
                if !clash {
                    proof {
                        if string_views(taken@).contains(id@) {
                            let j = choose|j: int| 0 <= j < string_views(taken@).len() && string_views(taken@)[j] == id@;
                            assert(string_views(taken@)[j] != id@);
                        }
                    }
                    return Some(id);
                }
            }
            attempt = attempt + 1;
        }
        None
    }

    /// Reconciles the sessions of stream `stream_id` with a heartbeat that
    /// reports `mounts` as `(dir_id, mountpoint)` pairs: missing mounts are
    /// registered with fresh random identifiers and the current time, and
    /// sessions whose mount is no longer reported are removed. The new
    /// identifiers are pairwise distinct and held by no other session, so
    /// the heartbeat is applied unless a missing mount names an unknown
    /// directory or no fresh identifier could be drawn. The update is all
    /// or nothing: either failure is found before any row changes, and then
    /// nothing changes, none of the new sessions either.
    pub fn reconcile_sessions_from_heartbeat(&mut self, stream_id: &str, mounts: &[(&str, &str)]) -> (r: Result<(), DbError>)
        requires
            old(self).wf(),
        ensures
            final(self).wf(),
            reconcile_fk_fails(old(self)@, stream_id@, mount_views(mounts@)) ==> r == Err::<(), DbError>(DbError::ForeignKeyViolation),
            r == Err::<(), DbError>(DbError::ForeignKeyViolation) ==> reconcile_fk_fails(old(self)@, stream_id@, mount_views(mounts@)),
            !reconcile_fk_fails(old(self)@, stream_id@, mount_views(mounts@))
                && missing_pairs(old(self)@, stream_id@, mount_views(mounts@)).len() == 0
                ==> r is Ok && final(self)@ == after_reconcile(old(self)@, stream_id@, mount_views(mounts@), Seq::empty(), Seq::empty()),
            r is Err ==> final(self)@ == old(self)@
                && (r == Err::<(), DbError>(DbError::ForeignKeyViolation) || r == Err::<(), DbError>(DbError::RandomUnavailable)),
            !reconcile_fk_fails(old(self)@, stream_id@, mount_views(mounts@))
                ==> r is Ok || r == Err::<(), DbError>(DbError::RandomUnavailable),
            r == Err::<(), DbError>(DbError::RandomUnavailable) ==> missing_pairs(old(self)@, stream_id@, mount_views(mounts@)).len() > 0,
            r is Ok ==> exists|ids: Seq<Seq<char>>, ts: Seq<char>|
                ids.len() == missing_pairs(old(self)@, stream_id@, mount_views(mounts@)).len()
                && (forall|k: int| 0 <= k < ids.len() ==> is_hex_id(#[trigger] ids[k]))
                && !ids_clash(old(self)@, ids)
                && is_timestamp(ts)
                && final(self)@ == after_reconcile(old(self)@, stream_id@, mount_views(mounts@), ids, ts),
    {
        if !self.missing_mount_dirs_known(stream_id, mounts) {
            return Err(DbError::ForeignKeyViolation);
        }
        let n = self.missing_mounts(stream_id, mounts).len();
        let mut ids: Vec<String> = Vec::new();
        while ids.len() < n
            invariant
                ids@.len() <= n,
                self@ == old(self)@,
                self.wf(),
                !reconcile_fk_fails(old(self)@, stream_id@, mount_views(mounts@)),
                n == missing_pairs(old(self)@, stream_id@, mount_views(mounts@)).len(),
                forall|k: int| 0 <= k < ids@.len() ==> is_hex_id(#[trigger] string_views(ids@)[k])
                    && !has_session(old(self)@.sessions, string_views(ids@)[k]),
                forall|j: int, k: int| 0 <= j < k < ids@.len() ==> #[trigger] string_views(ids@)[j] != #[trigger] string_views(ids@)[k],
            decreases n - ids@.len(),
        {
            let ghost prev = ids@;
            let id = match self.draw_fresh_session_id(&ids) {
                Some(id) => id,
                None => return Err(DbError::RandomUnavailable),
            };
            let ghost idv = id@;
            ids.push(id);
            proof {
                assert(string_views(ids@) =~= string_views(prev).push(idv));
                assert forall|k: int| 0 <= k < ids@.len() implies is_hex_id(#[trigger] string_views(ids@)[k])
                    && !has_session(old(self)@.sessions, string_views(ids@)[k]) by {
                    if k < prev.len() {
                        assert(string_views(ids@)[k] == string_views(prev)[k]);
                    }
                }
                assert forall|j: int, k: int| 0 <= j < k < ids@.len() implies
                    #[trigger] string_views(ids@)[j] != #[trigger] string_views(ids@)[k] by {
                    assert(string_views(ids@)[j] == string_views(prev)[j]);
                    if k < prev.len() {
                        assert(string_views(ids@)[k] == string_views(prev)[k]);
                    } else {
                        assert(string_views(prev).contains(string_views(prev)[j]));
                    }
                }
            }
        }
        let ts = current_timestamp();
        let ghost iv = string_views(ids@);
        let ghost t = ts@;
        let r = self.reconcile_with(stream_id, mounts, ids, ts);
        proof {
            assert(iv.len() == missing_pairs(old(self)@, stream_id@, mount_views(mounts@)).len());
            assert(!ids_clash(old(self)@, iv));
            if n == 0 {
                assert(iv =~= Seq::<Seq<char>>::empty());
                assert(!ids_clash(old(self)@, iv));
                let e = after_reconcile(old(self)@, stream_id@, mount_views(mounts@), Seq::empty(), Seq::empty());
                assert(final(self)@.sessions =~= e.sessions);
            }
        }
        r
    }

    /// All registered filesystems, in registration order.
    pub fn list_fs(&self) -> (r: Result<Vec<FsRecord>, DbError>)
        ensures
            r matches Ok(v) && fs_views(v@) == self@.fs,
    {
        let mut out: Vec<FsRecord> = Vec::new();
        let mut i: usize = 0;
        while i < self.filesystems.len()
            invariant
                i <= self.filesystems.len(),
                self@.fs.len() == self.filesystems.len(),
                out@.len() == i,
                fs_views(out@) == self@.fs.take(i as int),
            decreases self.filesystems.len() - i,
        {
            let rec = self.filesystems[i].clone();
            let ghost prev = out@;
            out.push(rec);
            proof {
                assert forall|k: int| 0 <= k < i + 1 implies #[trigger] fs_views(out@)[k] == self@.fs.take(i + 1)[k] by {
                    if k < i {
                        assert(out@[k] == prev[k]);
                        assert(fs_views(prev)[k] == self@.fs.take(i as int)[k]);
                    }
                }
                assert(fs_views(out@) =~= self@.fs.take(i + 1));
            }
            i = i + 1;
        }
        proof {
            assert(self@.fs.take(i as int) =~= self@.fs);
        }
        Ok(out)
    }

    /// The filesystem named `name`, if registered.
    pub fn get_fs(&self, name: &str) -> (r: Result<Option<FsRecord>, DbError>)
        requires
            self.wf(),
        ensures
            r matches Ok(o) && match o {
                Some(f) => has_fs(self@.fs, name@) && f@.name == name@
                    && exists|i: int| 0 <= i < self@.fs.len() && self@.fs[i] == f@,
                None => !has_fs(self@.fs, name@),
            },
    {
        match self.find_fs(name) {
            Some(i) => Ok(Some(self.filesystems[i].clone())),
            None => Ok(None),
        }
    }

    // --- Persistence ---

    /// The three tables, for a caller that keeps the store on disk.
    pub fn records(&self) -> (r: (&Vec<FsRecord>, &Vec<DirRecord>, &Vec<SessionRecord>))
        ensures
            fs_views(r.0@) == self@.fs,
            dir_views(r.1@) == self@.dirs,
            session_views(r.2@) == self@.sessions,
    {
        (&self.filesystems, &self.dirs, &self.sessions)
    }

    /// No two filesystems share a name.
    fn fs_names_distinct(&self) -> (r: bool)
        ensures
            r == (forall|i: int, j: int| 0 <= i < j < self@.fs.len() ==> self@.fs[i].name != self@.fs[j].name),
    {
        let n = self.filesystems.len();
        let mut i: usize = 0;
        while i < n
            invariant
                i <= n,
                n == self@.fs.len(),
                forall|a: int, b: int| 0 <= a < b < n && a < i ==> self@.fs[a].name != self@.fs[b].name,
            decreases n - i,
        {
            let mut j: usize = i + 1;
            while j < n
                invariant
                    i < n,
                    i + 1 <= j <= n,
                    n == self@.fs.len(),
                    forall|b: int| i < b < j ==> self@.fs[i as int].name != self@.fs[b].name,
                decreases n - j,
            {
                if str_eq(self.filesystems[i].name.as_str(), self.filesystems[j].name.as_str()) {
                    assert(self@.fs[i as int] == self.filesystems@[i as int]@);
                    assert(self@.fs[j as int] == self.filesystems@[j as int]@);
                    return false;
                }
                j = j + 1;
            }
            i = i + 1;
        }
        true
    }

    /// No two directories share an identifier.
    fn dir_ids_distinct(&self) -> (r: bool)
        ensures
            r == (forall|i: int, j: int| 0 <= i < j < self@.dirs.len() ==> self@.dirs[i].id != self@.dirs[j].id),
    {
        let n = self.dirs.len();
        let mut i: usize = 0;
        while i < n
            invariant
                i <= n,
                n == self@.dirs.len(),
                forall|a: int, b: int| 0 <= a < b < n && a < i ==> self@.dirs[a].id != self@.dirs[b].id,
            decreases n - i,
        {
            let mut j: usize = i + 1;
            while j < n
                invariant
                    i < n,
                    i + 1 <= j <= n,
                    n == self@.dirs.len(),
                    forall|b: int| i < b < j ==> self@.dirs[i as int].id != self@.dirs[b].id,
                decreases n - j,
            {
                if str_eq(self.dirs[i].id.as_str(), self.dirs[j].id.as_str()) {
                    assert(self@.dirs[i as int] == self.dirs@[i as int]@);
                    assert(self@.dirs[j as int] == self.dirs@[j as int]@);
                    return false;
                }
                j = j + 1;
            }
            i = i + 1;
        }
        true
    }

    /// No two sessions share an identifier.
    fn session_ids_distinct(&self) -> (r: bool)
        ensures
            r == (forall|i: int, j: int| 0 <= i < j < self@.sessions.len() ==> self@.sessions[i].session_id != self@.sessions[j].session_id),
    {
        let n = self.sessions.len();
        let mut i: usize = 0;
        while i < n
            invariant
                i <= n,
                n == self@.sessions.len(),
                forall|a: int, b: int| 0 <= a < b < n && a < i ==> self@.sessions[a].session_id != self@.sessions[b].session_id,
            decreases n - i,
        {
            let mut j: usize = i + 1;
            while j < n
                invariant
                    i < n,
                    i + 1 <= j <= n,
                    n == self@.sessions.len(),
                    forall|b: int| i < b < j ==> self@.sessions[i as int].session_id != self@.sessions[b].session_id,
                decreases n - j,
            {
                if str_eq(self.sessions[i].session_id.as_str(), self.sessions[j].session_id.as_str()) {
                    assert(self@.sessions[i as int] == self.sessions@[i as int]@);
                    assert(self@.sessions[j as int] == self.sessions@[j as int]@);
                    return false;
                }
                j = j + 1;
            }
            i = i + 1;
        }
        true
    }

    /// Every directory names a registered filesystem and is active or deleted.
    fn dirs_resolve(&self) -> (r: bool)
        ensures
            r == ((forall|i: int| 0 <= i < self@.dirs.len() ==> has_fs(self@.fs, #[trigger] self@.dirs[i].fs_name))
                && (forall|i: int| 0 <= i < self@.dirs.len() ==> #[trigger] self@.dirs[i].status == active() || self@.dirs[i].status == deleted())),
    {
        let n = self.dirs.len();
        let mut i: usize = 0;
        while i < n
            invariant
                i <= n,
                n == self@.dirs.len(),
                forall|k: int| 0 <= k < i ==> has_fs(self@.fs, #[trigger] self@.dirs[k].fs_name),
                forall|k: int| 0 <= k < i ==> #[trigger] self@.dirs[k].status == active() || self@.dirs[k].status == deleted(),
            decreases n - i,
        {
            proof {
                reveal_strlit("active");
                reveal_strlit("deleted");
            }
            assert(self@.dirs[i as int] == self.dirs@[i as int]@);
            if self.find_fs(self.dirs[i].fs_name.as_str()).is_none() {
                assert(!has_fs(self@.fs, self@.dirs[i as int].fs_name));
                return false;
            }
            let st = self.dirs[i].status.as_str();
            if !str_eq(st, "active") && !str_eq(st, "deleted") {
                assert(!(self@.dirs[i as int].status == active() || self@.dirs[i as int].status == deleted()));
                return false;
            }
            i = i + 1;
        }
        true
    }

    /// Every session names a known directory.
    fn sessions_resolve(&self) -> (r: bool)
        ensures
            r == (forall|i: int| 0 <= i < self@.sessions.len() ==> has_dir(self@.dirs, #[trigger] self@.sessions[i].dir_id)),
    {
        let n = self.sessions.len();
        let mut i: usize = 0;
        while i < n
            invariant
                i <= n,
                n == self@.sessions.len(),
                forall|k: int| 0 <= k < i ==> has_dir(self@.dirs, #[trigger] self@.sessions[k].dir_id),
            decreases n - i,
        {
            assert(self@.sessions[i as int] == self.sessions@[i as int]@);
            if self.find_dir(self.sessions[i].dir_id.as_str()).is_none() {
                assert(!has_dir(self@.dirs, self@.sessions[i as int].dir_id));
                return false;
            }
            i = i + 1;
        }
        true
    }

    /// A store holding the given tables, when they are well formed: keys
    /// unique, references resolved, statuses known.
    pub fn restore(filesystems: Vec<FsRecord>, dirs: Vec<DirRecord>, sessions: Vec<SessionRecord>) -> (r: Option<Self>)
        ensures
            ({
                let v = DbView { fs: fs_views(filesystems@), dirs: dir_views(dirs@), sessions: session_views(sessions@) };
                match r {
                    Some(db) => v.wf() && db@ == v,
                    None => !v.wf(),
                }
            }),
    {
        let ghost v = DbView { fs: fs_views(filesystems@), dirs: dir_views(dirs@), sessions: session_views(sessions@) };
        let db = Database { filesystems, dirs, sessions };
        assert(db@ == v);
        if db.fs_names_distinct() && db.dir_ids_distinct() && db.session_ids_distinct()
            && db.dirs_resolve() && db.sessions_resolve() {
            Some(db)
        } else {
            None
        }
    }
}

} // verus!
