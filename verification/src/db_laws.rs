//! Laws of the metadata store: what each operation guarantees about the
//! others, stated over the views that the operations' contracts use.
use vstd::prelude::*;
use crate::db::{
    after_reconcile, after_unregister, deleted, active, dir_listed, fs_not_named, has_fs, has_session,
    ids_clash, keep_session, reconcile_fk_fails, lemma_reconcile_wf, lemma_filter_filter_implied, lemma_filter_all, lemma_filter_keeps, lemma_filter_member,
    lemma_filter_none, lemma_fresh_pairs, missing_pairs, new_sessions, session_not_id, session_not_of_stream,
    session_of_stream, session_pair, stream_pairs, token_valid, DbView, DirView, FsView, MountPair, SessionView,
};

verus! {

broadcast use vstd::seq_lib::group_filter_ensures;

/// The state `create_dir_with` leaves after inserting directory `d`.
pub open spec fn with_dir(v: DbView, d: DirView) -> DbView {
    DbView { dirs: v.dirs.push(d), ..v }
}

/// The state `delete_dir` leaves after soft-deleting the directory at `k`.
pub open spec fn with_dir_deleted(v: DbView, k: int) -> DbView {
    DbView { dirs: v.dirs.update(k, DirView { status: deleted(), ..v.dirs[k] }), ..v }
}

/// A filesystem just registered is found by its name, and so are the ones
/// registered before it.
pub proof fn law_registered_fs_found(fs: Seq<FsView>, f: FsView, other: Seq<char>)
    ensures
        has_fs(fs.push(f), f.name),
        has_fs(fs, other) ==> has_fs(fs.push(f), other),
{
    assert(fs.push(f)[fs.len() as int] == f);
    if has_fs(fs, other) {
        let i = choose|i: int| 0 <= i < fs.len() && #[trigger] fs[i].name == other;
        assert(fs.push(f)[i] == fs[i]);
    }
}

/// A directory just created is reachable with its identifier and access key.
pub proof fn law_created_dir_token_valid(v: DbView, d: DirView)
    requires
        d.status == active(),
    ensures
        token_valid(with_dir(v, d), d.id, d.access_key),
{
    let w = with_dir(v, d);
    assert(w.dirs[v.dirs.len() as int] == d);
}

/// Only the access key of a directory opens it: in a well-formed store a
/// valid token for `id` is unique.
pub proof fn law_token_key_unique(v: DbView, id: Seq<char>, key: Seq<char>, other: Seq<char>)
    requires
        v.wf(),
        token_valid(v, id, key),
        other != key,
    ensures
        !token_valid(v, id, other),
{
    let k = choose|k: int| 0 <= k < v.dirs.len() && #[trigger] v.dirs[k].id == id && v.dirs[k].access_key == key
        && v.dirs[k].status == active();
    if token_valid(v, id, other) {
        let j = choose|j: int| 0 <= j < v.dirs.len() && #[trigger] v.dirs[j].id == id && v.dirs[j].access_key == other
            && v.dirs[j].status == active();
        assert(j != k);
        if j < k {
            assert(v.dirs[j].id != v.dirs[k].id);
        } else {
            assert(v.dirs[k].id != v.dirs[j].id);
        }
    }
}

/// A soft-deleted directory no longer opens, whatever key is presented.
pub proof fn law_deleted_dir_token_invalid(v: DbView, k: int, key: Seq<char>)
    requires
        v.wf(),
        0 <= k < v.dirs.len(),
    ensures
        !token_valid(with_dir_deleted(v, k), v.dirs[k].id, key),
{
    let w = with_dir_deleted(v, k);
    let id = v.dirs[k].id;
    assert(deleted() != active()) by {
        reveal_strlit("deleted");
        reveal_strlit("active");
        assert(deleted().len() != active().len());
    }
    if token_valid(w, id, key) {
        let j = choose|j: int| 0 <= j < w.dirs.len() && #[trigger] w.dirs[j].id == id && w.dirs[j].access_key == key
            && w.dirs[j].status == active();
        if j != k {
            assert(w.dirs[j] == v.dirs[j]);
            if j < k {
                assert(v.dirs[j].id != v.dirs[k].id);
            } else {
                assert(v.dirs[k].id != v.dirs[j].id);
            }
        }
    }
}

/// A soft-deleted directory is not listed.
pub proof fn law_deleted_dir_not_listed(v: DbView, k: int, filter: Option<Seq<char>>)
    requires
        v.wf(),
        0 <= k < v.dirs.len(),
    ensures
        forall|i: int| 0 <= i < with_dir_deleted(v, k).dirs.filter(dir_listed(filter)).len()
            ==> (#[trigger] with_dir_deleted(v, k).dirs.filter(dir_listed(filter))[i]).id != v.dirs[k].id,
{
    let w = with_dir_deleted(v, k);
    let p = dir_listed(filter);
    assert(deleted() != active()) by {
        reveal_strlit("deleted");
        reveal_strlit("active");
        assert(deleted().len() != active().len());
    }
    assert forall|i: int| 0 <= i < w.dirs.filter(p).len() implies (#[trigger] w.dirs.filter(p)[i]).id != v.dirs[k].id by {
        lemma_filter_member(w.dirs, p, i);
        let m = choose|m: int| 0 <= m < w.dirs.len() && w.dirs[m] == w.dirs.filter(p)[i];
        if m != k {
            assert(w.dirs[m] == v.dirs[m]);
            if m < k {
                assert(v.dirs[m].id != v.dirs[k].id);
            } else {
                assert(v.dirs[k].id != v.dirs[m].id);
            }
        }
    }
}

/// After unregistering, no filesystem of that name remains.
pub proof fn law_unregistered_fs_absent(v: DbView, name: Seq<char>)
    ensures
        !has_fs(after_unregister(v, name).fs, name),
{
    let w = after_unregister(v, name);
    if has_fs(w.fs, name) {
        let i = choose|i: int| 0 <= i < w.fs.len() && #[trigger] w.fs[i].name == name;
        lemma_filter_member(v.fs, fs_not_named(name), i);
    }
}

/// After deleting the sessions of a stream, none of them remains.
pub proof fn law_stream_sessions_deleted(sessions: Seq<SessionView>, stream: Seq<char>)
    ensures
        sessions.filter(session_not_of_stream(stream)).filter(session_of_stream(stream)) == Seq::<SessionView>::empty(),
{
    let kept = sessions.filter(session_not_of_stream(stream));
    assert forall|i: int| 0 <= i < kept.len() implies !#[trigger] session_of_stream(stream)(kept[i]) by {
        lemma_filter_member(sessions, session_not_of_stream(stream), i);
    }
    lemma_filter_none(kept, session_of_stream(stream));
}

/// After deregistering a session, no session with its identifier remains.
pub proof fn law_deregistered_session_absent(sessions: Seq<SessionView>, id: Seq<char>)
    ensures
        !has_session(sessions.filter(session_not_id(id)), id),
{
    let kept = sessions.filter(session_not_id(id));
    if has_session(kept, id) {
        let i = choose|i: int| 0 <= i < kept.len() && #[trigger] kept[i].session_id == id;
        lemma_filter_member(sessions, session_not_id(id), i);
    }
}

/// The stream holds a session for `pair`.
pub open spec fn stream_has_pair(sessions: Seq<SessionView>, stream: Seq<char>, pair: MountPair) -> bool {
    exists|i: int| 0 <= i < sessions.len() && #[trigger] sessions[i].stream_id == stream && session_pair(sessions[i]) == pair
}

proof fn lemma_stream_pairs_contains(sessions: Seq<SessionView>, stream: Seq<char>, pair: MountPair)
    ensures
        stream_pairs(sessions, stream).contains(pair) <==> stream_has_pair(sessions, stream, pair),
{
    let f = sessions.filter(session_of_stream(stream));
    let sp = stream_pairs(sessions, stream);
    if sp.contains(pair) {
        let k = choose|k: int| 0 <= k < sp.len() && sp[k] == pair;
        lemma_filter_member(sessions, session_of_stream(stream), k);
        let i = choose|i: int| 0 <= i < sessions.len() && sessions[i] == f[k];
        assert(sessions[i].stream_id == stream && session_pair(sessions[i]) == pair);
    }
    if stream_has_pair(sessions, stream, pair) {
        let i = choose|i: int| 0 <= i < sessions.len() && #[trigger] sessions[i].stream_id == stream && session_pair(sessions[i]) == pair;
        lemma_filter_keeps(sessions, session_of_stream(stream), i);
        let k = choose|k: int| 0 <= k < f.len() && f[k] == sessions[i];
        assert(sp[k] == pair);
    }
}

/// After a heartbeat, the stream's sessions cover exactly the reported
/// mounts: a mount pair has a session of the stream if and only if the
/// heartbeat reported it.
pub proof fn law_reconcile_matches_heartbeat(
    v: DbView,
    stream: Seq<char>,
    mounts: Seq<MountPair>,
    ids: Seq<Seq<char>>,
    created_at: Seq<char>,
    pair: MountPair,
)
    requires
        ids.len() == missing_pairs(v, stream, mounts).len(),
    ensures
        stream_has_pair(after_reconcile(v, stream, mounts, ids, created_at).sessions, stream, pair) <==> mounts.contains(pair),
{
    let w = after_reconcile(v, stream, mounts, ids, created_at);
    let p = keep_session(stream, mounts);
    let kept = v.sessions.filter(p);
    let present = stream_pairs(v.sessions, stream);
    let fresh = missing_pairs(v, stream, mounts);
    lemma_fresh_pairs(mounts, present);
    if stream_has_pair(w.sessions, stream, pair) {
        let i = choose|i: int| 0 <= i < w.sessions.len() && #[trigger] w.sessions[i].stream_id == stream && session_pair(w.sessions[i]) == pair;
        if i < kept.len() {
            assert(w.sessions[i] == kept[i]);
            lemma_filter_member(v.sessions, p, i);
        } else {
            assert(session_pair(w.sessions[i]) == fresh[i - kept.len()]);
        }
    }
    if mounts.contains(pair) {
        lemma_stream_pairs_contains(v.sessions, stream, pair);
        if present.contains(pair) {
            let i = choose|i: int| 0 <= i < v.sessions.len() && #[trigger] v.sessions[i].stream_id == stream && session_pair(v.sessions[i]) == pair;
            lemma_filter_keeps(v.sessions, p, i);
            let k = choose|k: int| 0 <= k < kept.len() && kept[k] == v.sessions[i];
            assert(w.sessions[k] == kept[k]);
        } else {
            assert(fresh.contains(pair));
            let k = choose|k: int| 0 <= k < fresh.len() && fresh[k] == pair;
            assert(w.sessions[kept.len() + k].stream_id == stream);
            assert(session_pair(w.sessions[kept.len() + k]) == pair);
        }
    }
}

/// The stream holds a session with identifier `id` for `pair`.
pub open spec fn stream_session_is(sessions: Seq<SessionView>, stream: Seq<char>, id: Seq<char>, pair: MountPair) -> bool {
    exists|i: int| 0 <= i < sessions.len() && #[trigger] sessions[i].session_id == id
        && sessions[i].stream_id == stream && session_pair(sessions[i]) == pair
}

/// A heartbeat whose missing mounts all name known directories, applied
/// with identifiers that repeat neither one another nor a session's, keeps a
/// well-formed store well formed, and each missing mount gets a session of
/// the stream under its own identifier.
pub proof fn law_heartbeat_fresh_ids_apply(
    v: DbView,
    stream: Seq<char>,
    mounts: Seq<MountPair>,
    ids: Seq<Seq<char>>,
    created_at: Seq<char>,
)
    requires
        v.wf(),
        !reconcile_fk_fails(v, stream, mounts),
        ids.len() == missing_pairs(v, stream, mounts).len(),
        !ids_clash(v, ids),
    ensures
        after_reconcile(v, stream, mounts, ids, created_at).wf(),
        forall|k: int| 0 <= k < ids.len() ==> stream_session_is(
            after_reconcile(v, stream, mounts, ids, created_at).sessions, stream, #[trigger] ids[k],
            missing_pairs(v, stream, mounts)[k]),
{
    lemma_reconcile_wf(v, stream, mounts, ids, created_at);
    let w = after_reconcile(v, stream, mounts, ids, created_at);
    let kept = v.sessions.filter(keep_session(stream, mounts));
    assert forall|k: int| 0 <= k < ids.len() implies stream_session_is(w.sessions, stream, #[trigger] ids[k],
        missing_pairs(v, stream, mounts)[k]) by {
        let i = kept.len() + k;
        assert(w.sessions[i].session_id == ids[k]);
        assert(w.sessions[i].stream_id == stream);
        assert(session_pair(w.sessions[i]) == missing_pairs(v, stream, mounts)[k]);
    }
}

/// A heartbeat leaves the sessions of every other stream as they were.
pub proof fn law_reconcile_other_streams_unchanged(
    v: DbView,
    stream: Seq<char>,
    mounts: Seq<MountPair>,
    ids: Seq<Seq<char>>,
    created_at: Seq<char>,
)
    requires
        ids.len() == missing_pairs(v, stream, mounts).len(),
    ensures
        after_reconcile(v, stream, mounts, ids, created_at).sessions.filter(session_not_of_stream(stream))
            == v.sessions.filter(session_not_of_stream(stream)),
{
    let p = keep_session(stream, mounts);
    let q = session_not_of_stream(stream);
    let kept = v.sessions.filter(p);
    let added = new_sessions(missing_pairs(v, stream, mounts), ids, stream, created_at);
    Seq::filter_distributes_over_add(kept, added, q);
    assert forall|i: int| 0 <= i < added.len() implies !#[trigger] q(added[i]) by {}
    lemma_filter_none(added, q);
    assert forall|x: SessionView| #[trigger] q(x) implies p(x) by {}
    lemma_filter_filter_implied(v.sessions, p, q);
    assert(kept.filter(q) + Seq::<SessionView>::empty() == kept.filter(q));
}

/// Repeating a heartbeat changes nothing: the second reconciliation finds
/// no missing mount and no stale session.
pub proof fn law_reconcile_idempotent(
    v: DbView,
    stream: Seq<char>,
    mounts: Seq<MountPair>,
    ids: Seq<Seq<char>>,
    created_at: Seq<char>,
    ids2: Seq<Seq<char>>,
    created_at2: Seq<char>,
)
    requires
        ids.len() == missing_pairs(v, stream, mounts).len(),
    ensures
        missing_pairs(after_reconcile(v, stream, mounts, ids, created_at), stream, mounts).len() == 0,
        after_reconcile(after_reconcile(v, stream, mounts, ids, created_at), stream, mounts, ids2, created_at2)
            == after_reconcile(v, stream, mounts, ids, created_at),
{
    let w = after_reconcile(v, stream, mounts, ids, created_at);
    let present2 = stream_pairs(w.sessions, stream);
    assert forall|pair: MountPair| mounts.contains(pair) implies present2.contains(pair) by {
        law_reconcile_matches_heartbeat(v, stream, mounts, ids, created_at, pair);
        lemma_stream_pairs_contains(w.sessions, stream, pair);
    }
    lemma_fresh_pairs(mounts, present2);
    let fresh2 = missing_pairs(w, stream, mounts);
    if fresh2.len() > 0 {
        assert(mounts.contains(fresh2[0]));
        assert(present2.contains(fresh2[0]));
    }
    assert(fresh2 == Seq::<MountPair>::empty());
    let p = keep_session(stream, mounts);
    assert forall|i: int| 0 <= i < w.sessions.len() implies #[trigger] p(w.sessions[i]) by {
        if w.sessions[i].stream_id == stream {
            law_reconcile_matches_heartbeat(v, stream, mounts, ids, created_at, session_pair(w.sessions[i]));
        }
    }
    lemma_filter_all(w.sessions, p);
    let w2 = after_reconcile(w, stream, mounts, ids2, created_at2);
    assert(new_sessions(fresh2, ids2, stream, created_at2) =~= Seq::<SessionView>::empty());
    assert(w2.sessions =~= w.sessions);
}

/// A heartbeat repeated after one that was applied is applied again and
/// changes nothing: nothing is missing, so no foreign key can fail and no
/// identifier is drawn (`reconcile_sessions_from_heartbeat` then promises
/// `Ok` and the state below), and that state is the one already there.
pub proof fn law_repeated_heartbeat_applies(
    v: DbView,
    stream: Seq<char>,
    mounts: Seq<MountPair>,
    ids: Seq<Seq<char>>,
    created_at: Seq<char>,
)
    requires
        ids.len() == missing_pairs(v, stream, mounts).len(),
    ensures
        ({
            let w = after_reconcile(v, stream, mounts, ids, created_at);
            &&& missing_pairs(w, stream, mounts).len() == 0
            &&& !reconcile_fk_fails(w, stream, mounts)
            &&& after_reconcile(w, stream, mounts, Seq::empty(), Seq::empty()) == w
        }),
{
    law_reconcile_idempotent(v, stream, mounts, ids, created_at, Seq::empty(), Seq::empty());
}

} // verus!
