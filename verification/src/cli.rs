//! The command-line client's own decisions: the command tree, the
//! configuration a new filesystem is registered with, and the tables it
//! prints.
use vstd::prelude::*;
use vstd::string::*;
use crate::fsconfig::{keys_distinct, spec_config_get};
use crate::text::{concat3, decimal, pair_views, spec_decimal, string_views};

verus! {

/// The command line: where the controller and the FUSE server are, and the command.
pub struct Cli {
    pub controller: String,
    pub fuse_server: String,
    pub command: Commands,
}

/// The command groups.
pub enum Commands {
    /// Manage filesystem instances.
    Fs { command: FsCommands },
    /// Manage shared directories.
    Dir { command: DirCommands },
}

/// Filesystem commands.
pub enum FsCommands {
    /// Register a new filesystem.
    Add {
        name: String,
        fs_type: String,
        base_path: Option<String>,
        nfs_server: Option<String>,
        nfs_path: Option<String>,
        mount_path: Option<String>,
    },
    /// Unregister a filesystem.
    Remove { name: String },
    /// List registered filesystems.
    List,
}

/// Directory commands.
pub enum DirCommands {
    /// Create a new shared directory.
    Create { fs: String },
    /// Delete a shared directory.
    Delete { id: String, key: String },
    /// Mount a shared directory.
    Mount { id: String, key: String, mountpoint: String, readonly: bool },
    /// Unmount a shared directory.
    Unmount { mountpoint: String },
    /// Force-unmount every session of a shared directory.
    Revoke { id: String, key: String },
    /// List shared directories.
    List { fs: Option<String> },
}

/// The view of an optional string.
pub open spec fn opt_view(o: Option<&str>) -> Option<Seq<char>> {
    match o {
        Some(s) => Some(s@),
        None => None,
    }
}

/// The configuration `afs fs add` registers, or the message it fails with.
pub open spec fn spec_fs_add_config(
    fs_type: Seq<char>,
    base_path: Option<Seq<char>>,
    nfs_server: Option<Seq<char>>,
    nfs_path: Option<Seq<char>>,
    mount_path: Option<Seq<char>>,
) -> Result<Seq<(Seq<char>, Seq<char>)>, Seq<char>> {
    if fs_type == "local"@ {
        match base_path {
            Some(p) => Ok(seq![("base_path"@, p)]),
            None => Err("--base-path is required for local filesystem"@),
        }
    } else if fs_type == "nfs"@ {
        match mount_path {
            Some(mp) => Ok(
                (match nfs_server { Some(s) => seq![("nfs_server"@, s)], None => Seq::empty() })
                + (match nfs_path { Some(p) => seq![("nfs_path"@, p)], None => Seq::empty() })
                + seq![("mount_path"@, mp)]),
            None => Err("--mount-path is required for NFS filesystem"@),
        }
    } else {
        Err("unsupported filesystem type: "@ + fs_type + ". Use 'local' or 'nfs'"@)
    }
}

/// An NFS filesystem with a mount path is always accepted, and its
/// configuration holds, under its own key, each of the NFS server, the NFS
/// export path and the mount path that was given, whichever of the others
/// were given too, and nothing else. A local filesystem with a base path is
/// accepted with that base path alone.
pub proof fn law_fs_add_config_keeps_given_values(
    base_path: Option<Seq<char>>,
    nfs_server: Option<Seq<char>>,
    nfs_path: Option<Seq<char>>,
    mount_path: Seq<char>,
)
    ensures
        spec_fs_add_config("nfs"@, base_path, nfs_server, nfs_path, Some(mount_path)) is Ok,
        ({
            let c = spec_fs_add_config("nfs"@, base_path, nfs_server, nfs_path, Some(mount_path))->Ok_0;
            &&& spec_config_get(c, "nfs_server"@) == nfs_server
            &&& spec_config_get(c, "nfs_path"@) == nfs_path
            &&& spec_config_get(c, "mount_path"@) == Some(mount_path)
            &&& spec_config_get(c, "base_path"@) is None
            &&& c.len() == 1 + (if nfs_server is Some { 1int } else { 0 }) + (if nfs_path is Some { 1int } else { 0 })
        }),
        forall|p: Seq<char>| #![auto]
            spec_fs_add_config("local"@, Some(p), nfs_server, nfs_path, Some(mount_path)) is Ok
            && spec_config_get(spec_fs_add_config("local"@, Some(p), nfs_server, nfs_path, Some(mount_path))->Ok_0, "base_path"@) == Some(p)
            && spec_fs_add_config("local"@, Some(p), nfs_server, nfs_path, Some(mount_path))->Ok_0.len() == 1,
{
    reveal_strlit("local");
    reveal_strlit("nfs");
    reveal_strlit("base_path");
    reveal_strlit("nfs_server");
    reveal_strlit("nfs_path");
    reveal_strlit("mount_path");
    reveal_with_fuel(spec_config_get, 4);
    assert("local"@ != "nfs"@) by { assert("local"@.len() != "nfs"@.len()); }
    assert("nfs_server"@ != "nfs_path"@) by { assert("nfs_server"@.len() != "nfs_path"@.len()); }
    assert("nfs_server"@ != "mount_path"@) by { assert("nfs_server"@[0] != "mount_path"@[0]); }
    assert("nfs_path"@ != "mount_path"@) by { assert("nfs_path"@[0] != "mount_path"@[0]); }
    assert("base_path"@ != "nfs_server"@) by { assert("base_path"@[0] != "nfs_server"@[0]); }
    assert("base_path"@ != "nfs_path"@) by { assert("base_path"@[0] != "nfs_path"@[0]); }
    assert("base_path"@ != "mount_path"@) by { assert("base_path"@[0] != "mount_path"@[0]); }
    let c = spec_fs_add_config("nfs"@, base_path, nfs_server, nfs_path, Some(mount_path))->Ok_0;
    let tail = seq![("mount_path"@, mount_path)];
    match nfs_server {
        Some(sv) => match nfs_path {
            Some(pv) => {
                assert(c =~= seq![("nfs_server"@, sv), ("nfs_path"@, pv), ("mount_path"@, mount_path)]);
                assert(c.drop_first() =~= seq![("nfs_path"@, pv), ("mount_path"@, mount_path)]);
                assert(c.drop_first().drop_first() =~= tail);
                assert(tail.drop_first() =~= Seq::<(Seq<char>, Seq<char>)>::empty());
            },
            None => {
                assert(c =~= seq![("nfs_server"@, sv), ("mount_path"@, mount_path)]);
                assert(c.drop_first() =~= tail);
                assert(tail.drop_first() =~= Seq::<(Seq<char>, Seq<char>)>::empty());
            },
        },
        None => match nfs_path {
            Some(pv) => {
                assert(c =~= seq![("nfs_path"@, pv), ("mount_path"@, mount_path)]);
                assert(c.drop_first() =~= tail);
                assert(tail.drop_first() =~= Seq::<(Seq<char>, Seq<char>)>::empty());
            },
            None => {
                assert(c =~= tail);
                assert(tail.drop_first() =~= Seq::<(Seq<char>, Seq<char>)>::empty());
            },
        },
    }
    assert forall|p: Seq<char>| #![auto]
        spec_fs_add_config("local"@, Some(p), nfs_server, nfs_path, Some(mount_path)) is Ok
        && spec_config_get(spec_fs_add_config("local"@, Some(p), nfs_server, nfs_path, Some(mount_path))->Ok_0, "base_path"@) == Some(p)
        && spec_fs_add_config("local"@, Some(p), nfs_server, nfs_path, Some(mount_path))->Ok_0.len() == 1 by {
        let l = spec_fs_add_config("local"@, Some(p), nfs_server, nfs_path, Some(mount_path))->Ok_0;
        assert(l =~= seq![("base_path"@, p)]);
    }
}

/// The configuration `afs fs add` registers for a filesystem of type
/// `fs_type`, or the message it fails with.
pub fn fs_add_config(
    fs_type: &str,
    base_path: Option<&str>,
    nfs_server: Option<&str>,
    nfs_path: Option<&str>,
    mount_path: Option<&str>,
) -> (r: Result<Vec<(String, String)>, String>)
    ensures
        match (r, spec_fs_add_config(fs_type@, opt_view(base_path), opt_view(nfs_server), opt_view(nfs_path), opt_view(mount_path))) {
            (Ok(c), Ok(s)) => pair_views(c@) == s && keys_distinct(s),
            (Err(m), Err(s)) => m@ == s,
            _ => false,
        },
{
    proof {
        reveal_strlit("local");
        reveal_strlit("nfs");
        reveal_strlit("base_path");
        reveal_strlit("nfs_server");
        reveal_strlit("nfs_path");
        reveal_strlit("mount_path");
    }
    let mut config: Vec<(String, String)> = Vec::new();
    if crate::text::str_eq(fs_type, "local") {
        match base_path {
            Some(p) => {
                config.push((String::from_str("base_path"), String::from_str(p)));
                assert(pair_views(config@) =~= seq![("base_path"@, p@)]);
                Ok(config)
            },
            None => Err(String::from_str("--base-path is required for local filesystem")),
        }
    } else if crate::text::str_eq(fs_type, "nfs") {
        match mount_path {
            Some(mp) => {
                if let Some(s) = nfs_server {
                    config.push((String::from_str("nfs_server"), String::from_str(s)));
                }
                if let Some(p) = nfs_path {
                    config.push((String::from_str("nfs_path"), String::from_str(p)));
                }
                config.push((String::from_str("mount_path"), String::from_str(mp)));
                let ghost expected = (match opt_view(nfs_server) { Some(s) => seq![("nfs_server"@, s)], None => Seq::empty() })
                    + (match opt_view(nfs_path) { Some(p) => seq![("nfs_path"@, p)], None => Seq::empty() })
                    + seq![("mount_path"@, mp@)];
                assert(pair_views(config@) =~= expected);
                assert("nfs_server"@.len() != "nfs_path"@.len());
                assert("nfs_server"@[0] != "mount_path"@[0]);
                assert("nfs_path"@.len() != "mount_path"@.len());
                Ok(config)
            },
            None => Err(String::from_str("--mount-path is required for NFS filesystem")),
        }
    } else {
        Err(concat3("unsupported filesystem type: ", fs_type, ". Use 'local' or 'nfs'"))
    }
}

/// How a wire permission is shown: `read-only` for 0, `read-write` otherwise.
pub fn permission_str(p: i32) -> (r: &'static str)
    ensures
        r@ == (if p == 0 { "read-only"@ } else { "read-write"@ }),
{
    if p == 0 { "read-only" } else { "read-write" }
}

/// `s` padded with spaces on the right to at least `width` characters.
pub open spec fn spec_pad_right(s: Seq<char>, width: nat) -> Seq<char> {
    if s.len() >= width { s } else { s + Seq::new((width - s.len()) as nat, |i: int| ' ') }
}

/// Padding keeps the text as its prefix, fills the rest with spaces, and
/// makes it exactly as long as the longer of the text and the width.
pub proof fn law_pad_right_shape(s: Seq<char>, width: nat)
    ensures
        spec_pad_right(s, width).len() == if s.len() < width { width } else { s.len() },
        spec_pad_right(s, width).subrange(0, s.len() as int) == s,
        forall|i: int| s.len() <= i < spec_pad_right(s, width).len() ==> #[trigger] spec_pad_right(s, width)[i] == ' ',
{
    assert(spec_pad_right(s, width).subrange(0, s.len() as int) =~= s);
}

/// `s` padded with spaces on the right to at least `width` characters.
pub fn pad_right(s: &str, width: usize) -> (r: String)
    ensures
        r@ == spec_pad_right(s@, width as nat),
{
    proof {
        reveal_strlit(" ");
    }
    let mut r = String::from_str(s);
    let mut n = s.unicode_len();
    if n >= width {
        return r;
    }
    while n < width
        invariant
            s@.len() <= n <= width,
            r@ == s@ + Seq::new((n - s@.len()) as nat, |i: int| ' '),
        decreases width - n,
    {
        r.append(" ");
        proof {
            reveal_strlit(" ");
            assert(r@ =~= s@ + Seq::new((n + 1 - s@.len()) as nat, |i: int| ' '));
        }
        n = n + 1;
    }
    r
}

/// A line of `n` dashes.
pub fn rule(n: usize) -> (r: String)
    ensures
        r@ == Seq::new(n as nat, |i: int| '-'),
{
    proof {
        reveal_strlit("-");
    }
    let mut r = String::new();
    let mut k: usize = 0;
    while k < n
        invariant
            k <= n,
            r@ == Seq::new(k as nat, |i: int| '-'),
        decreases n - k,
    {
        r.append("-");
        proof {
            reveal_strlit("-");
            assert(r@ =~= Seq::new((k + 1) as nat, |i: int| '-'));
        }
        k = k + 1;
    }
    r
}

/// A configuration shown as `key=value` items separated by `, `.
pub open spec fn spec_config_text(c: Seq<(Seq<char>, Seq<char>)>) -> Seq<char>
    decreases c.len(),
{
    if c.len() == 0 {
        Seq::empty()
    } else if c.len() == 1 {
        c[0].0 + "="@ + c[0].1
    } else {
        spec_config_text(c.drop_last()) + ", "@ + c.last().0 + "="@ + c.last().1
    }
}

/// One configuration pair as shown: `key=value`.
pub open spec fn pair_text(p: (Seq<char>, Seq<char>)) -> Seq<char> {
    p.0 + "="@ + p.1
}

/// Showing two non-empty configurations one after the other is showing
/// each and joining the two texts with `, `; a single pair shows as
/// `key=value`.
pub proof fn law_config_text_joins(a: Seq<(Seq<char>, Seq<char>)>, b: Seq<(Seq<char>, Seq<char>)>)
    requires
        a.len() > 0,
        b.len() > 0,
    ensures
        spec_config_text(a + b) == spec_config_text(a) + ", "@ + spec_config_text(b),
        spec_config_text(seq![b[0]]) == pair_text(b[0]),
    decreases b.len(),
{
    assert(seq![b[0]].len() == 1);
    if b.len() == 1 {
        assert((a + b).drop_last() =~= a);
        assert((a + b).last() == b[0]);
        assert(spec_config_text(a + b) =~= spec_config_text(a) + ", "@ + spec_config_text(b));
    } else {
        law_config_text_joins(a, b.drop_last());
        assert((a + b).drop_last() =~= a + b.drop_last());
        assert((a + b).last() == b.last());
        assert(spec_config_text(a + b) =~= spec_config_text(a) + ", "@ + spec_config_text(b));
    }
}

/// Every pair of a configuration is shown, as `key=value`, in the text:
/// after the text of the pairs before it and `, `, or at the start for the
/// first pair.
pub proof fn law_config_text_shows_every_pair(c: Seq<(Seq<char>, Seq<char>)>, i: int)
    requires
        0 <= i < c.len(),
    ensures
        ({
            let start: int = if i == 0 { 0 } else { spec_config_text(c.take(i)).len() + 2int };
            &&& start + pair_text(c[i]).len() <= spec_config_text(c).len()
            &&& spec_config_text(c).subrange(start, start + pair_text(c[i]).len()) == pair_text(c[i])
            &&& i > 0 ==> spec_config_text(c).subrange(0, start) == spec_config_text(c.take(i)) + ", "@
        }),
{
    reveal_strlit(", ");
    let upto = c.take(i + 1);
    let t = spec_config_text(c);
    let e = pair_text(c[i]);
    // The text of the pairs up to and including `c[i]`.
    if i == 0 {
        assert(upto.len() == 1);
        assert(spec_config_text(upto) =~= e);
    } else {
        assert(upto.drop_last() =~= c.take(i));
        assert(upto.last() == c[i]);
        assert(spec_config_text(upto) =~= spec_config_text(c.take(i)) + ", "@ + e);
    }
    // The whole text starts with it.
    if i + 1 < c.len() {
        law_config_text_joins(upto, c.skip(i + 1));
        assert(upto + c.skip(i + 1) =~= c);
    } else {
        assert(upto =~= c);
    }
    let start: int = if i == 0 { 0 } else { spec_config_text(c.take(i)).len() + 2int };
    assert(t.subrange(0, spec_config_text(upto).len() as int) =~= spec_config_text(upto));
    assert(spec_config_text(upto).len() == start + e.len());
    assert(t.subrange(start, start + e.len()) =~= e);
    if i > 0 {
        assert(t.subrange(0, start) =~= spec_config_text(c.take(i)) + ", "@);
    }
}

/// A configuration shown as `key=value` items separated by `, `.
pub fn config_text(config: &Vec<(String, String)>) -> (r: String)
    ensures
        r@ == spec_config_text(pair_views(config@)),
{
    let ghost pv = pair_views(config@);
    let mut r = String::new();
    let mut i: usize = 0;
    while i < config.len()
        invariant
            i <= config@.len(),
            pv == pair_views(config@),
            r@ == spec_config_text(pv.take(i as int)),
        decreases config.len() - i,
    {
        proof {
            assert(pv.take(i + 1).drop_last() =~= pv.take(i as int));
            assert(pv.take(i + 1).last() == pv[i as int]);
        }
        if i > 0 {
            r.append(", ");
        }
        r.append(config[i].0.as_str());
        r.append("=");
        r.append(config[i].1.as_str());
        proof {
            if i == 0 {
                assert(pv.take(0) =~= Seq::<(Seq<char>, Seq<char>)>::empty());
            }
        }
        i = i + 1;
    }
    proof {
        assert(pv.take(i as int) =~= pv);
    }
    r
}

/// A row of `afs fs list`: name, type and configuration in columns of 20, 10
/// and 30 characters, then the creation time.
pub fn fs_list_row(name: &str, fs_type: &str, config: &str, created: &str) -> (r: String)
    ensures
        r@ == spec_pad_right(name@, 20) + " "@ + spec_pad_right(fs_type@, 10) + " "@ + spec_pad_right(config@, 30) + " "@ + created@,
{
    proof {
        reveal_strlit(" ");
    }
    let mut r = pad_right(name, 20);
    r.append(" ");
    let t = pad_right(fs_type, 10);
    r.append(t.as_str());
    r.append(" ");
    let c = pad_right(config, 30);
    r.append(c.as_str());
    r.append(" ");
    r.append(created);
    r
}

/// A row of `afs dir list`: identifier, filesystem, permission and status in
/// columns of 36, 20, 12 and 10 characters, then the creation time.
pub fn dir_list_row(id: &str, fs_name: &str, permission: &str, status: &str, created: &str) -> (r: String)
    ensures
        r@ == spec_pad_right(id@, 36) + " "@ + spec_pad_right(fs_name@, 20) + " "@ + spec_pad_right(permission@, 12) + " "@
            + spec_pad_right(status@, 10) + " "@ + created@,
{
    proof {
        reveal_strlit(" ");
    }
    let mut r = pad_right(id, 36);
    r.append(" ");
    let t = pad_right(fs_name, 20);
    r.append(t.as_str());
    r.append(" ");
    let p = pad_right(permission, 12);
    r.append(p.as_str());
    r.append(" ");
    let s = pad_right(status, 10);
    r.append(s.as_str());
    r.append(" ");
    r.append(created);
    r
}

/// What `afs dir revoke` prints: how many sessions were told to unmount
/// and, when some could not be reached, a warning with their number.
pub open spec fn spec_revoke_report(id: Seq<char>, revoked: nat, errors: nat) -> Seq<Seq<char>> {
    let first = "Revoked "@ + spec_decimal(revoked) + " session(s) for directory: "@ + id;
    if errors == 0 {
        seq![first]
    } else {
        seq![first, "Warning: "@ + spec_decimal(errors) + " session(s) could not be reached (cleaned up anyway)"@]
    }
}

/// The lines `afs dir revoke` prints for directory `id`.
pub fn revoke_report(id: &str, revoked: u32, errors: u32) -> (r: Vec<String>)
    ensures
        string_views(r@) == spec_revoke_report(id@, revoked as nat, errors as nat),
{
    let mut first = String::from_str("Revoked ");
    let n = decimal(revoked as u64);
    first.append(n.as_str());
    first.append(" session(s) for directory: ");
    first.append(id);
    let mut lines: Vec<String> = Vec::new();
    lines.push(first);
    if errors > 0 {
        let mut warn = String::from_str("Warning: ");
        let e = decimal(errors as u64);
        warn.append(e.as_str());
        warn.append(" session(s) could not be reached (cleaned up anyway)");
        lines.push(warn);
    }
    proof {
        assert(string_views(lines@) =~= spec_revoke_report(id@, revoked as nat, errors as nat));
    }
    lines
}

} // verus!
