//! Storage layout: where the data of a shared directory lives below the
//! base path of a local or NFS-mounted storage backend.
use vstd::prelude::*;
use vstd::string::*;
use crate::ids::is_hex_char;
use crate::text::concat2;

verus! {

/// Metadata about a directory entry.
#[derive(Debug)]
pub struct DirEntry {
    pub name: String,
    pub is_dir: bool,
    pub size: u64,
}

/// File attributes.
#[derive(Debug)]
pub struct FileAttr {
    pub size: u64,
    pub is_dir: bool,
    pub modified: std::time::SystemTime,
    pub accessed: std::time::SystemTime,
    pub created: std::time::SystemTime,
}

/// Joining a path component onto a path, as `std::path::Path::join` does on
/// Unix: an absolute component replaces the path; otherwise a separator is
/// put between them unless the path is empty or already ends with one.
pub open spec fn spec_path_join(base: Seq<char>, comp: Seq<char>) -> Seq<char> {
    if comp.len() > 0 && comp[0] == '/' {
        comp
    } else if base.len() == 0 {
        comp
    } else if base.last() == '/' {
        base + comp
    } else {
        base + seq!['/'] + comp
    }
}

/// A joined path ends with the component; a relative component is put
/// after the whole base, with at most one separator between them.
pub proof fn law_path_join_keeps_parts(base: Seq<char>, comp: Seq<char>)
    ensures
        ({
            let j = spec_path_join(base, comp);
            &&& j.len() >= comp.len()
            &&& j.subrange(j.len() - comp.len(), j.len() as int) == comp
            &&& !(comp.len() > 0 && comp[0] == '/') ==> j.subrange(0, base.len() as int) == base
                && (j.len() == base.len() + comp.len() || j.len() == base.len() + 1 + comp.len())
                && (j.len() == base.len() + 1 + comp.len() ==> j[base.len() as int] == '/')
        }),
{
    let j = spec_path_join(base, comp);
    assert(j.subrange(j.len() - comp.len(), j.len() as int) =~= comp);
    if !(comp.len() > 0 && comp[0] == '/') {
        assert(j.subrange(0, base.len() as int) =~= base);
    }
}

/// Joins `comp` onto `base`.
pub fn path_join(base: &str, comp: &str) -> (r: String)
    ensures
        r@ == spec_path_join(base@, comp@),
{
    proof {
        reveal_strlit("/");
    }
    let clen = comp.unicode_len();
    if clen > 0 && comp.get_char(0) == '/' {
        return String::from_str(comp);
    }
    let blen = base.unicode_len();
    if blen == 0 {
        String::from_str(comp)
    } else if base.get_char(blen - 1) == '/' {
        concat2(base, comp)
    } else {
        let mut r = String::from_str(base);
        r.append("/");
        r.append(comp);
        r
    }
}

/// The ASCII hexadecimal digits of `s`, in order.
pub open spec fn hex_digits(s: Seq<char>) -> Seq<char>
    decreases s.len(),
{
    if s.len() == 0 {
        Seq::empty()
    } else if is_hex_char(s.last()) {
        hex_digits(s.drop_last()).push(s.last())
    } else {
        hex_digits(s.drop_last())
    }
}

/// The two-level layout `<base>/<last 2 hex>/<second-to-last 2 hex>/<id>`.
pub open spec fn spec_resolve_dir_path(base: Seq<char>, id: Seq<char>) -> Seq<char> {
    let c = hex_digits(id);
    let n = c.len() as int;
    spec_path_join(
        spec_path_join(spec_path_join(base, c.subrange(n - 2, n)), c.subrange(n - 4, n - 2)),
        id,
    )
}

proof fn lemma_hex_digits_step(s: Seq<char>, i: int)
    requires
        0 < i <= s.len(),
    ensures
        hex_digits(s.take(i)) == if is_hex_char(s[i - 1]) {
            hex_digits(s.take(i - 1)).push(s[i - 1])
        } else {
            hex_digits(s.take(i - 1))
        },
{
    assert(s.take(i).drop_last() =~= s.take(i - 1));
}

/// The hexadecimal digits of a text are its characters that are hex
/// digits, in order: every other character is dropped.
pub proof fn law_hex_digits_filter(s: Seq<char>)
    ensures
        hex_digits(s) == s.filter(|c: char| is_hex_char(c)),
    decreases s.len(),
{
    reveal(Seq::filter);
    if s.len() > 0 {
        law_hex_digits_filter(s.drop_last());
    }
}

/// A text made only of hex digits is its own hex digits.
proof fn lemma_hex_digits_all(s: Seq<char>)
    requires
        forall|i: int| 0 <= i < s.len() ==> is_hex_char(#[trigger] s[i]),
    ensures
        hex_digits(s) == s,
    decreases s.len(),
{
    if s.len() > 0 {
        let d = s.drop_last();
        assert forall|i: int| 0 <= i < d.len() implies is_hex_char(#[trigger] d[i]) by {
            assert(d[i] == s[i]);
        }
        lemma_hex_digits_all(d);
        assert(is_hex_char(s[s.len() - 1]));
        assert(d.push(s.last()) =~= s);
    }
}

/// For an identifier made of hex digits, below a base path that does not end
/// with a separator, the data lives at
/// `<base>/<last two digits>/<two digits before them>/<id>`.
pub proof fn law_resolve_dir_path_layout(base: Seq<char>, id: Seq<char>)
    requires
        id.len() >= 4,
        forall|i: int| 0 <= i < id.len() ==> is_hex_char(#[trigger] id[i]),
        base.len() > 0,
        base.last() != '/',
    ensures
        spec_resolve_dir_path(base, id) == base + seq!['/'] + id.subrange(id.len() - 2, id.len() as int)
            + seq!['/'] + id.subrange(id.len() - 4, id.len() - 2) + seq!['/'] + id,
{
    lemma_hex_digits_all(id);
    let n = id.len() as int;
    let a = id.subrange(n - 2, n);
    let b = id.subrange(n - 4, n - 2);
    assert(is_hex_char(a[0]) && is_hex_char(b[0]) && is_hex_char(id[0]));
    assert(a[0] == id[n - 2]);
    assert(b[0] == id[n - 4]);
    let p1 = spec_path_join(base, a);
    assert(p1 == base + seq!['/'] + a);
    assert(p1.last() == a[1]);
    assert(a[1] == id[n - 1]);
    let p2 = spec_path_join(p1, b);
    assert(p2 == p1 + seq!['/'] + b);
    assert(p2.last() == b[1]);
    assert(b[1] == id[n - 3]);
    assert(spec_path_join(p2, id) == p2 + seq!['/'] + id);
}

/// The number of ASCII hexadecimal digits in `id`; the layout needs four.
pub fn hex_digit_count(id: &str) -> (r: usize)
    ensures
        r == hex_digits(id@).len(),
{
    let n = id.unicode_len();
    let mut i: usize = 0;
    let mut count: usize = 0;
    proof {
        assert(id@.take(0) =~= Seq::<char>::empty());
    }
    while i < n
        invariant
            i <= n,
            n == id@.len(),
            count == hex_digits(id@.take(i as int)).len(),
            count <= i,
        decreases n - i,
    {
        let c = id.get_char(i);
        proof {
            lemma_hex_digits_step(id@, i + 1);
            assert(id@.take(i + 1)[i as int] == c);
        }
        if (c >= '0' && c <= '9') || (c >= 'a' && c <= 'f') || (c >= 'A' && c <= 'F') {
            count = count + 1;
        }
        i = i + 1;
    }
    proof {
        assert(id@.take(n as int) =~= id@);
    }
    count
}

/// Resolves the physical path of a directory from its identifier, using a
/// 2-level hash layout: `<base_path>/<last 2 hex>/<second-to-last 2 hex>/<id>`.
pub fn resolve_dir_path(base_path: &str, id: &str) -> (r: String)
    requires
        hex_digits(id@).len() >= 4,
    ensures
        r@ == spec_resolve_dir_path(base_path@, id@),
{
    let n = id.unicode_len();
    let mut i = n;
    let mut found: Vec<usize> = Vec::new();
    let ghost mut tail: Seq<char> = Seq::empty();
    proof {
        assert(id@.take(n as int) =~= id@);
    }
    while i > 0 && found.len() < 4
        invariant
            i <= n,
            n == id@.len(),
            hex_digits(id@).len() >= 4,
            found.len() == tail.len(),
            tail.len() <= 4,
            hex_digits(id@) == hex_digits(id@.take(i as int)) + tail,
            forall|k: int| 0 <= k < found.len() ==> #[trigger] found@[k] < n && id@[found@[k] as int] == tail[tail.len() - 1 - k],
        decreases i,
    {
        let c = id.get_char(i - 1);
        proof {
            lemma_hex_digits_step(id@, i as int);
        }
        if (c >= '0' && c <= '9') || (c >= 'a' && c <= 'f') || (c >= 'A' && c <= 'F') {
            let ghost old_tail = tail;
            let ghost old_found = found@;
            proof {
                assert(hex_digits(id@.take(i as int)) + tail =~= hex_digits(id@.take(i - 1)) + (seq![c] + tail));
                tail = seq![c] + tail;
            }
            found.push(i - 1);
            proof {
                assert forall|k: int| 0 <= k < found.len() implies #[trigger] found@[k] < n && id@[found@[k] as int] == tail[tail.len() - 1 - k] by {
                    if k < old_found.len() {
                        assert(found@[k] == old_found[k]);
                        assert(tail[tail.len() - 1 - k] == old_tail[old_tail.len() - 1 - k]);
                    } else {
                        assert(found@[k] == i - 1);
                        assert(tail[0] == c);
                    }
                }
            }
        }
        i = i - 1;
    }
    if found.len() < 4 {
        proof {
            assert(id@.take(0) =~= Seq::<char>::empty());
            assert(hex_digits(id@) =~= tail);
        }
        assert(false);
    }
    assert(found@[0] < n && found@[1] < n && found@[2] < n && found@[3] < n);
    let f0 = found[0];
    let f1 = found[1];
    let f2 = found[2];
    let f3 = found[3];
    let level1 = concat2(id.substring_char(f1, f1 + 1), id.substring_char(f0, f0 + 1));
    let level2 = concat2(id.substring_char(f3, f3 + 1), id.substring_char(f2, f2 + 1));
    proof {
        let c = hex_digits(id@);
        let m = c.len() as int;
        let pre = hex_digits(id@.take(i as int));
        assert(c == pre + tail);
        assert(id@[f0 as int] == tail[3]);
        assert(id@[f1 as int] == tail[2]);
        assert(id@[f2 as int] == tail[1]);
        assert(id@[f3 as int] == tail[0]);
        assert(level1@ =~= c.subrange(m - 2, m));
        assert(level2@ =~= c.subrange(m - 4, m - 2));
    }
    let p1 = path_join(base_path, level1.as_str());
    let p2 = path_join(p1.as_str(), level2.as_str());
    path_join(p2.as_str(), id)
}

/// Local filesystem storage backend rooted at a base path.
pub struct LocalStorage {
    base_path: String,
}

impl View for LocalStorage {
    type V = Seq<char>;

    /// The base path.
    closed spec fn view(&self) -> Seq<char> {
        self.base_path@
    }
}

impl LocalStorage {
    /// A backend rooted at `base_path`.
    pub fn new(base_path: String) -> (r: Self)
        ensures
            r@ == base_path@,
    {
        LocalStorage { base_path }
    }

    /// The base path.
    pub fn base_path(&self) -> (r: &str)
        ensures
            r@ == self@,
    {
        self.base_path.as_str()
    }

    /// The physical root of directory `id`.
    pub fn dir_root(&self, id: &str) -> (r: String)
        requires
            hex_digits(id@).len() >= 4,
        ensures
            r@ == spec_resolve_dir_path(self@, id@),
    {
        resolve_dir_path(self.base_path.as_str(), id)
    }

    /// The physical location of `path` inside directory `id`.
    pub fn full_path(&self, id: &str, path: &str) -> (r: String)
        requires
            hex_digits(id@).len() >= 4,
        ensures
            r@ == spec_path_join(spec_resolve_dir_path(self@, id@), path@),
    {
        let root = self.dir_root(id);
        path_join(root.as_str(), path)
    }
}

/// NFS storage backend: the same layout below the local mount point of an
/// NFS share, which is mounted outside this program.
pub struct NfsStorage {
    mount_path: String,
}

impl View for NfsStorage {
    type V = Seq<char>;

    /// The mount path.
    closed spec fn view(&self) -> Seq<char> {
        self.mount_path@
    }
}

impl NfsStorage {
    /// A backend rooted at the NFS mount point `mount_path`.
    pub fn new(mount_path: String) -> (r: Self)
        ensures
            r@ == mount_path@,
    {
        NfsStorage { mount_path }
    }

    /// The mount path.
    pub fn mount_path(&self) -> (r: &str)
        ensures
            r@ == self@,
    {
        self.mount_path.as_str()
    }

    /// The physical root of directory `id`.
    pub fn dir_root(&self, id: &str) -> (r: String)
        requires
            hex_digits(id@).len() >= 4,
        ensures
            r@ == spec_resolve_dir_path(self@, id@),
    {
        resolve_dir_path(self.mount_path.as_str(), id)
    }

    /// The physical location of `path` inside directory `id`.
    pub fn full_path(&self, id: &str, path: &str) -> (r: String)
        requires
            hex_digits(id@).len() >= 4,
        ensures
            r@ == spec_path_join(spec_resolve_dir_path(self@, id@), path@),
    {
        let root = self.dir_root(id);
        path_join(root.as_str(), path)
    }
}

} // verus!
