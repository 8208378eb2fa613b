//! The FUSE layer's own logic: the inode table, the permission rule for
//! read-only mounts, and the data and listings handed back to the kernel.
use vstd::prelude::*;
use vstd::string::*;
use crate::storage::{path_join, spec_path_join, DirEntry, FileAttr};

verus! {

/// The inode number of the root directory of a mount.
pub const ROOT_INO: u64 = 1;

/// How long the kernel may cache attributes and entries, in seconds.
pub const TTL_SECS: u64 = 1;

/// Permission level for a mounted directory.
#[derive(Debug, Clone, Copy, PartialEq, Eq, Structural)]
pub enum MountPermission {
    ReadOnly,
    ReadWrite,
}

/// The error a FUSE operation is answered with.
#[derive(Debug, Clone, Copy, PartialEq, Eq, Structural)]
pub enum Errno {
    /// No such file or directory.
    NoEntry,
    /// Permission denied.
    Access,
    /// Input/output error.
    Io,
}

/// The kind of a file.
#[derive(Debug, Clone, Copy, PartialEq, Eq, Structural)]
pub enum FileKind {
    Directory,
    RegularFile,
}

/// A path's inode table: inode `n` names `paths[n - 1]`; inode 1 is the root.
pub struct InodeTable {
    paths: Vec<String>,
}

impl View for InodeTable {
    type V = Seq<Seq<char>>;

    /// The paths, by inode number minus one.
    closed spec fn view(&self) -> Seq<Seq<char>> {
        self.paths@.map_values(|p: String| p@)
    }
}

impl InodeTable {
    /// The root has inode 1 and each path has one inode.
    pub open spec fn wf(&self) -> bool {
        &&& self@.len() >= 1
        &&& self@[0] == Seq::<char>::empty()
        &&& forall|i: int, j: int| 0 <= i < j < self@.len() ==> self@[i] != self@[j]
    }

    /// The path of inode `ino`, if allocated.
    pub open spec fn spec_path(&self, ino: u64) -> Option<Seq<char>> {
        if 1 <= ino <= self@.len() { Some(self@[ino - 1]) } else { None }
    }

    /// A table that knows only the root.
    pub fn new() -> (r: Self)
        ensures
            r.wf(),
            r@ == seq![Seq::<char>::empty()],
    {
        let mut paths: Vec<String> = Vec::new();
        paths.push(String::new());
        let r = InodeTable { paths };
        assert(r@ =~= seq![Seq::<char>::empty()]);
        r
    }

    /// Number of inodes allocated.
    pub fn len(&self) -> (r: usize)
        ensures
            r == self@.len(),
    {
        self.paths.len()
    }

    /// The inode of `path`, allocating the next number when the path is new.
    pub fn get_or_create(&mut self, path: String) -> (r: u64)
        requires
            old(self).wf(),
            old(self)@.len() < u64::MAX - 1,
        ensures
            final(self).wf(),
            1 <= r <= final(self)@.len(),
            final(self)@[r - 1] == path@,
            old(self)@.contains(path@) ==> final(self)@ == old(self)@,
            !old(self)@.contains(path@) ==> final(self)@ == old(self)@.push(path@) && r == final(self)@.len(),
            forall|j: u64| #[trigger] old(self).spec_path(j) == Some(path@) ==> r == j,
            !old(self)@.contains(path@) ==> old(self).spec_path(r) is None,
            forall|j: u64| j != r ==> #[trigger] final(self).spec_path(j) == old(self).spec_path(j),
    {
        let mut i: usize = 0;
        while i < self.paths.len()
            invariant
                i <= self.paths@.len(),
                self.wf(),
                self@ == old(self)@,
                self@.len() == self.paths@.len(),
                forall|k: int| 0 <= k < i ==> self@[k] != path@,
            decreases self.paths.len() - i,
        {
            if self.paths[i] == path {
                assert(self@[i as int] == path@);
                proof {
                    assert forall|j: u64| #[trigger] old(self).spec_path(j) == Some(path@) implies (i + 1) as u64 == j by {
                        if j - 1 < i {
                            assert(self@[j - 1] != self@[i as int]);
                        } else if j - 1 > i {
                            assert(self@[i as int] != self@[j - 1]);
                        }
                    }
                }
                return (i + 1) as u64;
            }
            i = i + 1;
        }
        let ghost old_v = self@;
        self.paths.push(path);
        proof {
            assert(self@ =~= old_v.push(path@));
            assert forall|i2: int, j2: int| 0 <= i2 < j2 < self@.len() implies self@[i2] != self@[j2] by {
                if j2 == old_v.len() {
                    assert(self@[i2] == old_v[i2]);
                }
            }
            if old_v.contains(path@) {
                let k = choose|k: int| 0 <= k < old_v.len() && old_v[k] == path@;
                assert(false);
            }
        }
        self.paths.len() as u64
    }

    /// The path of inode `ino`, if allocated.
    pub fn get_path(&self, ino: u64) -> (r: Option<&String>)
        ensures
            match r {
                Some(p) => self.spec_path(ino) == Some(p@),
                None => self.spec_path(ino) is None,
            },
    {
        if ino >= 1 && ino <= self.paths.len() as u64 {
            Some(&self.paths[(ino - 1) as usize])
        } else {
            None
        }
    }
}

/// In a well-formed table a path has one inode: two inodes naming the same
/// path are the same inode, so asking `get_or_create` again for a path gives
/// back the inode it gave before.
pub proof fn law_inode_unique(t: &InodeTable, a: u64, b: u64)
    requires
        t.wf(),
        t.spec_path(a) is Some,
        t.spec_path(a) == t.spec_path(b),
    ensures
        a == b,
{
    if a < b {
        assert(t@[a - 1] != t@[b - 1]);
    } else if b < a {
        assert(t@[b - 1] != t@[a - 1]);
    }
}

/// A time reported to the kernel: the Unix epoch, or a time read from the
/// storage or the clock.
#[derive(Debug, Clone, Copy, PartialEq, Eq)]
pub enum AttrTime {
    Epoch,
    At(std::time::SystemTime),
}

/// Attributes reported to the kernel for a file.
pub struct FuseAttr {
    pub ino: u64,
    pub size: u64,
    pub blocks: u64,
    pub atime: AttrTime,
    pub mtime: AttrTime,
    pub ctime: AttrTime,
    pub crtime: AttrTime,
    pub kind: FileKind,
    pub perm: u16,
    pub nlink: u32,
    pub uid: u32,
    pub gid: u32,
    pub rdev: u32,
    pub blksize: u32,
    pub flags: u32,
}

/// One entry of a directory listing: its inode, kind, name, and the offset
/// at which the listing resumes after it.
pub struct DirListing {
    pub ino: u64,
    pub kind: FileKind,
    pub name: String,
    pub next_offset: u64,
}

/// Number of 512-byte blocks that hold `size` bytes.
pub open spec fn spec_blocks(size: u64) -> int {
    (size + 511) / 512
}

/// The blocks of a file are the fewest 512-byte blocks that hold its
/// bytes: they cover the size, and one block fewer would not.
pub proof fn law_blocks_cover_size(size: u64)
    ensures
        spec_blocks(size) * 512 >= size,
        (spec_blocks(size) - 1) * 512 < size || size == 0,
        size == 0 ==> spec_blocks(size) == 0,
{
    let b = spec_blocks(size);
    assert(b * 512 >= size && (b - 1) * 512 < size + 0 || size == 0) by (nonlinear_arith)
        requires b == (size + 511) / 512, size >= 0;
}

/// The kind of a directory entry or of a file with the given flag.
pub open spec fn kind_of(is_dir: bool) -> FileKind {
    if is_dir { FileKind::Directory } else { FileKind::RegularFile }
}

/// The bytes `read` returns: from `offset`, at most `size` bytes, none past the end.
pub open spec fn spec_read_range(data: Seq<u8>, offset: int, size: int) -> Seq<u8> {
    if offset < data.len() {
        data.subrange(offset, if offset + size < data.len() { offset + size } else { data.len() as int })
    } else {
        Seq::empty()
    }
}

/// The file contents after writing `data` at `offset` over `existing`: the
/// file grows, zero-filled, to hold the write.
pub open spec fn spec_write_merge(existing: Seq<u8>, offset: int, data: Seq<u8>) -> Seq<u8> {
    let len = if offset + data.len() > existing.len() { offset + data.len() } else { existing.len() as int };
    Seq::new(len as nat, |i: int|
        if offset <= i < offset + data.len() {
            data[i - offset]
        } else if i < existing.len() {
            existing[i]
        } else {
            0u8
        })
}

/// Reading back the range just written gives the written bytes: the merged
/// contents hold `data` at `offset`, whatever was there before.
pub proof fn law_read_after_write(existing: Seq<u8>, offset: int, data: Seq<u8>)
    requires
        0 <= offset,
    ensures
        spec_read_range(spec_write_merge(existing, offset, data), offset, data.len() as int) == data,
{
    let m = spec_write_merge(existing, offset, data);
    if data.len() > 0 {
        assert(offset < m.len());
        assert(spec_read_range(m, offset, data.len() as int) =~= data);
    } else {
        assert(spec_read_range(m, offset, 0) =~= data);
    }
}

/// A write leaves every byte outside its range as it was, and the file
/// never shrinks.
pub proof fn law_write_keeps_other_bytes(existing: Seq<u8>, offset: int, data: Seq<u8>, i: int)
    requires
        0 <= offset,
        0 <= i < existing.len(),
        !(offset <= i < offset + data.len()),
    ensures
        spec_write_merge(existing, offset, data).len() >= existing.len(),
        spec_write_merge(existing, offset, data)[i] == existing[i],
{
}

/// A read returns the file's bytes from `offset` on, as many as were asked
/// for and the file still holds: none when it starts at or past the end.
/// In particular a read from the start that asks for at least the file's
/// length returns the whole file.
pub proof fn law_read_range_window(data: Seq<u8>, offset: int, size: int)
    requires
        0 <= offset,
        0 <= size,
    ensures
        offset < data.len() ==> spec_read_range(data, offset, size).len() == (
            if size < data.len() - offset { size } else { data.len() - offset }),
        offset >= data.len() ==> spec_read_range(data, offset, size).len() == 0,
        forall|i: int| 0 <= i < spec_read_range(data, offset, size).len()
            ==> #[trigger] spec_read_range(data, offset, size)[i] == data[offset + i],
        size >= data.len() ==> spec_read_range(data, 0, size) == data,
{
    if size >= data.len() {
        if data.len() > 0 {
            assert(spec_read_range(data, 0, size) =~= data);
        } else {
            assert(spec_read_range(data, 0, size) =~= data);
        }
    }
}

/// Writing `data` at `offset` leaves a file exactly as long as the longer of
/// the old contents and the written range: the written range holds `data`,
/// the old bytes outside it stay, and any gap between the old end and the
/// write reads as zeros.
pub proof fn law_write_merge_shape(existing: Seq<u8>, offset: int, data: Seq<u8>)
    requires
        0 <= offset,
    ensures
        spec_write_merge(existing, offset, data).len() == (
            if existing.len() < offset + data.len() { offset + data.len() } else { existing.len() as int }),
        forall|i: int| 0 <= i < data.len()
            ==> #[trigger] spec_write_merge(existing, offset, data)[offset + i] == data[i],
        forall|i: int| 0 <= i < spec_write_merge(existing, offset, data).len() && !(offset <= i < offset + data.len())
            ==> #[trigger] spec_write_merge(existing, offset, data)[i] == (if i < existing.len() { existing[i] } else { 0u8 }),
{
}

/// The FUSE filesystem of one mounted directory: its identifier, its
/// permission and its inode table. File operations go to a storage backend,
/// which its owner drives.
pub struct AfsFilesystem {
    dir_id: String,
    permission: MountPermission,
    inodes: InodeTable,
}

impl AfsFilesystem {
    /// The identifier of the mounted directory.
    pub closed spec fn spec_dir_id(&self) -> Seq<char> {
        self.dir_id@
    }

    /// The permission of the mount.
    pub closed spec fn spec_permission(&self) -> MountPermission {
        self.permission
    }

    /// The inode table.
    pub closed spec fn spec_inodes(&self) -> Seq<Seq<char>> {
        self.inodes@
    }

    /// The inode table is well formed.
    pub closed spec fn wf(&self) -> bool {
        self.inodes.wf()
    }

    /// The path of inode `ino`, if allocated.
    pub open spec fn spec_path(&self, ino: u64) -> Option<Seq<char>> {
        if 1 <= ino <= self.spec_inodes().len() { Some(self.spec_inodes()[ino - 1]) } else { None }
    }

    /// A filesystem for directory `dir_id` whose table knows only the root.
    pub fn new(dir_id: String, permission: MountPermission) -> (r: Self)
        ensures
            r.wf(),
            r.spec_dir_id() == dir_id@,
            r.spec_permission() == permission,
            r.spec_inodes() == seq![Seq::<char>::empty()],
    {
        AfsFilesystem { dir_id, permission, inodes: InodeTable::new() }
    }

    /// The identifier of the mounted directory.
    pub fn dir_id(&self) -> (r: &str)
        ensures
            r@ == self.spec_dir_id(),
    {
        self.dir_id.as_str()
    }

    /// The permission of the mount.
    pub fn permission(&self) -> (r: MountPermission)
        ensures
            r == self.spec_permission(),
    {
        self.permission
    }

    /// Whether writes are refused.
    pub fn is_readonly(&self) -> (r: bool)
        ensures
            r == (self.spec_permission() == MountPermission::ReadOnly),
    {
        self.permission == MountPermission::ReadOnly
    }

    /// Number of inodes allocated.
    pub fn inode_count(&self) -> (r: usize)
        ensures
            r == self.spec_inodes().len(),
    {
        self.inodes.len()
    }

    /// The path of inode `ino`; unknown inodes are answered `NoEntry`.
    pub fn path_of(&self, ino: u64) -> (r: Result<String, Errno>)
        ensures
            match r {
                Ok(p) => self.spec_path(ino) == Some(p@),
                Err(e) => e == Errno::NoEntry && self.spec_path(ino) is None,
            },
    {
        match self.inodes.get_path(ino) {
            Some(p) => Ok(p.clone()),
            None => Err(Errno::NoEntry),
        }
    }

    /// The path of entry `name` in directory `parent`.
    pub fn child_path(&self, parent: u64, name: &str) -> (r: Result<String, Errno>)
        ensures
            match r {
                Ok(p) => self.spec_path(parent) is Some && p@ == spec_path_join(self.spec_path(parent)->0, name@),
                Err(e) => e == Errno::NoEntry && self.spec_path(parent) is None,
            },
    {
        let parent_path = self.path_of(parent)?;
        Ok(path_join(parent_path.as_str(), name))
    }

    /// Checks a change to entry `name` of directory `parent` (mkdir, create,
    /// unlink, rmdir): refused with `Access` on a read-only mount, else the
    /// entry's path.
    pub fn begin_change(&self, parent: u64, name: &str) -> (r: Result<String, Errno>)
        ensures
            self.spec_permission() == MountPermission::ReadOnly ==> r == Err::<String, Errno>(Errno::Access),
            self.spec_permission() != MountPermission::ReadOnly ==> match r {
                Ok(p) => self.spec_path(parent) is Some && p@ == spec_path_join(self.spec_path(parent)->0, name@),
                Err(e) => e == Errno::NoEntry && self.spec_path(parent) is None,
            },
    {
        if self.is_readonly() {
            return Err(Errno::Access);
        }
        self.child_path(parent, name)
    }

    /// Checks a write to inode `ino`: refused with `Access` on a read-only
    /// mount, else the file's path.
    pub fn begin_write(&self, ino: u64) -> (r: Result<String, Errno>)
        ensures
            self.spec_permission() == MountPermission::ReadOnly ==> r == Err::<String, Errno>(Errno::Access),
            self.spec_permission() != MountPermission::ReadOnly ==> match r {
                Ok(p) => self.spec_path(ino) == Some(p@),
                Err(e) => e == Errno::NoEntry && self.spec_path(ino) is None,
            },
    {
        if self.is_readonly() {
            return Err(Errno::Access);
        }
        self.path_of(ino)
    }

    /// Checks a rename of `name` in `parent` to `newname` in `newparent`:
    /// refused with `Access` on a read-only mount, else both paths.
    pub fn begin_rename(&self, parent: u64, name: &str, newparent: u64, newname: &str) -> (r: Result<(String, String), Errno>)
        ensures
            self.spec_permission() == MountPermission::ReadOnly ==> r == Err::<(String, String), Errno>(Errno::Access),
            self.spec_permission() != MountPermission::ReadOnly ==> match r {
                Ok((from, to)) => self.spec_path(parent) is Some && self.spec_path(newparent) is Some
                    && from@ == spec_path_join(self.spec_path(parent)->0, name@)
                    && to@ == spec_path_join(self.spec_path(newparent)->0, newname@),
                Err(e) => e == Errno::NoEntry && (self.spec_path(parent) is None || self.spec_path(newparent) is None),
            },
    {
        if self.is_readonly() {
            return Err(Errno::Access);
        }
        let from = self.child_path(parent, name)?;
        let to = self.child_path(newparent, newname)?;
        Ok((from, to))
    }

    /// The inode of `path`, allocating one when the path is new.
    pub fn inode_for(&mut self, path: String) -> (r: u64)
        requires
            old(self).wf(),
            old(self).spec_inodes().len() < u64::MAX - 1,
        ensures
            final(self).wf(),
            final(self).spec_dir_id() == old(self).spec_dir_id(),
            final(self).spec_permission() == old(self).spec_permission(),
            final(self).spec_path(r) == Some(path@),
            old(self).spec_inodes().contains(path@) ==> final(self).spec_inodes() == old(self).spec_inodes(),
            !old(self).spec_inodes().contains(path@) ==> final(self).spec_inodes() == old(self).spec_inodes().push(path@),
    {
        self.inodes.get_or_create(path)
    }
}


/// The bytes `read` returns: from `offset`, at most `size` bytes of `data`.
pub fn read_range(data: &Vec<u8>, offset: u64, size: u32) -> (r: Vec<u8>)
    requires
        offset + size <= usize::MAX,
    ensures
        r@ == spec_read_range(data@, offset as int, size as int),
{
    let mut out: Vec<u8> = Vec::new();
    let len = data.len();
    if (offset as usize) < len {
        let start = offset as usize;
        let wanted = start + size as usize;
        let end = if wanted < len { wanted } else { len };
        let mut i = start;
        while i < end
            invariant
                start <= i <= end,
                end <= data@.len(),
                out@ == data@.subrange(start as int, i as int),
            decreases end - i,
        {
            out.push(data[i]);
            proof {
                assert(out@ =~= data@.subrange(start as int, i + 1));
            }
            i = i + 1;
        }
    } else {
        assert(out@ =~= Seq::<u8>::empty());
    }
    out
}

/// The file contents after writing `data` at `offset` over `existing`.
pub fn write_merge(existing: Vec<u8>, offset: u64, data: &[u8]) -> (r: Vec<u8>)
    requires
        offset + data@.len() <= usize::MAX,
    ensures
        r@ == spec_write_merge(existing@, offset as int, data@),
{
    let ghost old_v = existing@;
    let mut out = existing;
    let start = offset as usize;
    let end = start + data.len();
    let mut n = out.len();
    while n < end
        invariant
            old_v.len() <= n,
            n == out@.len(),
            n == old_v.len() || n <= end,
            forall|i: int| 0 <= i < old_v.len() ==> out@[i] == old_v[i],
            forall|i: int| old_v.len() <= i < n ==> out@[i] == 0u8,
        decreases end - n,
    {
        out.push(0u8);
        n = n + 1;
    }
    let ghost grown = out@;
    let ghost total = if start + data@.len() > old_v.len() { start + data@.len() } else { old_v.len() as int };
    assert(grown.len() == total);
    let mut i: usize = 0;
    while i < data.len()
        invariant
            i <= data@.len(),
            end == start + data@.len(),
            start == offset,
            out@.len() == grown.len(),
            grown.len() == total,
            total == if start + data@.len() > old_v.len() { start + data@.len() } else { old_v.len() as int },
            forall|k: int| 0 <= k < old_v.len() ==> grown[k] == old_v[k],
            forall|k: int| old_v.len() <= k < grown.len() ==> grown[k] == 0u8,
            forall|k: int| 0 <= k < out@.len() && !(start <= k < start + i) ==> out@[k] == grown[k],
            forall|k: int| start <= k < start + i ==> out@[k] == data@[k - start],
        decreases data.len() - i,
    {
        out.set(start + i, data[i]);
        i = i + 1;
    }
    proof {
        let m = spec_write_merge(old_v, offset as int, data@);
        assert(m.len() == out@.len());
        assert forall|k: int| 0 <= k < m.len() implies out@[k] == m[k] by {
            if start <= k < start + data@.len() {
                assert(out@[k] == data@[k - start]);
            } else if k < old_v.len() {
                assert(out@[k] == grown[k]);
            } else {
                assert(out@[k] == grown[k]);
            }
        }
        assert(out@ =~= m);
    }
    out
}

impl AfsFilesystem {
    /// Attributes of a file whose storage attributes are `attr`.
    pub fn storage_attr_to_fuse(&self, attr: &FileAttr, ino: u64, uid: u32, gid: u32) -> (r: FuseAttr)
        requires
            attr.size <= u64::MAX - 511,
        ensures
            r.ino == ino,
            r.size == attr.size,
            r.blocks == spec_blocks(attr.size),
            r.atime == AttrTime::At(attr.accessed),
            r.mtime == AttrTime::At(attr.modified),
            r.ctime == AttrTime::At(attr.modified),
            r.crtime == AttrTime::At(attr.created),
            r.kind == kind_of(attr.is_dir),
            r.perm == (if attr.is_dir { 0o755u16 } else { 0o644u16 }),
            r.nlink == (if attr.is_dir { 2u32 } else { 1u32 }),
            r.uid == uid,
            r.gid == gid,
            r.rdev == 0,
            r.blksize == 512,
            r.flags == 0,
    {
        FuseAttr {
            ino,
            size: attr.size,
            blocks: (attr.size + 511) / 512,
            atime: AttrTime::At(attr.accessed),
            mtime: AttrTime::At(attr.modified),
            ctime: AttrTime::At(attr.modified),
            crtime: AttrTime::At(attr.created),
            kind: if attr.is_dir { FileKind::Directory } else { FileKind::RegularFile },
            perm: if attr.is_dir { 0o755 } else { 0o644 },
            nlink: if attr.is_dir { 2 } else { 1 },
            uid,
            gid,
            rdev: 0,
            blksize: 512,
            flags: 0,
        }
    }

    /// Attributes of the root directory: empty, dated at the Unix epoch.
    pub fn root_attr(&self, uid: u32, gid: u32) -> (r: FuseAttr)
        ensures
            r.ino == ROOT_INO,
            r.size == 0,
            r.blocks == 0,
            r.atime == AttrTime::Epoch && r.mtime == AttrTime::Epoch && r.ctime == AttrTime::Epoch && r.crtime == AttrTime::Epoch,
            r.kind == FileKind::Directory,
            r.perm == 0o755,
            r.nlink == 2,
            r.uid == uid,
            r.gid == gid,
            r.rdev == 0,
            r.blksize == 512,
            r.flags == 0,
    {
        FuseAttr {
            ino: ROOT_INO,
            size: 0,
            blocks: 0,
            atime: AttrTime::Epoch,
            mtime: AttrTime::Epoch,
            ctime: AttrTime::Epoch,
            crtime: AttrTime::Epoch,
            kind: FileKind::Directory,
            perm: 0o755,
            nlink: 2,
            uid,
            gid,
            rdev: 0,
            blksize: 512,
            flags: 0,
        }
    }

    /// Attributes of a file or directory just created, dated `now`.
    pub fn created_attr(&self, ino: u64, kind: FileKind, uid: u32, gid: u32, now: std::time::SystemTime) -> (r: FuseAttr)
        ensures
            r.ino == ino,
            r.size == 0,
            r.blocks == 0,
            r.atime == AttrTime::At(now) && r.mtime == AttrTime::At(now) && r.ctime == AttrTime::At(now)
                && r.crtime == AttrTime::At(now),
            r.kind == kind,
            r.perm == (if kind == FileKind::Directory { 0o755u16 } else { 0o644u16 }),
            r.nlink == (if kind == FileKind::Directory { 2u32 } else { 1u32 }),
            r.uid == uid,
            r.gid == gid,
            r.rdev == 0,
            r.blksize == 512,
            r.flags == 0,
    {
        let is_dir = kind == FileKind::Directory;
        FuseAttr {
            ino,
            size: 0,
            blocks: 0,
            atime: AttrTime::At(now),
            mtime: AttrTime::At(now),
            ctime: AttrTime::At(now),
            crtime: AttrTime::At(now),
            kind,
            perm: if is_dir { 0o755 } else { 0o644 },
            nlink: if is_dir { 2 } else { 1 },
            uid,
            gid,
            rdev: 0,
            blksize: 512,
            flags: 0,
        }
    }

    /// The listing of directory `path` whose entries are `entries`, from
    /// position `offset` on: `.` and `..` (both reported with the root's
    /// inode) then the entries, each with an inode allocated for its path.
    pub fn readdir_listing(&mut self, path: &str, entries: &Vec<DirEntry>, offset: u64) -> (r: Vec<DirListing>)
        requires
            old(self).wf(),
            old(self).spec_inodes().len() + entries@.len() < u64::MAX - 1,
        ensures
            final(self).wf(),
            final(self).spec_dir_id() == old(self).spec_dir_id(),
            final(self).spec_permission() == old(self).spec_permission(),
            old(self).spec_inodes().len() <= final(self).spec_inodes().len() <= old(self).spec_inodes().len() + entries@.len(),
            forall|i: int| 0 <= i < old(self).spec_inodes().len() ==> final(self).spec_inodes()[i] == old(self).spec_inodes()[i],
            forall|k: int| 0 <= k < entries@.len()
                ==> #[trigger] final(self).spec_inodes().contains(spec_path_join(path@, entries@[k].name@)),
            r@.len() == (if offset < entries@.len() + 2 { entries@.len() + 2 - offset } else { 0 }),
            forall|k: int| 0 <= k < r@.len() ==> {
                let i = offset + k;
                let e = #[trigger] r@[k];
                &&& e.next_offset == i + 1
                &&& i == 0 ==> e.ino == ROOT_INO && e.kind == FileKind::Directory && e.name@ == "."@
                &&& i == 1 ==> e.ino == ROOT_INO && e.kind == FileKind::Directory && e.name@ == ".."@
                &&& i >= 2 ==> e.kind == kind_of(entries@[i - 2].is_dir) && e.name@ == entries@[i - 2].name@
                    && final(self).spec_path(e.ino) == Some(spec_path_join(path@, entries@[i - 2].name@))
            },
    {
        let mut out: Vec<DirListing> = Vec::new();
        if offset == 0 {
            out.push(DirListing { ino: ROOT_INO, kind: FileKind::Directory, name: String::from_str("."), next_offset: 1 });
        }
        if offset <= 1 {
            out.push(DirListing { ino: ROOT_INO, kind: FileKind::Directory, name: String::from_str(".."), next_offset: 2 });
        }
        let ghost start_len = self.spec_inodes().len();
        let mut k: usize = 0;
        while k < entries.len()
            invariant
                k <= entries@.len(),
                self.wf(),
                self.spec_dir_id() == old(self).spec_dir_id(),
                self.spec_permission() == old(self).spec_permission(),
                start_len == old(self).spec_inodes().len(),
                start_len <= self.spec_inodes().len() <= start_len + k,
                start_len + entries@.len() < u64::MAX - 1,
                forall|i: int| 0 <= i < start_len ==> self.spec_inodes()[i] == old(self).spec_inodes()[i],
                forall|k2: int| 0 <= k2 < k
                    ==> #[trigger] self.spec_inodes().contains(spec_path_join(path@, entries@[k2].name@)),
                out@.len() == (if offset < k + 2 { k + 2 - offset } else { 0 }),
                forall|j: int| 0 <= j < out@.len() ==> {
                    let i = offset + j;
                    let e = #[trigger] out@[j];
                    &&& e.next_offset == i + 1
                    &&& i == 0 ==> e.ino == ROOT_INO && e.kind == FileKind::Directory && e.name@ == "."@
                    &&& i == 1 ==> e.ino == ROOT_INO && e.kind == FileKind::Directory && e.name@ == ".."@
                    &&& i >= 2 ==> e.kind == kind_of(entries@[i - 2].is_dir) && e.name@ == entries@[i - 2].name@
                        && self.spec_path(e.ino) == Some(spec_path_join(path@, entries@[i - 2].name@))
                },
            decreases entries.len() - k,
        {
            let entry = &entries[k];
            let child = path_join(path, entry.name.as_str());
            let ghost before = self.spec_inodes();
            let ghost out_before = out@;
            let ino = self.inode_for(child);
            proof {
                assert(self.spec_inodes()[ino - 1] == spec_path_join(path@, entries@[k as int].name@));
                assert forall|k2: int| 0 <= k2 < k + 1
                    implies #[trigger] self.spec_inodes().contains(spec_path_join(path@, entries@[k2].name@)) by {
                    if k2 < k {
                        let c = spec_path_join(path@, entries@[k2].name@);
                        assert(before.contains(c));
                        let j = choose|j: int| 0 <= j < before.len() && before[j] == c;
                        if before.contains(child@) {
                            assert(self.spec_inodes() == before);
                        } else {
                            assert(self.spec_inodes() == before.push(child@));
                        }
                        assert(self.spec_inodes()[j] == c);
                    } else {
                        assert(self.spec_inodes()[ino - 1] == spec_path_join(path@, entries@[k2].name@));
                    }
                }
            }
            proof {
                assert forall|j: int| 0 <= j < out@.len() implies ({
                    let i = offset + j;
                    let e = #[trigger] out@[j];
                    i >= 2 ==> self.spec_path(e.ino) == Some(spec_path_join(path@, entries@[i - 2].name@))
                }) by {
                    let e = out@[j];
                    if offset + j >= 2 {
                        let pb = if 1 <= e.ino <= before.len() { Some(before[e.ino - 1]) } else { None::<Seq<char>> };
                        assert(pb == Some(spec_path_join(path@, entries@[offset + j - 2].name@)));
                    }
                }
            }
            if (k as u64) + 2 >= offset {
                let kind = if entry.is_dir { FileKind::Directory } else { FileKind::RegularFile };
                out.push(DirListing { ino, kind, name: entry.name.clone(), next_offset: (k as u64) + 3 });
                proof {
                    assert forall|j: int| 0 <= j < out@.len() implies ({
                        let i = offset + j;
                        let e = #[trigger] out@[j];
                        &&& e.next_offset == i + 1
                        &&& i == 0 ==> e.ino == ROOT_INO && e.kind == FileKind::Directory && e.name@ == "."@
                        &&& i == 1 ==> e.ino == ROOT_INO && e.kind == FileKind::Directory && e.name@ == ".."@
                        &&& i >= 2 ==> e.kind == kind_of(entries@[i - 2].is_dir) && e.name@ == entries@[i - 2].name@
                            && self.spec_path(e.ino) == Some(spec_path_join(path@, entries@[i - 2].name@))
                    }) by {
                        if j < out_before.len() {
                            assert(out@[j] == out_before[j]);
                        }
                    }
                }
            }
            k = k + 1;
        }
        out
    }
}

} // verus!
