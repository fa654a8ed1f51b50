//! The file system that the file syscalls talk to: one root directory of
//! named entries over a table of inodes.
use vstd::prelude::*;

verus! {

/// Open for reading only (no bit set).
pub const O_RDONLY: u32 = 0;

/// Open for writing only.
pub const O_WRONLY: u32 = 1;

/// Open for reading and writing.
pub const O_RDWR: u32 = 2;

/// Create the file, or empty it when it exists.
pub const O_CREATE: u32 = 512;

/// Empty an existing file on open.
pub const O_TRUNC: u32 = 1024;

/// Mode of a directory in a stat record.
pub const S_DIR: u32 = 0o040000;

/// Mode of a regular file in a stat record.
pub const S_FILE: u32 = 0o100000;

/// Open flags hold no bit outside the known ones.
pub open spec fn flags_known(flags: u32) -> bool {
    flags & !(O_WRONLY | O_RDWR | O_CREATE | O_TRUNC) == 0
}

/// Capabilities `(readable, writable)` that open flags grant.
pub open spec fn flags_access(flags: u32) -> (bool, bool) {
    if flags == 0 {
        (true, false)
    } else if flags & O_WRONLY != 0 {
        (false, true)
    } else {
        (true, true)
    }
}

/// Contents after writing `bytes` at `off`: bytes past the old end that the
/// write skips over are zero.
pub open spec fn written(data: Seq<u8>, off: int, bytes: Seq<u8>) -> Seq<u8> {
    let end = off + bytes.len();
    let size = if data.len() >= end { data.len() as int } else { end };
    Seq::new(size as nat, |i: int| if off <= i < end { bytes[i - off] } else if i < data.len() { data[i] } else { 0u8 })
}

/// What a read of at most `n` bytes at `off` returns.
pub open spec fn read_out(data: Seq<u8>, off: int, n: int) -> Seq<u8> {
    if off >= data.len() {
        Seq::empty()
    } else if off + n <= data.len() {
        data.subrange(off, off + n)
    } else {
        data.subrange(off, data.len() as int)
    }
}

/// Reading back what was just written at the same offset yields exactly the written bytes.
pub proof fn lemma_read_back(data: Seq<u8>, off: int, bytes: Seq<u8>)
    requires
        0 <= off,
    ensures
        read_out(written(data, off, bytes), off, bytes.len() as int) == bytes,
{
    let w = written(data, off, bytes);
    if bytes.len() == 0 {
        assert(read_out(w, off, 0) =~= bytes);
    } else {
        assert(read_out(w, off, bytes.len() as int) =~= bytes);
    }
}

/// An inode: the file's bytes, its link count, and whether it is a directory.
pub struct Inode {
    pub data: Vec<u8>,
    pub nlink: u32,
    pub is_dir: bool,
}

/// A name in the root directory and the inode it refers to.
pub struct DirEntry {
    pub name: Vec<u8>,
    pub ino: usize,
}

/// The root directory and the inode table.
pub struct FileSystem {
    pub inodes: Vec<Inode>,
    pub entries: Vec<DirEntry>,
}

/// Whether two byte strings are equal.
pub fn bytes_eq(a: &Vec<u8>, b: &Vec<u8>) -> (r: bool)
    ensures
        r == (a@ == b@),
{
    if a.len() != b.len() {
        return false;
    }
    let mut i: usize = 0;
    while i < a.len()
        invariant
            a@.len() == b@.len(),
            i <= a@.len(),
            forall|k: int| 0 <= k < i ==> a@[k] == b@[k],
        decreases a@.len() - i,
    {
        if a[i] != b[i] {
            return false;
        }
        i = i + 1;
    }
    assert(a@ =~= b@);
    true
}

impl FileSystem {
    /// Entries name existing inodes and no name occurs twice.
    pub open spec fn wf(&self) -> bool {
        &&& forall|i: int| 0 <= i < self.entries@.len() ==> (#[trigger] self.entries@[i]).ino < self.inodes@.len()
        &&& forall|i: int, j: int|
            0 <= i < self.entries@.len() && 0 <= j < self.entries@.len() && i != j ==> (
            #[trigger] self.entries@[i]).name@ != (#[trigger] self.entries@[j]).name@
    }

    /// The directory holds `name`.
    pub open spec fn has(&self, name: Seq<u8>) -> bool {
        exists|i: int| 0 <= i < self.entries@.len() && (#[trigger] self.entries@[i]).name@ == name
    }

    /// Entry `i` is the one named `name`.
    pub open spec fn entry_is(&self, i: int, name: Seq<u8>) -> bool {
        0 <= i < self.entries@.len() && self.entries@[i].name@ == name
    }

    /// Inode that `name` refers to; meaningful when `has(name)`.
    pub open spec fn ino_of(&self, name: Seq<u8>) -> int {
        self.entries@[choose|i: int| self.entry_is(i, name)].ino as int
    }

    /// Contents of inode `ino`.
    pub open spec fn content(&self, ino: int) -> Seq<u8> {
        self.inodes@[ino].data@
    }

    /// An empty file system.
    pub fn new() -> (r: FileSystem)
        ensures
            r.wf(),
            r.inodes@.len() == 0,
            r.entries@.len() == 0,
    {
        FileSystem { inodes: Vec::new(), entries: Vec::new() }
    }

    /// Position of `name` in the directory.
    pub fn find(&self, name: &Vec<u8>) -> (r: Option<usize>)
        requires
            self.wf(),
        ensures
            r.is_some() == self.has(name@),
            r.is_some() ==> self.entry_is(r.unwrap() as int, name@) && self.ino_of(name@)
                == self.entries@[r.unwrap() as int].ino,
    {
        let mut i: usize = 0;
        while i < self.entries.len()
            invariant
                self.wf(),
                i <= self.entries@.len(),
                forall|k: int| 0 <= k < i ==> (#[trigger] self.entries@[k]).name@ != name@,
            decreases self.entries@.len() - i,
        {
            if bytes_eq(&self.entries[i].name, name) {
                proof {
                    assert(self.entry_is(i as int, name@));
                    let c = choose|k: int| self.entry_is(k, name@);
                    assert(self.entry_is(c, name@));
                    assert(c == i);
                }
                return Some(i);
            }
            i = i + 1;
        }
        None
    }

    /// Copy of the bytes of inode `ino`.
    fn data_copy(&self, ino: usize) -> (r: Vec<u8>)
        requires
            ino < self.inodes@.len(),
        ensures
            r@ == self.content(ino as int),
    {
        let src = &self.inodes[ino].data;
        let mut out: Vec<u8> = Vec::new();
        let mut i: usize = 0;
        while i < src.len()
            invariant
                i <= src@.len(),
                out@ == src@.subrange(0, i as int),
            decreases src@.len() - i,
        {
            out.push(src[i]);
            i = i + 1;
            assert(out@ =~= src@.subrange(0, i as int));
        }
        assert(out@ =~= src@);
        out
    }

    /// Replaces the bytes of inode `ino`, keeping its link count and type.
    fn set_data(&mut self, ino: usize, data: Vec<u8>)
        requires
            old(self).wf(),
            ino < old(self).inodes@.len(),
        ensures
            final(self).wf(),
            final(self).entries@ == old(self).entries@,
            final(self).inodes@.len() == old(self).inodes@.len(),
            final(self).content(ino as int) == data@,
            final(self).inodes@[ino as int].nlink == old(self).inodes@[ino as int].nlink,
            final(self).inodes@[ino as int].is_dir == old(self).inodes@[ino as int].is_dir,
            forall|j: int| 0 <= j < final(self).inodes@.len() && j != ino ==> final(self).inodes@[j] == old(self).inodes@[j],
    {
        let nlink = self.inodes[ino].nlink;
        let is_dir = self.inodes[ino].is_dir;
        self.inodes.set(ino, Inode { data, nlink, is_dir });
    }

    /// Bytes that a read of at most `n` bytes at `off` of inode `ino` returns.
    pub fn read_at(&self, ino: usize, off: usize, n: usize) -> (r: Vec<u8>)
        requires
            ino < self.inodes@.len(),
        ensures
            r@ == read_out(self.content(ino as int), off as int, n as int),
    {
        let src = &self.inodes[ino].data;
        let mut out: Vec<u8> = Vec::new();
        if off >= src.len() {
            assert(out@ =~= read_out(self.content(ino as int), off as int, n as int));
            return out;
        }
        let end: usize = if n <= src.len() - off { off + n } else { src.len() };
        let mut i: usize = off;
        while i < end
            invariant
                off <= i <= end,
                end <= src@.len(),
                out@ == src@.subrange(off as int, i as int),
            decreases end - i,
        {
            out.push(src[i]);
            i = i + 1;
            assert(out@ =~= src@.subrange(off as int, i as int));
        }
        out
    }

    /// Writes `bytes` into inode `ino` at `off`, growing it as needed.
    pub fn write_at(&mut self, ino: usize, off: usize, bytes: &Vec<u8>)
        requires
            old(self).wf(),
            ino < old(self).inodes@.len(),
            off + bytes@.len() <= usize::MAX,
        ensures
            final(self).wf(),
            final(self).entries@ == old(self).entries@,
            final(self).inodes@.len() == old(self).inodes@.len(),
            final(self).content(ino as int) == written(old(self).content(ino as int), off as int, bytes@),
            final(self).inodes@[ino as int].nlink == old(self).inodes@[ino as int].nlink,
            final(self).inodes@[ino as int].is_dir == old(self).inodes@[ino as int].is_dir,
            forall|j: int| 0 <= j < final(self).inodes@.len() && j != ino ==> final(self).inodes@[j] == old(self).inodes@[j],
    {
        let old_data = self.data_copy(ino);
        let end: usize = off + bytes.len();
        let size: usize = if old_data.len() >= end { old_data.len() } else { end };
        let ghost goal = written(old_data@, off as int, bytes@);
        let mut out: Vec<u8> = Vec::new();
        let mut i: usize = 0;
        while i < size
            invariant
                i <= size,
                size == goal.len(),
                end == off + bytes@.len(),
                goal == written(old_data@, off as int, bytes@),
                out@ == goal.subrange(0, i as int),
            decreases size - i,
        {
            let b: u8 = if off <= i && i < end {
                bytes[i - off]
            } else if i < old_data.len() {
                old_data[i]
            } else {
                0
            };
            out.push(b);
            i = i + 1;
            assert(out@ =~= goal.subrange(0, i as int));
        }
        assert(out@ =~= goal);
        self.set_data(ino, out);
    }

    /// Creates an empty regular file named `name`, returning its inode.
    fn create(&mut self, name: &Vec<u8>) -> (r: usize)
        requires
            old(self).wf(),
            !old(self).has(name@),
        ensures
            final(self).wf(),
            r == old(self).inodes@.len(),
            final(self).inodes@.len() == old(self).inodes@.len() + 1,
            final(self).content(r as int).len() == 0,
            final(self).inodes@[r as int].nlink == 1,
            !final(self).inodes@[r as int].is_dir,
            forall|j: int| 0 <= j < old(self).inodes@.len() ==> final(self).inodes@[j] == old(self).inodes@[j],
            final(self).entries@.len() == old(self).entries@.len() + 1,
            final(self).entries@.subrange(0, old(self).entries@.len() as int) == old(self).entries@,
            final(self).has(name@),
            final(self).ino_of(name@) == r,
    {
        let ino = self.inodes.len();
        self.inodes.push(Inode { data: Vec::new(), nlink: 1, is_dir: false });
        let copy = name.clone();
        self.entries.push(DirEntry { name: copy, ino });
        proof {
            let n = self.entries@.len() - 1;
            assert(self.entry_is(n, name@));
            let c = choose|k: int| self.entry_is(k, name@);
            if c != n {
                assert(old(self).entries@[c] == self.entries@[c]);
            }
            assert(self.entries@.subrange(0, old(self).entries@.len() as int) =~= old(self).entries@);
        }
        ino
    }

    /// Opens `name` under `flags`, giving its inode.  With `O_CREATE` the
    /// file is made when it is missing and emptied when it exists; without
    /// it a missing name fails, and `O_TRUNC` empties an existing file.
    pub fn open_file(&mut self, name: &Vec<u8>, flags: u32) -> (r: Option<usize>)
        requires
            old(self).wf(),
        ensures
            final(self).wf(),
            r.is_some() == (flags & O_CREATE != 0 || old(self).has(name@)),
            r.is_none() ==> *final(self) == *old(self),
            r.is_some() ==> {
                let ino = r.unwrap() as int;
                &&& final(self).has(name@)
                &&& final(self).ino_of(name@) == ino
                &&& ino < final(self).inodes@.len()
                &&& (flags & (O_CREATE | O_TRUNC) != 0 ==> final(self).content(ino).len() == 0)
                &&& (old(self).has(name@) ==> {
                    &&& ino == old(self).ino_of(name@)
                    &&& final(self).entries@ == old(self).entries@
                    &&& final(self).inodes@.len() == old(self).inodes@.len()
                    &&& (flags & (O_CREATE | O_TRUNC) == 0 ==> *final(self) == *old(self))
                    &&& forall|j: int| 0 <= j < final(self).inodes@.len() && j != ino ==> final(self).inodes@[j] == old(self).inodes@[j]
                })
                &&& (!old(self).has(name@) ==> ino == old(self).inodes@.len())
                &&& forall|j: int| 0 <= j < old(self).inodes@.len() && j != ino ==> final(self).inodes@[j] == old(self).inodes@[j]
            },
    {
        match self.find(name) {
            Some(i) => {
                let ino = self.entries[i].ino;
                if flags & (O_CREATE | O_TRUNC) != 0 {
                    self.set_data(ino, Vec::new());
                }
                proof {
                    assert(self.entry_is(i as int, name@));
                }
                Some(ino)
            },
            None => {
                if flags & O_CREATE != 0 {
                    Some(self.create(name))
                } else {
                    None
                }
            },
        }
    }

    /// Adds `new_name` as a second name of the inode that `old_name` names.
    /// Fails with -1 when `old_name` is missing, `new_name` exists, or the
    /// link count is at its maximum; otherwise returns 0.
    pub fn linkat(&mut self, old_name: &Vec<u8>, new_name: &Vec<u8>) -> (r: isize)
        requires
            old(self).wf(),
        ensures
            final(self).wf(),
            r == 0 || r == -1,
            r == 0 <==> (old(self).has(old_name@) && !old(self).has(new_name@)
                && old(self).inodes@[old(self).ino_of(old_name@)].nlink < u32::MAX),
            r == -1 ==> *final(self) == *old(self),
            r == 0 ==> {
                let ino = old(self).ino_of(old_name@);
                &&& final(self).has(new_name@)
                &&& final(self).ino_of(new_name@) == ino
                &&& final(self).inodes@.len() == old(self).inodes@.len()
                &&& final(self).inodes@[ino].nlink == old(self).inodes@[ino].nlink + 1
                &&& final(self).content(ino) == old(self).content(ino)
                &&& forall|j: int| 0 <= j < final(self).inodes@.len() && j != ino ==> final(self).inodes@[j] == old(self).inodes@[j]
                &&& forall|n: Seq<u8>| old(self).has(n) ==> final(self).has(n)
            },
    {
        let i = match self.find(old_name) {
            Some(i) => i,
            None => return -1,
        };
        if self.find(new_name).is_some() {
            return -1;
        }
        let ino = self.entries[i].ino;
        let nlink = self.inodes[ino].nlink;
        if nlink == u32::MAX {
            return -1;
        }
        let data = self.data_copy(ino);
        let is_dir = self.inodes[ino].is_dir;
        self.inodes.set(ino, Inode { data, nlink: nlink + 1, is_dir });
        let ghost mid = *self;
        let copy = new_name.clone();
        self.entries.push(DirEntry { name: copy, ino });
        proof {
            let n = self.entries@.len() - 1;
            assert(self.entry_is(n, new_name@));
            let c = choose|k: int| self.entry_is(k, new_name@);
            if c != n {
                assert(mid.entries@[c] == self.entries@[c]);
            }
            assert forall|m: Seq<u8>| old(self).has(m) implies self.has(m) by {
                let k = choose|k: int| 0 <= k < old(self).entries@.len() && (#[trigger] old(self).entries@[k]).name@ == m;
                assert(self.entries@[k] == old(self).entries@[k]);
            }
        }
        0
    }

    /// Removes the name `name`.  The inode loses one link, and its bytes are
    /// reclaimed when no link is left.  Fails with -1 when `name` is missing.
    pub fn unlinkat(&mut self, name: &Vec<u8>) -> (r: isize)
        requires
            old(self).wf(),
        ensures
            final(self).wf(),
            r == 0 || r == -1,
            r == 0 <==> old(self).has(name@),
            r == -1 ==> *final(self) == *old(self),
            r == 0 ==> {
                let ino = old(self).ino_of(name@);
                let left = if old(self).inodes@[ino].nlink > 0 { old(self).inodes@[ino].nlink - 1 } else { 0 };
                &&& !final(self).has(name@)
                &&& final(self).inodes@.len() == old(self).inodes@.len()
                &&& final(self).inodes@[ino].nlink == left
                &&& (left == 0 ==> final(self).content(ino).len() == 0)
                &&& (left > 0 ==> final(self).content(ino) == old(self).content(ino))
                &&& forall|j: int| 0 <= j < final(self).inodes@.len() && j != ino ==> final(self).inodes@[j] == old(self).inodes@[j]
                &&& forall|n: Seq<u8>| n != name@ ==> final(self).has(n) == old(self).has(n)
            },
    {
        let i = match self.find(name) {
            Some(i) => i,
            None => return -1,
        };
        let ino = self.entries[i].ino;
        let nlink = self.inodes[ino].nlink;
        let left: u32 = if nlink > 0 { nlink - 1 } else { 0 };
        let data = if left == 0 { Vec::new() } else { self.data_copy(ino) };
        let is_dir = self.inodes[ino].is_dir;
        self.inodes.set(ino, Inode { data, nlink: left, is_dir });
        let ghost mid = self.entries@;
        let gone = self.entries.remove(i);
        proof {
            assert forall|a: int, b: int|
                0 <= a < self.entries@.len() && 0 <= b < self.entries@.len() && a != b implies (
                #[trigger] self.entries@[a]).name@ != (#[trigger] self.entries@[b]).name@ by {
                let a2 = if a < i { a } else { a + 1 };
                let b2 = if b < i { b } else { b + 1 };
                assert(self.entries@[a] == mid[a2]);
                assert(self.entries@[b] == mid[b2]);
            }
            assert forall|a: int| 0 <= a < self.entries@.len() implies (#[trigger] self.entries@[a]).ino < self.inodes@.len() by {
                let a2 = if a < i { a } else { a + 1 };
                assert(self.entries@[a] == mid[a2]);
            }
            if self.has(name@) {
                let k = choose|k: int| 0 <= k < self.entries@.len() && (#[trigger] self.entries@[k]).name@ == name@;
                let k2 = if k < i { k } else { k + 1 };
                assert(self.entries@[k] == mid[k2]);
                assert(false);
            }
            assert forall|n: Seq<u8>| n != name@ implies self.has(n) == old(self).has(n) by {
                if old(self).has(n) {
                    let k = choose|k: int| 0 <= k < mid.len() && (#[trigger] mid[k]).name@ == n;
                    assert(k != i);
                    let k2 = if k < i { k } else { k - 1 };
                    assert(self.entries@[k2] == mid[k]);
                }
                if self.has(n) {
                    let k = choose|k: int| 0 <= k < self.entries@.len() && (#[trigger] self.entries@[k]).name@ == n;
                    let k2 = if k < i { k } else { k + 1 };
                    assert(self.entries@[k] == mid[k2]);
                    assert(old(self).entries@[k2] == mid[k2]);
                }
            }
        }
        0
    }
}

} // verus!
