//! File syscalls: descriptors, transfers between user memory and files,
//! metadata and links.
use vstd::prelude::*;
use crate::fs::{
    flags_access, flags_known, lemma_read_back, read_out, written, O_CREATE, O_RDWR, O_TRUNC,
    O_WRONLY, S_DIR, S_FILE,
};
use crate::record::{stat_bytes, Stat, STAT_SIZE};
use crate::task::{FileRef, Kernel, OpenInode};

verus! {

/// Bytes that a write of `len` bytes at cursor `off` transfers: all of them,
/// unless the cursor would pass the largest offset.
pub open spec fn write_count(off: int, len: int) -> int {
    if off + len <= usize::MAX {
        len
    } else {
        usize::MAX - off
    }
}

/// Index of the lowest empty slot of a descriptor table, or its length when
/// every slot is taken.
pub open spec fn lowest_free(t: Seq<Option<FileRef>>) -> int {
    if exists|i: int| 0 <= i < t.len() && t[i].is_none() {
        choose|i: int| 0 <= i < t.len() && t[i].is_none() && forall|j: int| 0 <= j < i ==> t[j].is_some()
    } else {
        t.len() as int
    }
}

/// Metadata of inode `ino` as `fstat` reports it.
pub open spec fn stat_of(k: &Kernel, ino: int) -> Stat {
    Stat {
        dev: 0,
        ino: ino as u64,
        mode: if k.fs.inodes@[ino].is_dir { S_DIR } else { S_FILE },
        nlink: k.fs.inodes@[ino].nlink,
    }
}

/// What `sys_write(fd, buf, len)` does to kernel state `o`, leaving `f` and
/// returning `r`.
pub open spec fn write_effect(o: &Kernel, f: &Kernel, fd: usize, buf: usize, len: usize, r: isize) -> bool {
    &&& (!o.can_write(fd as int) ==> r == -1 && *f == *o)
    &&& (o.can_write(fd as int) ==> {
        &&& f.space == o.space
        &&& f.same_task(o)
        &&& f.fd_table@ == o.fd_table@
        &&& f.stdin@ == o.stdin@
        &&& match o.fd_file(fd as int) {
            Some(FileRef::Inode(i)) => {
                let h = o.open_files@[i as int];
                let n = write_count(h.offset as int, len as int);
                &&& r == n
                &&& f.fs.content(h.ino as int) == written(
                    o.fs.content(h.ino as int),
                    h.offset as int,
                    o.space.vbytes(buf as int, n),
                )
                &&& f.fs.entries@ == o.fs.entries@
                &&& f.fs.inodes@.len() == o.fs.inodes@.len()
                &&& f.fs.inodes@[h.ino as int].nlink == o.fs.inodes@[h.ino as int].nlink
                &&& f.fs.inodes@[h.ino as int].is_dir == o.fs.inodes@[h.ino as int].is_dir
                &&& forall|j: int| 0 <= j < o.fs.inodes@.len() && j != h.ino ==> f.fs.inodes@[j] == o.fs.inodes@[j]
                &&& f.open_files@ == o.open_files@.update(
                    i as int,
                    OpenInode { offset: (h.offset + n) as usize, ..h },
                )
                &&& f.console@ == o.console@
            },
            _ => {
                &&& r == len
                &&& f.console@ == o.console@ + o.space.vbytes(buf as int, len as int)
                &&& f.fs == o.fs
                &&& f.open_files@ == o.open_files@
            },
        }
    })
}

/// What `sys_read(fd, buf, len)` does to kernel state `o`, leaving `f` and
/// returning `r`.
pub open spec fn read_effect(o: &Kernel, f: &Kernel, fd: usize, buf: usize, len: usize, r: isize) -> bool {
    &&& (!o.can_read(fd as int) ==> r == -1 && *f == *o)
    &&& (o.can_read(fd as int) ==> {
        &&& 0 <= r <= len
        &&& f.same_task(o)
        &&& f.same_layout(o)
        &&& f.fs == o.fs
        &&& f.fd_table@ == o.fd_table@
        &&& f.console@ == o.console@
        &&& f.kept_outside(o, buf as int, r as int)
        &&& match o.fd_file(fd as int) {
            Some(FileRef::Inode(i)) => {
                let h = o.open_files@[i as int];
                let data = read_out(o.fs.content(h.ino as int), h.offset as int, len as int);
                &&& r == data.len()
                &&& f.space.vbytes(buf as int, r as int) == data
                &&& f.open_files@ == o.open_files@.update(
                    i as int,
                    OpenInode { offset: (h.offset + r) as usize, ..h },
                )
                &&& f.stdin@ == o.stdin@
            },
            _ => {
                &&& r == if len <= o.stdin@.len() { len as int } else { o.stdin@.len() as int }
                &&& f.space.vbytes(buf as int, r as int) == o.stdin@.subrange(0, r as int)
                &&& f.stdin@ == o.stdin@.subrange(r as int, o.stdin@.len() as int)
                &&& f.open_files@ == o.open_files@
            },
        }
    })
}

/// Writing `len` bytes through one descriptor and then reading `len` bytes
/// through another that opens the same file at the offset where the write
/// began hands back exactly the bytes written.
pub proof fn lemma_write_then_read(
    k0: &Kernel,
    k1: &Kernel,
    k2: &Kernel,
    wfd: usize,
    rfd: usize,
    wi: usize,
    ri: usize,
    buf: usize,
    dst: usize,
    len: usize,
    r1: isize,
    r2: isize,
)
    requires
        k0.wf(),
        k0.fd_file(wfd as int) == Some(FileRef::Inode(wi)),
        k0.fd_file(rfd as int) == Some(FileRef::Inode(ri)),
        wi != ri,
        k0.open_files@[wi as int].writable,
        k0.open_files@[ri as int].readable,
        k0.open_files@[ri as int].ino == k0.open_files@[wi as int].ino,
        k0.open_files@[ri as int].offset == k0.open_files@[wi as int].offset,
        k0.open_files@[wi as int].offset + len <= usize::MAX,
        write_effect(k0, k1, wfd, buf, len, r1),
        read_effect(k1, k2, rfd, dst, len, r2),
    ensures
        r1 == len,
        r2 == len,
        k2.space.vbytes(dst as int, len as int) == k0.space.vbytes(buf as int, len as int),
{
    let h = k0.open_files@[wi as int];
    lemma_read_back(k0.fs.content(h.ino as int), h.offset as int, k0.space.vbytes(buf as int, len as int));
    assert(k1.open_files@[ri as int] == k0.open_files@[ri as int]);
}

/// Lowest empty descriptor slot, if any.
fn free_slot(t: &Vec<Option<FileRef>>) -> (r: Option<usize>)
    ensures
        r.is_some() ==> r.unwrap() == lowest_free(t@) && r.unwrap() < t@.len(),
        r.is_none() ==> lowest_free(t@) == t@.len() && forall|j: int| 0 <= j < t@.len() ==> t@[j].is_some(),
{
    let mut i: usize = 0;
    while i < t.len()
        invariant
            i <= t@.len(),
            forall|j: int| 0 <= j < i ==> t@[j].is_some(),
        decreases t@.len() - i,
    {
        if t[i].is_none() {
            proof {
                let c = choose|c: int| 0 <= c < t@.len() && t@[c].is_none() && forall|j: int| 0 <= j < c ==> t@[j].is_some();
                assert(0 <= i < t@.len() && t@[i as int].is_none() && forall|j: int| 0 <= j < i ==> t@[j].is_some());
                if c < i {
                    assert(t@[c].is_some());
                } else if c > i {
                    assert(t@[i as int].is_some());
                }
            }
            return Some(i);
        }
        i = i + 1;
    }
    None
}

/// Writes `len` bytes from user memory at `buf` to descriptor `fd`.  Fails
/// with -1 when `fd` is out of range, empty, or not writable.  The console
/// takes every byte; a regular file takes them at its cursor, which then
/// moves past them.  Returns the number of bytes written.
pub fn sys_write(k: &mut Kernel, fd: usize, buf: usize, len: usize) -> (r: isize)
    requires
        old(k).wf(),
        old(k).can_write(fd as int) ==> old(k).space.range_mapped(buf as int, len as int),
    ensures
        final(k).wf(),
        write_effect(old(k), final(k), fd, buf, len, r),
{
    if fd >= k.fd_table.len() {
        return -1;
    }
    match k.fd_table[fd] {
        None => -1,
        Some(FileRef::Stdin) => -1,
        Some(FileRef::Stdout) => {
            proof {
                if len > 0 {
                    k.space.lemma_mapped_end(buf as int, len as int);
                }
            }
            let bytes = k.space.copy_from_user(buf, len);
            let mut i: usize = 0;
            let ghost start = k.console@;
            let ghost orig = *k;
            while i < bytes.len()
                invariant
                    orig.wf(),
                    k.space == orig.space,
                    k.fs == orig.fs,
                    k.fd_table == orig.fd_table,
                    k.open_files == orig.open_files,
                    k.stdin == orig.stdin,
                    k.same_task(&orig),
                    start == orig.console@,
                    i <= bytes@.len(),
                    k.console@ == start + bytes@.subrange(0, i as int),
                decreases bytes@.len() - i,
            {
                k.console.push(bytes[i]);
                i = i + 1;
                assert(k.console@ =~= start + bytes@.subrange(0, i as int));
            }
            assert(bytes@.subrange(0, i as int) =~= bytes@);
            len as isize
        },
        Some(FileRef::Inode(i)) => {
            let f = k.open_files[i];
            if !f.writable {
                return -1;
            }
            let n: usize = if len <= usize::MAX - f.offset { len } else { usize::MAX - f.offset };
            proof {
                if n > 0 {
                    k.space.lemma_mapped_end(buf as int, n as int);
                }
            }
            let bytes = k.space.copy_from_user(buf, n);
            k.fs.write_at(f.ino, f.offset, &bytes);
            k.open_files.set(i, OpenInode { offset: f.offset + n, ..f });
            proof {
                assert forall|j: int| 0 <= j < k.open_files@.len() implies (#[trigger] k.open_files@[j]).ino < k.fs.inodes@.len() by {
                    if j != i {
                        assert(k.open_files@[j] == old(k).open_files@[j]);
                    }
                }
            }
            n as isize
        },
    }
}

/// Reads at most `len` bytes from descriptor `fd` into user memory at
/// `buf`.  Fails with -1 when `fd` is out of range, empty, or not readable.
/// The console hands over what input it holds, up to `len` bytes; a regular
/// file hands over the bytes at its cursor, which then moves past them.
/// Returns the number of bytes read; no other user byte changes.
pub fn sys_read(k: &mut Kernel, fd: usize, buf: usize, len: usize) -> (r: isize)
    requires
        old(k).wf(),
        old(k).can_read(fd as int) ==> old(k).space.range_mapped(buf as int, len as int),
    ensures
        final(k).wf(),
        read_effect(old(k), final(k), fd, buf, len, r),
{
    if fd >= k.fd_table.len() {
        return -1;
    }
    match k.fd_table[fd] {
        None => -1,
        Some(FileRef::Stdout) => -1,
        Some(FileRef::Stdin) => {
            let avail = k.stdin.len();
            let n: usize = if len <= avail { len } else { avail };
            let mut head: Vec<u8> = Vec::new();
            let mut rest: Vec<u8> = Vec::new();
            let mut j: usize = 0;
            while j < avail
                invariant
                    avail == k.stdin@.len(),
                    n <= avail,
                    j <= avail,
                    j <= n ==> head@ == k.stdin@.subrange(0, j as int) && rest@.len() == 0,
                    j > n ==> head@ == k.stdin@.subrange(0, n as int) && rest@ == k.stdin@.subrange(n as int, j as int),
                decreases avail - j,
            {
                if j < n {
                    head.push(k.stdin[j]);
                } else {
                    rest.push(k.stdin[j]);
                }
                j = j + 1;
                assert(head@ =~= k.stdin@.subrange(0, if j <= n { j as int } else { n as int }));
                assert(j > n ==> rest@ =~= k.stdin@.subrange(n as int, j as int));
            }
            assert(head@ =~= old(k).stdin@.subrange(0, n as int));
            assert(rest@ =~= old(k).stdin@.subrange(n as int, avail as int));
            proof {
                if n > 0 {
                    k.space.lemma_mapped_end(buf as int, n as int);
                }
            }
            k.space.copy_to_user(buf, &head);
            k.stdin = rest;
            n as isize
        },
        Some(FileRef::Inode(i)) => {
            let f = k.open_files[i];
            if !f.readable {
                return -1;
            }
            let size = k.fs.inodes[f.ino].data.len();
            let data = k.fs.read_at(f.ino, f.offset, len);
            let n = data.len();
            proof {
                if n > 0 {
                    k.space.lemma_mapped_end(buf as int, n as int);
                }
            }
            k.space.copy_to_user(buf, &data);
            k.open_files.set(i, OpenInode { offset: f.offset + n, ..f });
            proof {
                assert forall|j: int| 0 <= j < k.open_files@.len() implies (#[trigger] k.open_files@[j]).ino < k.fs.inodes@.len() by {
                    if j != i {
                        assert(k.open_files@[j] == old(k).open_files@[j]);
                    }
                }
            }
            n as isize
        },
    }
}

/// Opens the file whose NUL-terminated name is at `path`, under `flags`
/// (access mode, `O_CREATE`, `O_TRUNC`), and gives it the lowest free
/// descriptor.  Fails with -1, changing nothing, when `flags` holds an
/// unknown bit, when the name does not resolve and `O_CREATE` is not given,
/// or when the descriptor table cannot grow.
pub fn sys_open(k: &mut Kernel, path: usize, flags: u32) -> (r: isize)
    requires
        old(k).wf(),
        old(k).space.terminated(path as int),
    ensures
        final(k).wf(),
        ({
            let name = old(k).space.cstr_of(path as int);
            let full = lowest_free(old(k).fd_table@) == old(k).fd_table@.len() && old(k).fd_table@.len() >= isize::MAX;
            let ok = flags_known(flags) && (flags & O_CREATE != 0 || old(k).fs.has(name)) && !full;
            &&& (!ok <==> r == -1)
            &&& (!ok ==> *final(k) == *old(k))
            &&& (ok ==> {
                let fd = lowest_free(old(k).fd_table@);
                let ino = final(k).fs.ino_of(name);
                let access = flags_access(flags);
                &&& r == fd
                &&& final(k).fs.has(name)
                &&& (flags & (O_CREATE | O_TRUNC) != 0 ==> final(k).fs.content(ino).len() == 0)
                &&& (old(k).fs.has(name) ==> ino == old(k).fs.ino_of(name))
                &&& (old(k).fs.has(name) && flags & (O_CREATE | O_TRUNC) == 0 ==> final(k).fs == old(k).fs)
                &&& (!old(k).fs.has(name) ==> ino == old(k).fs.inodes@.len())
                &&& forall|j: int| 0 <= j < old(k).fs.inodes@.len() && j != ino ==> final(k).fs.inodes@[j] == old(k).fs.inodes@[j]
                &&& final(k).open_files@ == old(k).open_files@.push(
                    OpenInode { ino: ino as usize, offset: 0, readable: access.0, writable: access.1 },
                )
                &&& final(k).fd_table@.len() == if fd < old(k).fd_table@.len() { old(k).fd_table@.len() } else { old(k).fd_table@.len() + 1 }
                &&& final(k).fd_table@ == if fd < old(k).fd_table@.len() {
                    old(k).fd_table@.update(fd, Some(FileRef::Inode(old(k).open_files@.len() as usize)))
                } else {
                    old(k).fd_table@.push(Some(FileRef::Inode(old(k).open_files@.len() as usize)))
                }
                &&& final(k).space == old(k).space
                &&& final(k).same_task(old(k))
                &&& final(k).stdin@ == old(k).stdin@
                &&& final(k).console@ == old(k).console@
            })
        }),
{
    if flags & !(O_WRONLY | O_RDWR | O_CREATE | O_TRUNC) != 0 {
        return -1;
    }
    let slot = free_slot(&k.fd_table);
    if slot.is_none() && k.fd_table.len() >= isize::MAX as usize {
        return -1;
    }
    let name = k.space.translated_str(path);
    proof {
        k.space.lemma_cstr_unique(path as int, name@, k.space.cstr_of(path as int));
    }
    let ino = match k.fs.open_file(&name, flags) {
        Some(ino) => ino,
        None => return -1,
    };
    let (readable, writable) = if flags == 0 {
        (true, false)
    } else if flags & O_WRONLY != 0 {
        (false, true)
    } else {
        (true, true)
    };
    let idx = k.open_files.len();
    k.open_files.push(OpenInode { ino, offset: 0, readable, writable });
    let fd = match slot {
        Some(fd) => {
            k.fd_table.set(fd, Some(FileRef::Inode(idx)));
            fd
        },
        None => {
            k.fd_table.push(Some(FileRef::Inode(idx)));
            k.fd_table.len() - 1
        },
    };
    proof {
        assert forall|j: int| 0 <= j < k.open_files@.len() implies (#[trigger] k.open_files@[j]).ino < k.fs.inodes@.len() by {
            if j < idx {
                assert(k.open_files@[j] == old(k).open_files@[j]);
            }
        }
        assert forall|d: int| 0 <= d < k.fd_table@.len() implies match #[trigger] k.fd_table@[d] {
            Some(FileRef::Inode(i)) => i < k.open_files@.len(),
            _ => true,
        } by {
            if d != fd {
                assert(k.fd_table@[d] == old(k).fd_table@[d]);
            }
        }
    }
    fd as isize
}

/// Empties descriptor slot `fd`.  Fails with -1 when `fd` is out of range
/// or already empty; otherwise returns 0.
pub fn sys_close(k: &mut Kernel, fd: usize) -> (r: isize)
    requires
        old(k).wf(),
    ensures
        final(k).wf(),
        r == 0 || r == -1,
        r == 0 <==> old(k).fd_file(fd as int).is_some(),
        r == -1 ==> *final(k) == *old(k),
        r == 0 ==> {
            &&& final(k).fd_table@ == old(k).fd_table@.update(fd as int, None)
            &&& final(k).space == old(k).space
            &&& final(k).fs == old(k).fs
            &&& final(k).open_files@ == old(k).open_files@
            &&& final(k).stdin@ == old(k).stdin@
            &&& final(k).console@ == old(k).console@
            &&& final(k).same_task(old(k))
        },
{
    if fd >= k.fd_table.len() {
        return -1;
    }
    if k.fd_table[fd].is_none() {
        return -1;
    }
    k.fd_table.set(fd, None);
    proof {
        assert forall|d: int| 0 <= d < k.fd_table@.len() implies match #[trigger] k.fd_table@[d] {
            Some(FileRef::Inode(i)) => i < k.open_files@.len(),
            _ => true,
        } by {
            if d != fd {
                assert(k.fd_table@[d] == old(k).fd_table@[d]);
            }
        }
    }
    0
}

/// Copies the metadata of the regular file behind `fd` to user memory at
/// `st` as a stat record, and returns 0.  Fails with -1 when `fd` is out of
/// range, empty, or a console stream, which has no metadata.
pub fn sys_fstat(k: &mut Kernel, fd: usize, st: usize) -> (r: isize)
    requires
        old(k).wf(),
        old(k).fd_file(fd as int) matches Some(FileRef::Inode(_)) ==> old(k).space.range_mapped(st as int, STAT_SIZE as int),
    ensures
        final(k).wf(),
        match old(k).fd_file(fd as int) {
            Some(FileRef::Inode(i)) => {
                let f = old(k).open_files@[i as int];
                &&& r == 0
                &&& final(k).space.vbytes(st as int, STAT_SIZE as int) == stat_bytes(stat_of(old(k), f.ino as int))
                &&& final(k).kept_outside(old(k), st as int, STAT_SIZE as int)
                &&& final(k).same_layout(old(k))
                &&& final(k).same_files(old(k))
                &&& final(k).same_task(old(k))
            },
            _ => r == -1 && *final(k) == *old(k),
        },
{
    if fd >= k.fd_table.len() {
        return -1;
    }
    match k.fd_table[fd] {
        Some(FileRef::Inode(i)) => {
            let ino = k.open_files[i].ino;
            let node = &k.fs.inodes[ino];
            let stat = Stat {
                dev: 0,
                ino: ino as u64,
                mode: if node.is_dir { S_DIR } else { S_FILE },
                nlink: node.nlink,
            };
            let bytes = stat.to_bytes();
            proof {
                k.space.lemma_mapped_end(st as int, STAT_SIZE as int);
            }
            k.space.copy_to_user(st, &bytes);
            0
        },
        _ => -1,
    }
}

/// Gives the file named at `old_name` a second name, the one at `new_name`.
/// Fails with -1 when the two names are equal, before the file system is
/// asked; otherwise returns what the file system answers: 0 when the old
/// name resolves, the new one is free and a link can be counted, else -1.
pub fn sys_linkat(k: &mut Kernel, old_name: usize, new_name: usize) -> (r: isize)
    requires
        old(k).wf(),
        old(k).space.terminated(old_name as int),
        old(k).space.terminated(new_name as int),
    ensures
        final(k).wf(),
        ({
            let o = old(k).space.cstr_of(old_name as int);
            let n = old(k).space.cstr_of(new_name as int);
            let ok = o != n && old(k).fs.has(o) && !old(k).fs.has(n)
                && old(k).fs.inodes@[old(k).fs.ino_of(o)].nlink < u32::MAX;
            &&& r == 0 || r == -1
            &&& (r == 0 <==> ok)
            &&& (!ok ==> *final(k) == *old(k))
            &&& (ok ==> {
                let ino = old(k).fs.ino_of(o);
                &&& final(k).fs.has(n)
                &&& final(k).fs.ino_of(n) == ino
                &&& final(k).fs.inodes@[ino].nlink == old(k).fs.inodes@[ino].nlink + 1
                &&& final(k).fs.content(ino) == old(k).fs.content(ino)
                &&& forall|j: int| 0 <= j < old(k).fs.inodes@.len() && j != ino ==> final(k).fs.inodes@[j] == old(k).fs.inodes@[j]
                &&& forall|m: Seq<u8>| old(k).fs.has(m) ==> final(k).fs.has(m)
                &&& final(k).space == old(k).space
                &&& final(k).open_files@ == old(k).open_files@
                &&& final(k).fd_table@ == old(k).fd_table@
                &&& final(k).same_task(old(k))
            })
        }),
{
    let o = k.space.translated_str(old_name);
    let n = k.space.translated_str(new_name);
    proof {
        k.space.lemma_cstr_unique(old_name as int, o@, k.space.cstr_of(old_name as int));
        k.space.lemma_cstr_unique(new_name as int, n@, k.space.cstr_of(new_name as int));
    }
    if crate::fs::bytes_eq(&o, &n) {
        return -1;
    }
    k.fs.linkat(&o, &n)
}

/// Removes the name at `name`: the file loses one link and its bytes are
/// reclaimed once no link is left.  Returns 0, or -1, changing nothing,
/// when the name does not resolve.
pub fn sys_unlinkat(k: &mut Kernel, name: usize) -> (r: isize)
    requires
        old(k).wf(),
        old(k).space.terminated(name as int),
    ensures
        final(k).wf(),
        ({
            let s = old(k).space.cstr_of(name as int);
            &&& r == 0 || r == -1
            &&& (r == 0 <==> old(k).fs.has(s))
            &&& (r == -1 ==> *final(k) == *old(k))
            &&& (r == 0 ==> {
                let ino = old(k).fs.ino_of(s);
                &&& !final(k).fs.has(s)
                &&& final(k).fs.inodes@[ino].nlink == if old(k).fs.inodes@[ino].nlink > 0 {
                    old(k).fs.inodes@[ino].nlink - 1
                } else {
                    0
                }
                &&& (final(k).fs.inodes@[ino].nlink == 0 ==> final(k).fs.content(ino).len() == 0)
                &&& (final(k).fs.inodes@[ino].nlink > 0 ==> final(k).fs.content(ino) == old(k).fs.content(ino))
                &&& forall|m: Seq<u8>| m != s ==> final(k).fs.has(m) == old(k).fs.has(m)
                &&& forall|j: int| 0 <= j < old(k).fs.inodes@.len() && j != ino ==> final(k).fs.inodes@[j] == old(k).fs.inodes@[j]
                &&& final(k).space == old(k).space
                &&& final(k).open_files@ == old(k).open_files@
                &&& final(k).fd_table@ == old(k).fd_table@
                &&& final(k).same_task(old(k))
            })
        }),
{
    let s = k.space.translated_str(name);
    proof {
        k.space.lemma_cstr_unique(name as int, s@, k.space.cstr_of(name as int));
    }
    k.fs.unlinkat(&s)
}

} // verus!
