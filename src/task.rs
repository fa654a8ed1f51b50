//! The state a syscall works on: the calling task (its address space,
//! descriptor table, accounting and program break) and the kernel-wide
//! collaborators it reaches (file system, open-file objects, console, clock).
use vstd::prelude::*;
use crate::config::{MAX_SYSCALL_NUM, PAGE_SIZE};
use crate::fs::FileSystem;
use crate::mm::AddressSpace;
use crate::page::vpn_of;

verus! {

/// Where a task stands in its life cycle.
#[derive(Clone, Copy, Debug, PartialEq, Eq, Structural)]
pub enum TaskStatus {
    Ready,
    Running,
    Zombie,
}

/// What a descriptor-table slot refers to.
#[derive(Clone, Copy, Debug, PartialEq, Eq, Structural)]
pub enum FileRef {
    /// The console's input stream: readable only.
    Stdin,
    /// The console's output stream: writable only.
    Stdout,
    /// An open regular file, by its index among the open-file objects.
    Inode(usize),
}

/// An open regular file: shared by every slot that refers to it, with its
/// own cursor and capabilities.
#[derive(Clone, Copy, Debug, PartialEq, Eq, Structural)]
pub struct OpenInode {
    pub ino: usize,
    pub offset: usize,
    pub readable: bool,
    pub writable: bool,
}

/// The calling task together with the kernel state it reaches.
pub struct Kernel {
    pub space: AddressSpace,
    pub fs: FileSystem,
    pub open_files: Vec<OpenInode>,
    pub fd_table: Vec<Option<FileRef>>,
    /// Console input not read yet.
    pub stdin: Vec<u8>,
    /// Console output so far.
    pub console: Vec<u8>,
    pub syscall_times: Vec<u32>,
    pub status: TaskStatus,
    pub exit_code: i32,
    /// Time in milliseconds at which the task first ran.
    pub start_ms: usize,
    /// Monotonic clock in microseconds.
    pub clock_us: usize,
    pub heap_bottom: usize,
    pub program_brk: usize,
    /// Highest break the memory manager grants.
    pub heap_top: usize,
}

/// Counter vector after one more call of syscall `id`; an unknown number is
/// not counted, and a counter stops at its maximum.
pub open spec fn bump(times: Seq<u32>, id: int) -> Seq<u32> {
    if 0 <= id < times.len() && times[id] < u32::MAX {
        times.update(id, (times[id] + 1) as u32)
    } else {
        times
    }
}

/// Counter vector after `k` calls of syscall `id`.
pub open spec fn bump_times(times: Seq<u32>, id: int, k: nat) -> Seq<u32>
    decreases k,
{
    if k == 0 {
        times
    } else {
        bump(bump_times(times, id, (k - 1) as nat), id)
    }
}

/// After exactly `k` calls of a recognised syscall, starting from a zero
/// counter, that syscall's counter reads `k` (while `k` fits in a counter),
/// and no other counter moves.
pub proof fn lemma_count_calls(times: Seq<u32>, id: int, k: nat)
    requires
        0 <= id < times.len(),
        times[id] == 0,
        k <= u32::MAX,
    ensures
        bump_times(times, id, k).len() == times.len(),
        bump_times(times, id, k)[id] == k,
        forall|j: int| 0 <= j < times.len() && j != id ==> bump_times(times, id, k)[j] == times[j],
    decreases k,
{
    if k > 0 {
        lemma_count_calls(times, id, (k - 1) as nat);
    }
}

impl Kernel {
    /// Internal consistency of the task and kernel state.
    pub open spec fn wf(&self) -> bool {
        &&& self.space.wf()
        &&& self.fs.wf()
        &&& forall|i: int| 0 <= i < self.open_files@.len() ==> (#[trigger] self.open_files@[i]).ino < self.fs.inodes@.len()
        &&& forall|fd: int|
            0 <= fd < self.fd_table@.len() ==> match #[trigger] self.fd_table@[fd] {
                Some(FileRef::Inode(i)) => i < self.open_files@.len(),
                _ => true,
            }
        &&& self.fd_table@.len() <= isize::MAX
        &&& self.syscall_times@.len() == MAX_SYSCALL_NUM
        &&& self.start_ms <= self.clock_us / 1000
        &&& self.heap_bottom <= self.program_brk <= self.heap_top
        &&& self.heap_top <= isize::MAX
    }

    /// Accounting, clock, status and program break agree.
    pub open spec fn same_task(&self, o: &Kernel) -> bool {
        &&& self.syscall_times@ == o.syscall_times@
        &&& self.status == o.status
        &&& self.exit_code == o.exit_code
        &&& self.start_ms == o.start_ms
        &&& self.clock_us == o.clock_us
        &&& self.heap_bottom == o.heap_bottom
        &&& self.program_brk == o.program_brk
        &&& self.heap_top == o.heap_top
    }

    /// File system, open files, descriptors and console agree.
    pub open spec fn same_files(&self, o: &Kernel) -> bool {
        &&& self.fs == o.fs
        &&& self.open_files@ == o.open_files@
        &&& self.fd_table@ == o.fd_table@
        &&& self.stdin@ == o.stdin@
        &&& self.console@ == o.console@
    }

    /// The page table and the frame count agree.
    pub open spec fn same_layout(&self, o: &Kernel) -> bool {
        &&& self.space.ptes@ == o.space.ptes@
        &&& self.space.nframes == o.space.nframes
        &&& self.space.free@ == o.space.free@
        &&& self.space.max_frames == o.space.max_frames
    }

    /// Every byte that `o` maps outside `[va, va + len)` reads the same here.
    pub open spec fn kept_outside(&self, o: &Kernel, va: int, len: int) -> bool {
        forall|x: int|
            x >= 0 && o.space.mapped(vpn_of(x)) && !(va <= x < va + len) ==> #[trigger] self.space.vbyte(x)
                == o.space.vbyte(x)
    }

    /// What descriptor `fd` refers to, if it is in range and not empty.
    pub open spec fn fd_file(&self, fd: int) -> Option<FileRef> {
        if 0 <= fd < self.fd_table@.len() {
            self.fd_table@[fd]
        } else {
            None
        }
    }

    /// Descriptor `fd` refers to an object that can be written.
    pub open spec fn can_write(&self, fd: int) -> bool {
        match self.fd_file(fd) {
            Some(FileRef::Stdout) => true,
            Some(FileRef::Inode(i)) => self.open_files@[i as int].writable,
            _ => false,
        }
    }

    /// Descriptor `fd` refers to an object that can be read.
    pub open spec fn can_read(&self, fd: int) -> bool {
        match self.fd_file(fd) {
            Some(FileRef::Stdin) => true,
            Some(FileRef::Inode(i)) => self.open_files@[i as int].readable,
            _ => false,
        }
    }

    /// A closed descriptor refers to nothing: reading, writing and `fstat`
    /// through it fail until `sys_open` hands the slot out again.
    pub proof fn lemma_closed_descriptor(&self, fd: int)
        requires
            self.fd_file(fd).is_none(),
        ensures
            !self.can_read(fd),
            !self.can_write(fd),
            !(self.fd_file(fd) matches Some(FileRef::Inode(_))),
    {
    }

    /// A fresh running task on an empty file system: descriptors 0, 1 and 2
    /// are the console (input, output, output), no page is mapped, every
    /// counter is zero and the break sits at `heap_bottom`.
    pub fn new(pages: usize, max_frames: usize, heap_bottom: usize, heap_top: usize) -> (r: Kernel)
        requires
            max_frames * PAGE_SIZE <= usize::MAX,
            pages * PAGE_SIZE <= isize::MAX,
            heap_bottom <= heap_top <= isize::MAX,
        ensures
            r.wf(),
            r.space.ptes@.len() == pages,
            r.space.max_frames == max_frames,
            r.space.nframes == 0,
            r.space.free@.len() == 0,
            forall|v: int| !r.space.mapped(v),
            r.fd_table@ == seq![Some(FileRef::Stdin), Some(FileRef::Stdout), Some(FileRef::Stdout)],
            r.open_files@.len() == 0,
            r.fs.entries@.len() == 0,
            r.fs.inodes@.len() == 0,
            r.stdin@.len() == 0,
            r.console@.len() == 0,
            forall|i: int| 0 <= i < MAX_SYSCALL_NUM ==> r.syscall_times@[i] == 0,
            r.status == TaskStatus::Running,
            r.clock_us == 0,
            r.start_ms == 0,
            r.heap_bottom == heap_bottom,
            r.program_brk == heap_bottom,
            r.heap_top == heap_top,
    {
        let mut times: Vec<u32> = Vec::new();
        let mut i: usize = 0;
        while i < MAX_SYSCALL_NUM
            invariant
                i <= MAX_SYSCALL_NUM,
                times@.len() == i,
                forall|k: int| 0 <= k < i ==> times@[k] == 0,
            decreases MAX_SYSCALL_NUM - i,
        {
            times.push(0);
            i = i + 1;
        }
        let fd_table = vec![Some(FileRef::Stdin), Some(FileRef::Stdout), Some(FileRef::Stdout)];
        assert(fd_table@ =~= seq![Some(FileRef::Stdin), Some(FileRef::Stdout), Some(FileRef::Stdout)]);
        Kernel {
            space: AddressSpace::new(pages, max_frames),
            fs: FileSystem::new(),
            open_files: Vec::new(),
            fd_table,
            stdin: Vec::new(),
            console: Vec::new(),
            syscall_times: times,
            status: TaskStatus::Running,
            exit_code: 0,
            start_ms: 0,
            clock_us: 0,
            heap_bottom,
            program_brk: heap_bottom,
            heap_top,
        }
    }

    /// Counts one call of syscall `id`, as the dispatcher does before it
    /// runs the call.  Numbers outside the recognised range are not counted.
    pub fn record_syscall(&mut self, id: usize)
        requires
            old(self).wf(),
        ensures
            final(self).wf(),
            final(self).syscall_times@ == bump(old(self).syscall_times@, id as int),
            final(self).space == old(self).space,
            final(self).fs == old(self).fs,
            final(self).fd_table@ == old(self).fd_table@,
            final(self).open_files@ == old(self).open_files@,
            final(self).clock_us == old(self).clock_us,
            final(self).status == old(self).status,
    {
        if id < self.syscall_times.len() && self.syscall_times[id] < u32::MAX {
            let c = self.syscall_times[id];
            self.syscall_times.set(id, c + 1);
        }
    }

    /// Advances the clock by `us` microseconds.
    pub fn tick(&mut self, us: usize)
        requires
            old(self).wf(),
            old(self).clock_us + us <= usize::MAX,
        ensures
            final(self).wf(),
            final(self).clock_us == old(self).clock_us + us,
            final(self).space == old(self).space,
            final(self).fs == old(self).fs,
            final(self).fd_table@ == old(self).fd_table@,
            final(self).open_files@ == old(self).open_files@,
            final(self).syscall_times@ == old(self).syscall_times@,
            final(self).status == old(self).status,
            final(self).program_brk == old(self).program_brk,
    {
        let before = self.clock_us;
        self.clock_us = before + us;
        let now = self.clock_us;
        assert(before / 1000 <= now / 1000) by (nonlinear_arith)
            requires
                before <= now,
        ;
    }

    /// Appends console input for later reads of descriptor 0.
    pub fn feed_stdin(&mut self, bytes: &Vec<u8>)
        requires
            old(self).wf(),
        ensures
            final(self).wf(),
            final(self).stdin@ == old(self).stdin@ + bytes@,
            final(self).space == old(self).space,
            final(self).fs == old(self).fs,
            final(self).fd_table@ == old(self).fd_table@,
            final(self).open_files@ == old(self).open_files@,
    {
        let mut i: usize = 0;
        let ghost start = self.stdin@;
        let ghost orig = *self;
        while i < bytes.len()
            invariant
                orig.wf(),
                self.space == orig.space,
                self.fs == orig.fs,
                self.fd_table == orig.fd_table,
                self.open_files == orig.open_files,
                self.syscall_times == orig.syscall_times,
                self.start_ms == orig.start_ms,
                self.clock_us == orig.clock_us,
                self.heap_bottom == orig.heap_bottom,
                self.program_brk == orig.program_brk,
                self.heap_top == orig.heap_top,
                i <= bytes@.len(),
                self.stdin@ == start + bytes@.subrange(0, i as int),
            decreases bytes@.len() - i,
        {
            self.stdin.push(bytes[i]);
            i = i + 1;
            assert(self.stdin@ =~= start + bytes@.subrange(0, i as int));
        }
        assert(bytes@.subrange(0, i as int) =~= bytes@);
    }

    /// The scheduler picks the task again.
    pub fn resume(&mut self)
        requires
            old(self).wf(),
            old(self).status != TaskStatus::Zombie,
        ensures
            final(self).wf(),
            final(self).status == TaskStatus::Running,
            final(self).space == old(self).space,
            final(self).fs == old(self).fs,
            final(self).fd_table@ == old(self).fd_table@,
            final(self).open_files@ == old(self).open_files@,
            final(self).syscall_times@ == old(self).syscall_times@,
            final(self).clock_us == old(self).clock_us,
    {
        self.status = TaskStatus::Running;
    }
}

} // verus!
