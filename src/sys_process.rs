//! Process syscalls: leaving and yielding, the clock, accounting, and the
//! memory-mapping calls.
use vstd::prelude::*;
use vstd::arithmetic::div_mod::lemma_div_is_ordered;
use crate::config::PAGE_SIZE;
use crate::mm::PERM_U;
use crate::page::{
    aligned, ceil_vpn, floor_vpn, is_aligned, lemma_frame_apart, lemma_split, offset_of, round_up_vpn,
    vpn_of,
};
use crate::record::{
    task_info_bytes, timeval_bytes, timeval_of, TaskInfo, TimeVal, TASK_INFO_SIZE, TIMEVAL_SIZE,
};
use crate::task::{Kernel, TaskStatus};

verus! {

/// Permission bits of a user mapping made with protection `prot`: its read,
/// write and execute bits moved into place, and the user-accessible bit.
pub open spec fn map_perm(prot: usize) -> u8 {
    (prot * 2 + PERM_U) as u8
}

/// The protection holds only read, write and execute bits, and one of them.
pub open spec fn prot_ok(prot: usize) -> bool {
    1 <= prot <= 7
}

/// The break after asking to move it by `size`: moved when it stays within
/// `[bottom, top]`, else left where it was.
pub open spec fn brk_after(bottom: int, top: int, brk: int, size: int) -> int {
    if bottom <= brk + size <= top {
        brk + size
    } else {
        brk
    }
}

/// Moving the break by zero leaves it where it is; moving it by `n`, when
/// that is granted, and then by `-n` brings it back where it was.
pub proof fn lemma_brk_restore(bottom: int, top: int, brk: int, n: int)
    requires
        bottom <= brk <= top,
        bottom <= brk + n <= top,
    ensures
        brk_after(bottom, top, brk, 0) == brk,
        brk_after(bottom, top, brk_after(bottom, top, brk, n), -n) == brk,
{
}

/// Once every page of one range is mapped, a second range that shares a page
/// with it is not free, so `sys_mmap` refuses it and changes nothing.
pub proof fn lemma_mmap_overlap(k: &Kernel, first: int, last: int, start: usize, len: usize, vpn: int)
    requires
        forall|v: int| first <= v < last ==> #[trigger] k.space.mapped(v),
        first <= vpn < last,
        vpn_of(start as int) <= vpn < ceil_vpn(start + len),
    ensures
        !k.space.range_free(vpn_of(start as int), ceil_vpn(start + len)),
{
    assert(k.space.mapped(vpn));
    assert(!k.space.page_free(vpn));
}

/// Marks the task finished with `exit_code`; the scheduler never runs it again.
pub fn sys_exit(k: &mut Kernel, exit_code: i32)
    requires
        old(k).wf(),
    ensures
        final(k).wf(),
        final(k).status == TaskStatus::Zombie,
        final(k).exit_code == exit_code,
        final(k).space == old(k).space,
        final(k).same_files(old(k)),
        final(k).syscall_times@ == old(k).syscall_times@,
        final(k).clock_us == old(k).clock_us,
        final(k).program_brk == old(k).program_brk,
{
    k.status = TaskStatus::Zombie;
    k.exit_code = exit_code;
}

/// Gives the processor up: the task becomes ready and, once the scheduler
/// picks it again, the call returns 0.
pub fn sys_yield(k: &mut Kernel) -> (r: isize)
    requires
        old(k).wf(),
    ensures
        final(k).wf(),
        r == 0,
        final(k).status == TaskStatus::Ready,
        final(k).space == old(k).space,
        final(k).same_files(old(k)),
        final(k).syscall_times@ == old(k).syscall_times@,
        final(k).clock_us == old(k).clock_us,
        final(k).program_brk == old(k).program_brk,
{
    k.status = TaskStatus::Ready;
    0
}

/// Copies the clock, as whole seconds and remaining microseconds, to user
/// memory at `ts`, and returns 0.  The time-zone argument is not used.
pub fn sys_get_time(k: &mut Kernel, ts: usize, _tz: usize) -> (r: isize)
    requires
        old(k).wf(),
        old(k).space.range_mapped(ts as int, TIMEVAL_SIZE as int),
    ensures
        final(k).wf(),
        r == 0,
        final(k).space.vbytes(ts as int, TIMEVAL_SIZE as int) == timeval_bytes(timeval_of(old(k).clock_us as int)),
        final(k).kept_outside(old(k), ts as int, TIMEVAL_SIZE as int),
        final(k).same_layout(old(k)),
        final(k).same_files(old(k)),
        final(k).same_task(old(k)),
{
    let tv = TimeVal::from_us(k.clock_us);
    let bytes = tv.to_bytes();
    proof {
        k.space.lemma_mapped_end(ts as int, TIMEVAL_SIZE as int);
    }
    k.space.copy_to_user(ts, &bytes);
    0
}

/// Copies the task's status, its syscall counters and the milliseconds since
/// it first ran to user memory at `ti`, and returns 0.
pub fn sys_task_info(k: &mut Kernel, ti: usize) -> (r: isize)
    requires
        old(k).wf(),
        old(k).space.range_mapped(ti as int, TASK_INFO_SIZE as int),
    ensures
        final(k).wf(),
        r == 0,
        final(k).space.vbytes(ti as int, TASK_INFO_SIZE as int) == task_info_bytes(
            old(k).status,
            old(k).syscall_times@,
            (old(k).clock_us / 1000 - old(k).start_ms) as usize,
        ),
        final(k).kept_outside(old(k), ti as int, TASK_INFO_SIZE as int),
        final(k).same_layout(old(k)),
        final(k).same_files(old(k)),
        final(k).same_task(old(k)),
{
    let mut times: Vec<u32> = Vec::new();
    let mut i: usize = 0;
    while i < k.syscall_times.len()
        invariant
            i <= k.syscall_times@.len(),
            times@ == k.syscall_times@.subrange(0, i as int),
        decreases k.syscall_times@.len() - i,
    {
        times.push(k.syscall_times[i]);
        i = i + 1;
        assert(times@ =~= k.syscall_times@.subrange(0, i as int));
    }
    assert(times@ =~= k.syscall_times@);
    let info = TaskInfo { status: k.status, syscall_times: times, time: k.clock_us / 1000 - k.start_ms };
    let bytes = info.to_bytes();
    proof {
        k.space.lemma_mapped_end(ti as int, TASK_INFO_SIZE as int);
    }
    k.space.copy_to_user(ti, &bytes);
    0
}

/// Maps `[start, start + len)` with protection `prot` (bit 0 read, bit 1
/// write, bit 2 execute) to fresh zeroed frames, and returns 0.  Fails with
/// -1, changing nothing, when `start` is not page-aligned, `prot` is zero or
/// holds other bits, the range passes the largest address, or the memory
/// manager refuses it: a page of the range is already mapped or lies outside
/// the address space, or frames run short.  Either every page is mapped or
/// none is.
pub fn sys_mmap(k: &mut Kernel, start: usize, len: usize, prot: usize) -> (r: isize)
    requires
        old(k).wf(),
    ensures
        final(k).wf(),
        ({
            let first = vpn_of(start as int);
            let last = ceil_vpn(start + len);
            let ok = aligned(start as int) && prot_ok(prot) && start + len <= usize::MAX
                && old(k).space.range_free(first, last)
                && last - first <= old(k).space.spare();
            &&& r == 0 || r == -1
            &&& (r == 0 <==> ok)
            &&& (!ok ==> *final(k) == *old(k))
            &&& (ok ==> {
                &&& final(k).space.ptes@.len() == old(k).space.ptes@.len()
                &&& forall|v: int| first <= v < last ==> #[trigger] final(k).space.mapped_as(v, map_perm(prot))
                &&& forall|v: int| 0 <= v < old(k).space.ptes@.len() && !(first <= v < last)
                    ==> #[trigger] final(k).space.ptes@[v] == old(k).space.ptes@[v]
                &&& forall|x: int| x >= 0 && old(k).space.mapped(vpn_of(x))
                    ==> #[trigger] final(k).space.vbyte(x) == old(k).space.vbyte(x)
                &&& final(k).same_files(old(k))
                &&& final(k).same_task(old(k))
            })
        }),
{
    if !is_aligned(start) {
        return -1;
    }
    if prot & !7usize != 0 || prot & 7usize == 0 {
        assert(!(1 <= prot && prot <= 7)) by (bit_vector)
            requires
                prot & !7usize != 0 || prot & 7usize == 0,
        ;
        return -1;
    }
    assert(1 <= prot && prot <= 7) by (bit_vector)
        requires
            !(prot & !7usize != 0 || prot & 7usize == 0),
    ;
    if len > usize::MAX - start {
        return -1;
    }
    let first = floor_vpn(start);
    let last = round_up_vpn(start + len);
    proof {
        lemma_div_is_ordered(start as int, start + len + PAGE_SIZE - 1, PAGE_SIZE as int);
        assert(vpn_of(start as int) <= ceil_vpn(start + len));
    }
    assert(first <= last);
    if !k.space.pages_free(first, last) {
        return -1;
    }
    if !k.space.has_frames(last - first) {
        return -1;
    }
    let perm: u8 = (prot as u8) * 2 + PERM_U;
    let ghost orig = *k;
    let mut v: usize = first;
    while v < last
        invariant
            orig.wf(),
            k.wf(),
            first <= v <= last,
            orig.space.range_free(first as int, last as int),
            last - first <= orig.space.spare(),
            k.space.spare() == orig.space.spare() - (v - first),
            k.space.max_frames == orig.space.max_frames,
            k.space.ptes@.len() == orig.space.ptes@.len(),
            k.same_files(&orig),
            k.same_task(&orig),
            perm == map_perm(prot),
            forall|w: int| first <= w < v ==> #[trigger] k.space.mapped_as(w, perm),
            forall|w: int| 0 <= w < orig.space.ptes@.len() && !(first <= w < v)
                ==> #[trigger] k.space.ptes@[w] == orig.space.ptes@[w],
            forall|x: int| x >= 0 && orig.space.mapped(vpn_of(x))
                ==> #[trigger] k.space.vbyte(x) == orig.space.vbyte(x),
        decreases last - v,
    {
        assert(orig.space.page_free(v as int));
        assert(k.space.ptes@[v as int] == orig.space.ptes@[v as int]);
        let ghost before = k.space;
        let ppn = k.space.map_page(v, perm);
        proof {
            assert forall|w: int| first <= w < v + 1 implies #[trigger] k.space.mapped_as(w, perm) by {
                if w < v {
                    assert(before.mapped_as(w, perm));
                }
            }
            assert forall|x: int| x >= 0 && orig.space.mapped(vpn_of(x))
                implies #[trigger] k.space.vbyte(x) == orig.space.vbyte(x) by {
                assert(before.vbyte(x) == orig.space.vbyte(x));
                assert(!orig.space.page_free(vpn_of(x)));
                assert(vpn_of(x) != v);
                assert(before.ptes@[vpn_of(x)] == orig.space.ptes@[vpn_of(x)]);
                assert(before.mapped(vpn_of(x)));
                before.lemma_pa_in_frames(x);
                lemma_split(x);
                assert(k.space.ptes@[v as int].is_some() && k.space.ptes@[vpn_of(x)].is_some());
                lemma_frame_apart(before.entry(vpn_of(x)).ppn as int, offset_of(x), ppn as int);
            }
        }
        v = v + 1;
    }
    0
}

/// Unmaps `[start, start + len)` and returns 0.  Fails with -1, changing
/// nothing, when `start` is not page-aligned, the range passes the largest
/// address, or a page of the range is not mapped.  The range's frames are
/// freed for later mappings; pages outside the range keep their mappings and
/// their bytes.
pub fn sys_munmap(k: &mut Kernel, start: usize, len: usize) -> (r: isize)
    requires
        old(k).wf(),
    ensures
        final(k).wf(),
        ({
            let first = vpn_of(start as int);
            let last = ceil_vpn(start + len);
            let ok = aligned(start as int) && start + len <= usize::MAX && old(k).space.range_taken(first, last);
            &&& r == 0 || r == -1
            &&& (r == 0 <==> ok)
            &&& (!ok ==> *final(k) == *old(k))
            &&& (ok ==> {
                &&& final(k).space.ptes@.len() == old(k).space.ptes@.len()
                &&& forall|v: int| first <= v < last ==> !#[trigger] final(k).space.mapped(v)
                &&& forall|v: int| 0 <= v < old(k).space.ptes@.len() && !(first <= v < last)
                    ==> #[trigger] final(k).space.ptes@[v] == old(k).space.ptes@[v]
                &&& forall|x: int| x >= 0 && final(k).space.mapped(vpn_of(x))
                    ==> #[trigger] final(k).space.vbyte(x) == old(k).space.vbyte(x)
                &&& final(k).same_files(old(k))
                &&& final(k).same_task(old(k))
            })
        }),
{
    if !is_aligned(start) {
        return -1;
    }
    if len > usize::MAX - start {
        return -1;
    }
    let first = floor_vpn(start);
    let last = round_up_vpn(start + len);
    proof {
        lemma_div_is_ordered(start as int, start + len + PAGE_SIZE - 1, PAGE_SIZE as int);
        assert(vpn_of(start as int) <= ceil_vpn(start + len));
    }
    assert(first <= last);
    if !k.space.pages_mapped(first, last) {
        return -1;
    }
    let ghost orig = *k;
    let mut v: usize = first;
    while v < last
        invariant
            orig.wf(),
            k.wf(),
            first <= v <= last,
            orig.space.range_taken(first as int, last as int),
            k.space.frames@ == orig.space.frames@,
            k.space.max_frames == orig.space.max_frames,
            k.space.ptes@.len() == orig.space.ptes@.len(),
            k.same_files(&orig),
            k.same_task(&orig),
            forall|w: int| first <= w < v ==> !#[trigger] k.space.mapped(w),
            forall|w: int| 0 <= w < orig.space.ptes@.len() && !(first <= w < v)
                ==> #[trigger] k.space.ptes@[w] == orig.space.ptes@[w],
        decreases last - v,
    {
        assert(orig.space.mapped(v as int));
        assert(k.space.ptes@[v as int] == orig.space.ptes@[v as int]);
        let ghost before = k.space;
        k.space.unmap_page(v);
        proof {
            assert forall|w: int| first <= w < v + 1 implies !#[trigger] k.space.mapped(w) by {
                if w < v {
                    assert(!before.mapped(w));
                }
            }
        }
        v = v + 1;
    }
    proof {
        assert forall|x: int| x >= 0 && k.space.mapped(vpn_of(x))
            implies #[trigger] k.space.vbyte(x) == orig.space.vbyte(x) by {
            assert(k.space.ptes@[vpn_of(x)] == orig.space.ptes@[vpn_of(x)]);
        }
    }
    0
}

/// Moves the program break by `size` bytes (a negative size shrinks the
/// heap) and returns the break as it was before.  Fails with -1, changing
/// nothing, when the new break would fall below the heap's base or rise
/// above the most the memory manager grants.
pub fn sys_sbrk(k: &mut Kernel, size: i32) -> (r: isize)
    requires
        old(k).wf(),
    ensures
        final(k).wf(),
        ({
            let nb = old(k).program_brk + size;
            let ok = old(k).heap_bottom <= nb <= old(k).heap_top;
            &&& final(k).program_brk == brk_after(old(k).heap_bottom as int, old(k).heap_top as int, old(k).program_brk as int, size as int)
            &&& (ok ==> r == old(k).program_brk)
            &&& (!ok ==> r == -1 && *final(k) == *old(k))
            &&& final(k).space == old(k).space
            &&& final(k).same_files(old(k))
            &&& final(k).heap_bottom == old(k).heap_bottom
            &&& final(k).heap_top == old(k).heap_top
            &&& final(k).syscall_times@ == old(k).syscall_times@
            &&& final(k).clock_us == old(k).clock_us
            &&& final(k).status == old(k).status
        }),
{
    let old_brk = k.program_brk;
    let new_brk: usize = if size < 0 {
        let down = (-(size as i64)) as usize;
        if down > old_brk - k.heap_bottom {
            return -1;
        }
        old_brk - down
    } else {
        let up = size as usize;
        if up > k.heap_top - old_brk {
            return -1;
        }
        old_brk + up
    };
    k.program_brk = new_brk;
    old_brk as isize
}

} // verus!
