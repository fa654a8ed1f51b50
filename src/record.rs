//! The fixed layouts of the records that syscalls copy to user memory, all
//! little-endian: a time value, a stat record and a task-information record.
use vstd::prelude::*;
use crate::task::TaskStatus;
use vstd::arithmetic::div_mod::{
    lemma_div_is_ordered_by_denominator, lemma_div_pos_is_pos, lemma_fundamental_div_mod,
    lemma_mod_pos_bound,
};

verus! {

/// Bytes of a stat record.
pub const STAT_SIZE: usize = 80;

/// Bytes of a time value.
pub const TIMEVAL_SIZE: usize = 16;

/// Bytes of a task-information record.
pub const TASK_INFO_SIZE: usize = 2016;

/// The low `n` bytes of `x`, least significant first.
pub open spec fn le_bytes(x: u64, n: nat) -> Seq<u8> {
    Seq::new(n, |i: int| ((x >> ((8 * i) as u64)) & 0xff) as u8)
}

/// `n` zero bytes.
pub open spec fn zeros(n: nat) -> Seq<u8> {
    Seq::new(n, |i: int| 0u8)
}

/// Four bytes per counter, in order.
pub open spec fn counts_bytes(times: Seq<u32>) -> Seq<u8>
    decreases times.len(),
{
    if times.len() == 0 {
        Seq::empty()
    } else {
        counts_bytes(times.drop_last()) + le_bytes(times.last() as u64, 4)
    }
}

/// Appends the low `n` bytes of `x`, least significant first.
pub fn push_le(out: &mut Vec<u8>, x: u64, n: usize)
    requires
        n <= 8,
    ensures
        final(out)@ == old(out)@ + le_bytes(x, n as nat),
{
    let ghost start = out@;
    let mut i: usize = 0;
    while i < n
        invariant
            i <= n <= 8,
            out@ == start + le_bytes(x, i as nat),
        decreases n - i,
    {
        let shift: u64 = (8 * i) as u64;
        out.push(((x >> shift) & 0xff) as u8);
        i = i + 1;
        assert(out@ =~= start + le_bytes(x, i as nat));
    }
}

/// Appends `n` zero bytes.
pub fn push_zeros(out: &mut Vec<u8>, n: usize)
    ensures
        final(out)@ == old(out)@ + zeros(n as nat),
{
    let ghost start = out@;
    let mut i: usize = 0;
    while i < n
        invariant
            i <= n,
            out@ == start + zeros(i as nat),
        decreases n - i,
    {
        out.push(0);
        i = i + 1;
        assert(out@ =~= start + zeros(i as nat));
    }
}

/// File metadata at the instant of the call.
#[derive(Clone, Copy, Debug, PartialEq, Eq, Structural)]
pub struct Stat {
    pub dev: u64,
    pub ino: u64,
    pub mode: u32,
    pub nlink: u32,
}

/// Layout of a stat record: device, inode, mode, link count, then seven
/// reserved words of zero.
pub open spec fn stat_bytes(st: Stat) -> Seq<u8> {
    le_bytes(st.dev, 8) + le_bytes(st.ino, 8) + le_bytes(st.mode as u64, 4) + le_bytes(
        st.nlink as u64,
        4,
    ) + zeros(56)
}

impl Stat {
    /// The record as it is laid out in user memory.
    pub fn to_bytes(&self) -> (r: Vec<u8>)
        ensures
            r@ == stat_bytes(*self),
            r@.len() == STAT_SIZE,
    {
        let mut out: Vec<u8> = Vec::new();
        push_le(&mut out, self.dev, 8);
        push_le(&mut out, self.ino, 8);
        push_le(&mut out, self.mode as u64, 4);
        push_le(&mut out, self.nlink as u64, 4);
        push_zeros(&mut out, 56);
        assert(out@ =~= stat_bytes(*self));
        out
    }
}

/// A time value: whole seconds and the remaining microseconds.
#[derive(Clone, Copy, Debug, PartialEq, Eq, Structural)]
pub struct TimeVal {
    pub sec: usize,
    pub usec: usize,
}

/// The time value of a clock reading in microseconds.
pub open spec fn timeval_of(us: int) -> TimeVal {
    TimeVal { sec: (us / 1_000_000) as usize, usec: (us % 1_000_000) as usize }
}

/// Microseconds that a time value stands for.
pub open spec fn timeval_us(tv: TimeVal) -> int {
    tv.sec * 1_000_000 + tv.usec
}

/// Time values of two clock readings keep their order: a later reading never
/// reports fewer microseconds.
pub proof fn lemma_time_monotonic(a: usize, b: usize)
    requires
        a <= b,
    ensures
        timeval_us(timeval_of(a as int)) == a,
        timeval_us(timeval_of(a as int)) <= timeval_us(timeval_of(b as int)),
{
    assert(timeval_us(timeval_of(a as int)) == a) by {
        lemma_fundamental_div_mod(a as int, 1_000_000);
        lemma_div_pos_is_pos(a as int, 1_000_000);
        lemma_div_is_ordered_by_denominator(a as int, 1, 1_000_000);
        lemma_mod_pos_bound(a as int, 1_000_000);
    }
    assert(timeval_us(timeval_of(b as int)) == b) by {
        lemma_fundamental_div_mod(b as int, 1_000_000);
        lemma_div_pos_is_pos(b as int, 1_000_000);
        lemma_div_is_ordered_by_denominator(b as int, 1, 1_000_000);
        lemma_mod_pos_bound(b as int, 1_000_000);
    }
}

/// Layout of a time value: seconds, then microseconds, one word each.
pub open spec fn timeval_bytes(tv: TimeVal) -> Seq<u8> {
    le_bytes(tv.sec as u64, 8) + le_bytes(tv.usec as u64, 8)
}

impl TimeVal {
    /// Splits a clock reading in microseconds.
    pub fn from_us(us: usize) -> (r: TimeVal)
        ensures
            r == timeval_of(us as int),
            r.sec * 1_000_000 + r.usec == us,
            r.usec < 1_000_000,
    {
        TimeVal { sec: us / 1_000_000, usec: us % 1_000_000 }
    }

    /// The value as it is laid out in user memory.
    pub fn to_bytes(&self) -> (r: Vec<u8>)
        ensures
            r@ == timeval_bytes(*self),
            r@.len() == TIMEVAL_SIZE,
    {
        let mut out: Vec<u8> = Vec::new();
        push_le(&mut out, self.sec as u64, 8);
        push_le(&mut out, self.usec as u64, 8);
        assert(out@ =~= timeval_bytes(*self));
        out
    }
}

/// Numeric code of a status in a task-information record.
pub open spec fn status_code(s: TaskStatus) -> u32 {
    match s {
        TaskStatus::Ready => 1,
        TaskStatus::Running => 2,
        TaskStatus::Zombie => 3,
    }
}

/// Numeric code of a status in a task-information record.
pub fn status_to_code(s: TaskStatus) -> (r: u32)
    ensures
        r == status_code(s),
{
    match s {
        TaskStatus::Ready => 1,
        TaskStatus::Running => 2,
        TaskStatus::Zombie => 3,
    }
}

/// Task information: status, one counter per syscall number, and the
/// milliseconds since the task first ran.
pub struct TaskInfo {
    pub status: TaskStatus,
    pub syscall_times: Vec<u32>,
    pub time: usize,
}

/// Layout of a task-information record: status word, the counters, four
/// bytes of padding, then the elapsed time as one word.
pub open spec fn task_info_bytes(status: TaskStatus, times: Seq<u32>, time: usize) -> Seq<u8> {
    le_bytes(status_code(status) as u64, 4) + counts_bytes(times) + zeros(4) + le_bytes(
        time as u64,
        8,
    )
}

/// Each counter takes four bytes.
pub proof fn lemma_counts_len(times: Seq<u32>)
    ensures
        counts_bytes(times).len() == 4 * times.len(),
    decreases times.len(),
{
    if times.len() > 0 {
        lemma_counts_len(times.drop_last());
    }
}

impl TaskInfo {
    /// The record as it is laid out in user memory.
    pub fn to_bytes(&self) -> (r: Vec<u8>)
        ensures
            r@ == task_info_bytes(self.status, self.syscall_times@, self.time),
            r@.len() == 16 + 4 * self.syscall_times@.len(),
    {
        let mut out: Vec<u8> = Vec::new();
        push_le(&mut out, status_to_code(self.status) as u64, 4);
        let ghost head = out@;
        let mut i: usize = 0;
        while i < self.syscall_times.len()
            invariant
                i <= self.syscall_times@.len(),
                out@ == head + counts_bytes(self.syscall_times@.subrange(0, i as int)),
            decreases self.syscall_times@.len() - i,
        {
            push_le(&mut out, self.syscall_times[i] as u64, 4);
            let ghost pre = self.syscall_times@.subrange(0, i as int);
            i = i + 1;
            assert(self.syscall_times@.subrange(0, i as int).drop_last() =~= pre);
            assert(out@ =~= head + counts_bytes(self.syscall_times@.subrange(0, i as int)));
        }
        assert(self.syscall_times@.subrange(0, i as int) =~= self.syscall_times@);
        push_zeros(&mut out, 4);
        push_le(&mut out, self.time as u64, 8);
        proof {
            lemma_counts_len(self.syscall_times@);
        }
        assert(out@ =~= task_info_bytes(self.status, self.syscall_times@, self.time));
        out
    }
}

} // verus!
