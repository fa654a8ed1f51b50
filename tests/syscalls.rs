use kernel_syscall::config::{MAX_SYSCALL_NUM, PAGE_SIZE};
use kernel_syscall::fs::{O_CREATE, O_RDONLY, O_RDWR, O_TRUNC, O_WRONLY};
use kernel_syscall::mm::{PERM_R, PERM_U, PERM_W, PERM_X};
use kernel_syscall::record::{Stat, TimeVal, STAT_SIZE, TASK_INFO_SIZE, TIMEVAL_SIZE};
use kernel_syscall::sys_fs::{
    sys_close, sys_fstat, sys_linkat, sys_open, sys_read, sys_unlinkat, sys_write,
};
use kernel_syscall::sys_process::{
    sys_exit, sys_get_time, sys_mmap, sys_munmap, sys_sbrk, sys_task_info, sys_yield,
};
use kernel_syscall::task::{Kernel, TaskStatus};

const HEAP_BOTTOM: usize = 0x8000;
const HEAP_TOP: usize = 0xC000;

fn kernel() -> Kernel {
    Kernel::new(32, 32, HEAP_BOTTOM, HEAP_TOP)
}

/// Kernel with pages 1..=6 mapped read/write (user memory at 0x1000..0x7000).
fn kernel_with_memory() -> Kernel {
    let mut k = kernel();
    assert_eq!(sys_mmap(&mut k, 0x1000, 6 * PAGE_SIZE, 0x3), 0);
    k
}

fn put(k: &mut Kernel, va: usize, bytes: &[u8]) {
    k.space.copy_to_user(va, &bytes.to_vec());
}

fn get(k: &Kernel, va: usize, len: usize) -> Vec<u8> {
    k.space.copy_from_user(va, len)
}

fn put_str(k: &mut Kernel, va: usize, s: &str) {
    let mut b = s.as_bytes().to_vec();
    b.push(0);
    put(k, va, &b);
}

fn le64(b: &[u8]) -> u64 {
    let mut x: u64 = 0;
    for i in 0..8 {
        x |= (b[i] as u64) << (8 * i);
    }
    x
}

fn le32(b: &[u8]) -> u32 {
    let mut x: u32 = 0;
    for i in 0..4 {
        x |= (b[i] as u32) << (8 * i);
    }
    x
}

#[test]
fn open_write_close_fstat_scenario() {
    let mut k = kernel_with_memory();
    put_str(&mut k, 0x1000, "a");
    let fd = sys_open(&mut k, 0x1000, O_CREATE | O_WRONLY);
    assert!(fd >= 0);
    assert_eq!(fd, 3);
    put(&mut k, 0x2000, b"hello");
    assert_eq!(sys_write(&mut k, fd as usize, 0x2000, 5), 5);
    assert_eq!(sys_close(&mut k, fd as usize), 0);
    assert_eq!(sys_fstat(&mut k, fd as usize, 0x3000), -1);
}

#[test]
fn mmap_scenario_maps_two_user_pages() {
    let mut k = kernel();
    assert_eq!(sys_mmap(&mut k, 0x1000, 0x2000, 0x3), 0);
    for vpn in [1usize, 2] {
        let e = k.space.translate(vpn).expect("page mapped");
        assert_eq!(e.perm, PERM_R | PERM_W | PERM_U);
    }
    assert!(k.space.translate(0).is_none());
    assert!(k.space.translate(3).is_none());
}

#[test]
fn mmap_permission_encoding() {
    let mut k = kernel();
    assert_eq!(sys_mmap(&mut k, 0x1000, 1, 0x4), 0);
    assert_eq!(k.space.translate(1).unwrap().perm, PERM_X | PERM_U);
    assert_eq!(sys_mmap(&mut k, 0x2000, 1, 0x7), 0);
    assert_eq!(k.space.translate(2).unwrap().perm, PERM_R | PERM_W | PERM_X | PERM_U);
}

#[test]
fn mmap_unaligned_start_fails_and_maps_nothing() {
    let mut k = kernel();
    assert_eq!(sys_mmap(&mut k, 0x1001, 0x1000, 0x3), -1);
    for vpn in 0..32 {
        assert!(k.space.translate(vpn).is_none());
    }
}

#[test]
fn mmap_bad_prot_fails() {
    let mut k = kernel();
    assert_eq!(sys_mmap(&mut k, 0x1000, 0x1000, 0), -1);
    assert_eq!(sys_mmap(&mut k, 0x1000, 0x1000, 0x8), -1);
    assert_eq!(sys_mmap(&mut k, 0x1000, 0x1000, 0x9), -1);
    assert!(k.space.translate(1).is_none());
}

#[test]
fn mmap_overlap_second_call_fails() {
    let mut k = kernel();
    assert_eq!(sys_mmap(&mut k, 0x1000, 0x2000, 0x1), 0);
    assert_eq!(sys_mmap(&mut k, 0x2000, 0x2000, 0x3), -1);
    assert_eq!(k.space.translate(1).unwrap().perm, PERM_R | PERM_U);
    assert_eq!(k.space.translate(2).unwrap().perm, PERM_R | PERM_U);
    assert!(k.space.translate(3).is_none());
}

#[test]
fn mmap_outside_address_space_or_out_of_frames_fails() {
    let mut k = Kernel::new(4, 2, HEAP_BOTTOM, HEAP_TOP);
    assert_eq!(sys_mmap(&mut k, 0x3000, 0x2000, 0x3), -1);
    assert!(k.space.translate(3).is_none());
    assert_eq!(sys_mmap(&mut k, 0x0, 0x3000, 0x3), -1);
    assert!(k.space.translate(0).is_none());
    assert_eq!(sys_mmap(&mut k, 0x0, 0x2000, 0x3), 0);
    assert_eq!(sys_mmap(&mut k, usize::MAX - 0xfff, 0x2000, 0x3), -1);
}

#[test]
fn mmap_zero_length_maps_nothing() {
    let mut k = kernel();
    assert_eq!(sys_mmap(&mut k, 0x1000, 0, 0x3), 0);
    assert!(k.space.translate(1).is_none());
}

#[test]
fn munmap_removes_exactly_the_range() {
    let mut k = kernel();
    assert_eq!(sys_mmap(&mut k, 0x1000, 0x3000, 0x3), 0);
    put(&mut k, 0x3000, b"keep");
    assert_eq!(sys_munmap(&mut k, 0x1000, 0x2000), 0);
    assert!(k.space.translate(1).is_none());
    assert!(k.space.translate(2).is_none());
    assert!(k.space.translate(3).is_some());
    assert_eq!(get(&k, 0x3000, 4), b"keep".to_vec());
}

#[test]
fn munmap_fails_on_unmapped_page_or_unaligned_start() {
    let mut k = kernel();
    assert_eq!(sys_mmap(&mut k, 0x1000, 0x1000, 0x3), 0);
    assert_eq!(sys_munmap(&mut k, 0x1000, 0x2000), -1);
    assert!(k.space.translate(1).is_some());
    assert_eq!(sys_munmap(&mut k, 0x1800, 0x100), -1);
    assert!(k.space.translate(1).is_some());
}

#[test]
fn write_then_read_round_trip_single_page() {
    let mut k = kernel_with_memory();
    put_str(&mut k, 0x1000, "file");
    let w = sys_open(&mut k, 0x1000, O_CREATE | O_RDWR);
    assert_eq!(w, 3);
    let data: Vec<u8> = (0u8..64).collect();
    put(&mut k, 0x2000, &data);
    assert_eq!(sys_write(&mut k, w as usize, 0x2000, 64), 64);
    let r = sys_open(&mut k, 0x1000, O_RDONLY);
    assert_eq!(r, 4);
    assert_eq!(sys_read(&mut k, r as usize, 0x3000, 64), 64);
    assert_eq!(get(&k, 0x3000, 64), data);
}

#[test]
fn cross_page_buffer_is_transparent() {
    let mut k = kernel();
    // two virtual pages whose frames are not adjacent
    assert_eq!(sys_mmap(&mut k, 0x3000, 0x1000, 0x3), 0);
    assert_eq!(sys_mmap(&mut k, 0x5000, 0x1000, 0x3), 0);
    assert_eq!(sys_mmap(&mut k, 0x2000, 0x1000, 0x3), 0);
    assert_eq!(sys_mmap(&mut k, 0x1000, 0x1000, 0x3), 0);
    let frame_a = k.space.translate(2).unwrap().ppn;
    let frame_b = k.space.translate(3).unwrap().ppn;
    assert_ne!(frame_a + 1, frame_b);
    assert!(frame_b < frame_a);
    let data: Vec<u8> = (0..100u32).map(|i| (i * 7 % 251) as u8).collect();
    let va = 0x3000 - 40;
    put(&mut k, va, &data);
    let ranges = k.space.translated_byte_buffer(va, 100);
    assert_eq!(ranges.len(), 2);
    assert_eq!(ranges[0].len, 40);
    assert_eq!(ranges[1].len, 60);
    assert_eq!(ranges[0].pa, frame_a * PAGE_SIZE + PAGE_SIZE - 40);
    assert_eq!(ranges[1].pa, frame_b * PAGE_SIZE);
    assert_eq!(get(&k, va, 100), data);
    // through a file
    put_str(&mut k, 0x1000, "x");
    let fd = sys_open(&mut k, 0x1000, O_CREATE | O_RDWR);
    assert_eq!(sys_write(&mut k, fd as usize, va, 100), 100);
    let fd2 = sys_open(&mut k, 0x1000, O_RDONLY);
    let dst = 0x3000 - 10;
    assert_eq!(sys_read(&mut k, fd2 as usize, dst, 100), 100);
    assert_eq!(get(&k, dst, 100), data);
}

#[test]
fn read_at_end_and_short_read() {
    let mut k = kernel_with_memory();
    put_str(&mut k, 0x1000, "f");
    let fd = sys_open(&mut k, 0x1000, O_CREATE | O_RDWR);
    put(&mut k, 0x2000, b"abc");
    assert_eq!(sys_write(&mut k, fd as usize, 0x2000, 3), 3);
    assert_eq!(sys_read(&mut k, fd as usize, 0x3000, 10), 0);
    let fd2 = sys_open(&mut k, 0x1000, O_RDONLY);
    assert_eq!(sys_read(&mut k, fd2 as usize, 0x3000, 10), 3);
    assert_eq!(get(&k, 0x3000, 3), b"abc".to_vec());
}

#[test]
fn close_then_use_fails_until_reopened() {
    let mut k = kernel_with_memory();
    put_str(&mut k, 0x1000, "c");
    let fd = sys_open(&mut k, 0x1000, O_CREATE | O_RDWR) as usize;
    assert_eq!(sys_close(&mut k, fd), 0);
    assert_eq!(sys_read(&mut k, fd, 0x2000, 1), -1);
    assert_eq!(sys_write(&mut k, fd, 0x2000, 1), -1);
    assert_eq!(sys_fstat(&mut k, fd, 0x2000), -1);
    assert_eq!(sys_close(&mut k, fd), -1);
    let again = sys_open(&mut k, 0x1000, O_RDWR);
    assert_eq!(again as usize, fd);
    assert_eq!(sys_fstat(&mut k, fd, 0x2000), 0);
}

#[test]
fn close_out_of_range_fails() {
    let mut k = kernel();
    assert_eq!(sys_close(&mut k, 99), -1);
    assert_eq!(sys_close(&mut k, 0), 0);
    assert_eq!(sys_close(&mut k, 0), -1);
}

#[test]
fn open_missing_without_create_fails() {
    let mut k = kernel_with_memory();
    put_str(&mut k, 0x1000, "nope");
    assert_eq!(sys_open(&mut k, 0x1000, O_RDONLY), -1);
    assert_eq!(sys_open(&mut k, 0x1000, O_TRUNC), -1);
    assert_eq!(k.fd_table.len(), 3);
}

#[test]
fn open_unknown_flag_fails() {
    let mut k = kernel_with_memory();
    put_str(&mut k, 0x1000, "z");
    assert_eq!(sys_open(&mut k, 0x1000, O_CREATE | 0x4), -1);
    assert_eq!(k.fs.entries.len(), 0);
}

#[test]
fn open_uses_lowest_free_descriptor() {
    let mut k = kernel_with_memory();
    put_str(&mut k, 0x1000, "d");
    assert_eq!(sys_close(&mut k, 1), 0);
    assert_eq!(sys_open(&mut k, 0x1000, O_CREATE), 1);
    assert_eq!(sys_open(&mut k, 0x1000, O_RDONLY), 3);
}

#[test]
fn write_only_and_read_only_capabilities() {
    let mut k = kernel_with_memory();
    put_str(&mut k, 0x1000, "cap");
    let w = sys_open(&mut k, 0x1000, O_CREATE | O_WRONLY) as usize;
    assert_eq!(sys_read(&mut k, w, 0x2000, 1), -1);
    let r = sys_open(&mut k, 0x1000, O_RDONLY) as usize;
    assert_eq!(sys_write(&mut k, r, 0x2000, 1), -1);
    assert_eq!(sys_read(&mut k, 1, 0x2000, 1), -1);
    assert_eq!(sys_write(&mut k, 0, 0x2000, 1), -1);
}

#[test]
fn truncate_on_create_of_existing_file() {
    let mut k = kernel_with_memory();
    put_str(&mut k, 0x1000, "t");
    let fd = sys_open(&mut k, 0x1000, O_CREATE | O_RDWR) as usize;
    put(&mut k, 0x2000, b"12345");
    assert_eq!(sys_write(&mut k, fd, 0x2000, 5), 5);
    let fd2 = sys_open(&mut k, 0x1000, O_CREATE | O_RDWR) as usize;
    assert_eq!(sys_read(&mut k, fd2, 0x3000, 5), 0);
}

#[test]
fn stdout_and_stdin() {
    let mut k = kernel_with_memory();
    put(&mut k, 0x2000, b"hi!");
    assert_eq!(sys_write(&mut k, 1, 0x2000, 3), 3);
    assert_eq!(k.console, b"hi!".to_vec());
    k.feed_stdin(&b"xyz".to_vec());
    assert_eq!(sys_read(&mut k, 0, 0x3000, 2), 2);
    assert_eq!(get(&k, 0x3000, 2), b"xy".to_vec());
    assert_eq!(sys_read(&mut k, 0, 0x3000, 5), 1);
    assert_eq!(get(&k, 0x3000, 1), b"z".to_vec());
    assert_eq!(sys_read(&mut k, 0, 0x3000, 5), 0);
}

#[test]
fn fstat_reports_inode_and_links() {
    let mut k = kernel_with_memory();
    put_str(&mut k, 0x1000, "s");
    put_str(&mut k, 0x1100, "s2");
    let fd = sys_open(&mut k, 0x1000, O_CREATE | O_RDWR) as usize;
    assert_eq!(sys_linkat(&mut k, 0x1000, 0x1100), 0);
    let st = 0x3000 - 30;
    assert_eq!(sys_fstat(&mut k, fd, st), 0);
    let b = get(&k, st, STAT_SIZE);
    assert_eq!(le64(&b[0..8]), 0);
    assert_eq!(le64(&b[8..16]), 0);
    assert_eq!(le32(&b[16..20]), 0o100000);
    assert_eq!(le32(&b[20..24]), 2);
    assert!(b[24..80].iter().all(|&x| x == 0));
    assert_eq!(sys_fstat(&mut k, 1, st), -1);
}

#[test]
fn stat_record_layout() {
    let st = Stat { dev: 1, ino: 0x0102030405060708, mode: 0o040000, nlink: 3 };
    let b = st.to_bytes();
    assert_eq!(b.len(), STAT_SIZE);
    assert_eq!(&b[0..8], &[1, 0, 0, 0, 0, 0, 0, 0]);
    assert_eq!(&b[8..16], &[8, 7, 6, 5, 4, 3, 2, 1]);
    assert_eq!(le32(&b[16..20]), 0o040000);
    assert_eq!(le32(&b[20..24]), 3);
}

#[test]
fn linkat_same_name_fails() {
    let mut k = kernel_with_memory();
    put_str(&mut k, 0x1000, "p");
    put_str(&mut k, 0x1100, "p");
    assert_eq!(sys_linkat(&mut k, 0x1000, 0x1100), -1);
    assert_eq!(sys_linkat(&mut k, 0x1000, 0x1000), -1);
    sys_open(&mut k, 0x1000, O_CREATE);
    assert_eq!(sys_linkat(&mut k, 0x1000, 0x1100), -1);
    assert_eq!(sys_linkat(&mut k, 0x1000, 0x1000), -1);
}

#[test]
fn linkat_shares_contents_and_unlinkat_removes_name() {
    let mut k = kernel_with_memory();
    put_str(&mut k, 0x1000, "orig");
    put_str(&mut k, 0x1100, "alias");
    put_str(&mut k, 0x1200, "ghost");
    let fd = sys_open(&mut k, 0x1000, O_CREATE | O_WRONLY) as usize;
    put(&mut k, 0x2000, b"shared");
    assert_eq!(sys_write(&mut k, fd, 0x2000, 6), 6);
    assert_eq!(sys_linkat(&mut k, 0x1200, 0x1100), -1);
    assert_eq!(sys_linkat(&mut k, 0x1000, 0x1100), 0);
    assert_eq!(sys_linkat(&mut k, 0x1000, 0x1100), -1);
    let a = sys_open(&mut k, 0x1100, O_RDONLY) as usize;
    assert_eq!(sys_read(&mut k, a, 0x3000, 6), 6);
    assert_eq!(get(&k, 0x3000, 6), b"shared".to_vec());
    assert_eq!(sys_unlinkat(&mut k, 0x1000), 0);
    assert_eq!(sys_unlinkat(&mut k, 0x1000), -1);
    assert_eq!(sys_open(&mut k, 0x1000, O_RDONLY), -1);
    let b = sys_open(&mut k, 0x1100, O_RDONLY) as usize;
    assert_eq!(sys_read(&mut k, b, 0x3000, 6), 6);
    assert_eq!(sys_unlinkat(&mut k, 0x1100), 0);
    assert_eq!(sys_open(&mut k, 0x1100, O_RDONLY), -1);
    assert_eq!(sys_unlinkat(&mut k, 0x1200), -1);
}

#[test]
fn unlink_last_link_reclaims_bytes() {
    let mut k = kernel_with_memory();
    put_str(&mut k, 0x1000, "gone");
    let fd = sys_open(&mut k, 0x1000, O_CREATE | O_RDWR) as usize;
    put(&mut k, 0x2000, b"data");
    assert_eq!(sys_write(&mut k, fd, 0x2000, 4), 4);
    assert_eq!(sys_unlinkat(&mut k, 0x1000), 0);
    assert_eq!(k.fs.inodes[0].nlink, 0);
    assert_eq!(k.fs.inodes[0].data.len(), 0);
}

#[test]
fn sbrk_zero_and_inverse() {
    let mut k = kernel();
    assert_eq!(sys_sbrk(&mut k, 0), HEAP_BOTTOM as isize);
    assert_eq!(sys_sbrk(&mut k, 0), HEAP_BOTTOM as isize);
    assert_eq!(sys_sbrk(&mut k, 0x100), HEAP_BOTTOM as isize);
    assert_eq!(k.program_brk, HEAP_BOTTOM + 0x100);
    assert_eq!(sys_sbrk(&mut k, -0x100), (HEAP_BOTTOM + 0x100) as isize);
    assert_eq!(k.program_brk, HEAP_BOTTOM);
}

#[test]
fn sbrk_out_of_bounds_fails() {
    let mut k = kernel();
    assert_eq!(sys_sbrk(&mut k, -1), -1);
    assert_eq!(k.program_brk, HEAP_BOTTOM);
    assert_eq!(sys_sbrk(&mut k, (HEAP_TOP - HEAP_BOTTOM + 1) as i32), -1);
    assert_eq!(sys_sbrk(&mut k, (HEAP_TOP - HEAP_BOTTOM) as i32), HEAP_BOTTOM as isize);
    assert_eq!(k.program_brk, HEAP_TOP);
    assert_eq!(sys_sbrk(&mut k, i32::MIN), -1);
}

#[test]
fn task_info_counts_calls() {
    let mut k = kernel_with_memory();
    for _ in 0..5 {
        k.record_syscall(64);
    }
    k.record_syscall(169);
    k.record_syscall(MAX_SYSCALL_NUM);
    k.record_syscall(410);
    k.tick(2_500_000);
    assert_eq!(sys_task_info(&mut k, 0x2000 - 4), 0);
    let b = get(&k, 0x2000 - 4, TASK_INFO_SIZE);
    assert_eq!(le32(&b[0..4]), 2);
    let count = |id: usize| le32(&b[4 + 4 * id..8 + 4 * id]);
    assert_eq!(count(64), 5);
    assert_eq!(count(169), 1);
    assert_eq!(count(410), 1);
    assert_eq!(count(0), 0);
    assert_eq!(le64(&b[2008..2016]), 2500);
}

#[test]
fn get_time_is_monotonic_and_splits_seconds() {
    let mut k = kernel_with_memory();
    k.tick(3_000_042);
    assert_eq!(sys_get_time(&mut k, 0x2000 - 8, 0), 0);
    let a = get(&k, 0x2000 - 8, TIMEVAL_SIZE);
    assert_eq!(le64(&a[0..8]), 3);
    assert_eq!(le64(&a[8..16]), 42);
    assert_eq!(sys_get_time(&mut k, 0x3000, 0), 0);
    let b = get(&k, 0x3000, TIMEVAL_SIZE);
    let us = |x: &[u8]| le64(&x[0..8]) * 1_000_000 + le64(&x[8..16]);
    assert!(us(&a) <= us(&b));
    k.tick(999_999);
    assert_eq!(sys_get_time(&mut k, 0x3000, 0), 0);
    let c = get(&k, 0x3000, TIMEVAL_SIZE);
    assert!(us(&b) <= us(&c));
    assert_eq!(us(&c), 4_000_041);
    let tv = TimeVal::from_us(1_500_000);
    assert_eq!((tv.sec, tv.usec), (1, 500_000));
}

#[test]
fn exit_and_yield_change_status() {
    let mut k = kernel();
    assert_eq!(sys_yield(&mut k), 0);
    assert_eq!(k.status, TaskStatus::Ready);
    k.resume();
    assert_eq!(k.status, TaskStatus::Running);
    sys_exit(&mut k, 7);
    assert_eq!(k.status, TaskStatus::Zombie);
    assert_eq!(k.exit_code, 7);
}

#[test]
fn munmap_frees_frames_for_zeroed_reuse() {
    let mut k = Kernel::new(8, 2, HEAP_BOTTOM, HEAP_TOP);
    assert_eq!(sys_mmap(&mut k, 0x1000, 0x2000, 0x3), 0);
    put(&mut k, 0x1000, b"dirty");
    assert_eq!(sys_mmap(&mut k, 0x4000, 0x1000, 0x3), -1);
    assert_eq!(sys_munmap(&mut k, 0x1000, 0x1000), 0);
    assert_eq!(sys_mmap(&mut k, 0x4000, 0x1000, 0x3), 0);
    assert_eq!(get(&k, 0x4000, 5), vec![0u8; 5]);
    assert!(k.space.translate(1).is_none());
    assert!(k.space.translate(2).is_some());
}
