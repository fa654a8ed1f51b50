//! A task's address space: a flat page table over physical frames, the
//! address translator, and the scatter and gather copies across it.
use vstd::prelude::*;
use crate::config::PAGE_SIZE;
use crate::page::{
    floor_vpn, lemma_frame_bound, lemma_frame_unique, lemma_same_page, lemma_split, offset_of,
    vpn_of,
};

verus! {

/// Readable mapping.
pub const PERM_R: u8 = 2;

/// Writable mapping.
pub const PERM_W: u8 = 4;

/// Executable mapping.
pub const PERM_X: u8 = 8;

/// Mapping reachable from user mode.
pub const PERM_U: u8 = 16;

/// A valid page-table entry: the physical frame and the permission bits.
#[derive(Clone, Copy, Debug, PartialEq, Eq)]
pub struct PageTableEntry {
    pub ppn: usize,
    pub perm: u8,
}

/// A physical byte range that backs the virtual range starting at `va`.
#[derive(Clone, Copy, Debug, PartialEq, Eq)]
pub struct PhysRange {
    pub va: usize,
    pub pa: usize,
    pub len: usize,
}

/// A page table indexed by virtual page number, and the physical memory
/// that its entries point into.  Frame `p` holds the bytes
/// `[p * PAGE_SIZE, (p + 1) * PAGE_SIZE)` of `frames`.
pub struct AddressSpace {
    pub ptes: Vec<Option<PageTableEntry>>,
    pub frames: Vec<u8>,
    pub nframes: usize,
    pub max_frames: usize,
    /// Frames that no page maps any more, ready for reuse.
    pub free: Vec<usize>,
}

/// The bytes of physical memory `frames` that the ranges `rs` select, one
/// range after the other.
pub open spec fn gathered(frames: Seq<u8>, rs: Seq<PhysRange>) -> Seq<u8>
    decreases rs.len(),
{
    if rs.len() == 0 {
        Seq::empty()
    } else {
        gathered(frames, rs.drop_last()) + frames.subrange(
            rs.last().pa as int,
            rs.last().pa + rs.last().len,
        )
    }
}

impl AddressSpace {
    /// Frames and table agree, and no two pages share a frame.
    pub open spec fn wf(&self) -> bool {
        &&& self.frames@.len() == self.nframes * PAGE_SIZE
        &&& self.nframes <= self.max_frames
        &&& self.max_frames * PAGE_SIZE <= usize::MAX
        &&& self.ptes@.len() * PAGE_SIZE <= isize::MAX
        &&& forall|v: int|
            0 <= v < self.ptes@.len() && (#[trigger] self.ptes@[v]).is_some() ==> self.ptes@[v].unwrap().ppn < self.nframes
        &&& forall|v: int, w: int|
            0 <= v < self.ptes@.len() && 0 <= w < self.ptes@.len() && v != w && (
            #[trigger] self.ptes@[v]).is_some() && (#[trigger] self.ptes@[w]).is_some()
                ==> self.ptes@[v].unwrap().ppn != self.ptes@[w].unwrap().ppn
        &&& forall|i: int| 0 <= i < self.free@.len() ==> #[trigger] self.free@[i] < self.nframes
        &&& forall|i: int, j: int|
            0 <= i < self.free@.len() && 0 <= j < self.free@.len() && i != j ==> #[trigger] self.free@[i]
                != #[trigger] self.free@[j]
        &&& forall|i: int, v: int|
            0 <= i < self.free@.len() && 0 <= v < self.ptes@.len() && (#[trigger] self.ptes@[v]).is_some()
                ==> self.ptes@[v].unwrap().ppn != #[trigger] self.free@[i]
    }

    /// Page `vpn` has a valid mapping.
    pub open spec fn mapped(&self, vpn: int) -> bool {
        0 <= vpn < self.ptes@.len() && self.ptes@[vpn].is_some()
    }

    /// Page `vpn` is mapped with permission bits `perm`.
    pub open spec fn mapped_as(&self, vpn: int, perm: u8) -> bool {
        self.mapped(vpn) && self.ptes@[vpn].unwrap().perm == perm
    }

    /// Entry of a mapped page.
    pub open spec fn entry(&self, vpn: int) -> PageTableEntry {
        self.ptes@[vpn].unwrap()
    }

    /// Physical address behind a virtual address of a mapped page.
    pub open spec fn pa_of(&self, va: int) -> int {
        self.entry(vpn_of(va)).ppn * PAGE_SIZE as int + offset_of(va)
    }

    /// The byte a task sees at virtual address `va`.
    pub open spec fn vbyte(&self, va: int) -> u8 {
        self.frames@[self.pa_of(va)]
    }

    /// Every byte of `[va, va + len)` lies in a mapped page.
    pub open spec fn range_mapped(&self, va: int, len: int) -> bool {
        forall|x: int| va <= x < va + len ==> #[trigger] self.mapped(vpn_of(x))
    }

    /// The bytes of `[va, va + len)` as one contiguous sequence.
    pub open spec fn vbytes(&self, va: int, len: int) -> Seq<u8> {
        Seq::new(len as nat, |i: int| self.vbyte(va + i))
    }

    /// `rs` is the ordered list of physical ranges that backs `[va, va + len)`:
    /// each lies inside one page, they follow each other without gap, and
    /// each byte of each range is the one that the page table gives.
    pub open spec fn covers(&self, rs: Seq<PhysRange>, va: int, len: int) -> bool {
        &&& rs.len() == 0 <==> len == 0
        &&& rs.len() > 0 ==> rs[0].va == va && rs.last().va + rs.last().len == va + len
        &&& forall|i: int| 0 <= i < rs.len() - 1 ==> #[trigger] rs[i + 1].va == rs[i].va + rs[i].len
        &&& forall|i: int|
            0 <= i < rs.len() ==> {
                &&& 0 < (#[trigger] rs[i]).len
                &&& va <= rs[i].va
                &&& rs[i].va + rs[i].len <= va + len
                &&& offset_of(rs[i].va as int) + rs[i].len <= PAGE_SIZE
                &&& rs[i].pa + rs[i].len <= self.frames@.len()
            }
        &&& forall|i: int, j: int|
            0 <= i < rs.len() && 0 <= j < rs[i].len ==> self.pa_of(rs[i].va + j) == #[trigger] (
            rs[i].pa + j)
    }

    /// Distinct addresses of mapped pages never share a physical byte.
    pub proof fn lemma_pa_injective(&self, x: int, y: int)
        requires
            self.wf(),
            x >= 0,
            y >= 0,
            self.mapped(vpn_of(x)),
            self.mapped(vpn_of(y)),
            x != y,
        ensures
            self.pa_of(x) != self.pa_of(y),
    {
        lemma_split(x);
        lemma_split(y);
        if self.pa_of(x) == self.pa_of(y) {
            lemma_frame_unique(
                self.entry(vpn_of(x)).ppn as int,
                offset_of(x),
                self.entry(vpn_of(y)).ppn as int,
                offset_of(y),
            );
            assert(self.ptes@[vpn_of(x)].is_some() && self.ptes@[vpn_of(y)].is_some());
        }
    }

    /// A mapped range ends inside the address space, so below `isize::MAX`.
    pub proof fn lemma_mapped_end(&self, va: int, len: int)
        requires
            self.wf(),
            va >= 0,
            len > 0,
            self.range_mapped(va, len),
        ensures
            va + len <= self.ptes@.len() * PAGE_SIZE,
            va + len <= isize::MAX,
    {
        let x = va + len - 1;
        assert(self.mapped(vpn_of(x)));
        lemma_split(x);
        let v = vpn_of(x);
        let n = self.ptes@.len() as int;
        assert(x + 1 <= n * PAGE_SIZE as int) by (nonlinear_arith)
            requires
                x == v * PAGE_SIZE as int + offset_of(x),
                offset_of(x) < PAGE_SIZE as int,
                v < n,
        ;
    }

    /// Physical address of a mapped virtual address lies in physical memory.
    pub proof fn lemma_pa_in_frames(&self, x: int)
        requires
            self.wf(),
            x >= 0,
            self.mapped(vpn_of(x)),
        ensures
            0 <= self.pa_of(x) < self.frames@.len(),
    {
        lemma_split(x);
        assert(self.ptes@[vpn_of(x)].is_some());
        lemma_frame_bound(self.entry(vpn_of(x)).ppn as int, offset_of(x), self.nframes as int);
    }

    /// The entry of page `vpn`, if it is mapped.
    pub fn translate(&self, vpn: usize) -> (r: Option<PageTableEntry>)
        ensures
            r.is_some() == self.mapped(vpn as int),
            r.is_some() ==> r.unwrap() == self.entry(vpn as int),
    {
        if vpn < self.ptes.len() {
            self.ptes[vpn]
        } else {
            None
        }
    }

    /// Splits `[va, va + len)` into the physical ranges that back it, one per
    /// page touched, in ascending virtual order.  Successive pages are looked
    /// up one by one: nothing assumes that their frames are adjacent.
    pub fn translated_byte_buffer(&self, va: usize, len: usize) -> (r: Vec<PhysRange>)
        requires
            self.wf(),
            self.range_mapped(va as int, len as int),
        ensures
            self.covers(r@, va as int, len as int),
    {
        proof {
            if len > 0 {
                self.lemma_mapped_end(va as int, len as int);
            }
        }
        let mut out: Vec<PhysRange> = Vec::new();
        let end: usize = va + len;
        let mut cur: usize = va;
        while cur < end
            invariant
                self.wf(),
                va <= cur <= end,
                end == va + len,
                self.range_mapped(va as int, len as int),
                out@.len() == 0 <==> cur == va,
                out@.len() > 0 ==> out@[0].va == va && out@.last().va + out@.last().len == cur,
                forall|i: int| 0 <= i < out@.len() - 1 ==> #[trigger] out@[i + 1].va == out@[i].va + out@[i].len,
                forall|i: int|
                    0 <= i < out@.len() ==> {
                        &&& 0 < (#[trigger] out@[i]).len
                        &&& va <= out@[i].va
                        &&& out@[i].va + out@[i].len <= cur
                        &&& offset_of(out@[i].va as int) + out@[i].len <= PAGE_SIZE
                        &&& out@[i].pa + out@[i].len <= self.frames@.len()
                    },
                forall|i: int, j: int|
                    0 <= i < out@.len() && 0 <= j < out@[i].len ==> self.pa_of(out@[i].va + j) == #[trigger] (
                    out@[i].pa + j),
            decreases end - cur,
        {
            let vpn = floor_vpn(cur);
            let off = cur % PAGE_SIZE;
            proof {
                lemma_split(cur as int);
                assert(self.mapped(vpn_of(cur as int)));
            }
            let pte = self.ptes[vpn].unwrap();
            let room = PAGE_SIZE - off;
            let n = if end - cur < room { end - cur } else { room };
            proof {
                assert(self.ptes@[vpn as int].is_some());
                lemma_frame_bound(pte.ppn as int, off as int, self.nframes as int);
                lemma_frame_bound(pte.ppn as int, 0, self.max_frames as int);
            }
            let pa = pte.ppn * PAGE_SIZE + off;
            let piece = PhysRange { va: cur, pa, len: n };
            proof {
                assert forall|j: int| 0 <= j < n implies self.pa_of(cur + j) == #[trigger] (pa + j) by {
                    lemma_same_page(cur as int, j);
                }
            }
            let ghost before = out@;
            out.push(piece);
            proof {
                assert forall|i: int, j: int|
                    0 <= i < out@.len() && 0 <= j < out@[i].len implies self.pa_of(out@[i].va + j)
                    == #[trigger] (out@[i].pa + j) by {
                    if i < before.len() {
                        assert(out@[i] == before[i]);
                    }
                }
                assert forall|i: int| 0 <= i < out@.len() - 1 implies #[trigger] out@[i + 1].va
                    == out@[i].va + out@[i].len by {
                    if i + 1 < before.len() {
                        assert(out@[i + 1] == before[i + 1]);
                    }
                }
            }
            cur = cur + n;
        }
        out
    }

    /// Position in `[va, va + len)` reached after the first `i` ranges of `rs`.
    pub open spec fn reached(rs: Seq<PhysRange>, va: int, i: int) -> int {
        if i == 0 {
            va
        } else {
            rs[i - 1].va + rs[i - 1].len
        }
    }

    /// Gathers `[va, va + len)` out of user memory through the translated
    /// ranges.  Crossing a page boundary is invisible: the result is the
    /// range's bytes in virtual order.
    pub fn copy_from_user(&self, va: usize, len: usize) -> (r: Vec<u8>)
        requires
            self.wf(),
            self.range_mapped(va as int, len as int),
        ensures
            r@ == self.vbytes(va as int, len as int),
    {
        let rs = self.translated_byte_buffer(va, len);
        let mut out: Vec<u8> = Vec::new();
        let mut i: usize = 0;
        while i < rs.len()
            invariant
                self.wf(),
                self.covers(rs@, va as int, len as int),
                0 <= i <= rs@.len(),
                out@.len() == Self::reached(rs@, va as int, i as int) - va,
                forall|k: int| 0 <= k < out@.len() ==> out@[k] == self.vbyte(va + k),
            decreases rs@.len() - i,
        {
            let r = rs[i];
            proof {
                if i > 0 {
                    assert(rs@[(i - 1) + 1].va == rs@[i - 1].va + rs@[i - 1].len);
                }
            }
            let mut j: usize = 0;
            while j < r.len
                invariant
                    self.wf(),
                    self.covers(rs@, va as int, len as int),
                    0 <= i < rs@.len(),
                    r == rs@[i as int],
                    0 <= j <= r.len,
                    out@.len() == r.va + j - va,
                    forall|k: int| 0 <= k < out@.len() ==> out@[k] == self.vbyte(va + k),
                decreases r.len - j,
            {
                assert(self.pa_of(rs@[i as int].va + j) == rs@[i as int].pa + j);
                out.push(self.frames[r.pa + j]);
                j = j + 1;
            }
            i = i + 1;
        }
        out
    }

    /// Scatters `data` into user memory at `[va, va + data.len())`, one
    /// translated range after the other, with a single index into `data`
    /// running across range boundaries.  No other virtual byte changes.
    pub fn copy_to_user(&mut self, va: usize, data: &Vec<u8>)
        requires
            old(self).wf(),
            old(self).range_mapped(va as int, data@.len() as int),
        ensures
            final(self).wf(),
            final(self).ptes@ == old(self).ptes@,
            final(self).nframes == old(self).nframes,
            final(self).max_frames == old(self).max_frames,
            final(self).free@ == old(self).free@,
            final(self).vbytes(va as int, data@.len() as int) == data@,
            forall|x: int|
                x >= 0 && old(self).mapped(vpn_of(x)) && !(va <= x < va + data@.len())
                    ==> #[trigger] final(self).vbyte(x) == old(self).vbyte(x),
    {
        let len = data.len();
        let rs = self.translated_byte_buffer(va, len);
        let ghost before = *self;
        let mut i: usize = 0;
        let mut src: usize = 0;
        while i < rs.len()
            invariant
                self.wf(),
                self.ptes@ == before.ptes@,
                self.nframes == before.nframes,
                self.max_frames == before.max_frames,
                self.free@ == before.free@,
                before.wf(),
                before.covers(rs@, va as int, len as int),
                before.range_mapped(va as int, len as int),
                len == data@.len(),
                0 <= i <= rs@.len(),
                src == Self::reached(rs@, va as int, i as int) - va,
                forall|x: int|
                    x >= 0 && before.mapped(vpn_of(x)) ==> #[trigger] self.vbyte(x) == if va <= x < va
                        + src {
                        data@[x - va]
                    } else {
                        before.vbyte(x)
                    },
            decreases rs@.len() - i,
        {
            let r = rs[i];
            proof {
                if i > 0 {
                    assert(rs@[(i - 1) + 1].va == rs@[i - 1].va + rs@[i - 1].len);
                }
            }
            let mut j: usize = 0;
            while j < r.len
                invariant
                    self.wf(),
                    self.ptes@ == before.ptes@,
                    self.nframes == before.nframes,
                    self.max_frames == before.max_frames,
                    self.free@ == before.free@,
                    before.wf(),
                    before.covers(rs@, va as int, len as int),
                    before.range_mapped(va as int, len as int),
                    len == data@.len(),
                    0 <= i < rs@.len(),
                    r == rs@[i as int],
                    0 <= j <= r.len,
                    src == r.va + j - va,
                    forall|x: int|
                        x >= 0 && before.mapped(vpn_of(x)) ==> #[trigger] self.vbyte(x) == if va <= x
                            < va + src {
                            data@[x - va]
                        } else {
                            before.vbyte(x)
                        },
                decreases r.len - j,
            {
                let y: usize = r.va + j;
                assert(before.pa_of(rs@[i as int].va + j) == rs@[i as int].pa + j);
                proof {
                    assert(before.mapped(vpn_of(y as int)));
                }
                let ghost mid = *self;
                self.frames[r.pa + j] = data[src];
                proof {
                    assert forall|x: int| x >= 0 && before.mapped(vpn_of(x)) implies #[trigger] self.vbyte(
                        x,
                    ) == if va <= x < va + src + 1 {
                        data@[x - va]
                    } else {
                        before.vbyte(x)
                    } by {
                        if x != y {
                            before.lemma_pa_injective(x, y as int);
                            before.lemma_pa_in_frames(x);
                            assert(mid.vbyte(x) == self.vbyte(x));
                        }
                    }
                }
                src = src + 1;
                j = j + 1;
            }
            i = i + 1;
        }
        proof {
            assert forall|k: int| 0 <= k < len implies self.vbytes(va as int, len as int)[k]
                == data@[k] by {
                lemma_split(va + k);
            }
            assert(self.vbytes(va as int, len as int) =~= data@);
        }
    }

    /// An address space of `pages` virtual pages, none mapped, whose
    /// physical memory may grow to `max_frames` frames.
    pub fn new(pages: usize, max_frames: usize) -> (r: AddressSpace)
        requires
            max_frames * PAGE_SIZE <= usize::MAX,
            pages * PAGE_SIZE <= isize::MAX,
        ensures
            r.wf(),
            r.ptes@.len() == pages,
            r.nframes == 0,
            r.max_frames == max_frames,
            r.free@.len() == 0,
            forall|v: int| !r.mapped(v),
    {
        let mut ptes: Vec<Option<PageTableEntry>> = Vec::new();
        let mut i: usize = 0;
        while i < pages
            invariant
                i <= pages,
                ptes@.len() == i,
                forall|v: int| 0 <= v < i ==> ptes@[v].is_none(),
            decreases pages - i,
        {
            ptes.push(None);
            i = i + 1;
        }
        AddressSpace { ptes, frames: Vec::new(), nframes: 0, max_frames, free: Vec::new() }
    }

    /// Frames that can still be handed out: never-used ones and freed ones.
    pub open spec fn spare(&self) -> int {
        self.max_frames - self.nframes + self.free@.len()
    }

    /// Whether `n` more pages can get a frame.
    pub fn has_frames(&self, n: usize) -> (r: bool)
        requires
            self.wf(),
        ensures
            r == (n <= self.spare()),
    {
        let fresh = self.max_frames - self.nframes;
        n <= fresh || n - fresh <= self.free.len()
    }

    /// Maps page `vpn` to a zeroed frame with permission `perm`, reusing a
    /// freed frame when there is one and taking a new one otherwise.  The
    /// bytes of every other frame stay as they were.
    pub fn map_page(&mut self, vpn: usize, perm: u8) -> (r: usize)
        requires
            old(self).wf(),
            vpn < old(self).ptes@.len(),
            !old(self).mapped(vpn as int),
            old(self).spare() > 0,
        ensures
            final(self).wf(),
            final(self).ptes@ == old(self).ptes@.update(vpn as int, Some(PageTableEntry { ppn: r, perm })),
            final(self).spare() == old(self).spare() - 1,
            final(self).max_frames == old(self).max_frames,
            final(self).frames@.len() >= old(self).frames@.len(),
            forall|p: int|
                0 <= p < old(self).frames@.len() && !(r * PAGE_SIZE <= p < r * PAGE_SIZE + PAGE_SIZE)
                    ==> #[trigger] final(self).frames@[p] == old(self).frames@[p],
            forall|j: int| 0 <= j < PAGE_SIZE ==> #[trigger] final(self).frames@[r * PAGE_SIZE + j] == 0,
    {
        let ghost orig = *self;
        let ppn: usize;
        if self.free.len() > 0 {
            ppn = self.free.pop().unwrap();
            assert(orig.free@[orig.free@.len() - 1] == ppn);
            proof {
                lemma_frame_bound(ppn as int, 0, self.nframes as int);
                lemma_frame_bound(ppn as int, 0, self.max_frames as int);
            }
            let base: usize = ppn * PAGE_SIZE;
            let mut j: usize = 0;
            while j < PAGE_SIZE
                invariant
                    j <= PAGE_SIZE,
                    base == ppn * PAGE_SIZE,
                    base + PAGE_SIZE <= self.frames@.len(),
                    self.frames@.len() == orig.frames@.len(),
                    self.ptes@ == orig.ptes@,
                    self.nframes == orig.nframes,
                    self.max_frames == orig.max_frames,
                    self.free@ == orig.free@.drop_last(),
                    forall|p: int|
                        0 <= p < orig.frames@.len() && !(base <= p < base + PAGE_SIZE) ==> #[trigger] self.frames@[p]
                            == orig.frames@[p],
                    forall|i: int| 0 <= i < j ==> #[trigger] self.frames@[base + i] == 0,
                decreases PAGE_SIZE - j,
            {
                self.frames.set(base + j, 0);
                j = j + 1;
            }
        } else {
            ppn = self.nframes;
            proof {
                lemma_frame_bound(ppn as int, 0, self.max_frames as int);
            }
            let ghost start = self.frames@;
            let mut k: usize = 0;
            while k < PAGE_SIZE
                invariant
                    k <= PAGE_SIZE,
                    self.ptes@ == orig.ptes@,
                    self.nframes == orig.nframes,
                    self.max_frames == orig.max_frames,
                    self.free@ == orig.free@,
                    start == orig.frames@,
                    self.frames@.len() == start.len() + k,
                    self.frames@.subrange(0, start.len() as int) == start,
                    forall|i: int| 0 <= i < k ==> #[trigger] self.frames@[start.len() + i] == 0,
                decreases PAGE_SIZE - k,
            {
                self.frames.push(0);
                k = k + 1;
                assert(self.frames@.subrange(0, start.len() as int) =~= start);
            }
            proof {
                assert forall|p: int| 0 <= p < start.len() implies #[trigger] self.frames@[p] == start[p] by {
                    assert(self.frames@.subrange(0, start.len() as int)[p] == start[p]);
                }
                assert(start.len() == ppn * PAGE_SIZE);
            }
            self.nframes = ppn + 1;
            assert(self.frames@.len() == self.nframes * PAGE_SIZE) by (nonlinear_arith)
                requires
                    self.frames@.len() == ppn * PAGE_SIZE + PAGE_SIZE,
                    self.nframes == ppn + 1,
            ;
        }
        self.ptes.set(vpn, Some(PageTableEntry { ppn, perm }));
        proof {
            assert forall|v: int|
                0 <= v < self.ptes@.len() && (#[trigger] self.ptes@[v]).is_some() implies self.ptes@[v].unwrap().ppn < self.nframes by {
                if v != vpn {
                    assert(orig.ptes@[v].is_some());
                }
            }
            assert forall|v: int, w: int|
                0 <= v < self.ptes@.len() && 0 <= w < self.ptes@.len() && v != w && (
                #[trigger] self.ptes@[v]).is_some() && (#[trigger] self.ptes@[w]).is_some()
                    implies self.ptes@[v].unwrap().ppn != self.ptes@[w].unwrap().ppn by {
                if v != vpn && w != vpn {
                    assert(orig.ptes@[v].is_some() && orig.ptes@[w].is_some());
                } else if v != vpn {
                    assert(orig.ptes@[v].is_some());
                    if orig.free@.len() > 0 {
                        assert(orig.ptes@[v].unwrap().ppn != orig.free@[orig.free@.len() - 1]);
                    }
                } else {
                    assert(orig.ptes@[w].is_some());
                    if orig.free@.len() > 0 {
                        assert(orig.ptes@[w].unwrap().ppn != orig.free@[orig.free@.len() - 1]);
                    }
                }
            }
            assert forall|i: int, v: int|
                0 <= i < self.free@.len() && 0 <= v < self.ptes@.len() && (#[trigger] self.ptes@[v]).is_some()
                    implies self.ptes@[v].unwrap().ppn != #[trigger] self.free@[i] by {
                assert(self.free@[i] == orig.free@[i]);
                if v != vpn {
                    assert(orig.ptes@[v].is_some());
                } else if orig.free@.len() > 0 {
                    assert(orig.free@[i] != orig.free@[orig.free@.len() - 1]);
                }
            }
            assert forall|i: int| 0 <= i < self.free@.len() implies #[trigger] self.free@[i] < self.nframes by {
                assert(self.free@[i] == orig.free@[i]);
            }
            assert forall|i: int, j: int|
                0 <= i < self.free@.len() && 0 <= j < self.free@.len() && i != j implies #[trigger] self.free@[i]
                    != #[trigger] self.free@[j] by {
                assert(self.free@[i] == orig.free@[i]);
                assert(self.free@[j] == orig.free@[j]);
            }
        }
        ppn
    }

    /// Removes the mapping of page `vpn` and frees its frame for reuse.
    pub fn unmap_page(&mut self, vpn: usize)
        requires
            old(self).wf(),
            old(self).mapped(vpn as int),
        ensures
            final(self).wf(),
            final(self).ptes@ == old(self).ptes@.update(vpn as int, None),
            final(self).spare() == old(self).spare() + 1,
            final(self).max_frames == old(self).max_frames,
            final(self).frames@ == old(self).frames@,
    {
        let ghost orig = *self;
        let ppn = self.ptes[vpn].unwrap().ppn;
        self.ptes.set(vpn, None);
        self.free.push(ppn);
        proof {
            assert(orig.ptes@[vpn as int].is_some());
            assert forall|i: int, v: int|
                0 <= i < self.free@.len() && 0 <= v < self.ptes@.len() && (#[trigger] self.ptes@[v]).is_some()
                    implies self.ptes@[v].unwrap().ppn != #[trigger] self.free@[i] by {
                assert(v != vpn);
                assert(orig.ptes@[v].is_some());
                if i < orig.free@.len() {
                    assert(self.free@[i] == orig.free@[i]);
                }
            }
            assert forall|i: int| 0 <= i < self.free@.len() implies #[trigger] self.free@[i] < self.nframes by {
                if i < orig.free@.len() {
                    assert(self.free@[i] == orig.free@[i]);
                }
            }
            assert forall|i: int, j: int|
                0 <= i < self.free@.len() && 0 <= j < self.free@.len() && i != j implies #[trigger] self.free@[i]
                    != #[trigger] self.free@[j] by {
                if i < orig.free@.len() {
                    assert(self.free@[i] == orig.free@[i]);
                }
                if j < orig.free@.len() {
                    assert(self.free@[j] == orig.free@[j]);
                }
            }
            assert forall|v: int|
                0 <= v < self.ptes@.len() && (#[trigger] self.ptes@[v]).is_some() implies self.ptes@[v].unwrap().ppn < self.nframes by {
                assert(orig.ptes@[v].is_some());
            }
            assert forall|v: int, w: int|
                0 <= v < self.ptes@.len() && 0 <= w < self.ptes@.len() && v != w && (
                #[trigger] self.ptes@[v]).is_some() && (#[trigger] self.ptes@[w]).is_some()
                    implies self.ptes@[v].unwrap().ppn != self.ptes@[w].unwrap().ppn by {
                assert(orig.ptes@[v].is_some() && orig.ptes@[w].is_some());
            }
        }
    }

    /// `s` is the NUL-terminated string stored at `va`, terminator excluded.
    pub open spec fn is_cstr(&self, va: int, s: Seq<u8>) -> bool {
        &&& self.range_mapped(va, s.len() as int + 1)
        &&& s == self.vbytes(va, s.len() as int)
        &&& self.vbyte(va + s.len()) == 0
        &&& forall|j: int| 0 <= j < s.len() ==> s[j] != 0
    }

    /// A NUL terminator is reachable from `va` through mapped pages.
    pub open spec fn terminated(&self, va: int) -> bool {
        exists|s: Seq<u8>| self.is_cstr(va, s)
    }

    /// The NUL-terminated string at `va`; meaningful when `terminated(va)`.
    pub open spec fn cstr_of(&self, va: int) -> Seq<u8> {
        choose|s: Seq<u8>| self.is_cstr(va, s)
    }

    /// A NUL-terminated string at `va` is unique.
    pub proof fn lemma_cstr_unique(&self, va: int, s: Seq<u8>, t: Seq<u8>)
        requires
            self.is_cstr(va, s),
            self.is_cstr(va, t),
        ensures
            s == t,
    {
        if s.len() < t.len() {
            assert(t[s.len() as int] == self.vbyte(va + s.len()));
        } else if t.len() < s.len() {
            assert(s[t.len() as int] == self.vbyte(va + t.len()));
        } else {
            assert(s =~= t);
        }
    }

    /// Reads the NUL-terminated string at `va` one byte at a time, each
    /// byte through its own page lookup.
    pub fn translated_str(&self, va: usize) -> (r: Vec<u8>)
        requires
            self.wf(),
            self.terminated(va as int),
        ensures
            r@ == self.cstr_of(va as int),
            self.is_cstr(va as int, r@),
    {
        let ghost whole = self.cstr_of(va as int);
        let mut out: Vec<u8> = Vec::new();
        let mut i: usize = 0;
        proof {
            self.lemma_mapped_end(va as int, whole.len() as int + 1);
        }
        loop
            invariant
                self.wf(),
                self.is_cstr(va as int, whole),
                whole == self.cstr_of(va as int),
                i <= whole.len(),
                out@ == whole.subrange(0, i as int),
            decreases whole.len() - i,
        {
            proof {
                self.lemma_mapped_end(va as int, whole.len() as int + 1);
            }
            let one = self.copy_from_user(va + i, 1);
            let b = one[0];
            if b == 0 {
                proof {
                    if i < whole.len() {
                        assert(whole[i as int] == self.vbyte(va + i));
                    }
                    assert(out@ =~= whole);
                }
                return out;
            }
            proof {
                if i == whole.len() {
                    assert(self.vbyte(va + i) == 0);
                }
            }
            out.push(b);
            i = i + 1;
            assert(out@ =~= whole.subrange(0, i as int));
        }
    }

    /// Page `vpn` lies in the address space and has no mapping.
    pub open spec fn page_free(&self, vpn: int) -> bool {
        0 <= vpn < self.ptes@.len() && self.ptes@[vpn].is_none()
    }

    /// Every page of `[first, last)` lies in the address space and is unmapped.
    pub open spec fn range_free(&self, first: int, last: int) -> bool {
        forall|v: int| first <= v < last ==> #[trigger] self.page_free(v)
    }

    /// Every page of `[first, last)` is mapped.
    pub open spec fn range_taken(&self, first: int, last: int) -> bool {
        forall|v: int| first <= v < last ==> #[trigger] self.mapped(v)
    }

    /// Whether every page of `[first, last)` lies in the address space and is unmapped.
    pub fn pages_free(&self, first: usize, last: usize) -> (r: bool)
        ensures
            r == self.range_free(first as int, last as int),
    {
        let mut v: usize = first;
        while v < last
            invariant
                first <= v,
                forall|w: int| first <= w < v ==> #[trigger] self.page_free(w),
            decreases last - v,
        {
            if v >= self.ptes.len() || self.translate(v).is_some() {
                assert(!self.page_free(v as int));
                return false;
            }
            v = v + 1;
        }
        true
    }

    /// Whether every page of `[first, last)` is mapped.
    pub fn pages_mapped(&self, first: usize, last: usize) -> (r: bool)
        ensures
            r == self.range_taken(first as int, last as int),
    {
        let mut v: usize = first;
        while v < last
            invariant
                first <= v,
                forall|w: int| first <= w < v ==> #[trigger] self.mapped(w),
            decreases last - v,
        {
            if self.translate(v).is_none() {
                return false;
            }
            v = v + 1;
        }
        true
    }

    /// Crossing page boundaries is invisible: the physical ranges that cover
    /// `[va, va + len)`, read one after the other, give the same bytes as a
    /// contiguous copy of the virtual range, however the frames lie.
    pub proof fn lemma_gathered(&self, rs: Seq<PhysRange>, va: int, len: int)
        requires
            self.covers(rs, va, len),
        ensures
            gathered(self.frames@, rs) == self.vbytes(va, len),
    {
        self.lemma_gathered_prefix(rs, va, len, rs.len() as int);
        if rs.len() > 0 {
            assert(rs.subrange(0, rs.len() as int) =~= rs);
        } else {
            assert(gathered(self.frames@, rs) =~= self.vbytes(va, len));
        }
    }

    /// The first `i` ranges of a cover give the first bytes of the range.
    proof fn lemma_gathered_prefix(&self, rs: Seq<PhysRange>, va: int, len: int, i: int)
        requires
            self.covers(rs, va, len),
            0 <= i <= rs.len(),
        ensures
            gathered(self.frames@, rs.subrange(0, i)) == self.vbytes(va, Self::reached(rs, va, i) - va),
        decreases i,
    {
        if i == 0 {
            assert(gathered(self.frames@, rs.subrange(0, 0)) =~= self.vbytes(va, 0));
        } else {
            self.lemma_gathered_prefix(rs, va, len, i - 1);
            let pre = rs.subrange(0, i);
            assert(pre.drop_last() =~= rs.subrange(0, i - 1));
            let r = rs[i - 1];
            if i > 1 {
                assert(rs[(i - 2) + 1].va == rs[i - 2].va + rs[i - 2].len);
            }
            assert(Self::reached(rs, va, i - 1) == r.va);
            let a = self.vbytes(va, r.va - va);
            let piece = self.frames@.subrange(r.pa as int, r.pa + r.len);
            assert forall|j: int| 0 <= j < r.len implies piece[j] == self.vbyte(r.va + j) by {
                assert(self.pa_of(rs[i - 1].va + j) == rs[i - 1].pa + j);
            }
            assert(a + piece =~= self.vbytes(va, r.va + r.len - va));
        }
    }
}

} // verus!
