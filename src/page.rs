//! Page arithmetic on virtual addresses.
use vstd::prelude::*;
use vstd::arithmetic::div_mod::{
    lemma_fundamental_div_mod, lemma_fundamental_div_mod_converse, lemma_mod_pos_bound,
};
use crate::config::PAGE_SIZE;

verus! {

/// Page number holding a virtual address.
pub open spec fn vpn_of(va: int) -> int {
    va / PAGE_SIZE as int
}

/// Offset of a virtual address inside its page.
pub open spec fn offset_of(va: int) -> int {
    va % PAGE_SIZE as int
}

/// First page number not below `va`, i.e. `va` rounded up to a page, as a page number.
pub open spec fn ceil_vpn(va: int) -> int {
    (va + PAGE_SIZE as int - 1) / PAGE_SIZE as int
}

/// An address is aligned when its in-page offset is zero.
pub open spec fn aligned(va: int) -> bool {
    offset_of(va) == 0
}

/// An address splits into its page number and its offset.
pub proof fn lemma_split(va: int)
    requires
        va >= 0,
    ensures
        va == vpn_of(va) * PAGE_SIZE as int + offset_of(va),
        0 <= offset_of(va) < PAGE_SIZE as int,
        vpn_of(va) >= 0,
{
    lemma_fundamental_div_mod(va, PAGE_SIZE as int);
    lemma_mod_pos_bound(va, PAGE_SIZE as int);
    assert(vpn_of(va) >= 0) by (nonlinear_arith)
        requires
            va >= 0,
            vpn_of(va) == va / PAGE_SIZE as int,
    ;
}

/// Page number and offset of `vpn * PAGE_SIZE + off`.
pub proof fn lemma_compose(vpn: int, off: int)
    requires
        0 <= off < PAGE_SIZE as int,
    ensures
        vpn_of(vpn * PAGE_SIZE as int + off) == vpn,
        offset_of(vpn * PAGE_SIZE as int + off) == off,
{
    lemma_fundamental_div_mod_converse(
        vpn * PAGE_SIZE as int + off,
        PAGE_SIZE as int,
        vpn,
        off,
    );
}

/// Moving `j` bytes forward inside one page keeps the page and adds to the offset.
pub proof fn lemma_same_page(va: int, j: int)
    requires
        va >= 0,
        j >= 0,
        offset_of(va) + j < PAGE_SIZE as int,
    ensures
        vpn_of(va + j) == vpn_of(va),
        offset_of(va + j) == offset_of(va) + j,
{
    lemma_split(va);
    assert(va + j == vpn_of(va) * PAGE_SIZE as int + (offset_of(va) + j));
    lemma_compose(vpn_of(va), offset_of(va) + j);
}

/// A byte of frame `ppn` at offset `off` lies below `n` frames when `ppn < n`.
pub proof fn lemma_frame_bound(ppn: int, off: int, n: int)
    requires
        0 <= ppn < n,
        0 <= off < PAGE_SIZE as int,
    ensures
        0 <= ppn * PAGE_SIZE as int + off < n * PAGE_SIZE as int,
        ppn * PAGE_SIZE as int + PAGE_SIZE as int <= n * PAGE_SIZE as int,
{
    assert(ppn * PAGE_SIZE as int + PAGE_SIZE as int <= n * PAGE_SIZE as int) by (nonlinear_arith)
        requires
            ppn < n,
    ;
    assert(0 <= ppn * PAGE_SIZE as int) by (nonlinear_arith)
        requires
            0 <= ppn,
    ;
}

/// Two addresses in frames `p` and `q` coincide only when frames and offsets do.
pub proof fn lemma_frame_unique(p: int, a: int, q: int, b: int)
    requires
        0 <= a < PAGE_SIZE as int,
        0 <= b < PAGE_SIZE as int,
        p * PAGE_SIZE as int + a == q * PAGE_SIZE as int + b,
    ensures
        p == q,
        a == b,
{
    lemma_compose(p, a);
    lemma_compose(q, b);
}

/// A byte of frame `p` lies outside frame `q` when the frames differ.
pub proof fn lemma_frame_apart(p: int, off: int, q: int)
    requires
        0 <= off < PAGE_SIZE as int,
        p != q,
    ensures
        !(q * PAGE_SIZE as int <= p * PAGE_SIZE as int + off < q * PAGE_SIZE as int + PAGE_SIZE as int),
{
    let y = p * PAGE_SIZE as int + off;
    if q * PAGE_SIZE as int <= y && y < q * PAGE_SIZE as int + PAGE_SIZE as int {
        lemma_frame_unique(p, off, q, y - q * PAGE_SIZE as int);
    }
}

/// Page number of an address.
pub fn floor_vpn(va: usize) -> (r: usize)
    ensures
        r == vpn_of(va as int),
{
    va / PAGE_SIZE
}

/// Rounds an address up to a page boundary and gives that page's number.
pub fn round_up_vpn(va: usize) -> (r: usize)
    ensures
        r == ceil_vpn(va as int),
{
    let q = va / PAGE_SIZE;
    if va % PAGE_SIZE == 0 {
        proof {
            lemma_split(va as int);
            lemma_compose(q as int, PAGE_SIZE as int - 1);
        }
        q
    } else {
        proof {
            lemma_split(va as int);
            lemma_compose(q as int + 1, offset_of(va as int) - 1);
        }
        q + 1
    }
}

/// Whether an address sits on a page boundary.
pub fn is_aligned(va: usize) -> (r: bool)
    ensures
        r == aligned(va as int),
{
    va % PAGE_SIZE == 0
}

} // verus!
