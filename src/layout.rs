//! Arithmetic of the header that precedes every block handed to a caller.

use vstd::arithmetic::div_mod::{lemma_fundamental_div_mod, lemma_mod_decreases, lemma_mod_multiples_basic};
use vstd::arithmetic::power2::is_pow2;
use vstd::layout::valid_layout;
use vstd::prelude::*;

verus! {

/// Size of the slot that holds a correlation key.
pub const META_LEN: usize = 8;

/// Size and alignment of a block, as a caller requests it.
#[derive(Clone, Copy, Debug, PartialEq, Eq)]
pub struct HeapLayout {
    pub size: usize,
    pub align: usize,
}

impl HeapLayout {
    /// The conditions under which the standard library accepts a layout.
    pub open spec fn wf(&self) -> bool {
        valid_layout(self.size, self.align)
    }
}

/// Bytes in front of the caller's pointer: the key slot, or one whole
/// alignment unit where the alignment is larger than the slot.
pub open spec fn header_len(align: usize) -> usize {
    if META_LEN > align {
        META_LEN
    } else {
        align
    }
}

/// The header offset for a block of the given alignment.
pub fn header_offset(align: usize) -> (r: usize)
    ensures
        r == header_len(align),
{
    if META_LEN > align {
        META_LEN
    } else {
        align
    }
}

/// The size of the enlarged block: the caller's bytes plus the header, or
/// `None` where that sum does not fit in a `usize`.
pub fn real_size(layout: &HeapLayout) -> (r: Option<usize>)
    ensures
        r matches Some(n) ==> n == layout.size + header_len(layout.align),
        r is None <==> layout.size + header_len(layout.align) > usize::MAX,
{
    let h = header_offset(layout.align);
    layout.size.checked_add(h)
}

/// Alignment of the enlarged block: the caller's, and never below that of the key slot.
pub open spec fn outer_align(align: usize) -> usize {
    if align < META_LEN {
        META_LEN
    } else {
        align
    }
}

/// The enlarged layout, by value, without regard to machine limits.
pub open spec fn enlarged_size(layout: HeapLayout) -> int {
    layout.size + header_len(layout.align)
}

/// Whether the enlarged layout of `layout` is one the standard library accepts.
pub open spec fn can_enlarge(layout: HeapLayout) -> bool {
    enlarged_size(layout) <= usize::MAX && valid_layout(
        enlarged_size(layout) as usize,
        outer_align(layout.align),
    )
}

/// Whether a block of `layout` can be resized to `new_size` caller bytes.
pub open spec fn can_resize(layout: HeapLayout, new_size: usize) -> bool {
    new_size + header_len(layout.align) <= usize::MAX && valid_layout(
        (new_size + header_len(layout.align)) as usize,
        outer_align(layout.align),
    )
}

proof fn lemma_pow2_divides(a: int, b: int)
    requires
        is_pow2(a),
        is_pow2(b),
        a <= b,
    ensures
        b % a == 0,
    decreases b,
{
    reveal(is_pow2);
    if a == b {
    } else if a == 1 {
    } else {
        lemma_pow2_divides(a / 2, b / 2);
        let (ha, hb) = (a / 2, b / 2);
        let k = hb / ha;
        lemma_fundamental_div_mod(hb, ha);
        assert(b == k * a) by (nonlinear_arith)
            requires
                a == 2 * ha,
                b == 2 * hb,
                hb == ha * k + hb % ha,
                hb % ha == 0,
        ;
        lemma_mod_multiples_basic(k, a);
    }
}

proof fn lemma_meta_len_pow2()
    ensures
        is_pow2(META_LEN as int),
{
    reveal_with_fuel(is_pow2, 4);
}

/// Largest size that the standard library accepts at alignment `align`.
fn size_limit(align: usize) -> (r: usize)
    requires
        align > 0,
    ensures
        r == isize::MAX as int - (isize::MAX as int % align as int),
{
    let m: usize = isize::MAX as usize;
    proof {
        lemma_mod_decreases(m as nat, align as nat);
    }
    m - m % align
}

impl HeapLayout {
    /// The layout that is requested from the underlying allocator for a block
    /// of `self`: larger by the header and aligned at least as the key slot.
    /// `None` where that layout cannot exist.
    pub fn new_layout(&self) -> (r: Option<HeapLayout>)
        requires
            self.wf(),
        ensures
            r is Some <==> can_enlarge(*self),
            r matches Some(o) ==> o.wf() && o.size == enlarged_size(*self) && o.align
                == outer_align(self.align),
    {
        proof {
            lemma_meta_len_pow2();
        }
        let align = if self.align < META_LEN {
            META_LEN
        } else {
            self.align
        };
        match real_size(self) {
            None => None,
            Some(n) => {
                if n <= size_limit(align) {
                    Some(HeapLayout { size: n, align })
                } else {
                    None
                }
            },
        }
    }

    /// The size to ask of the underlying allocator when a block of `self` is
    /// resized to `new_size` caller bytes; the block keeps its alignment.
    pub fn resized_size(&self, new_size: usize) -> (r: Option<usize>)
        requires
            self.wf(),
        ensures
            r is Some <==> can_resize(*self, new_size),
            r matches Some(n) ==> n == new_size + header_len(self.align),
    {
        proof {
            lemma_meta_len_pow2();
        }
        let align = if self.align < META_LEN {
            META_LEN
        } else {
            self.align
        };
        match new_size.checked_add(header_offset(self.align)) {
            None => None,
            Some(n) => {
                if n <= size_limit(align) {
                    Some(n)
                } else {
                    None
                }
            },
        }
    }
}

/// The header scheme keeps every caller's pointer aligned as requested: in a
/// block placed at `base` with the enlarged layout of `layout`, the caller's
/// pointer `base + header_len` is a multiple of the requested alignment, the
/// key slot fits in front of it, and the caller's bytes end where the block does.
/// This holds for alignments below the key slot's and above it alike.
pub proof fn lemma_caller_pointer_aligned(layout: HeapLayout, base: int)
    requires
        layout.wf(),
        can_enlarge(layout),
        base >= 0,
        base % (outer_align(layout.align) as int) == 0,
    ensures
        (base + header_len(layout.align)) % (layout.align as int) == 0,
        base + META_LEN <= base + header_len(layout.align),
        base + header_len(layout.align) + layout.size == base + enlarged_size(layout),
{
    let a = layout.align as int;
    let h = header_len(layout.align) as int;
    reveal(is_pow2);
    if a < META_LEN {
        lemma_meta_len_pow2();
        lemma_pow2_divides(a, META_LEN as int);
        assert((base + h) % a == 0) by (nonlinear_arith)
            requires
                h == 8,
                a > 0,
                base % 8 == 0,
                8int % a == 0,
        ;
    } else {
        assert((base + h) % a == 0) by (nonlinear_arith)
            requires
                h == a,
                a > 0,
                base % a == 0,
        ;
    }
}

} // verus!
