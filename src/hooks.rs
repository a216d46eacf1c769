//! The decisions of the allocator hooks: whether a hook captures its call
//! site, which layout it asks of the underlying allocator, where the header
//! lies, and whether a freed block's key is looked up.

use crate::layout::{
    can_enlarge, can_resize, enlarged_size, header_len, outer_align, HeapLayout,
};
use crate::registry::SENTINEL;
use vstd::prelude::*;

verus! {

/// The tracing allocator. Its hooks capture a call site only when tracing is
/// neither suspended on the calling thread nor stopped for the process.
pub struct MyAlloc;

/// What an allocation or deallocation hook does with a block of a given layout.
#[derive(Clone, Copy, Debug, PartialEq, Eq)]
pub struct BlockPlan {
    /// Whether the hook captures and counts its call site.
    pub capture: bool,
    /// The layout of the underlying block, header included.
    pub outer: HeapLayout,
    /// Distance from the start of the underlying block to the caller's pointer;
    /// the key slot starts the block.
    pub offset: usize,
}

/// What a reallocation hook does.
#[derive(Clone, Copy, Debug, PartialEq, Eq)]
pub struct ResizePlan {
    /// The plan of the block as it stands before the call.
    pub block: BlockPlan,
    /// The size to ask for the underlying block, header included; it keeps
    /// the old alignment and header offset.
    pub new_total: usize,
}

/// The plan for a block of `layout`, where the enlarged layout exists.
pub open spec fn block_plan(layout: HeapLayout, suspended: bool, stopped: bool) -> BlockPlan {
    BlockPlan {
        capture: !suspended && !stopped,
        outer: HeapLayout {
            size: enlarged_size(layout) as usize,
            align: outer_align(layout.align),
        },
        offset: header_len(layout.align),
    }
}

impl MyAlloc {
    /// Whether a hook captures its call site: not while the calling thread
    /// is inside the tracer's own bookkeeping, and not once tracing stopped.
    pub fn capture_enabled(suspended: bool, stopped: bool) -> (r: bool)
        ensures
            r == (!suspended && !stopped),
            suspended ==> !r,
            stopped ==> !r,
    {
        !suspended && !stopped
    }

    /// The plan of an allocation or deallocation of a block of `layout`;
    /// `None` where the enlarged layout cannot exist, and the hook then fails
    /// as the underlying allocator would.
    pub fn plan_block(layout: HeapLayout, suspended: bool, stopped: bool) -> (r: Option<BlockPlan>)
        requires
            layout.wf(),
        ensures
            r is Some <==> can_enlarge(layout),
            r matches Some(p) ==> p == block_plan(layout, suspended, stopped) && p.outer.wf(),
    {
        let capture = MyAlloc::capture_enabled(suspended, stopped);
        match layout.new_layout() {
            None => None,
            Some(outer) => Some(
                BlockPlan { capture, outer, offset: crate::layout::header_offset(layout.align) },
            ),
        }
    }

    /// The plan of a reallocation of a block of `layout` to `new_size` caller
    /// bytes. The old header is found with the old layout's offset, and the
    /// new block keeps that offset. `None` where either size cannot exist.
    pub fn plan_resize(layout: HeapLayout, new_size: usize, suspended: bool, stopped: bool) -> (r:
        Option<ResizePlan>)
        requires
            layout.wf(),
        ensures
            r is Some <==> can_enlarge(layout) && can_resize(layout, new_size),
            r matches Some(p) ==> p.block == block_plan(layout, suspended, stopped) && p.block.outer.wf()
                && p.new_total == new_size + header_len(layout.align),
    {
        match MyAlloc::plan_block(layout, suspended, stopped) {
            None => None,
            Some(block) => match layout.resized_size(new_size) {
                None => None,
                Some(new_total) => Some(ResizePlan { block, new_total }),
            },
        }
    }

    /// Whether a deallocation looks the key of its header up in the registry:
    /// never for the sentinel, and never inside the tracer's own bookkeeping.
    pub fn release_needed(key: u64, suspended: bool) -> (r: bool)
        ensures
            r == (key != SENTINEL && !suspended),
    {
        key != SENTINEL && !suspended
    }
}

} // verus!
