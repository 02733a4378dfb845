//! Allocator interposition: which heap calls a capture window takes over.
use vstd::prelude::*;

verus! {

/// What to do with an intercepted call.
#[derive(Clone, Copy, Debug, PartialEq, Eq, Structural)]
pub enum HeapDecision {
    /// Hand the call to the real allocator and record nothing.
    PassThrough,
    /// For a free: do not free now, queue the address into the frame being
    /// built. For an allocation: allocate now and record the address too.
    Track,
    /// A reallocation inside a capture window: cannot be attributed to one
    /// point in time, so the process must abort.
    Fatal,
}

/// Whether a call lies inside the capture window: it targets the designated
/// heap, comes from the thread that runs ticks, and the match has started.
pub open spec fn in_window(designated: usize, heap: usize, owner: u32, thread: u32, framecount: usize) -> bool {
    heap == designated && thread == owner && framecount != 0
}

/// Whether a call lies inside the capture window.
pub fn capture_window_active(designated: usize, heap: usize, owner: u32, thread: u32, framecount: usize) -> (r: bool)
    ensures
        r == in_window(designated, heap, owner, thread, framecount),
{
    heap == designated && thread == owner && framecount != 0
}

/// How to handle a free of the heap `heap` from `thread`.
pub fn on_free(designated: usize, heap: usize, owner: u32, thread: u32, framecount: usize) -> (r: HeapDecision)
    ensures
        r == if in_window(designated, heap, owner, thread, framecount) {
            HeapDecision::Track
        } else {
            HeapDecision::PassThrough
        },
{
    if capture_window_active(designated, heap, owner, thread, framecount) {
        HeapDecision::Track
    } else {
        HeapDecision::PassThrough
    }
}

/// How to handle an allocation: it is always performed; inside the window
/// its address is recorded as well.
pub fn on_alloc(designated: usize, heap: usize, owner: u32, thread: u32, framecount: usize) -> (r: HeapDecision)
    ensures
        r == if in_window(designated, heap, owner, thread, framecount) {
            HeapDecision::Track
        } else {
            HeapDecision::PassThrough
        },
{
    on_free(designated, heap, owner, thread, framecount)
}

/// How to handle a reallocation: fatal inside the window, passed through
/// outside it.
pub fn on_realloc(designated: usize, heap: usize, owner: u32, thread: u32, framecount: usize) -> (r: HeapDecision)
    ensures
        r == if in_window(designated, heap, owner, thread, framecount) {
            HeapDecision::Fatal
        } else {
            HeapDecision::PassThrough
        },
{
    if capture_window_active(designated, heap, owner, thread, framecount) {
        HeapDecision::Fatal
    } else {
        HeapDecision::PassThrough
    }
}

} // verus!
