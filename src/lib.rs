//! Client-side rollback netplay core: opponent input prediction, snapshot
//! bookkeeping, allocator interposition decisions, the rollback state machine
//! and the code redirection encoder.
mod bytes;
pub mod heap;
pub mod hook;
pub mod input;
pub mod layout;
pub mod rollback;
pub mod snapshot;
pub mod version;

pub use hook::{HookPoint, HookType, Hooker, Registers, ThreadCallback};
pub use input::{input_to_accum, EnemyInputHolder, RInput, INPUT_KEYS_NUMBERS};
pub use layout::{
    get_ptr, read_addr, read_linked_list, read_ll4, read_maybe_ring_buffer, read_vec, Deque,
    LL3Holder, VecAddr, Walk, LL4,
};
pub use rollback::{
    apply_input, pause, resume, Confirmed, RollFrame, Rollbacker, StartOutcome, StepAction,
    StepKind,
};
pub use snapshot::{ExtraState, Frame, ReadAddrMetadata, RestorePlan};
