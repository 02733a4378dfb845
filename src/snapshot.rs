//! Frames: captured byte spans of host memory, with the allocator bookkeeping
//! that decides, when a frame is confirmed or discarded, what is really freed.
use vstd::prelude::*;
use crate::bytes::push_bytes;
use crate::rollback::RollFrame;

verus! {

/// Size of the saved FPU state.
pub const FPU_STATE_SIZE: usize = 108;

/// Largest span one region descriptor may cover.
pub const MAX_REGION_SIZE: usize = 10000;

/// A span of host memory: `size` bytes at `pos`.
#[derive(Clone, Copy, Debug, PartialEq, Eq)]
pub struct ReadAddrMetadata {
    pub size: usize,
    pub pos: usize,
}

/// The token that a registered state provider returned at capture time;
/// `provider` is its index in registration order.
#[derive(Clone, Copy, Debug, PartialEq, Eq)]
pub struct ExtraState {
    pub provider: usize,
    pub state: u32,
}

/// Host state captured at the start of one tick.
pub struct Frame {
    pub number: usize,
    pub addresses: Vec<ReadAddrMetadata>,
    pub addresses_buf: Vec<u8>,
    pub fp: [u8; FPU_STATE_SIZE],
    pub frees: Vec<usize>,
    pub allocs: Vec<usize>,
    pub extra_states: Vec<ExtraState>,
    pub weather_sync_check: u8,
    pub has_called_never_happened: bool,
    pub has_happened: bool,
}

/// What a rollback leaves to do on the heap.
pub struct RestorePlan {
    /// Speculative allocations to release now.
    pub freed: Vec<usize>,
    /// Speculative allocations nothing released: their bytes are lost.
    pub leaked: Vec<usize>,
}

/// `n` rounded up to a multiple of 4.
pub open spec fn align4(n: nat) -> nat {
    ((n + 3) / 4 * 4) as nat
}

/// Length of the backing buffer for `regions`, each region padded to 4 bytes.
pub open spec fn layout_len(regions: Seq<ReadAddrMetadata>) -> nat
    decreases regions.len(),
{
    if regions.len() == 0 {
        0
    } else {
        layout_len(regions.drop_last()) + align4(regions.last().size as nat)
    }
}

/// Where region `k` starts in the backing buffer.
pub open spec fn region_offset(regions: Seq<ReadAddrMetadata>, k: int) -> nat {
    layout_len(regions.take(k))
}

/// The captured bytes, each region followed by zeros up to a multiple of 4.
pub open spec fn packed(contents: Seq<Seq<u8>>) -> Seq<u8>
    decreases contents.len(),
{
    if contents.len() == 0 {
        Seq::empty()
    } else {
        let last = contents.last();
        packed(contents.drop_last()) + last + Seq::new(
            (align4(last.len()) - last.len()) as nat,
            |i: int| 0u8,
        )
    }
}

/// Whether `contents` were read from `regions`, one for one.
pub open spec fn matches_regions(regions: Seq<ReadAddrMetadata>, contents: Seq<Seq<u8>>) -> bool {
    &&& regions.len() == contents.len()
    &&& forall|k: int| 0 <= k < regions.len() ==> #[trigger] contents[k].len() == regions[k].size
}

/// The desync check byte derived from the weather counter.
pub open spec fn weather_check(raw: u32) -> u8 {
    ((raw as nat * 17) % 256) as u8
}

/// Holds of the addresses that do not occur in `v`.
pub open spec fn not_in(v: Seq<usize>) -> spec_fn(usize) -> bool {
    |a: usize| !v.contains(a)
}

/// Allocations of a discarded frame that its own frees did not cancel
/// (or, arguments swapped, frees that its own allocations did not cancel).
pub open spec fn uncancelled(allocs: Seq<usize>, frees: Seq<usize>) -> Seq<usize> {
    allocs.filter(not_in(frees))
}

/// Whether `after` is `before` once discarded: its bookkeeping emptied, the
/// rest kept.
pub open spec fn discarded_entry(before: RollFrame, after: RollFrame) -> bool {
    &&& after.player_input == before.player_input
    &&& after.enemy_input == before.enemy_input
    &&& after.prev_state.number == before.prev_state.number
    &&& after.prev_state.addresses@ == before.prev_state.addresses@
    &&& after.prev_state.addresses_buf@ == before.prev_state.addresses_buf@
    &&& after.prev_state.fp == before.prev_state.fp
    &&& after.prev_state.extra_states@ == before.prev_state.extra_states@
    &&& after.prev_state.weather_sync_check == before.prev_state.weather_sync_check
    &&& after.prev_state.allocs@.len() == 0
    &&& after.prev_state.frees@.len() == 0
    &&& after.prev_state.has_called_never_happened
    &&& !after.prev_state.has_happened
}

/// Pending allocations after a batch of allocations and frees.
pub open spec fn absorb(acc: Set<usize>, a: Set<usize>, f: Set<usize>) -> Set<usize> {
    acc.union(a).difference(f)
}

/// Pending allocations that a batch of frees releases.
pub open spec fn released(acc: Set<usize>, a: Set<usize>, f: Set<usize>) -> Set<usize> {
    acc.union(a).intersect(f)
}

/// Discarding frames in order, given each frame's (allocations, frees):
/// the allocations still pending, and every address released on the way.
pub open spec fn reconcile(batches: Seq<(Seq<usize>, Seq<usize>)>) -> (Set<usize>, Set<usize>)
    decreases batches.len(),
{
    if batches.len() == 0 {
        (Set::empty(), Set::empty())
    } else {
        let prev = reconcile(batches.drop_last());
        let a = batches.last().0.to_set();
        let f = batches.last().1.to_set();
        let a2 = a.difference(f);
        let f2 = f.difference(a);
        (absorb(prev.0, a2, f2), prev.1.union(a.intersect(f)).union(released(prev.0, a2, f2)))
    }
}

/// The (allocations, frees) of each queued entry.
pub open spec fn batches_of(entries: Seq<RollFrame>) -> Seq<(Seq<usize>, Seq<usize>)> {
    entries.map_values(|e: RollFrame| (e.prev_state.allocs@, e.prev_state.frees@))
}

proof fn lemma_align4(n: nat)
    ensures
        n <= align4(n) <= n + 3,
        align4(n) % 4 == 0,
{
}

proof fn lemma_layout_aligned(regions: Seq<ReadAddrMetadata>)
    ensures
        layout_len(regions) % 4 == 0,
    decreases regions.len(),
{
    if regions.len() > 0 {
        lemma_layout_aligned(regions.drop_last());
    }
}

proof fn lemma_layout_prefix(regions: Seq<ReadAddrMetadata>, k: int)
    requires
        0 <= k < regions.len(),
    ensures
        layout_len(regions.take(k + 1)) == layout_len(regions.take(k)) + align4(regions[k].size as nat),
{
    assert(regions.take(k + 1).drop_last() =~= regions.take(k));
}

proof fn lemma_layout_mono(regions: Seq<ReadAddrMetadata>, j: int, k: int)
    requires
        0 <= j <= k <= regions.len(),
    ensures
        layout_len(regions.take(j)) <= layout_len(regions.take(k)),
    decreases k - j,
{
    if j < k {
        lemma_layout_prefix(regions, k - 1);
        lemma_layout_mono(regions, j, k - 1);
    }
}

proof fn lemma_packed_len(regions: Seq<ReadAddrMetadata>, contents: Seq<Seq<u8>>)
    requires
        matches_regions(regions, contents),
    ensures
        packed(contents).len() == layout_len(regions),
    decreases contents.len(),
{
    if contents.len() > 0 {
        lemma_packed_len(regions.drop_last(), contents.drop_last());
    }
}

/// Round trip: the bytes that a frame keeps for region `k` are the bytes that
/// were read from it at capture.
pub proof fn lemma_capture_restore_round_trip(regions: Seq<ReadAddrMetadata>, contents: Seq<Seq<u8>>, k: int)
    requires
        matches_regions(regions, contents),
        0 <= k < regions.len(),
    ensures
        region_offset(regions, k) + regions[k].size <= packed(contents).len(),
        packed(contents).subrange(
            region_offset(regions, k) as int,
            region_offset(regions, k) + regions[k].size,
        ) == contents[k],
    decreases contents.len(),
{
    let n = contents.len() - 1;
    lemma_packed_len(regions.drop_last(), contents.drop_last());
    assert(regions.take(n) =~= regions.drop_last());
    if k == n {
        assert(region_offset(regions, k) == packed(contents.drop_last()).len());
        assert(packed(contents).subrange(region_offset(regions, k) as int, region_offset(regions, k) + regions[k].size) =~= contents[k]);
    } else {
        lemma_capture_restore_round_trip(regions.drop_last(), contents.drop_last(), k);
        assert(regions.drop_last().take(k) =~= regions.take(k));
        assert(packed(contents).subrange(region_offset(regions, k) as int, region_offset(regions, k) + regions[k].size)
            =~= packed(contents.drop_last()).subrange(region_offset(regions, k) as int, region_offset(regions, k) + regions[k].size));
    }
}

/// The uncancelled allocations are those not freed in the same frame.
pub proof fn lemma_uncancelled_set(a: Seq<usize>, f: Seq<usize>)
    ensures
        uncancelled(a, f).to_set() == a.to_set().difference(f.to_set()),
{
    let p = not_in(f);
    assert forall|x: usize| uncancelled(a, f).contains(x) <==> (a.contains(x) && !f.contains(x)) by {
        if uncancelled(a, f).contains(x) {
            a.lemma_filter_contains_rev(p, x);
            let i = choose|i: int| 0 <= i < a.filter(p).len() && a.filter(p)[i] == x;
            a.lemma_filter_pred(p, i);
        }
        if a.contains(x) && !f.contains(x) {
            let i = choose|i: int| 0 <= i < a.len() && a[i] == x;
            a.lemma_filter_contains(p, i);
        }
    }
    assert(uncancelled(a, f).to_set() =~= a.to_set().difference(f.to_set()));
}

/// Discarding a frame splits its allocations A and frees F three ways: A∩F is
/// released at once, A\F stays pending and F\A stays as frees to match
/// against earlier allocations; nothing else is tracked.
pub proof fn lemma_discard_symmetric_difference(a: Seq<usize>, f: Seq<usize>)
    ensures
        uncancelled(a, f).to_set() == a.to_set().difference(f.to_set()),
        uncancelled(f, a).to_set() == f.to_set().difference(a.to_set()),
        a.to_set().intersect(f.to_set()).union(uncancelled(a, f).to_set()) == a.to_set(),
        a.to_set().intersect(f.to_set()).disjoint(uncancelled(a, f).to_set()),
        a.to_set().intersect(f.to_set()).disjoint(uncancelled(f, a).to_set()),
{
    lemma_uncancelled_set(a, f);
    lemma_uncancelled_set(f, a);
    assert(a.to_set().intersect(f.to_set()).union(uncancelled(a, f).to_set()) =~= a.to_set());
}

/// Whether batch `k` keeps `x` as an uncancelled allocation.
pub open spec fn keeps_alloc(batches: Seq<(Seq<usize>, Seq<usize>)>, k: int, x: usize) -> bool {
    batches[k].0.contains(x) && !batches[k].1.contains(x)
}

/// Whether batch `k` frees `x` without allocating it again.
pub open spec fn frees_only(batches: Seq<(Seq<usize>, Seq<usize>)>, k: int, x: usize) -> bool {
    batches[k].1.contains(x) && !batches[k].0.contains(x)
}

/// An allocation that a discarded frame did not free itself stays pending
/// while no later discarded frame frees it.
pub proof fn lemma_pending_until_freed(batches: Seq<(Seq<usize>, Seq<usize>)>, j: int, x: usize)
    requires
        0 <= j < batches.len(),
        keeps_alloc(batches, j, x),
        forall|k: int| j < k < batches.len() ==> !frees_only(batches, k, x),
    ensures
        reconcile(batches).0.contains(x),
    decreases batches.len(),
{
    let n = batches.len() - 1;
    let b = batches.drop_last();
    if j < n {
        assert forall|k: int| j < k < b.len() implies !frees_only(b, k, x) by {
            assert(b[k] == batches[k]);
            assert(!frees_only(batches, k, x));
        }
        assert(b[j] == batches[j]);
        lemma_pending_until_freed(b, j, x);
    }
    assert(!frees_only(batches, n, x) || j == n);
}

/// A pending allocation of a discarded frame is released by a later
/// discarded frame that frees it.
pub proof fn lemma_later_free_releases(batches: Seq<(Seq<usize>, Seq<usize>)>, j: int, k: int, x: usize)
    requires
        0 <= j < k < batches.len(),
        keeps_alloc(batches, j, x),
        frees_only(batches, k, x),
    ensures
        reconcile(batches).1.contains(x),
    decreases batches.len(),
{
    let n = batches.len() - 1;
    let b = batches.drop_last();
    assert(b[j] == batches[j]);
    if k < n {
        assert(b[k] == batches[k]);
        lemma_later_free_releases(b, j, k, x);
    } else if exists|k2: int| j < k2 < n && frees_only(batches, k2, x) {
        let k2 = choose|k2: int| j < k2 < n && frees_only(batches, k2, x);
        assert(b[k2] == batches[k2]);
        lemma_later_free_releases(b, j, k2, x);
    } else {
        assert forall|k3: int| j < k3 < b.len() implies !frees_only(b, k3, x) by {
            assert(b[k3] == batches[k3]);
            if frees_only(batches, k3, x) {
                assert(j < k3 < n && frees_only(batches, k3, x));
            }
        }
        lemma_pending_until_freed(b, j, x);
    }
}

/// Whether no address is allocated by two of the discarded frames, nor by one
/// of them and again among the pending allocations: each allocation is its
/// own event.
pub open spec fn distinct_allocations(entries: Seq<RollFrame>, extra_allocs: Seq<usize>) -> bool {
    &&& forall|j: int, k: int| 0 <= j < k < entries.len() ==>
        (#[trigger] entries[j]).prev_state.allocs@.to_set().disjoint((#[trigger] entries[k]).prev_state.allocs@.to_set())
    &&& forall|j: int| 0 <= j < entries.len() ==>
        (#[trigger] entries[j]).prev_state.allocs@.to_set().disjoint(extra_allocs.to_set())
}

proof fn lemma_discard_step_disjoint(freed0: Set<usize>, acc0: Set<usize>, a: Set<usize>, f: Set<usize>)
    requires
        freed0.disjoint(acc0),
        a.disjoint(freed0.union(acc0)),
    ensures
        ({
            let acc1 = absorb(acc0, a.difference(f), f.difference(a));
            let freed1 = freed0.union(a.intersect(f)).union(released(acc0, a.difference(f), f.difference(a)));
            &&& freed1.disjoint(acc1)
            &&& freed1.union(acc1).subset_of(freed0.union(acc0).union(a))
        }),
{
}

proof fn lemma_absorb_step_disjoint(freed0: Set<usize>, acc0: Set<usize>, a: Set<usize>, f: Set<usize>)
    requires
        freed0.disjoint(acc0),
        a.disjoint(freed0.union(acc0)),
    ensures
        freed0.union(released(acc0, a, f)).disjoint(absorb(acc0, a, f)),
{
}

/// Copies `src[from..to]`.
fn copy_range(src: &Vec<u8>, from: usize, to: usize) -> (r: Vec<u8>)
    requires
        from <= to <= src@.len(),
    ensures
        r@ == src@.subrange(from as int, to as int),
{
    let mut r: Vec<u8> = Vec::new();
    let mut k: usize = from;
    while k < to
        invariant
            from <= k <= to <= src@.len(),
            r@ == src@.subrange(from as int, k as int),
        decreases to - k,
    {
        r.push(src[k]);
        k += 1;
        assert(r@ =~= src@.subrange(from as int, k as int));
    }
    r
}

/// Appends `x` unless it is already there.
fn push_new(v: &mut Vec<usize>, x: usize)
    ensures
        final(v)@.to_set() == old(v)@.to_set().insert(x),
        old(v)@.no_duplicates() ==> final(v)@.no_duplicates(),
{
    proof {
        v@.lemma_push_to_set_commute(x);
    }
    if !contains(v, x) {
        v.push(x);
        assert forall|i: int, j: int| 0 <= i < j < v@.len() && old(v)@.no_duplicates() implies v@[i] != v@[j] by {
            if j == v@.len() - 1 {
                assert(old(v)@[i] == v@[i]);
            }
        }
    } else {
        assert(v@.to_set() =~= old(v)@.to_set().insert(x));
    }
}

/// Appends every element of `src` that is not there yet.
fn append_all(dst: &mut Vec<usize>, src: &Vec<usize>)
    ensures
        final(dst)@.to_set() == old(dst)@.to_set().union(src@.to_set()),
        old(dst)@.no_duplicates() ==> final(dst)@.no_duplicates(),
{
    let mut k: usize = 0;
    while k < src.len()
        invariant
            0 <= k <= src@.len(),
            dst@.to_set() == old(dst)@.to_set().union(src@.take(k as int).to_set()),
            old(dst)@.no_duplicates() ==> dst@.no_duplicates(),
        decreases src@.len() - k,
    {
        let x = src[k];
        proof {
            assert(src@.take(k + 1) =~= src@.take(k as int).push(x));
            src@.take(k as int).lemma_push_to_set_commute(x);
        }
        push_new(dst, x);
        k += 1;
        assert(dst@.to_set() =~= old(dst)@.to_set().union(src@.take(k as int).to_set()));
    }
    assert(src@.take(src@.len() as int) =~= src@);
}

/// Whether `x` occurs in `v`.
pub fn contains(v: &Vec<usize>, x: usize) -> (r: bool)
    ensures
        r == v@.contains(x),
{
    let mut k: usize = 0;
    while k < v.len()
        invariant
            0 <= k <= v@.len(),
            forall|j: int| 0 <= j < k ==> v@[j] != x,
        decreases v@.len() - k,
    {
        if v[k] == x {
            return true;
        }
        k += 1;
    }
    false
}

/// The elements of `v` that do not occur in `other`, in order.
fn retain_absent(v: &Vec<usize>, other: &Vec<usize>) -> (r: Vec<usize>)
    ensures
        r@ == uncancelled(v@, other@),
{
    let ghost pred = not_in(other@);
    let mut r: Vec<usize> = Vec::new();
    let mut k: usize = 0;
    while k < v.len()
        invariant
            0 <= k <= v@.len(),
            pred == not_in(other@),
            r@ == v@.take(k as int).filter(pred),
        decreases v@.len() - k,
    {
        let x = v[k];
        proof {
            assert(v@.take(k + 1) =~= v@.take(k as int).push(x));
            v@.take(k as int).lemma_filter_push(x, pred);
        }
        if !contains(other, x) {
            r.push(x);
        }
        k += 1;
    }
    assert(v@.take(v@.len() as int) =~= v@);
    r
}

/// Adds `new_allocs` to the pending allocations, then releases every pending
/// allocation that `new_frees` frees.
pub fn free_if_allocated(
    allocs: &mut Vec<usize>,
    new_allocs: &Vec<usize>,
    new_frees: &Vec<usize>,
    freed: &mut Vec<usize>,
)
    ensures
        final(allocs)@.to_set() == absorb(old(allocs)@.to_set(), new_allocs@.to_set(), new_frees@.to_set()),
        final(freed)@.to_set() == old(freed)@.to_set().union(
            released(old(allocs)@.to_set(), new_allocs@.to_set(), new_frees@.to_set()),
        ),
        final(allocs)@.no_duplicates(),
        old(freed)@.no_duplicates() ==> final(freed)@.no_duplicates(),
{
    let mut k: usize = 0;
    let ghost before = allocs@;
    let mut distinct: Vec<usize> = Vec::new();
    while k < allocs.len()
        invariant
            0 <= k <= before.len(),
            before == allocs@,
            distinct@.no_duplicates(),
            distinct@.to_set() == before.take(k as int).to_set(),
        decreases before.len() - k,
    {
        let a = allocs[k];
        proof {
            assert(before.take(k + 1) =~= before.take(k as int).push(a));
            before.take(k as int).lemma_push_to_set_commute(a);
        }
        push_new(&mut distinct, a);
        k += 1;
    }
    assert(before.take(before.len() as int) =~= before);
    *allocs = distinct;
    let ghost pool = old(allocs)@.to_set().union(new_allocs@.to_set());
    k = 0;
    while k < new_allocs.len()
        invariant
            0 <= k <= new_allocs@.len(),
            allocs@.to_set() == old(allocs)@.to_set().union(new_allocs@.take(k as int).to_set()),
            allocs@.no_duplicates(),
        decreases new_allocs@.len() - k,
    {
        let a = new_allocs[k];
        proof {
            assert(new_allocs@.take(k + 1) =~= new_allocs@.take(k as int).push(a));
            new_allocs@.take(k as int).lemma_push_to_set_commute(a);
        }
        push_new(allocs, a);
        k += 1;
        assert(allocs@.to_set() =~= old(allocs)@.to_set().union(new_allocs@.take(k as int).to_set()));
    }
    assert(new_allocs@.take(new_allocs@.len() as int) =~= new_allocs@);
    let ghost freed0 = freed@.to_set();
    let mut j: usize = 0;
    while j < new_frees.len()
        invariant
            0 <= j <= new_frees@.len(),
            allocs@.to_set() == pool.difference(new_frees@.take(j as int).to_set()),
            freed@.to_set() == freed0.union(pool.intersect(new_frees@.take(j as int).to_set())),
            allocs@.no_duplicates(),
            old(freed)@.no_duplicates() ==> freed@.no_duplicates(),
        decreases new_frees@.len() - j,
    {
        let a = new_frees[j];
        proof {
            assert(new_frees@.take(j + 1) =~= new_frees@.take(j as int).push(a));
            new_frees@.take(j as int).lemma_push_to_set_commute(a);
        }
        let present = contains(allocs, a);
        proof {
            assert(present == allocs@.to_set().contains(a));
        }
        if present {
            push_new(freed, a);
            let kept = remove_value(allocs, a);
            *allocs = kept;
        }
        j += 1;
        assert(allocs@.to_set() =~= pool.difference(new_frees@.take(j as int).to_set()));
        assert(freed@.to_set() =~= freed0.union(pool.intersect(new_frees@.take(j as int).to_set())));
    }
    assert(new_frees@.take(new_frees@.len() as int) =~= new_frees@);
    assert(allocs@.to_set() =~= absorb(old(allocs)@.to_set(), new_allocs@.to_set(), new_frees@.to_set()));
    assert(freed@.to_set() =~= old(freed)@.to_set().union(
        released(old(allocs)@.to_set(), new_allocs@.to_set(), new_frees@.to_set()),
    ));
}

/// `v` without any occurrence of `x`.
fn remove_value(v: &Vec<usize>, x: usize) -> (r: Vec<usize>)
    ensures
        r@.to_set() == v@.to_set().remove(x),
        r@.no_duplicates(),
{
    let mut r: Vec<usize> = Vec::new();
    let mut k: usize = 0;
    while k < v.len()
        invariant
            0 <= k <= v@.len(),
            r@.to_set() == v@.take(k as int).to_set().remove(x),
            r@.no_duplicates(),
        decreases v@.len() - k,
    {
        let a = v[k];
        proof {
            assert(v@.take(k + 1) =~= v@.take(k as int).push(a));
            v@.take(k as int).lemma_push_to_set_commute(a);
        }
        if a != x {
            push_new(&mut r, a);
        }
        k += 1;
        assert(r@.to_set() =~= v@.take(k as int).to_set().remove(x));
    }
    assert(v@.take(v@.len() as int) =~= v@);
    r
}

/// The desync check byte for the weather counter `raw`.
pub fn weather_sync_check(raw: u32) -> (r: u8)
    ensures
        r == weather_check(raw),
{
    let low = raw % 256;
    proof {
        vstd::arithmetic::div_mod::lemma_mul_mod_noop_left(raw as int, 17, 256);
    }
    ((low * 17) % 256) as u8
}

impl Frame {
    /// The backing buffer is laid out as the region list says.
    pub open spec fn wf(&self) -> bool {
        self.addresses_buf@.len() == layout_len(self.addresses@)
    }

    /// Captures a frame for tick `number` from the bytes read at `regions`,
    /// the FPU state, the allocations and frees seen since the previous
    /// capture, the providers' tokens and the weather counter.
    pub fn capture(
        number: usize,
        regions: Vec<ReadAddrMetadata>,
        contents: &Vec<Vec<u8>>,
        fp: [u8; FPU_STATE_SIZE],
        allocs: Vec<usize>,
        frees: Vec<usize>,
        extra_states: Vec<ExtraState>,
        weather: u32,
    ) -> (f: Frame)
        requires
            matches_regions(regions@, contents@.map_values(|v: Vec<u8>| v@)),
            layout_len(regions@) <= usize::MAX,
        ensures
            f.wf(),
            f.number == number,
            f.addresses@ == regions@,
            f.addresses_buf@ == packed(contents@.map_values(|v: Vec<u8>| v@)),
            f.fp == fp,
            f.allocs@ == allocs@,
            f.frees@ == frees@,
            f.extra_states@ == extra_states@,
            f.weather_sync_check == weather_check(weather),
            !f.has_called_never_happened,
            !f.has_happened,
    {
        let ghost c = contents@.map_values(|v: Vec<u8>| v@);
        let mut buf: Vec<u8> = Vec::new();
        let mut k: usize = 0;
        while k < contents.len()
            invariant
                0 <= k <= contents@.len(),
                c == contents@.map_values(|v: Vec<u8>| v@),
                matches_regions(regions@, c),
                layout_len(regions@) <= usize::MAX,
                buf@ == packed(c.take(k as int)),
                buf@.len() == layout_len(regions@.take(k as int)),
            decreases contents@.len() - k,
        {
            proof {
                lemma_layout_prefix(regions@, k as int);
                lemma_layout_mono(regions@, k + 1, regions@.len() as int);
                assert(regions@.take(regions@.len() as int) =~= regions@);
                assert(c.take(k + 1).drop_last() =~= c.take(k as int));
                assert(c[k as int] == contents@[k as int]@);
                lemma_align4(contents@[k as int]@.len());
            }
            let ghost before = buf@;
            proof {
                lemma_layout_aligned(regions@.take(k as int));
            }
            push_bytes(&mut buf, contents[k].as_slice());
            let ghost with_bytes = buf@;
            let ghost len = contents@[k as int]@.len();
            while buf.len() % 4 != 0
                invariant
                    with_bytes.len() <= buf@.len() <= align4(len) + before.len(),
                    before.len() % 4 == 0,
                    len == contents@[k as int]@.len(),
                    with_bytes == before + contents@[k as int]@,
                    buf@ == with_bytes + Seq::new((buf@.len() - with_bytes.len()) as nat, |i: int| 0u8),
                    before.len() + align4(len) <= usize::MAX,
                decreases align4(len) + before.len() - buf@.len(),
            {
                buf.push(0);
                assert(buf@ =~= with_bytes + Seq::new((buf@.len() - with_bytes.len()) as nat, |i: int| 0u8));
            }
            assert(buf@.len() == before.len() + align4(len));
            assert(buf@ =~= packed(c.take(k + 1)));
            k += 1;
        }
        proof {
            assert(c.take(c.len() as int) =~= c);
            assert(regions@.take(regions@.len() as int) =~= regions@);
        }
        Frame {
            number,
            addresses: regions,
            addresses_buf: buf,
            fp,
            frees,
            allocs,
            extra_states,
            weather_sync_check: weather_sync_check(weather),
            has_called_never_happened: false,
            has_happened: false,
        }
    }

    /// The bytes kept for region `k`.
    pub fn region_bytes(&self, k: usize) -> (r: Vec<u8>)
        requires
            self.wf(),
            k < self.addresses@.len(),
        ensures
            r@ == self.addresses_buf@.subrange(
                region_offset(self.addresses@, k as int) as int,
                region_offset(self.addresses@, k as int) + self.addresses@[k as int].size,
            ),
    {
        let mut index: usize = 0;
        let mut j: usize = 0;
        while j < k
            invariant
                0 <= j <= k < self.addresses@.len(),
                self.wf(),
                index == layout_len(self.addresses@.take(j as int)),
            decreases k - j,
        {
            index = self.next_index(index, j);
            j += 1;
        }
        proof {
            lemma_layout_prefix(self.addresses@, k as int);
            lemma_layout_mono(self.addresses@, k + 1, self.addresses@.len() as int);
            assert(self.addresses@.take(self.addresses@.len() as int) =~= self.addresses@);
            lemma_align4(self.addresses@[k as int].size as nat);
        }
        let total = self.addresses_buf.len();
        assert(index + self.addresses@[k as int].size <= total);
        copy_range(&self.addresses_buf, index, index + self.addresses[k].size)
    }

    /// Where the region after region `j` starts, given where region `j` starts.
    fn next_index(&self, index: usize, j: usize) -> (r: usize)
        requires
            self.wf(),
            j < self.addresses@.len(),
            index == layout_len(self.addresses@.take(j as int)),
        ensures
            r == layout_len(self.addresses@.take(j + 1)),
    {
        proof {
            lemma_layout_prefix(self.addresses@, j as int);
            lemma_layout_mono(self.addresses@, j + 1, self.addresses@.len() as int);
            assert(self.addresses@.take(self.addresses@.len() as int) =~= self.addresses@);
        }
        let total = self.addresses_buf.len();
        let size = self.addresses[j].size;
        let rem = size % 4;
        let pad: usize = if rem == 0 { 0 } else { 4 - rem };
        assert(size + pad == align4(size as nat));
        assert(index + size + pad <= total);
        index + size + pad
    }

    /// Every region with the bytes to copy back to it, in capture order.
    pub fn restore_writes(&self) -> (r: Vec<(usize, Vec<u8>)>)
        requires
            self.wf(),
        ensures
            r@.len() == self.addresses@.len(),
            forall|k: int| 0 <= k < r@.len() ==> {
                &&& (#[trigger] r@[k]).0 == self.addresses@[k].pos
                &&& r@[k].1@ == self.addresses_buf@.subrange(
                    region_offset(self.addresses@, k) as int,
                    region_offset(self.addresses@, k) + self.addresses@[k].size,
                )
            },
    {
        let mut r: Vec<(usize, Vec<u8>)> = Vec::new();
        let mut index: usize = 0;
        let mut k: usize = 0;
        while k < self.addresses.len()
            invariant
                0 <= k <= self.addresses@.len(),
                self.wf(),
                index == layout_len(self.addresses@.take(k as int)),
                r@.len() == k,
                forall|j: int| 0 <= j < k ==> {
                    &&& (#[trigger] r@[j]).0 == self.addresses@[j].pos
                    &&& r@[j].1@ == self.addresses_buf@.subrange(
                        region_offset(self.addresses@, j) as int,
                        region_offset(self.addresses@, j) + self.addresses@[j].size,
                    )
                },
            decreases self.addresses@.len() - k,
        {
            let next = self.next_index(index, k);
            proof {
                lemma_layout_prefix(self.addresses@, k as int);
                lemma_layout_mono(self.addresses@, k + 1, self.addresses@.len() as int);
                assert(self.addresses@.take(self.addresses@.len() as int) =~= self.addresses@);
                lemma_align4(self.addresses@[k as int].size as nat);
            }
            let a = self.addresses[k];
            let bytes = copy_range(&self.addresses_buf, index, index + a.size);
            r.push((a.pos, bytes));
            index = next;
            k += 1;
        }
        r
    }

    /// Whether the frame was confirmed or discarded; a frame let go
    /// otherwise leaks its tracked allocations.
    pub fn is_settled(&self) -> (r: bool)
        ensures
            r == (self.has_happened || self.has_called_never_happened),
    {
        self.has_happened || self.has_called_never_happened
    }

    /// Discards the frame ("never happened"): allocations that the frame
    /// also freed are returned, to be released now, and dropped from both
    /// lists; the other allocations stay pending and the other frees stay
    /// to be matched against earlier allocations.
    pub fn never_happened(&mut self) -> (freed: Vec<usize>)
        requires
            !old(self).has_happened,
        ensures
            freed@.to_set() == old(self).allocs@.to_set().intersect(old(self).frees@.to_set()),
            freed@.no_duplicates(),
            final(self).allocs@ == uncancelled(old(self).allocs@, old(self).frees@),
            final(self).frees@ == uncancelled(old(self).frees@, old(self).allocs@),
            final(self).has_called_never_happened,
            !final(self).has_happened,
            final(self).number == old(self).number,
            final(self).addresses@ == old(self).addresses@,
            final(self).addresses_buf@ == old(self).addresses_buf@,
            final(self).fp == old(self).fp,
            final(self).extra_states@ == old(self).extra_states@,
            final(self).weather_sync_check == old(self).weather_sync_check,
    {
        self.has_called_never_happened = true;
        let mut freed: Vec<usize> = Vec::new();
        let mut k: usize = 0;
        while k < self.allocs.len()
            invariant
                0 <= k <= self.allocs@.len(),
                self.allocs@ == old(self).allocs@,
                self.frees@ == old(self).frees@,
                freed@.no_duplicates(),
                freed@.to_set() == self.allocs@.take(k as int).to_set().intersect(self.frees@.to_set()),
            decreases self.allocs@.len() - k,
        {
            let a = self.allocs[k];
            proof {
                assert(self.allocs@.take(k + 1) =~= self.allocs@.take(k as int).push(a));
                self.allocs@.take(k as int).lemma_push_to_set_commute(a);
                freed@.lemma_push_to_set_commute(a);
            }
            if contains(&self.frees, a) && !contains(&freed, a) {
                freed.push(a);
            }
            k += 1;
            assert(freed@.to_set() =~= self.allocs@.take(k as int).to_set().intersect(self.frees@.to_set()));
        }
        assert(self.allocs@.take(self.allocs@.len() as int) =~= self.allocs@);
        assert(freed@.to_set() =~= old(self).allocs@.to_set().intersect(old(self).frees@.to_set()));
        let allocs = retain_absent(&self.allocs, &self.frees);
        let frees = retain_absent(&self.frees, &self.allocs);
        self.allocs = allocs;
        self.frees = frees;
        freed
    }

    /// Confirms the frame ("did happen"): returns every free it deferred, to
    /// be performed now, and forgets its allocations and frees.
    pub fn did_happen(&mut self) -> (flushed: Vec<usize>)
        requires
            !old(self).has_called_never_happened,
        ensures
            flushed@ == old(self).frees@,
            final(self).allocs@.len() == 0,
            final(self).frees@.len() == 0,
            final(self).has_happened,
            !final(self).has_called_never_happened,
            final(self).number == old(self).number,
            final(self).addresses@ == old(self).addresses@,
            final(self).addresses_buf@ == old(self).addresses_buf@,
            final(self).fp == old(self).fp,
            final(self).extra_states@ == old(self).extra_states@,
            final(self).weather_sync_check == old(self).weather_sync_check,
    {
        self.has_happened = true;
        let mut flushed: Vec<usize> = Vec::new();
        std::mem::swap(&mut flushed, &mut self.frees);
        self.allocs.clear();
        flushed
    }

    /// Rolls host state back to this frame. The newer queued entries
    /// `dropped`, in ascending tick order, are discarded first, and their
    /// allocations and frees reconciled in order, followed by the
    /// allocations and frees seen since the newest capture. Returns what to
    /// release now and what is lost; the bytes to write back are
    /// `restore_writes`.
    pub fn restore(
        &self,
        dropped: &mut Vec<RollFrame>,
        extra_allocs: &Vec<usize>,
        extra_frees: &Vec<usize>,
    ) -> (plan: RestorePlan)
        requires
            self.number != 0,
            !self.has_called_never_happened,
            forall|k: int| 0 <= k < old(dropped)@.len() ==> !(#[trigger] old(dropped)@[k]).prev_state.has_happened,
            forall|k: int| 0 <= k < old(dropped)@.len() ==> self.number < (#[trigger] old(dropped)@[k]).prev_state.number,
            forall|j: int, k: int| 0 <= j < k < old(dropped)@.len() ==>
                (#[trigger] old(dropped)@[j]).prev_state.number < (#[trigger] old(dropped)@[k]).prev_state.number,
        ensures
            final(dropped)@.len() == old(dropped)@.len(),
            forall|k: int| 0 <= k < old(dropped)@.len() ==> discarded_entry(old(dropped)@[k], #[trigger] final(dropped)@[k]),
            plan.leaked@.to_set() == absorb(
                reconcile(batches_of(old(dropped)@)).0,
                extra_allocs@.to_set(),
                extra_frees@.to_set(),
            ),
            plan.freed@.to_set() == reconcile(batches_of(old(dropped)@)).1.union(
                released(reconcile(batches_of(old(dropped)@)).0, extra_allocs@.to_set(), extra_frees@.to_set()),
            ),
            plan.freed@.no_duplicates(),
            plan.leaked@.no_duplicates(),
            distinct_allocations(old(dropped)@, extra_allocs@) ==> plan.freed@.to_set().disjoint(plan.leaked@.to_set()),
    {
        let ghost entries = dropped@;
        let ghost distinct = distinct_allocations(entries, extra_allocs@);
        let mut acc: Vec<usize> = Vec::new();
        let mut freed: Vec<usize> = Vec::new();
        let mut k: usize = 0;
        proof {
            assert(batches_of(entries.take(0)) =~= Seq::<(Seq<usize>, Seq<usize>)>::empty());
            assert(acc@.to_set() =~= Set::<usize>::empty());
            assert(freed@.to_set() =~= Set::<usize>::empty());
        }
        while k < dropped.len()
            invariant
                0 <= k <= dropped@.len(),
                entries == old(dropped)@,
                dropped@.len() == entries.len(),
                forall|j: int| 0 <= j < entries.len() ==> !(#[trigger] entries[j]).prev_state.has_happened,
                forall|j: int| 0 <= j < k ==> discarded_entry(entries[j], #[trigger] dropped@[j]),
                forall|j: int| k <= j < entries.len() ==> #[trigger] dropped@[j] == entries[j],
                acc@.to_set() == reconcile(batches_of(entries.take(k as int))).0,
                freed@.to_set() == reconcile(batches_of(entries.take(k as int))).1,
                freed@.no_duplicates(),
                distinct == distinct_allocations(entries, extra_allocs@),
                distinct ==> freed@.to_set().disjoint(acc@.to_set()),
                distinct ==> forall|m: int| k <= m < entries.len() ==>
                    (#[trigger] entries[m]).prev_state.allocs@.to_set().disjoint(freed@.to_set().union(acc@.to_set())),
                distinct ==> extra_allocs@.to_set().disjoint(freed@.to_set().union(acc@.to_set())),
            decreases dropped@.len() - k,
        {
            let ghost e0 = dropped@[k as int];
            let ghost freed0 = freed@.to_set();
            let ghost acc0 = acc@.to_set();
            let ghost a = e0.prev_state.allocs@;
            let ghost f = e0.prev_state.frees@;
            let e = &mut dropped[k];
            let now = e.prev_state.never_happened();
            append_all(&mut freed, &now);
            proof {
                lemma_uncancelled_set(a, f);
                lemma_uncancelled_set(f, a);
            }
            free_if_allocated(&mut acc, &e.prev_state.allocs, &e.prev_state.frees, &mut freed);
            e.prev_state.allocs.clear();
            e.prev_state.frees.clear();
            proof {
                let b = batches_of(entries.take(k + 1));
                assert(b.drop_last() =~= batches_of(entries.take(k as int)));
                assert(b.last() == (a, f));
            }
            proof {
                assert(acc@.to_set() =~= absorb(acc0, a.to_set().difference(f.to_set()), f.to_set().difference(a.to_set())));
                assert(freed@.to_set() =~= freed0.union(a.to_set().intersect(f.to_set())).union(
                    released(acc0, a.to_set().difference(f.to_set()), f.to_set().difference(a.to_set())),
                ));
                if distinct {
                    assert(entries[k as int] == e0);
                    lemma_discard_step_disjoint(freed0, acc0, a.to_set(), f.to_set());
                    assert forall|m: int| k < m < entries.len() implies
                        (#[trigger] entries[m]).prev_state.allocs@.to_set().disjoint(freed@.to_set().union(acc@.to_set())) by {
                        assert(entries[k as int].prev_state.allocs@.to_set().disjoint(entries[m].prev_state.allocs@.to_set()));
                    }
                    assert(e0.prev_state.allocs@.to_set().disjoint(extra_allocs@.to_set()));
                }
            }
            k += 1;
            proof {
                assert(acc@.to_set() =~= reconcile(batches_of(entries.take(k as int))).0);
                assert(freed@.to_set() =~= reconcile(batches_of(entries.take(k as int))).1);
            }
        }
        proof {
            assert(entries.take(entries.len() as int) =~= entries);
        }
        let ghost freed1 = freed@.to_set();
        let ghost acc1 = acc@.to_set();
        free_if_allocated(&mut acc, extra_allocs, extra_frees, &mut freed);
        proof {
            if distinct {
                lemma_absorb_step_disjoint(freed1, acc1, extra_allocs@.to_set(), extra_frees@.to_set());
            }
        }
        RestorePlan { freed, leaked: acc }
    }
}

} // verus!