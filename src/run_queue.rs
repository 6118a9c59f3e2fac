//! The executor's run queue: a bounded max-heap of tasklet entries.
//!
//! An entry is `(priority, tasklet index)`. Entries are ordered as tuples
//! are: by priority first, then by index, so equal priorities are broken by
//! the stable index that the tasklet got at creation.
use vstd::prelude::*;
use vstd::multiset::Multiset;
use heapless::binary_heap::{BinaryHeap, Max};

verus! {

/// Largest number of tasklets that the system holds.
pub const TASKLET_COUNT: usize = 32;

/// A run-queue entry: the tasklet's priority and its index.
pub type Entry = (u8, usize);

/// The heap that holds the waiting tasklets.
pub type RunQueue = BinaryHeap<Entry, Max, TASKLET_COUNT>;

/// heapless::binary_heap::BinaryHeap, a bounded binary heap of `N` items;
/// opaque here, and read only through `queued`.
#[verifier::external_type_specification]
#[verifier::external_body]
#[verifier::reject_recursive_types(T)]
#[verifier::reject_recursive_types(K)]
pub struct ExBinaryHeap<T, K, const N: usize>(BinaryHeap<T, K, N>);

/// heapless::binary_heap::Max, the kind of a heap that pops its greatest item.
#[verifier::external_type_specification]
#[verifier::external_body]
pub struct ExMax(Max);

/// The entries that a run queue holds, as a multiset: the heap's order of
/// storage is not observed.
pub uninterp spec fn queued(h: RunQueue) -> Multiset<Entry>;

/// Tuple order on entries: `a <= b`.
pub open spec fn entry_le(a: Entry, b: Entry) -> bool {
    a.0 < b.0 || (a.0 == b.0 && a.1 <= b.1)
}

/// Relies on heapless::BinaryHeap::new: a new heap is empty.
#[verifier::external_body]
pub(crate) fn run_queue_new() -> (r: RunQueue)
    ensures
        queued(r) =~= Multiset::empty(),
{
    BinaryHeap::new()
}

/// Relies on heapless::BinaryHeap::push: it hands the item back when the
/// heap holds its capacity of items, and adds it otherwise.
#[verifier::external_body]
pub(crate) fn run_queue_push(h: &mut RunQueue, e: Entry) -> (r: Result<(), Entry>)
    ensures
        queued(*old(h)).len() < TASKLET_COUNT ==> r is Ok && queued(*final(h)) =~= queued(
            *old(h),
        ).insert(e),
        queued(*old(h)).len() >= TASKLET_COUNT ==> (r matches Err(x) && x == e),
        queued(*old(h)).len() >= TASKLET_COUNT ==> queued(*final(h)) =~= queued(*old(h)),
{
    h.push(e)
}

/// Relies on heapless::BinaryHeap::pop on a max-heap: it removes and returns
/// a greatest item, and returns `None` on an empty heap.
#[verifier::external_body]
pub(crate) fn run_queue_pop(h: &mut RunQueue) -> (r: Option<Entry>)
    ensures
        queued(*old(h)).len() == 0 ==> r == None::<Entry> && queued(*final(h)) =~= queued(
            *old(h),
        ),
        queued(*old(h)).len() > 0 ==> (r matches Some(e) && queued(*old(h)).count(e) > 0
            && queued(*final(h)) =~= queued(*old(h)).remove(e) && (forall|x: Entry|
            #[trigger] queued(*old(h)).count(x) > 0 ==> entry_le(x, e))),
{
    h.pop()
}

} // verus!
