//! An array-backed binary heap with a caller-supplied priority order.
//!
//! [`Heap`] supports insertion (`add`) and repeated extraction of the
//! extremum (`next`), under any comparator implementing [`Ranking`]; the
//! [`MinHeap`] and [`MaxHeap`] factories build heaps over a type's natural
//! order. Its contracts pin the heap-order invariant, the exact multiset of
//! stored elements, and that extraction always yields an element that no
//! remaining element outranks.

mod heap;
mod order;

pub use heap::Heap;
pub use heap::MaxHeap;
pub use heap::MinHeap;
pub use heap::heap_seq_ordered;
pub use heap::lemma_root_extremal;
pub use heap::sorted_by_rank;
pub use order::MaxOrder;
pub use order::MinOrder;
pub use order::Ranking;
pub use order::lemma_outranks_trans;
pub use order::lemma_unranked_trans;
pub use order::strict_weak;
