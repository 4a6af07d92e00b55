use vstd::prelude::*;

use crate::order::Ranking;
use crate::order::lemma_outranks_trans;
use crate::order::lemma_unranked_trans;
use crate::order::strict_weak;
use crate::order::MaxOrder;
use crate::order::MinOrder;

verus! {

/// Every live element other than the root sits below a parent that it does
/// not outrank. Storage is zero-indexed: the parent of position `k` is
/// `(k - 1) / 2`.
pub open spec fn heap_seq_ordered<T, C: Ranking<T>>(c: C, s: Seq<T>) -> bool {
    forall|k: int| 1 <= k < s.len() ==> !c.outranks_spec(#[trigger] s[k], s[(k - 1) / 2])
}

/// Heap order holds everywhere except possibly between position `i` and its
/// parent; the children of `i` are additionally known not to outrank the
/// parent of `i`. This is the state sift-up passes from step to step.
spec fn ordered_except_up<T, C: Ranking<T>>(c: C, s: Seq<T>, i: int) -> bool {
    &&& forall|k: int|
        1 <= k < s.len() && k != i ==> !c.outranks_spec(#[trigger] s[k], s[(k - 1) / 2])
    &&& forall|k: int|
        1 <= k < s.len() && (k - 1) / 2 == i && 1 <= i ==> !c.outranks_spec(
            #[trigger] s[k],
            s[(i - 1) / 2],
        )
}

/// Heap order holds everywhere except possibly between position `i` and its
/// children; the children of `i` are still known not to outrank the parent
/// of `i`. This is the state sift-down passes from step to step.
spec fn ordered_except_down<T, C: Ranking<T>>(c: C, s: Seq<T>, i: int) -> bool {
    &&& forall|k: int|
        1 <= k < s.len() && (k - 1) / 2 != i ==> !c.outranks_spec(#[trigger] s[k], s[(k - 1) / 2])
    &&& forall|k: int|
        1 <= k < s.len() && (k - 1) / 2 == i && 1 <= i ==> !c.outranks_spec(
            #[trigger] s[k],
            s[(i - 1) / 2],
        )
}

/// No later element outranks an earlier one: the sequence is in descending
/// priority under the comparator.
pub open spec fn sorted_by_rank<T, C: Ranking<T>>(c: C, s: Seq<T>) -> bool {
    forall|i: int, j: int|
        #![trigger s[i], s[j]]
        0 <= i < j < s.len() ==> !c.outranks_spec(s[j], s[i])
}

/// The root of a heap-ordered storage is not outranked by any live element.
pub proof fn lemma_root_extremal<T, C: Ranking<T>>(c: C, s: Seq<T>, k: int)
    requires
        strict_weak(c),
        heap_seq_ordered(c, s),
        0 <= k < s.len(),
    ensures
        !c.outranks_spec(s[k], s[0]),
    decreases k,
{
    if k >= 1 {
        let p = (k - 1) / 2;
        lemma_root_extremal(c, s, p);
        assert(!c.outranks_spec(s[k], s[p]));
        lemma_unranked_trans(c, s[0], s[p], s[k]);
    }
}

/// An array-backed binary heap. Elements are added one at a time and removed
/// only through `next`, which always hands out an element that no remaining
/// element outranks under the comparator supplied at construction.
#[derive(Debug)]
pub struct Heap<T, C> where T: Default, C: Ranking<T> {
    items: Vec<T>,
    comparator: C,
}

impl<T: Default, C: Ranking<T>> View for Heap<T, C> {
    type V = Seq<T>;

    closed spec fn view(&self) -> Seq<T> {
        self.items@
    }
}

impl<T: Default, C: Ranking<T>> Heap<T, C> {
    /// The comparator supplied at construction.
    pub closed spec fn order_fn(self) -> C {
        self.comparator
    }

    /// The number of live elements.
    pub open spec fn count(self) -> nat {
        self@.len()
    }

    /// The comparator is exact and decides a strict weak ordering, and the
    /// storage is heap ordered.
    pub open spec fn wf(self) -> bool {
        &&& self.order_fn().obeys_outranks_spec()
        &&& strict_weak(self.order_fn())
        &&& heap_seq_ordered(self.order_fn(), self@)
    }

    /// Build an empty heap that orders its elements by `comparator`.
    pub fn new(comparator: C) -> (h: Self)
        requires
            comparator.obeys_outranks_spec(),
            strict_weak(comparator),
        ensures
            h.wf(),
            h.order_fn() == comparator,
            h@ == Seq::<T>::empty(),
    {
        Heap { items: Vec::new(), comparator }
    }

    /// The number of live elements.
    pub fn len(&self) -> (n: usize)
        ensures
            n == self.count(),
    {
        self.items.len()
    }

    /// Whether the heap holds no elements.
    pub fn is_empty(&self) -> (e: bool)
        ensures
            e <==> self.count() == 0,
    {
        self.len() == 0
    }

    /// The position of the parent of `idx`.
    fn parent_idx(&self, idx: usize) -> (p: usize)
        requires
            1 <= idx,
        ensures
            p == (idx - 1) / 2,
    {
        (idx - 1) / 2
    }

    /// Whether the element at `idx` has at least one live child.
    fn children_present(&self, idx: usize) -> (b: bool)
        ensures
            b <==> 2 * idx + 1 < self@.len(),
    {
        idx < self.items.len() / 2
    }

    /// The position of the left child of `idx`.
    fn left_child_idx(&self, idx: usize) -> (l: usize)
        requires
            2 * idx + 1 < self@.len(),
        ensures
            l == 2 * idx + 1,
    {
        // the live count bounds the result, so the arithmetic fits in usize
        let n = self.items.len();
        2 * idx + 1
    }

    /// The position of the right child of `idx`; it is live only when it is
    /// below the live count.
    fn right_child_idx(&self, idx: usize) -> (r: usize)
        requires
            2 * idx + 2 <= self@.len(),
        ensures
            r == 2 * idx + 2,
    {
        // the live count bounds the result, so the arithmetic fits in usize
        let n = self.items.len();
        2 * idx + 2
    }

    /// Whether the element at `a` outranks the element at `b`.
    fn compare(&self, a: usize, b: usize) -> (r: bool)
        requires
            a < self@.len(),
            b < self@.len(),
        ensures
            self.order_fn().obeys_outranks_spec() ==> r == self.order_fn().outranks_spec(
                self@[a as int],
                self@[b as int],
            ),
    {
        self.comparator.outranks(&self.items[a], &self.items[b])
    }

    /// Exchange the elements at two distinct live positions.
    fn swap_items(&mut self, a: usize, b: usize)
        requires
            a < old(self)@.len(),
            b < old(self)@.len(),
            a != b,
        ensures
            final(self).order_fn() == old(self).order_fn(),
            final(self)@ == old(self)@.update(a as int, old(self)@[b as int]).update(
                b as int,
                old(self)@[a as int],
            ),
            final(self)@.to_multiset() == old(self)@.to_multiset(),
    {
        let mut tmp: T = T::default();
        core::mem::swap(&mut tmp, &mut self.items[a]);
        core::mem::swap(&mut tmp, &mut self.items[b]);
        core::mem::swap(&mut tmp, &mut self.items[a]);
        proof {
            assert(final(self)@ =~= old(self)@.update(a as int, old(self)@[b as int]).update(
                b as int,
                old(self)@[a as int],
            ));
            broadcast use vstd::seq_lib::group_to_multiset_ensures;

            let s = old(self)@;
            assert(s.update(a as int, s[b as int])[b as int] == s[b as int]);
            assert(final(self)@.to_multiset() =~= old(self)@.to_multiset());
        }
    }

    /// Move the element at `start` towards the root while it outranks its
    /// parent: sift-up. On entry heap order may fail only between `start`
    /// and its parent; on exit it holds everywhere.
    fn shift_up(&mut self, start: usize)
        requires
            old(self).order_fn().obeys_outranks_spec(),
            strict_weak(old(self).order_fn()),
            start < old(self)@.len(),
            ordered_except_up(old(self).order_fn(), old(self)@, start as int),
        ensures
            final(self).order_fn() == old(self).order_fn(),
            final(self)@.len() == old(self)@.len(),
            final(self)@.to_multiset() == old(self)@.to_multiset(),
            heap_seq_ordered(final(self).order_fn(), final(self)@),
    {
        let ghost c = self.order_fn();
        let ghost s0 = self@;
        let mut i: usize = start;
        loop
            invariant_except_break
                self.order_fn() == c,
                c.obeys_outranks_spec(),
                strict_weak(c),
                i < self@.len(),
                self@.len() == s0.len(),
                self@.to_multiset() == s0.to_multiset(),
                ordered_except_up(c, self@, i as int),
            ensures
                self.order_fn() == c,
                self@.len() == s0.len(),
                self@.to_multiset() == s0.to_multiset(),
                heap_seq_ordered(c, self@),
            decreases i,
        {
            if i == 0 {
                break;
            }
            let parent = self.parent_idx(i);
            if self.compare(i, parent) {
                let ghost s = self@;
                let ghost ii = i as int;
                let ghost p = parent as int;
                self.swap_items(i, parent);
                proof {
                    let s2 = self@;
                    assert(c.outranks_spec(s[ii], s[p]));
                    assert forall|k: int| #![trigger s2[k]] 1 <= k < s2.len() && k != p implies !c.outranks_spec(
                        s2[k],
                        s2[(k - 1) / 2],
                    ) by {
                        let pk = (k - 1) / 2;
                        if k == ii {
                            assert(s2[ii] == s[p] && s2[p] == s[ii]);
                            assert(!c.outranks_spec(s[p], s[ii]));
                        } else if pk == ii {
                            assert(!c.outranks_spec(s[k], s[p]));
                        } else if pk == p {
                            assert(!c.outranks_spec(s[k], s[p]));
                            assert(!c.outranks_spec(s[p], s[ii]));
                            lemma_unranked_trans(c, s[ii], s[p], s[k]);
                        } else {
                            assert(s2[k] == s[k] && s2[pk] == s[pk]);
                            assert(!c.outranks_spec(s[k], s[pk]));
                        }
                    };
                    if p >= 1 {
                        let g = (p - 1) / 2;
                        assert forall|k: int| #![trigger s2[k]]
                            1 <= k < s2.len() && (k - 1) / 2 == p implies !c.outranks_spec(
                            s2[k],
                            s2[g],
                        ) by {
                            assert(s2[g] == s[g]);
                            if k == ii {
                                assert(!c.outranks_spec(s[p], s[g]));
                            } else {
                                assert(!c.outranks_spec(s[k], s[p]));
                                assert(!c.outranks_spec(s[p], s[g]));
                                lemma_unranked_trans(c, s[g], s[p], s[k]);
                            }
                        };
                    }
                    assert(ordered_except_up(c, s2, p));
                }
                i = parent;
            } else {
                break;
            }
        }
    }

    /// Append `value` at the next free slot and restore heap order by
    /// sift-up. Always succeeds; the stored multiset grows by exactly
    /// `value`.
    pub fn add(&mut self, value: T)
        requires
            old(self).wf(),
        ensures
            final(self).wf(),
            final(self).order_fn() == old(self).order_fn(),
            final(self).count() == old(self).count() + 1,
            final(self)@.to_multiset() == old(self)@.to_multiset().insert(value),
    {
        let ghost c = self.order_fn();
        let ghost s0 = self@;
        self.items.push(value);
        let n = self.items.len();
        proof {
            broadcast use vstd::seq_lib::group_to_multiset_ensures;

            let s1 = self@;
            assert(s1 == s0.push(value));
            assert forall|k: int| #![trigger s1[k]] 1 <= k < s1.len() && k != n - 1 implies !c.outranks_spec(
                s1[k],
                s1[(k - 1) / 2],
            ) by {
                assert(s1[k] == s0[k] && s1[(k - 1) / 2] == s0[(k - 1) / 2]);
            };
            assert(ordered_except_up(c, s1, n - 1));
        }
        self.shift_up(n - 1);
    }

    /// Move the element at `start` towards the leaves while a live child
    /// outranks it: sift-down. On entry heap order may fail only between
    /// `start` and its children; on exit it holds everywhere.
    fn shift_down(&mut self, start: usize)
        requires
            old(self).order_fn().obeys_outranks_spec(),
            strict_weak(old(self).order_fn()),
            start < old(self)@.len(),
            ordered_except_down(old(self).order_fn(), old(self)@, start as int),
        ensures
            final(self).order_fn() == old(self).order_fn(),
            final(self)@.len() == old(self)@.len(),
            final(self)@.to_multiset() == old(self)@.to_multiset(),
            heap_seq_ordered(final(self).order_fn(), final(self)@),
    {
        let ghost c = self.order_fn();
        let ghost s0 = self@;
        let mut i: usize = start;
        loop
            invariant_except_break
                self.order_fn() == c,
                c.obeys_outranks_spec(),
                strict_weak(c),
                i < self@.len(),
                self@.len() == s0.len(),
                self@.to_multiset() == s0.to_multiset(),
                ordered_except_down(c, self@, i as int),
            ensures
                self.order_fn() == c,
                self@.len() == s0.len(),
                self@.to_multiset() == s0.to_multiset(),
                heap_seq_ordered(c, self@),
            decreases self@.len() - i,
        {
            if !self.children_present(i) {
                proof {
                    let s = self@;
                    assert forall|k: int| #![trigger s[k]] 1 <= k < s.len() implies !c.outranks_spec(
                        s[k],
                        s[(k - 1) / 2],
                    ) by {
                        if (k - 1) / 2 == i as int {
                            assert(k >= 2 * (i as int) + 1);
                            assert(false);
                        }
                    };
                }
                break;
            }
            let left = self.left_child_idx(i);
            let right = self.right_child_idx(i);
            let mut m: usize = i;
            if left < self.items.len() && self.compare(left, m) {
                m = left;
            }
            if right < self.items.len() && self.compare(right, m) {
                m = right;
            }
            if m == i {
                proof {
                    let s = self@;
                    assert(!c.outranks_spec(s[left as int], s[i as int]));
                    assert forall|k: int| #![trigger s[k]] 1 <= k < s.len() implies !c.outranks_spec(
                        s[k],
                        s[(k - 1) / 2],
                    ) by {
                        if (k - 1) / 2 == i as int {
                            assert(k == 2 * (i as int) + 1 || k == 2 * (i as int) + 2);
                        }
                    };
                }
                break;
            }
            let ghost s = self@;
            let ghost ii = i as int;
            let ghost mm = m as int;
            let ghost ll = left as int;
            let ghost rr = right as int;
            proof {
                assert(mm == ll || mm == rr);
                assert(c.outranks_spec(s[mm], s[ii])) by {
                    if mm == rr && c.outranks_spec(s[ll], s[ii]) {
                        lemma_outranks_trans(c, s[rr], s[ll], s[ii]);
                    }
                };
            }
            self.swap_items(i, m);
            proof {
                let s2 = self@;
                // the sibling of the winning child does not outrank it
                if mm == ll && rr < s.len() {
                    assert(!c.outranks_spec(s[rr], s[ll]));
                }
                if mm == rr {
                    assert(!c.outranks_spec(s[ll], s[rr])) by {
                        if c.outranks_spec(s[ll], s[rr]) {
                            if c.outranks_spec(s[ll], s[ii]) {
                                assert(c.outranks_spec(s[rr], s[ll]));
                                assert(false);
                            } else {
                                lemma_outranks_trans(c, s[ll], s[rr], s[ii]);
                                assert(false);
                            }
                        }
                    };
                }
                assert forall|k: int| #![trigger s2[k]] 1 <= k < s2.len() && (k - 1) / 2 != mm
                    implies !c.outranks_spec(s2[k], s2[(k - 1) / 2]) by {
                    let pk = (k - 1) / 2;
                    if k == mm {
                        assert(pk == ii);
                        assert(s2[mm] == s[ii] && s2[ii] == s[mm]);
                        assert(!c.outranks_spec(s[ii], s[mm]));
                    } else if k == ii {
                        assert(1 <= ii);
                        assert(pk == (ii - 1) / 2 && pk < ii);
                        assert(s2[ii] == s[mm] && s2[pk] == s[pk]);
                        assert(!c.outranks_spec(s[mm], s[pk]));
                    } else if pk == ii {
                        assert(k == ll || k == rr);
                        assert(s2[k] == s[k] && s2[ii] == s[mm]);
                        assert(!c.outranks_spec(s[k], s[mm]));
                    } else {
                        assert(s2[k] == s[k] && s2[pk] == s[pk]);
                        assert(!c.outranks_spec(s[k], s[pk]));
                    }
                };
                assert forall|k: int| #![trigger s2[k]] 1 <= k < s2.len() && (k - 1) / 2 == mm
                    implies !c.outranks_spec(s2[k], s2[(mm - 1) / 2]) by {
                    assert(k > mm);
                    assert((mm - 1) / 2 == ii);
                    assert(s2[k] == s[k] && s2[ii] == s[mm]);
                    assert(!c.outranks_spec(s[k], s[mm]));
                };
                assert(ordered_except_down(c, s2, mm));
            }
            i = m;
        }
    }

    /// Remove and return the extremum: the element that no remaining
    /// element outranks. On an empty heap this reports absence and leaves
    /// the heap untouched; otherwise the stored multiset shrinks by exactly
    /// the returned element.
    pub fn next(&mut self) -> (res: Option<T>)
        requires
            old(self).wf(),
        ensures
            final(self).wf(),
            final(self).order_fn() == old(self).order_fn(),
            match res {
                Option::None => old(self).count() == 0 && *final(self) == *old(self),
                Option::Some(m) => {
                    &&& old(self).count() > 0
                    &&& final(self).count() == old(self).count() - 1
                    &&& old(self)@.to_multiset() == final(self)@.to_multiset().insert(m)
                    &&& forall|k: int|
                        0 <= k < final(self)@.len() ==> !old(self).order_fn().outranks_spec(
                            #[trigger] final(self)@[k],
                            m,
                        )
                },
            },
    {
        let ghost c = self.order_fn();
        let ghost s0 = self@;
        if self.items.len() == 0 {
            return None;
        }
        let el = self.items.swap_remove(0);
        proof {
            broadcast use vstd::seq_lib::group_to_multiset_ensures;

            let s1 = self@;
            let last = s0[s0.len() - 1];
            assert(s1 =~= s0.update(0, last).remove(s0.len() - 1));
            assert(s0.contains(s0[0]));
            assert(s1.to_multiset() =~= s0.to_multiset().remove(s0[0]));
            assert forall|k: int| #![trigger s1[k]] 1 <= k < s1.len() && (k - 1) / 2 != 0
                implies !c.outranks_spec(s1[k], s1[(k - 1) / 2]) by {
                assert(s1[k] == s0[k] && s1[(k - 1) / 2] == s0[(k - 1) / 2]);
            };
            assert(ordered_except_down(c, s1, 0));
        }
        if self.items.len() > 0 {
            self.shift_down(0);
        }
        proof {
            broadcast use vstd::seq_lib::group_to_multiset_ensures;

            let s2 = self@;
            let m = s0[0];
            assert(s0.contains(m));
            assert(s0.to_multiset() =~= s2.to_multiset().insert(m));
            assert forall|k: int| 0 <= k < s2.len() implies !c.outranks_spec(
                #[trigger] s2[k],
                m,
            ) by {
                assert(s2.contains(s2[k]));
                assert(s2.to_multiset().count(s2[k]) > 0);
                assert(s0.to_multiset().count(s2[k]) > 0);
                assert(s0.contains(s2[k]));
                let j = choose|j: int| 0 <= j < s0.len() && s0[j] == s2[k];
                lemma_root_extremal(c, s0, j);
            };
        }
        Some(el)
    }

    /// Extract repeatedly until the heap reports absence. The result holds
    /// exactly the elements the heap held, in strict priority order
    /// (highest priority first), and the heap is left empty.
    pub fn drain(&mut self) -> (out: Vec<T>)
        requires
            old(self).wf(),
        ensures
            final(self).wf(),
            final(self).count() == 0,
            final(self).order_fn() == old(self).order_fn(),
            out@.to_multiset() == old(self)@.to_multiset(),
            sorted_by_rank(old(self).order_fn(), out@),
    {
        let ghost c = self.order_fn();
        let ghost m0 = self@.to_multiset();
        let mut out: Vec<T> = Vec::new();
        proof {
            broadcast use vstd::seq_lib::group_to_multiset_ensures;
            broadcast use vstd::multiset::group_multiset_axioms;
            broadcast use vstd::multiset::group_multiset_properties;

            assert(out@.to_multiset().len() == 0);
            assert(out@.to_multiset().add(self@.to_multiset()) =~= self@.to_multiset());
        }
        loop
            invariant
                self.wf(),
                self.order_fn() == c,
                out@.to_multiset().add(self@.to_multiset()) == m0,
                sorted_by_rank(c, out@),
                forall|k: int, j: int|
                    #![trigger self@[k], out@[j]]
                    0 <= k < self@.len() && 0 <= j < out@.len() ==> !c.outranks_spec(
                        self@[k],
                        out@[j],
                    ),
            ensures
                self.wf(),
                self.order_fn() == c,
                self@.len() == 0,
                out@.to_multiset().add(self@.to_multiset()) == m0,
                sorted_by_rank(c, out@),
            decreases self@.len(),
        {
            let ghost sh = self@;
            let ghost so = out@;
            let got = self.next();
            match got {
                Some(v) => {
                    out.push(v);
                    proof {
                        broadcast use vstd::seq_lib::group_to_multiset_ensures;
                        broadcast use vstd::multiset::group_multiset_axioms;
                        broadcast use vstd::multiset::group_multiset_properties;

                        let sh2 = self@;
                        let so2 = out@;
                        assert(so2 == so.push(v));
                        assert(sh.to_multiset() == sh2.to_multiset().insert(v));
                        assert(so2.to_multiset().add(sh2.to_multiset()) =~= so.to_multiset().add(
                            sh.to_multiset(),
                        ));
                        assert(sh.to_multiset().count(v) >= 1);
                        assert(sh.contains(v));
                        assert forall|i: int, j: int|
                            #![trigger so2[i], so2[j]]
                            0 <= i < j < so2.len() implies !c.outranks_spec(so2[j], so2[i]) by {
                            if j == so.len() {
                                let k = choose|k: int| 0 <= k < sh.len() && sh[k] == v;
                                assert(!c.outranks_spec(sh[k], so[i]));
                            } else {
                                assert(!c.outranks_spec(so[j], so[i]));
                            }
                        };
                        assert forall|k: int, j: int|
                            #![trigger sh2[k], so2[j]]
                            0 <= k < sh2.len() && 0 <= j < so2.len() implies !c.outranks_spec(
                            sh2[k],
                            so2[j],
                        ) by {
                            if j < so.len() {
                                assert(sh2.contains(sh2[k]));
                                assert(sh2.to_multiset().count(sh2[k]) > 0);
                                assert(sh.to_multiset().count(sh2[k]) > 0);
                                assert(sh.contains(sh2[k]));
                                let k0 = choose|k0: int| 0 <= k0 < sh.len() && sh[k0] == sh2[k];
                                assert(!c.outranks_spec(sh[k0], so[j]));
                            } else {
                                assert(!c.outranks_spec(sh2[k], v));
                            }
                        };
                    }
                },
                None => {
                    break;
                },
            }
        }
        proof {
            broadcast use vstd::seq_lib::group_to_multiset_ensures;
            broadcast use vstd::multiset::group_multiset_axioms;

            assert(self@ =~= Seq::<T>::empty());
            assert(self@.to_multiset().len() == 0);
            assert(out@.to_multiset().add(self@.to_multiset()) =~= out@.to_multiset());
        }
        out
    }
}

impl<T: Default + Ord> Heap<T, MinOrder> {
    /// Create a new MinHeap
    pub fn new_min() -> (h: Self)
        requires
            <MinOrder as Ranking<T>>::obeys_outranks_spec(&(MinOrder)),
            strict_weak::<T, MinOrder>(MinOrder),
        ensures
            h.wf(),
            h.order_fn() == (MinOrder),
            h@ == Seq::<T>::empty(),
    {
        Heap::new(MinOrder)
    }
}

impl<T: Default + Ord> Heap<T, MaxOrder> {
    /// Create a new MaxHeap
    pub fn new_max() -> (h: Self)
        requires
            <MaxOrder as Ranking<T>>::obeys_outranks_spec(&(MaxOrder)),
            strict_weak::<T, MaxOrder>(MaxOrder),
        ensures
            h.wf(),
            h.order_fn() == (MaxOrder),
            h@ == Seq::<T>::empty(),
    {
        Heap::new(MaxOrder)
    }
}

/// Factory for heaps over a type's natural order, smallest first.
pub struct MinHeap;

impl MinHeap {
    /// Create a heap that hands its elements out in ascending natural
    /// order.
    pub fn new<T: Default + Ord>() -> (h: Heap<T, MinOrder>)
        requires
            <MinOrder as Ranking<T>>::obeys_outranks_spec(&(MinOrder)),
            strict_weak::<T, MinOrder>(MinOrder),
        ensures
            h.wf(),
            h.order_fn() == (MinOrder),
            h@ == Seq::<T>::empty(),
    {
        Heap::new(MinOrder)
    }
}

/// Factory for heaps over a type's natural order, largest first.
pub struct MaxHeap;

impl MaxHeap {
    /// Create a heap that hands its elements out in descending natural
    /// order.
    pub fn new<T: Default + Ord>() -> (h: Heap<T, MaxOrder>)
        requires
            <MaxOrder as Ranking<T>>::obeys_outranks_spec(&(MaxOrder)),
            strict_weak::<T, MaxOrder>(MaxOrder),
        ensures
            h.wf(),
            h.order_fn() == (MaxOrder),
            h@ == Seq::<T>::empty(),
    {
        Heap::new(MaxOrder)
    }
}

} // verus!
