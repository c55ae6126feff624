//! A subdividable read-only view over a reference-counted backing sequence,
//! for use within a single thread.

use core::cmp::Ordering;
use std::rc::Rc;
use vstd::prelude::*;
use vstd::slice::slice_subrange;
use vstd::std_specs::cmp::PartialEqSpec;
use vstd::std_specs::cmp::PartialOrdSpec;
use crate::lemma_seq_lex_cmp_peel;
use crate::seq_eq_by_elem;
use crate::seq_lex_cmp;

verus! {

/// A read-only view into part of an underlying reference-counted sequence.
///
/// The associated functions for this type take the view as an explicit first
/// argument rather than a receiver, so that they cannot conflict with methods
/// on the element sequence a view stands for.
pub struct RcSlice<T> {
    underlying: Rc<Vec<T>>,
    start: usize,
    end: usize,
}

impl<T> RcSlice<T> {
    /// The whole backing sequence that this view (possibly among others)
    /// shares.
    pub closed spec fn backing(&self) -> Seq<T> {
        self.underlying@
    }

    /// The index into the backing sequence where this view begins.
    pub closed spec fn start_idx(&self) -> int {
        self.start as int
    }

    /// The index into the backing sequence where this view ends.
    pub closed spec fn end_idx(&self) -> int {
        self.end as int
    }

    /// Bounds invariant: the window `[start, end)` lies within the backing
    /// sequence.
    pub open spec fn in_bounds(&self) -> bool {
        0 <= self.start_idx() <= self.end_idx() <= self.backing().len()
    }

    /// Every view reachable through this type's operations satisfies the
    /// bounds invariant: Verus checks it at every construction and mutation.
    #[verifier::type_invariant]
    spec fn bounds_wf(&self) -> bool {
        self.in_bounds()
    }
}

impl<T> View for RcSlice<T> {
    type V = Seq<T>;

    /// The visible content of a view: the backing elements in `[start, end)`.
    closed spec fn view(&self) -> Seq<T> {
        self.backing().subrange(self.start_idx(), self.end_idx())
    }
}

impl<T> RcSlice<T> {
    /// Creates a view spanning the whole of `elements`, which becomes the
    /// shared backing sequence.
    pub fn from_vec(elements: Vec<T>) -> (v: Self)
        ensures
            v.in_bounds(),
            v.backing() == elements@,
            v.start_idx() == 0,
            v.end_idx() == elements@.len(),
            v@ == elements@,
    {
        let ghost content = elements@;
        let end = elements.len();
        let v = RcSlice { underlying: Rc::new(elements), start: 0, end };
        proof {
            assert(v@ =~= content);
        }
        v
    }

    /// Returns the starting and ending indices of the view `it` within the
    /// underlying slice.
    pub fn bounds(it: &Self) -> (r: (usize, usize))
        ensures
            r.0 == it.start_idx(),
            r.1 == it.end_idx(),
            it.in_bounds(),
            it@ == it.backing().subrange(it.start_idx(), it.end_idx()),
    {
        proof {
            use_type_invariant(&*it);
        }
        (it.start, it.end)
    }

    /// Borrows the visible elements of `it` as a slice.
    pub fn as_slice(it: &Self) -> (r: &[T])
        ensures
            r@ == it@,
    {
        proof {
            use_type_invariant(&*it);
        }
        slice_subrange(it.underlying.as_slice(), it.start, it.end)
    }

    /// Returns the number of visible elements of `it`.
    pub fn len(it: &Self) -> (r: usize)
        ensures
            r == it@.len(),
    {
        proof {
            use_type_invariant(&*it);
        }
        it.end - it.start
    }

    /// Increases the starting index of `it` by `incr` places, and returns a
    /// reference to the elements cut off by this operation.
    ///
    /// Returns `None` and leaves `it` unchanged if this operation would make
    /// the starting index greater than the ending index.
    pub fn advance<'a>(it: &'a mut Self, incr: usize) -> (r: Option<&'a [T]>)
        ensures
            final(it).in_bounds(),
            r is Some <==> old(it).start_idx() + incr <= old(it).end_idx(),
            match r {
                Some(shed) => {
                    &&& final(it).backing() == old(it).backing()
                    &&& final(it).start_idx() == old(it).start_idx() + incr
                    &&& final(it).end_idx() == old(it).end_idx()
                    &&& shed@ == old(it)@.take(incr as int)
                    &&& final(it)@ == old(it)@.skip(incr as int)
                },
                None => *final(it) == *old(it),
            },
    {
        proof {
            use_type_invariant(&*it);
        }
        match it.start.checked_add(incr) {
            Some(cut) => {
                if cut <= it.end {
                    let shed = slice_subrange(it.underlying.as_slice(), it.start, cut);
                    it.start = cut;
                    proof {
                        assert(shed@ =~= old(it)@.take(incr as int));
                        assert(it@ =~= old(it)@.skip(incr as int));
                    }
                    Some(shed)
                } else {
                    None
                }
            },
            None => None,
        }
    }

    /// Decreases the ending index of `it` by `decr` places, and returns a
    /// reference to the elements cut off by this operation.
    ///
    /// Returns `None` and leaves `it` unchanged if this operation would make
    /// the ending index less than the starting index.
    pub fn retract<'a>(it: &'a mut Self, decr: usize) -> (r: Option<&'a [T]>)
        ensures
            final(it).in_bounds(),
            r is Some <==> old(it).start_idx() + decr <= old(it).end_idx(),
            match r {
                Some(shed) => {
                    &&& final(it).backing() == old(it).backing()
                    &&& final(it).start_idx() == old(it).start_idx()
                    &&& final(it).end_idx() == old(it).end_idx() - decr
                    &&& shed@ == old(it)@.skip(old(it)@.len() - decr)
                    &&& final(it)@ == old(it)@.take(old(it)@.len() - decr)
                },
                None => *final(it) == *old(it),
            },
    {
        proof {
            use_type_invariant(&*it);
        }
        match it.end.checked_sub(decr) {
            Some(cut) => {
                if cut >= it.start {
                    let shed = slice_subrange(it.underlying.as_slice(), cut, it.end);
                    it.end = cut;
                    proof {
                        assert(shed@ =~= old(it)@.skip(old(it)@.len() - decr));
                        assert(it@ =~= old(it)@.take(old(it)@.len() - decr));
                    }
                    Some(shed)
                } else {
                    None
                }
            },
            None => None,
        }
    }

    /// Returns a new view of the first `index` elements of the previous
    /// window, and mutates `it` to point to only the remaining elements.
    ///
    /// Returns `None` and leaves `it` unchanged if the previous window has
    /// fewer than `index` elements.
    pub fn split_off_before(it: &mut Self, index: usize) -> (r: Option<Self>)
        ensures
            final(it).in_bounds(),
            r is Some <==> old(it).start_idx() + index <= old(it).end_idx(),
            match r {
                Some(front) => {
                    &&& front.in_bounds()
                    &&& front.backing() == old(it).backing()
                    &&& final(it).backing() == old(it).backing()
                    &&& front.start_idx() == old(it).start_idx()
                    &&& front.end_idx() == old(it).start_idx() + index
                    &&& final(it).start_idx() == old(it).start_idx() + index
                    &&& final(it).end_idx() == old(it).end_idx()
                    &&& front@ == old(it)@.take(index as int)
                    &&& final(it)@ == old(it)@.skip(index as int)
                    &&& front@ + final(it)@ == old(it)@
                },
                None => *final(it) == *old(it),
            },
    {
        proof {
            use_type_invariant(&*it);
        }
        match it.start.checked_add(index) {
            Some(cut) => {
                if cut <= it.end {
                    let front = RcSlice {
                        underlying: clone_backing(&it.underlying),
                        start: it.start,
                        end: cut,
                    };
                    it.start = cut;
                    proof {
                        assert(front@ =~= old(it)@.take(index as int));
                        assert(it@ =~= old(it)@.skip(index as int));
                        assert(front@ + it@ =~= old(it)@);
                    }
                    Some(front)
                } else {
                    None
                }
            },
            None => None,
        }
    }

    /// Mutates the view `it` to point to only the first `index` elements of
    /// the previous window, and returns a new view of the remaining elements.
    ///
    /// Returns `None` and leaves `it` unchanged if the previous window has
    /// fewer than `index` elements.
    pub fn split_off_after(it: &mut Self, index: usize) -> (r: Option<Self>)
        ensures
            final(it).in_bounds(),
            r is Some <==> old(it).start_idx() + index <= old(it).end_idx(),
            match r {
                Some(back) => {
                    &&& back.in_bounds()
                    &&& back.backing() == old(it).backing()
                    &&& final(it).backing() == old(it).backing()
                    &&& final(it).start_idx() == old(it).start_idx()
                    &&& final(it).end_idx() == old(it).start_idx() + index
                    &&& back.start_idx() == old(it).start_idx() + index
                    &&& back.end_idx() == old(it).end_idx()
                    &&& final(it)@ == old(it)@.take(index as int)
                    &&& back@ == old(it)@.skip(index as int)
                    &&& final(it)@ + back@ == old(it)@
                },
                None => *final(it) == *old(it),
            },
    {
        proof {
            use_type_invariant(&*it);
        }
        match it.start.checked_add(index) {
            Some(cut) => {
                if cut <= it.end {
                    let back = RcSlice {
                        underlying: clone_backing(&it.underlying),
                        start: cut,
                        end: it.end,
                    };
                    it.end = cut;
                    proof {
                        assert(it@ =~= old(it)@.take(index as int));
                        assert(back@ =~= old(it)@.skip(index as int));
                        assert(it@ + back@ =~= old(it)@);
                    }
                    Some(back)
                } else {
                    None
                }
            },
            None => None,
        }
    }
}

impl<T> Clone for RcSlice<T> {
    /// Copies the view: the copy shares the same backing sequence and has the
    /// same bounds, hence the same visible content.
    fn clone(&self) -> (r: Self)
        ensures
            r.in_bounds(),
            r.backing() == self.backing(),
            r.start_idx() == self.start_idx(),
            r.end_idx() == self.end_idx(),
            r@ == self@,
    {
        proof {
            use_type_invariant(self);
        }
        RcSlice { underlying: clone_backing(&self.underlying), start: self.start, end: self.end }
    }
}

impl<T: PartialEq> PartialEq for RcSlice<T> {
    /// Compares visible content, element for element; neither the identity of
    /// the backing allocation nor the raw indices take any part.
    fn eq(&self, other: &Self) -> (r: bool) {
        let a = Self::as_slice(self);
        let b = Self::as_slice(other);
        if a.len() != b.len() {
            return false;
        }
        let n = a.len();
        let mut i: usize = 0;
        while i < n
            invariant
                a@ == self@,
                b@ == other@,
                n == a@.len() == b@.len(),
                0 <= i <= n,
                T::obeys_eq_spec() ==> forall|j: int|
                    0 <= j < i ==> #[trigger] a@[j].eq_spec(&b@[j]),
            decreases n - i,
        {
            let ai = vstd::slice::slice_index_get(a, i);
            let bi = vstd::slice::slice_index_get(b, i);
            if !(ai == bi) {
                proof {
                    if T::obeys_eq_spec() {
                        let ghost wi = i as int;
                        assert(!a@[wi].eq_spec(&b@[wi]));
                        assert(!seq_eq_by_elem(a@, b@)) by {
                            if seq_eq_by_elem(a@, b@) {
                                assert(a@[wi].eq_spec(&b@[wi]));
                            }
                        }
                        assert(!seq_eq_by_elem(self@, other@));
                    }
                }
                return false;
            }
            i += 1;
        }
        true
    }
}

impl<T: PartialEq> vstd::std_specs::cmp::PartialEqSpecImpl for RcSlice<T> {
    open spec fn obeys_eq_spec() -> bool {
        T::obeys_eq_spec()
    }

    open spec fn eq_spec(&self, other: &Self) -> bool {
        seq_eq_by_elem(self@, other@)
    }
}

impl<T: Eq> Eq for RcSlice<T> {
}

impl<T: PartialOrd> PartialOrd for RcSlice<T> {
    /// Orders views lexicographically by visible content; neither the
    /// identity of the backing allocation nor the raw indices take any part.
    fn partial_cmp(&self, other: &Self) -> (r: Option<Ordering>) {
        let a = Self::as_slice(self);
        let b = Self::as_slice(other);
        let alen = a.len();
        let blen = b.len();
        let mut i: usize = 0;
        proof {
            assert(a@.skip(0) =~= a@);
            assert(b@.skip(0) =~= b@);
        }
        while i < alen && i < blen
            invariant
                a@ == self@,
                b@ == other@,
                alen == a@.len(),
                blen == b@.len(),
                0 <= i <= alen,
                i <= blen,
                T::obeys_partial_cmp_spec() ==> seq_lex_cmp(self@, other@) == seq_lex_cmp(
                    a@.skip(i as int),
                    b@.skip(i as int),
                ),
            decreases alen - i,
        {
            let ai = vstd::slice::slice_index_get(a, i);
            let bi = vstd::slice::slice_index_get(b, i);
            let c = ai.partial_cmp(bi);
            match c {
                Some(Ordering::Equal) => {
                    proof {
                        if T::obeys_partial_cmp_spec() {
                            assert(a@.skip(i as int)[0] == a@[i as int]);
                            assert(b@.skip(i as int)[0] == b@[i as int]);
                            lemma_seq_lex_cmp_peel(a@.skip(i as int), b@.skip(i as int));
                            assert(a@.skip(i as int).skip(1) =~= a@.skip(i as int + 1));
                            assert(b@.skip(i as int).skip(1) =~= b@.skip(i as int + 1));
                        }
                    }
                    i += 1;
                },
                _ => {
                    proof {
                        if T::obeys_partial_cmp_spec() {
                            assert(a@.skip(i as int)[0] == a@[i as int]);
                            assert(b@.skip(i as int)[0] == b@[i as int]);
                            assert(seq_lex_cmp(a@.skip(i as int), b@.skip(i as int)) == c);
                        }
                    }
                    return c;
                },
            }
        }
        proof {
            if T::obeys_partial_cmp_spec() {
                assert(a@.skip(alen as int).len() == 0);
                assert(b@.skip(blen as int).len() == 0);
            }
        }
        if alen == blen {
            Some(Ordering::Equal)
        } else if alen < blen {
            Some(Ordering::Less)
        } else {
            Some(Ordering::Greater)
        }
    }
}

impl<T: PartialOrd> vstd::std_specs::cmp::PartialOrdSpecImpl for RcSlice<T> {
    open spec fn obeys_partial_cmp_spec() -> bool {
        T::obeys_partial_cmp_spec()
    }

    open spec fn partial_cmp_spec(&self, other: &Self) -> Option<Ordering> {
        seq_lex_cmp(self@, other@)
    }
}

/// Equality is content-based: whether two views are equal depends only on
/// their visible element sequences, never on the backing allocation they
/// share or on where their bounds lie within it.
pub proof fn lemma_rc_slice_eq_is_content_based<T: PartialEq>(
    a: &RcSlice<T>,
    b: &RcSlice<T>,
    c: &RcSlice<T>,
    d: &RcSlice<T>,
)
    requires
        a@ == c@,
        b@ == d@,
    ensures
        a.eq_spec(b) == c.eq_spec(d),
{
}

/// Relies on `Rc::clone`: the returned handle shares the caller's backing
/// allocation, so both handles refer to one and the same sequence.
#[verifier::external_body]
fn clone_backing<T>(rc: &Rc<Vec<T>>) -> (r: Rc<Vec<T>>)
    ensures
        r == *rc,
{
    Rc::clone(rc)
}

} // verus!
