//! Reference-counted slices that support easy subdivision.
//!
//! A view is a window `[start, end)` into a shared, immutable backing
//! sequence.  Views may be copied, shrunk from either end, or split in two,
//! all without copying the underlying elements; the backing allocation is
//! reclaimed once the last view referring to it is dropped.  [`RcSlice`]
//! shares its backing within a single thread, [`ArcSlice`] across threads.

use core::cmp::Ordering;
use vstd::prelude::*;
use vstd::std_specs::cmp::PartialEqSpec;
use vstd::std_specs::cmp::PartialOrdSpec;

pub mod arc_slice;
pub mod rc_slice;

pub use arc_slice::ArcSlice;
pub use rc_slice::RcSlice;

verus! {

/// A read-only view into part of an underlying reference-counted byte
/// sequence.
pub type RcBytes = RcSlice<u8>;

/// A read-only view into part of an underlying atomically reference-counted
/// byte sequence.
pub type ArcBytes = ArcSlice<u8>;

/// Element-wise equality of two sequences, judged by the element type's own
/// equality relation.
pub open spec fn seq_eq_by_elem<T: PartialEq>(a: Seq<T>, b: Seq<T>) -> bool {
    &&& a.len() == b.len()
    &&& forall|i: int| 0 <= i < a.len() ==> #[trigger] a[i].eq_spec(&b[i])
}

/// Lexicographic comparison of two sequences, judged by the element type's
/// own partial order: the first element-wise comparison that is not
/// `Some(Equal)` decides, and when one sequence is a strict prefix of the
/// other, the shorter comes first.
pub open spec fn seq_lex_cmp<T: PartialOrd>(a: Seq<T>, b: Seq<T>) -> Option<Ordering>
    decreases a.len(),
{
    if a.len() == 0 && b.len() == 0 {
        Some(Ordering::Equal)
    } else if a.len() == 0 {
        Some(Ordering::Less)
    } else if b.len() == 0 {
        Some(Ordering::Greater)
    } else if a[0].partial_cmp_spec(&b[0]) == Some(Ordering::Equal) {
        seq_lex_cmp(a.skip(1), b.skip(1))
    } else {
        a[0].partial_cmp_spec(&b[0])
    }
}

/// Peeling a pair of front elements that compare `Equal` off two sequences
/// leaves their lexicographic comparison unchanged.
pub proof fn lemma_seq_lex_cmp_peel<T: PartialOrd>(a: Seq<T>, b: Seq<T>)
    requires
        a.len() > 0,
        b.len() > 0,
        a[0].partial_cmp_spec(&b[0]) == Some(Ordering::Equal),
    ensures
        seq_lex_cmp(a, b) == seq_lex_cmp(a.skip(1), b.skip(1)),
{
}

/// For byte views, content equality is exactly equality of the visible byte
/// sequences: two views over different backing allocations, or with different
/// bounds within one allocation, compare equal precisely when they show the
/// same bytes.
pub proof fn lemma_rc_bytes_eq_is_seq_eq(a: &RcBytes, b: &RcBytes)
    ensures
        a.eq_spec(b) <==> a@ == b@,
{
    if seq_eq_by_elem(a@, b@) {
        assert forall|i: int| 0 <= i < a@.len() implies a@[i] == b@[i] by {
            assert(a@[i].eq_spec(&b@[i]));
        }
        assert(a@ =~= b@);
    }
}

/// The counterpart of [`lemma_rc_bytes_eq_is_seq_eq`] for the atomically
/// reference-counted variant.
pub proof fn lemma_arc_bytes_eq_is_seq_eq(a: &ArcBytes, b: &ArcBytes)
    ensures
        a.eq_spec(b) <==> a@ == b@,
{
    if seq_eq_by_elem(a@, b@) {
        assert forall|i: int| 0 <= i < a@.len() implies a@[i] == b@[i] by {
            assert(a@[i].eq_spec(&b@[i]));
        }
        assert(a@ =~= b@);
    }
}

} // verus!
