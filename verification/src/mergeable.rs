//! The capability a domain entity must provide to take part in conflict
//! resolution: fold a sibling revision into itself, turn itself into a
//! tombstone, and expose the sibling conflicts discovered on a read.
//!
//! Every operation is specified against the entity's mathematical model
//! (its [`View`]), so the resolution engine can be verified once, for every
//! entity type.

use vstd::prelude::*;

verus! {

/// Merge capability over documents of a multi-master store.  A merge must
/// leave the document's identity (id), revision token, tombstone flag and
/// conflict list unchanged; only domain fields are folded.
pub trait Mergeable: Sized + View {
    /// Model of `self` after folding `other`'s contribution in.
    spec fn m_merged(a: Self::V, b: Self::V) -> Self::V;

    /// Model of `self` with the tombstone flag set and all else unchanged.
    spec fn m_tombstoned(a: Self::V) -> Self::V;

    /// Model of `self` with the revision token replaced.
    spec fn m_with_rev(a: Self::V, rev: Seq<char>) -> Self::V;

    /// Model of `self` with the conflict list emptied and all else unchanged.
    spec fn m_drained(a: Self::V) -> Self::V;

    /// The document's stable identifier.
    spec fn m_id(a: Self::V) -> Seq<char>;

    /// The store-assigned revision token; empty for a not-yet-created document.
    spec fn m_rev(a: Self::V) -> Seq<char>;

    /// The tombstone flag.
    spec fn m_deleted(a: Self::V) -> bool;

    /// The sibling revisions discovered on a read that asked for conflicts.
    spec fn m_conflicts(a: Self::V) -> Seq<Self::V>;

    /// A merge folds domain fields only: id, revision, tombstone flag and
    /// conflict list come from the left operand.
    proof fn lemma_merged_meta(a: Self::V, b: Self::V)
        ensures
            Self::m_id(Self::m_merged(a, b)) == Self::m_id(a),
            Self::m_rev(Self::m_merged(a, b)) == Self::m_rev(a),
            Self::m_deleted(Self::m_merged(a, b)) == Self::m_deleted(a),
            Self::m_conflicts(Self::m_merged(a, b)) == Self::m_conflicts(a),
    ;

    /// Tombstoning flips the tombstone flag and nothing else the store
    /// needs: id, revision and conflict list stay.
    proof fn lemma_tombstoned_meta(a: Self::V)
        ensures
            Self::m_id(Self::m_tombstoned(a)) == Self::m_id(a),
            Self::m_rev(Self::m_tombstoned(a)) == Self::m_rev(a),
            Self::m_deleted(Self::m_tombstoned(a)),
            Self::m_conflicts(Self::m_tombstoned(a)) == Self::m_conflicts(a),
    ;

    /// Replacing the revision token leaves everything else unchanged.
    proof fn lemma_with_rev_meta(a: Self::V, rev: Seq<char>)
        ensures
            Self::m_id(Self::m_with_rev(a, rev)) == Self::m_id(a),
            Self::m_rev(Self::m_with_rev(a, rev)) == rev,
            Self::m_deleted(Self::m_with_rev(a, rev)) == Self::m_deleted(a),
            Self::m_conflicts(Self::m_with_rev(a, rev)) == Self::m_conflicts(a),
    ;

    /// Draining empties the conflict list and leaves everything else
    /// unchanged.
    proof fn lemma_drained_meta(a: Self::V)
        ensures
            Self::m_id(Self::m_drained(a)) == Self::m_id(a),
            Self::m_rev(Self::m_drained(a)) == Self::m_rev(a),
            Self::m_deleted(Self::m_drained(a)) == Self::m_deleted(a),
            Self::m_conflicts(Self::m_drained(a)).len() == 0,
    ;

    /// Draining a document that has no conflicts leaves it unchanged.
    proof fn lemma_drained_identity(a: Self::V)
        requires
            Self::m_conflicts(a).len() == 0,
        ensures
            Self::m_drained(a) == a,
    ;

    /// The sibling revisions a real document carries never hold conflict
    /// lists of their own.
    proof fn lemma_view_conflicts_shallow(t: Self)
        ensures
            forall|i: int|
                0 <= i < Self::m_conflicts(t@).len() ==> Self::m_conflicts(
                    #[trigger] Self::m_conflicts(t@)[i],
                ).len() == 0,
    ;

    /// Fold `other`'s contribution into `self`, leaving identity fields
    /// untouched.
    fn merge(&mut self, other: &Self)
        ensures
            final(self)@ == Self::m_merged(old(self)@, other@),
    ;

    /// Flip the tombstone flag; domain fields keep a coherent payload for
    /// the tombstone write.
    fn mark_as_deleted(&mut self)
        ensures
            final(self)@ == Self::m_tombstoned(old(self)@),
    ;

    /// The sibling conflicts discovered on a read.  Each exposed sibling,
    /// its own conflict list set aside, is the corresponding entry of the
    /// model's conflict list.
    fn conflicts(&self) -> (r: &Vec<Self>)
        ensures
            r@.len() == Self::m_conflicts(self@).len(),
            forall|i: int|
                0 <= i < r@.len() ==> Self::m_drained(#[trigger] r@[i]@) == Self::m_conflicts(
                    self@,
                )[i],
    ;

    /// Take ownership of the sibling conflicts discovered on a read,
    /// leaving the document's own conflict list empty.
    fn take_conflicts(&mut self) -> (r: Vec<Self>)
        ensures
            final(self)@ == Self::m_drained(old(self)@),
            views_of(r@) == Self::m_conflicts(old(self)@),
    ;

    /// The document's identifier, as a plain string.
    fn get_id(&self) -> (r: String)
        ensures
            r@ == Self::m_id(self@),
    ;

    /// The document's revision token, as a plain string.
    fn get_rev(&self) -> (r: String)
        ensures
            r@ == Self::m_rev(self@),
    ;

    /// Adopt a revision token (used to rebase a merged winner onto the
    /// revision currently stored).
    fn set_rev(&mut self, rev: &str)
        ensures
            final(self)@ == Self::m_with_rev(old(self)@, rev@),
    ;

    /// A model-preserving copy of a document whose conflicts are drained.
    fn duplicate(&self) -> (r: Self)
        requires
            Self::m_conflicts(self@).len() == 0,
        ensures
            r@ == self@,
    ;
}

/// The models of a list of documents, in order.
pub open spec fn views_of<T: View>(s: Seq<T>) -> Seq<T::V> {
    s.map_values(|t: T| t@)
}

/// The merged model of a base document after folding in a list of sibling
/// models, left to right.
pub open spec fn fold_merged<T: Mergeable>(base: T::V, sibs: Seq<T::V>) -> T::V
    decreases sibs.len(),
{
    if sibs.len() == 0 {
        base
    } else {
        fold_merged::<T>(T::m_merged(base, sibs[0]), sibs.skip(1))
    }
}

/// Folding one more sibling at the right end merges it into the previous
/// fold.
pub proof fn lemma_fold_merged_snoc<T: Mergeable>(base: T::V, sibs: Seq<T::V>, x: T::V)
    ensures
        fold_merged::<T>(base, sibs.push(x)) == T::m_merged(fold_merged::<T>(base, sibs), x),
    decreases sibs.len(),
{
    if sibs.len() == 0 {
        assert(sibs.push(x)[0] == x);
        assert(sibs.push(x).skip(1) =~= Seq::<T::V>::empty());
        assert(fold_merged::<T>(base, sibs.push(x)) == fold_merged::<T>(
            T::m_merged(base, x),
            Seq::<T::V>::empty(),
        ));
        assert(fold_merged::<T>(base, sibs) == base);
    } else {
        assert(sibs.push(x)[0] == sibs[0]);
        assert(sibs.push(x).skip(1) =~= sibs.skip(1).push(x));
        lemma_fold_merged_snoc::<T>(T::m_merged(base, sibs[0]), sibs.skip(1), x);
        assert(fold_merged::<T>(base, sibs.push(x)) == fold_merged::<T>(
            T::m_merged(base, sibs[0]),
            sibs.skip(1).push(x),
        ));
        assert(fold_merged::<T>(base, sibs) == fold_merged::<T>(
            T::m_merged(base, sibs[0]),
            sibs.skip(1),
        ));
    }
}

/// A fold of merges keeps the base document's identity fields.
pub proof fn lemma_fold_merged_meta<T: Mergeable>(base: T::V, sibs: Seq<T::V>)
    ensures
        T::m_id(fold_merged::<T>(base, sibs)) == T::m_id(base),
        T::m_rev(fold_merged::<T>(base, sibs)) == T::m_rev(base),
        T::m_deleted(fold_merged::<T>(base, sibs)) == T::m_deleted(base),
        T::m_conflicts(fold_merged::<T>(base, sibs)) == T::m_conflicts(base),
    decreases sibs.len(),
{
    if sibs.len() > 0 {
        T::lemma_merged_meta(base, sibs[0]);
        lemma_fold_merged_meta::<T>(T::m_merged(base, sibs[0]), sibs.skip(1));
    }
}

} // verus!
