//! The pure heart of a resolution cycle: folding sibling revisions into a
//! single winner, tombstoning the losers, and snapshotting everything for
//! the audit log.  No I/O happens here; the flows in [`crate::client`] hand
//! the computed batch to the caller to write.

use vstd::prelude::*;

use crate::mergeable::{
    fold_merged, lemma_fold_merged_meta, lemma_fold_merged_snoc, views_of, Mergeable,
};

verus! {

/// Model of a computed resolution batch.
#[verifier::ext_equal]
pub ghost struct ResolutionModel<MV> {
    /// The merged winner, handed back to the caller after a clean write.
    pub winner: MV,
    /// The documents to write in one batch: every tombstoned loser, then
    /// the winner.
    pub raw_docs: Seq<MV>,
    /// The pre-merge snapshot of every revision that went into the merge.
    pub conflicting_docs: Seq<MV>,
}

/// A computed resolution: what to write, and what to log.
pub struct ResolvedBatch<T: Mergeable> {
    /// The merged winner, handed back to the caller after a clean write.
    pub winner: T,
    /// The documents to write in one batch: every tombstoned loser, then
    /// the winner.
    pub raw_docs: Vec<T>,
    /// The pre-merge snapshot of every revision that went into the merge.
    pub conflicting_docs: Vec<T>,
}

impl<T: Mergeable> View for ResolvedBatch<T> {
    type V = ResolutionModel<T::V>;

    open spec fn view(&self) -> ResolutionModel<T::V> {
        ResolutionModel {
            winner: self.winner@,
            raw_docs: views_of(self.raw_docs@),
            conflicting_docs: views_of(self.conflicting_docs@),
        }
    }
}

/// Model of resolving a document read from the store against its sibling
/// revisions: the winner is the base with every sibling folded in, in
/// listing order; every sibling becomes a tombstone.
pub open spec fn spec_resolution<T: Mergeable>(base: T::V, sibs: Seq<T::V>) -> ResolutionModel<
    T::V,
> {
    let winner = fold_merged::<T>(base, sibs);
    ResolutionModel {
        winner,
        raw_docs: sibs.map_values(|s: T::V| T::m_tombstoned(s)).push(winner),
        conflicting_docs: seq![base] + sibs,
    }
}

/// Model of resolving a caller's document against the stored revision and
/// its siblings (the save path): the caller's document first absorbs the
/// stored revision, then every sibling, and finally adopts the stored
/// revision's token so the write updates the stored revision.  Only the
/// siblings are tombstoned.
pub open spec fn spec_save_resolution<T: Mergeable>(
    base: T::V,
    stored: T::V,
    sibs: Seq<T::V>,
) -> ResolutionModel<T::V> {
    let merged = fold_merged::<T>(T::m_merged(base, stored), sibs);
    let winner = T::m_with_rev(merged, T::m_rev(stored));
    ResolutionModel {
        winner,
        raw_docs: sibs.map_values(|s: T::V| T::m_tombstoned(s)).push(winner),
        conflicting_docs: seq![base, stored] + sibs,
    }
}

/// Fold every sibling into the base document, in listing order, and
/// tombstone each sibling (the read path of a resolution cycle).
pub fn resolve_documents<T: Mergeable>(base: T, siblings: &Vec<T>) -> (r: ResolvedBatch<T>)
    requires
        T::m_conflicts(base@).len() == 0,
        forall|i: int|
            0 <= i < siblings@.len() ==> T::m_conflicts(#[trigger] siblings@[i]@).len() == 0,
    ensures
        r@ == spec_resolution::<T>(base@, views_of(siblings@)),
{
    let ghost base0 = base@;
    let ghost sib_views = views_of(siblings@);
    let mut conflicting: Vec<T> = Vec::new();
    conflicting.push(base.duplicate());
    let mut winner = base;
    let mut raw_docs: Vec<T> = Vec::new();
    proof {
        assert(sib_views.take(0) =~= Seq::<T::V>::empty());
    }
    let mut i: usize = 0;
    while i < siblings.len()
        invariant
            0 <= i <= siblings@.len(),
            sib_views == views_of(siblings@),
            forall|k: int|
                0 <= k < siblings@.len() ==> T::m_conflicts(#[trigger] siblings@[k]@).len() == 0,
            winner@ == fold_merged::<T>(base0, sib_views.take(i as int)),
            T::m_conflicts(winner@).len() == 0,
            raw_docs@.len() == i,
            forall|k: int|
                0 <= k < i ==> #[trigger] raw_docs@[k]@ == T::m_tombstoned(sib_views[k]),
            conflicting@.len() == i + 1,
            conflicting@[0]@ == base0,
            forall|k: int| 0 <= k < i ==> #[trigger] conflicting@[k + 1]@ == sib_views[k],
        decreases siblings@.len() - i,
    {
        let ghost done = i as int;
        proof {
            assert(sib_views[done] == siblings@[done]@);
        }
        let s = &siblings[i];
        conflicting.push(s.duplicate());
        proof {
            lemma_fold_merged_snoc::<T>(base0, sib_views.take(done), sib_views[done]);
            assert(sib_views.take(done + 1) =~= sib_views.take(done).push(sib_views[done]));
            T::lemma_merged_meta(winner@, s@);
        }
        winner.merge(s);
        let mut tomb = s.duplicate();
        tomb.mark_as_deleted();
        raw_docs.push(tomb);
        i += 1;
    }
    proof {
        assert(sib_views.take(siblings@.len() as int) =~= sib_views);
    }
    let winner_out = winner.duplicate();
    raw_docs.push(winner);
    let r = ResolvedBatch { winner: winner_out, raw_docs, conflicting_docs: conflicting };
    proof {
        assert(views_of(r.raw_docs@) =~= sib_views.map_values(|s: T::V| T::m_tombstoned(s)).push(
            fold_merged::<T>(base0, sib_views),
        ));
        let snapshot = seq![base0] + sib_views;
        assert forall|k: int| 0 <= k < snapshot.len() implies views_of(r.conflicting_docs@)[k]
            == snapshot[k] by {
            if k > 0 {
                assert(r.conflicting_docs@[(k - 1) + 1]@ == sib_views[k - 1]);
            }
        }
        assert(views_of(r.conflicting_docs@) =~= snapshot);
        assert(r@ =~= spec_resolution::<T>(base0, sib_views));
    }
    r
}

/// Merge a caller's document with the stored revision and its siblings,
/// adopt the stored revision's token, and tombstone the siblings (the
/// write path of a resolution cycle).
pub fn resolve_for_save<T: Mergeable>(base: T, stored: &T, siblings: &Vec<T>) -> (r: ResolvedBatch<
    T,
>)
    requires
        T::m_conflicts(base@).len() == 0,
        T::m_conflicts(stored@).len() == 0,
        forall|i: int|
            0 <= i < siblings@.len() ==> T::m_conflicts(#[trigger] siblings@[i]@).len() == 0,
    ensures
        r@ == spec_save_resolution::<T>(base@, stored@, views_of(siblings@)),
{
    let ghost base0 = base@;
    let ghost stored0 = stored@;
    let ghost sib_views = views_of(siblings@);
    let base_snapshot = base.duplicate();
    let mut merged = base;
    proof {
        T::lemma_merged_meta(base0, stored0);
    }
    merged.merge(stored);
    let inner = resolve_documents(merged, siblings);
    let ResolvedBatch { winner, mut raw_docs, conflicting_docs: _ } = inner;
    let ghost raw_pre = raw_docs@;
    proof {
        lemma_fold_merged_meta::<T>(T::m_merged(base0, stored0), sib_views);
        assert(views_of(raw_pre) == spec_resolution::<T>(
            T::m_merged(base0, stored0),
            sib_views,
        ).raw_docs);
        assert(raw_pre.len() == views_of(raw_pre).len());
        assert(raw_pre.len() == sib_views.len() + 1);
    }
    let mut winner = winner;
    let rev = stored.get_rev();
    winner.set_rev(rev.as_str());
    // The batch ends with the winner; it must carry the adopted revision too.
    let _ = raw_docs.pop();
    proof {
        T::lemma_with_rev_meta(
            fold_merged::<T>(T::m_merged(base0, stored0), sib_views),
            T::m_rev(stored0),
        );
    }
    let winner_for_batch = winner.duplicate();
    raw_docs.push(winner_for_batch);
    proof {
        assert(raw_docs@.len() == raw_pre.len());
        assert(forall|k: int| 0 <= k < raw_pre.len() - 1 ==> raw_docs@[k] == raw_pre[k]);
        assert(views_of(raw_pre) == spec_resolution::<T>(
            T::m_merged(base0, stored0),
            sib_views,
        ).raw_docs);
    }
    // The audit snapshot lists the caller's document, then the stored
    // revision, then every sibling, all pre-merge.
    let mut conflicting: Vec<T> = Vec::new();
    conflicting.push(base_snapshot);
    conflicting.push(stored.duplicate());
    let mut i: usize = 0;
    while i < siblings.len()
        invariant
            0 <= i <= siblings@.len(),
            sib_views == views_of(siblings@),
            forall|k: int|
                0 <= k < siblings@.len() ==> T::m_conflicts(#[trigger] siblings@[k]@).len() == 0,
            conflicting@.len() == i + 2,
            conflicting@[0]@ == base0,
            conflicting@[1]@ == stored0,
            forall|k: int| 0 <= k < i ==> #[trigger] conflicting@[k + 2]@ == sib_views[k],
        decreases siblings@.len() - i,
    {
        proof {
            assert(sib_views[i as int] == siblings@[i as int]@);
        }
        conflicting.push(siblings[i].duplicate());
        i += 1;
    }
    let r = ResolvedBatch { winner, raw_docs, conflicting_docs: conflicting };
    proof {
        let spec_r = spec_save_resolution::<T>(base0, stored0, sib_views);
        let merged_fold = fold_merged::<T>(T::m_merged(base0, stored0), sib_views);
        let tombs = sib_views.map_values(|s: T::V| T::m_tombstoned(s));
        assert forall|k: int| 0 <= k < spec_r.raw_docs.len() implies views_of(r.raw_docs@)[k]
            == spec_r.raw_docs[k] by {
            if k < sib_views.len() {
                assert(r.raw_docs@[k] == raw_pre[k]);
                assert(raw_pre[k]@ == views_of(raw_pre)[k]);
                assert(views_of(raw_pre)[k] == tombs.push(merged_fold)[k]);
                assert(tombs.push(merged_fold)[k] == tombs[k]);
            }
        }
        assert(views_of(r.raw_docs@) =~= spec_r.raw_docs);
        let snapshot = seq![base0, stored0] + sib_views;
        assert forall|k: int| 0 <= k < snapshot.len() implies views_of(r.conflicting_docs@)[k]
            == snapshot[k] by {
            if k > 1 {
                assert(r.conflicting_docs@[(k - 2) + 2]@ == sib_views[k - 2]);
            }
        }
        assert(views_of(r.conflicting_docs@) =~= snapshot);
        assert(r@ =~= spec_r);
    }
    r
}

} // verus!
