//! The majority token: the domain entity that takes part in conflict
//! resolution.  Its id is the token's secret; its certified set is
//! append-only and merges by union; its admin flags are a last-writer-wins
//! register whose `revoked` bit is additionally forced monotone (once either
//! side has revoked, the merge is revoked); its latest certification time
//! merges by maximum.

use vstd::prelude::*;

use crate::field_with_time::FieldWithTime;
use crate::mergeable::Mergeable;
use crate::strutil::{str_views, vec_contains_str};

verus! {

/// Administrative state of a majority token.
#[derive(Clone, Copy, Debug, PartialEq, Eq, Structural)]
pub struct MajorityTokenAdminFlags {
    /// Whether the list of certified users should be ignored when
    /// determining certified users
    pub can_certify: bool,
    /// Whether this token needs certification to be valid
    pub need_certification: bool,
    /// Whether this token has been revoked
    pub revoked: bool,
}

/// A token giving majority rights, stored as one document per token.
#[derive(Debug)]
pub struct MajorityToken {
    /// The password of the token.  Also the primary key.
    pub _id: String,
    /// The store-assigned revision token; empty before the first write.
    pub _rev: String,
    /// The tombstone flag.
    pub _deleted: Option<bool>,
    /// The users this majority token has certified.  Append-only; no two
    /// entries hold the same user.
    pub certify: Vec<String>,
    pub admin_flags: FieldWithTime<MajorityTokenAdminFlags>,
    pub latest_certification_timestamp: u64,
    /// Sibling revisions reported by a read that asked for conflicts.
    pub _conflicts: Vec<MajorityToken>,
}

/// The mathematical model of a majority token.
#[verifier::ext_equal]
pub ghost struct TokenModel {
    pub id: Seq<char>,
    pub rev: Seq<char>,
    pub deleted: bool,
    pub certify: Seq<Seq<char>>,
    pub admin_flags: FieldWithTime<MajorityTokenAdminFlags>,
    pub latest_certification_timestamp: u64,
    pub conflicts: Seq<TokenModel>,
}

/// The model of a token, with its conflict list abstracted away.  Sibling
/// revisions handed around by the resolution engine never carry conflicts
/// of their own.
pub open spec fn shallow_model(t: MajorityToken) -> TokenModel {
    TokenModel {
        id: t._id@,
        rev: t._rev@,
        deleted: t._deleted == Some(true),
        certify: str_views(t.certify@),
        admin_flags: t.admin_flags,
        latest_certification_timestamp: t.latest_certification_timestamp,
        conflicts: Seq::empty(),
    }
}

impl View for MajorityToken {
    type V = TokenModel;

    open spec fn view(&self) -> TokenModel {
        TokenModel {
            id: self._id@,
            rev: self._rev@,
            deleted: self._deleted == Some(true),
            certify: str_views(self.certify@),
            admin_flags: self.admin_flags,
            latest_certification_timestamp: self.latest_certification_timestamp,
            conflicts: self._conflicts@.map_values(|c: MajorityToken| shallow_model(c)),
        }
    }
}

/// Append to `a` the entries of `b` that `a` does not already hold, left to
/// right.
pub open spec fn union_certify(a: Seq<Seq<char>>, b: Seq<Seq<char>>) -> Seq<Seq<char>>
    decreases b.len(),
{
    if b.len() == 0 {
        a
    } else {
        union_certify(
            if a.contains(b[0]) {
                a
            } else {
                a.push(b[0])
            },
            b.skip(1),
        )
    }
}

/// The merge of two admin-flag registers: last writer wins on the whole
/// flags value, except that `revoked` is the disjunction of both sides.
pub open spec fn merged_admin_flags(
    a: FieldWithTime<MajorityTokenAdminFlags>,
    b: FieldWithTime<MajorityTokenAdminFlags>,
) -> FieldWithTime<MajorityTokenAdminFlags> {
    let best = FieldWithTime::spec_best_of_two(a, b);
    FieldWithTime {
        value: MajorityTokenAdminFlags { revoked: a.value.revoked || b.value.revoked, ..best.value },
        timestamp_set: best.timestamp_set,
    }
}

/// The union holds exactly the members of either side.
pub proof fn lemma_union_certify_contains(a: Seq<Seq<char>>, b: Seq<Seq<char>>, u: Seq<char>)
    ensures
        union_certify(a, b).contains(u) <==> a.contains(u) || b.contains(u),
    decreases b.len(),
{
    if b.len() > 0 {
        let step = if a.contains(b[0]) {
            a
        } else {
            a.push(b[0])
        };
        lemma_union_certify_contains(step, b.skip(1), u);
        assert(step.contains(u) <==> a.contains(u) || b[0] == u) by {
            if a.contains(b[0]) {
            } else {
                if step.contains(u) {
                    let i = choose|i: int| 0 <= i < step.len() && step[i] == u;
                    if i < a.len() {
                        assert(a.contains(u));
                    } else {
                        assert(u == b[0]);
                    }
                }
                if a.contains(u) {
                    let i = choose|i: int| 0 <= i < a.len() && a[i] == u;
                    assert(step[i] == u);
                    assert(step.contains(u));
                }
                if u == b[0] {
                    assert(step[a.len() as int] == u);
                    assert(step.contains(u));
                }
            }
        }
        assert(b.contains(u) <==> b[0] == u || b.skip(1).contains(u)) by {
            if b.contains(u) {
                let i = choose|i: int| 0 <= i < b.len() && b[i] == u;
                if i > 0 {
                    assert(b.skip(1)[i - 1] == u);
                    assert(b.skip(1).contains(u));
                }
            }
            if b.skip(1).contains(u) {
                let i = choose|i: int| 0 <= i < b.skip(1).len() && b.skip(1)[i] == u;
                assert(b[i + 1] == u);
                assert(b.contains(u));
            }
        }
    }
}

/// Merging adds nothing when every entry of `b` is already present in `a`.
proof fn lemma_union_certify_subsumed(a: Seq<Seq<char>>, b: Seq<Seq<char>>)
    requires
        forall|i: int| 0 <= i < b.len() ==> a.contains(#[trigger] b[i]),
    ensures
        union_certify(a, b) == a,
    decreases b.len(),
{
    if b.len() > 0 {
        assert(a.contains(b[0]));
        assert(forall|i: int|
            0 <= i < b.skip(1).len() ==> a.contains(#[trigger] b.skip(1)[i])) by {
            assert(forall|i: int| 0 <= i < b.skip(1).len() ==> b.skip(1)[i] == b[i + 1]);
        }
        lemma_union_certify_subsumed(a, b.skip(1));
    }
}

impl Mergeable for MajorityToken {
    open spec fn m_merged(a: TokenModel, b: TokenModel) -> TokenModel {
        TokenModel {
            certify: union_certify(a.certify, b.certify),
            admin_flags: merged_admin_flags(a.admin_flags, b.admin_flags),
            latest_certification_timestamp: if b.latest_certification_timestamp
                > a.latest_certification_timestamp {
                b.latest_certification_timestamp
            } else {
                a.latest_certification_timestamp
            },
            ..a
        }
    }

    open spec fn m_tombstoned(a: TokenModel) -> TokenModel {
        TokenModel { deleted: true, ..a }
    }

    open spec fn m_with_rev(a: TokenModel, rev: Seq<char>) -> TokenModel {
        TokenModel { rev, ..a }
    }

    open spec fn m_drained(a: TokenModel) -> TokenModel {
        TokenModel { conflicts: Seq::empty(), ..a }
    }

    open spec fn m_id(a: TokenModel) -> Seq<char> {
        a.id
    }

    open spec fn m_rev(a: TokenModel) -> Seq<char> {
        a.rev
    }

    open spec fn m_deleted(a: TokenModel) -> bool {
        a.deleted
    }

    open spec fn m_conflicts(a: TokenModel) -> Seq<TokenModel> {
        a.conflicts
    }

    proof fn lemma_merged_meta(a: TokenModel, b: TokenModel) {
    }

    proof fn lemma_tombstoned_meta(a: TokenModel) {
    }

    proof fn lemma_with_rev_meta(a: TokenModel, rev: Seq<char>) {
    }

    proof fn lemma_drained_meta(a: TokenModel) {
    }

    proof fn lemma_drained_identity(a: TokenModel) {
        assert(a.conflicts =~= Seq::<TokenModel>::empty());
        assert(Self::m_drained(a) =~= a);
    }

    proof fn lemma_view_conflicts_shallow(t: Self) {
        assert forall|i: int| 0 <= i < Self::m_conflicts(t@).len() implies Self::m_conflicts(
            #[trigger] Self::m_conflicts(t@)[i],
        ).len() == 0 by {
            assert(Self::m_conflicts(t@)[i] == shallow_model(t._conflicts@[i]));
        }
    }

    fn merge(&mut self, other: &Self) {
        let ghost a_views = str_views(self.certify@);
        let ghost b_views = str_views(other.certify@);
        let ghost snap = *self;
        proof {
            assert(b_views.skip(0) =~= b_views);
        }
        let mut j: usize = 0;
        while j < other.certify.len()
            invariant
                0 <= j <= other.certify@.len(),
                b_views == str_views(other.certify@),
                union_certify(str_views(self.certify@), b_views.skip(j as int)) == union_certify(
                    a_views,
                    b_views,
                ),
                self._id == snap._id,
                self._rev == snap._rev,
                self._deleted == snap._deleted,
                self.admin_flags == snap.admin_flags,
                self.latest_certification_timestamp == snap.latest_certification_timestamp,
                self._conflicts == snap._conflicts,
            decreases other.certify@.len() - j,
        {
            let ghost cur = str_views(self.certify@);
            let ghost rest = b_views.skip(j as int);
            proof {
                assert(rest[0] == b_views[j as int]);
                assert(b_views[j as int] == other.certify@[j as int]@);
                assert(rest.skip(1) =~= b_views.skip(j as int + 1));
            }
            if !vec_contains_str(&self.certify, other.certify[j].as_str()) {
                self.certify.push(other.certify[j].clone());
                proof {
                    assert(str_views(self.certify@) =~= cur.push(other.certify@[j as int]@));
                }
            }
            j += 1;
        }
        proof {
            assert(str_views(self.certify@) == union_certify(a_views, b_views));
        }
        let a_revoked = self.admin_flags.value.revoked;
        self.admin_flags.merge(&other.admin_flags);
        self.admin_flags.value.revoked = a_revoked || other.admin_flags.value.revoked;
        if other.latest_certification_timestamp > self.latest_certification_timestamp {
            self.latest_certification_timestamp = other.latest_certification_timestamp;
        }
        proof {
            assert(self@ =~= Self::m_merged(snap@, other@));
        }
    }

    fn mark_as_deleted(&mut self) {
        self._deleted = Some(true);
        proof {
            assert(self@ =~= Self::m_tombstoned(old(self)@));
        }
    }

    fn conflicts(&self) -> (r: &Vec<Self>) {
        proof {
            assert forall|i: int| 0 <= i < self._conflicts@.len() implies Self::m_drained(
                #[trigger] self._conflicts@[i]@,
            ) == Self::m_conflicts(self@)[i] by {
                assert(Self::m_conflicts(self@)[i] == shallow_model(self._conflicts@[i]));
                assert(Self::m_drained(self._conflicts@[i]@) =~= shallow_model(
                    self._conflicts@[i],
                ));
            }
        }
        &self._conflicts
    }

    fn take_conflicts(&mut self) -> (r: Vec<Self>) {
        let mut out: Vec<MajorityToken> = Vec::new();
        core::mem::swap(&mut out, &mut self._conflicts);
        proof {
            assert(self@.conflicts =~= Seq::<TokenModel>::empty());
            assert(self@ =~= Self::m_drained(old(self)@));
        }
        let ghost orig = out@;
        let ghost snap = *self;
        let mut cleaned: Vec<MajorityToken> = Vec::new();
        proof {
            assert(orig.skip(0) =~= orig);
        }
        while out.len() > 0
            invariant
                cleaned@.len() + out@.len() == orig.len(),
                out@ == orig.skip(cleaned@.len() as int),
                forall|k: int|
                    0 <= k < cleaned@.len() ==> #[trigger] cleaned@[k]@ == shallow_model(orig[k]),
                *self == snap,
            decreases out@.len(),
        {
            let ghost done = cleaned@.len() as int;
            let mut c = out.remove(0);
            proof {
                assert(c == orig[done]);
                assert(out@ =~= orig.skip(done + 1));
            }
            c._conflicts = Vec::new();
            proof {
                assert(c@.conflicts =~= Seq::<TokenModel>::empty());
                assert(c@ =~= shallow_model(orig[done]));
            }
            cleaned.push(c);
        }
        proof {
            assert(crate::mergeable::views_of(cleaned@) =~= Self::m_conflicts(old(self)@));
        }
        cleaned
    }

    fn get_id(&self) -> (r: String) {
        self._id.clone()
    }

    fn get_rev(&self) -> (r: String) {
        self._rev.clone()
    }

    fn set_rev(&mut self, rev: &str) {
        self._rev = rev.to_owned();
        proof {
            assert(self@ =~= Self::m_with_rev(old(self)@, rev@));
        }
    }

    fn duplicate(&self) -> (r: Self) {
        let mut certify: Vec<String> = Vec::new();
        let mut i: usize = 0;
        while i < self.certify.len()
            invariant
                0 <= i <= self.certify@.len(),
                certify@.len() == i,
                forall|k: int| 0 <= k < i ==> #[trigger] certify@[k]@ == self.certify@[k]@,
            decreases self.certify@.len() - i,
        {
            certify.push(self.certify[i].clone());
            i += 1;
        }
        let r = MajorityToken {
            _id: self._id.clone(),
            _rev: self._rev.clone(),
            _deleted: self._deleted,
            certify,
            admin_flags: self.admin_flags,
            latest_certification_timestamp: self.latest_certification_timestamp,
            _conflicts: Vec::new(),
        };
        proof {
            assert(str_views(r.certify@) =~= str_views(self.certify@));
            assert(r@.conflicts =~= self@.conflicts);
            assert(r@ =~= self@);
        }
        r
    }
}

/// Resolution melts every sibling into one revision whose commutative
/// fields depend only on which revisions took part, not on the order they
/// were folded in: the certified set is the union of every input's set, the
/// revoked bit is the disjunction over every input, and the latest
/// certification time is the maximum over every input.
pub proof fn lemma_resolution_is_orderless(base: TokenModel, sibs: Seq<TokenModel>)
    ensures
        forall|u: Seq<char>|
            #[trigger] crate::mergeable::fold_merged::<MajorityToken>(
                base,
                sibs,
            ).certify.contains(u) <==> base.certify.contains(u) || exists|i: int|
                0 <= i < sibs.len() && #[trigger] sibs[i].certify.contains(u),
        crate::mergeable::fold_merged::<MajorityToken>(base, sibs).admin_flags.value.revoked <==> (
        base.admin_flags.value.revoked || exists|i: int|
            0 <= i < sibs.len() && #[trigger] sibs[i].admin_flags.value.revoked),
        crate::mergeable::fold_merged::<MajorityToken>(
            base,
            sibs,
        ).latest_certification_timestamp >= base.latest_certification_timestamp,
        forall|i: int|
            0 <= i < sibs.len() ==> crate::mergeable::fold_merged::<MajorityToken>(
                base,
                sibs,
            ).latest_certification_timestamp >= #[trigger] sibs[i].latest_certification_timestamp,
        crate::mergeable::fold_merged::<MajorityToken>(base, sibs).latest_certification_timestamp
            == base.latest_certification_timestamp || exists|i: int|
            0 <= i < sibs.len() && crate::mergeable::fold_merged::<MajorityToken>(
                base,
                sibs,
            ).latest_certification_timestamp == #[trigger] sibs[i].latest_certification_timestamp,
    decreases sibs.len(),
{
    if sibs.len() > 0 {
        let next = MajorityToken::m_merged(base, sibs[0]);
        lemma_resolution_is_orderless(next, sibs.skip(1));
        assert forall|u: Seq<char>| #[trigger]
            next.certify.contains(u) <==> base.certify.contains(u) || sibs[0].certify.contains(
                u,
            ) by {
            lemma_union_certify_contains(base.certify, sibs[0].certify, u);
        }
        assert(forall|i: int|
            1 <= i < sibs.len() ==> #[trigger] sibs[i] == sibs.skip(1)[i - 1]);
        assert((exists|i: int|
            0 <= i < sibs.len() && #[trigger] sibs[i].admin_flags.value.revoked) <==> (
        sibs[0].admin_flags.value.revoked || exists|i: int|
            0 <= i < sibs.skip(1).len()
                && #[trigger] sibs.skip(1)[i].admin_flags.value.revoked)) by {
            if exists|i: int|
                0 <= i < sibs.len() && #[trigger] sibs[i].admin_flags.value.revoked {
                let i = choose|i: int|
                    0 <= i < sibs.len() && #[trigger] sibs[i].admin_flags.value.revoked;
                if i > 0 {
                    assert(sibs.skip(1)[i - 1].admin_flags.value.revoked);
                }
            }
            if exists|i: int|
                0 <= i < sibs.skip(1).len()
                    && #[trigger] sibs.skip(1)[i].admin_flags.value.revoked {
                let i = choose|i: int|
                    0 <= i < sibs.skip(1).len()
                        && #[trigger] sibs.skip(1)[i].admin_flags.value.revoked;
                assert(sibs[i + 1].admin_flags.value.revoked);
            }
        }
    }
}

/// Merging a token with itself changes nothing.
pub proof fn lemma_merge_idempotent(m: TokenModel)
    ensures
        MajorityToken::m_merged(m, m) == m,
{
    assert(forall|i: int| 0 <= i < m.certify.len() ==> m.certify.contains(#[trigger] m.certify[i]));
    lemma_union_certify_subsumed(m.certify, m.certify);
    assert(MajorityToken::m_merged(m, m) =~= m);
}

/// What a resolution writes back for a read token: the winner of the
/// computed batch carries every certification of the primary revision and
/// of every sibling, is revoked as soon as any of them was, and keeps the
/// latest certification time of them all — whatever order the siblings
/// were listed in.
pub proof fn lemma_get_resolution_keeps_every_contribution(
    flow: crate::client::GetFlowModel<TokenModel>,
    d: TokenModel,
    now: u64,
)
    requires
        flow.state is AwaitRead,
        d.conflicts.len() > 0,
    ensures
        ({
            let (f1, d1) = crate::client::get_on_read_spec::<MajorityToken>(
                flow,
                Option::Some(d),
                now,
            );
            let winner = f1.state->AwaitWrite_winner;
            &&& d1 is WriteResolution
            &&& forall|u: Seq<char>|
                #[trigger] winner.certify.contains(u) <==> d.certify.contains(u) || exists|i: int|
                    0 <= i < d.conflicts.len() && #[trigger] d.conflicts[i].certify.contains(u)
            &&& (winner.admin_flags.value.revoked <==> (d.admin_flags.value.revoked
                || exists|i: int|
                0 <= i < d.conflicts.len()
                    && #[trigger] d.conflicts[i].admin_flags.value.revoked))
            &&& winner.latest_certification_timestamp >= d.latest_certification_timestamp
            &&& forall|i: int|
                0 <= i < d.conflicts.len() ==> winner.latest_certification_timestamp
                    >= #[trigger] d.conflicts[i].latest_certification_timestamp
            &&& winner.id == d.id
        }),
{
    let drained = MajorityToken::m_drained(d);
    lemma_resolution_is_orderless(drained, d.conflicts);
    crate::mergeable::lemma_fold_merged_meta::<MajorityToken>(drained, d.conflicts);
}

/// Whether a fetched token grants majority rights, and whether it may
/// certify other users: a token revoked by an administrator grants
/// neither.
pub fn token_validity(token: &MajorityToken) -> (r: (bool, bool))
    ensures
        r.0 == !token@.admin_flags.value.revoked,
        r.1 == (!token@.admin_flags.value.revoked && token@.admin_flags.value.can_certify),
{
    if token.admin_flags.get().revoked {
        (false, false)
    } else {
        (true, token.admin_flags.get().can_certify)
    }
}

/// Whether the token has certified the given user.
pub fn token_certifies(token: &MajorityToken, user: &str) -> (r: bool)
    ensures
        r == token@.certify.contains(user@),
{
    vec_contains_str(&token.certify, user)
}

/// Record that the token certified a user; append-only, no duplicates.
pub fn token_add_certified(token: &mut MajorityToken, user: String)
    ensures
        final(token)@ == (TokenModel {
            certify: if old(token)@.certify.contains(user@) {
                old(token)@.certify
            } else {
                old(token)@.certify.push(user@)
            },
            ..old(token)@
        }),
{
    if !vec_contains_str(&token.certify, user.as_str()) {
        let ghost cur = str_views(token.certify@);
        token.certify.push(user);
        proof {
            assert(str_views(token.certify@) =~= cur.push(user@));
            assert(token@ =~= (TokenModel { certify: cur.push(user@), ..old(token)@ }));
        }
    } else {
        proof {
            assert(token@ =~= old(token)@);
        }
    }
}

} // verus!
