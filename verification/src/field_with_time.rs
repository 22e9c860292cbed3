//! A generic last-writer-wins register: a value annotated with the time it
//! was last set.  Two instances merge by keeping the value with the larger
//! timestamp; on equal timestamps the operand passed as "other" wins, and
//! that tie-break is applied consistently by `merge`, `get_best_of_two` and
//! `get_best`.

use vstd::prelude::*;

use crate::timestamp::get_timestamp;

verus! {

/// A value together with the timestamp at which it was last set.
#[derive(Clone, Copy, Debug)]
pub struct FieldWithTime<T> {
    /// current value
    pub value: T,
    /// timestamp at which the current value was set
    pub timestamp_set: u64,
}

impl<T> FieldWithTime<T> {
    /// The operand that a merge keeps: the one set later, `b` on a tie.
    pub open spec fn spec_best_of_two(a: Self, b: Self) -> Self {
        if b.timestamp_set >= a.timestamp_set {
            b
        } else {
            a
        }
    }

    /// `spec_best_of_two` folded left over a list of further candidates.
    pub open spec fn spec_best(first: Self, others: Seq<Self>) -> Self
        decreases others.len(),
    {
        if others.len() == 0 {
            first
        } else {
            Self::spec_best(Self::spec_best_of_two(first, others[0]), others.skip(1))
        }
    }

    /// Wrap a value, stamped with the current wall-clock time.
    pub fn new(value: T) -> (r: Self)
        ensures
            r.value == value,
    {
        Self { value, timestamp_set: get_timestamp() }
    }

    /// Replace the value and refresh the timestamp to the current time.
    pub fn update(&mut self, value: T)
        ensures
            final(self).value == value,
    {
        self.value = value;
        self.timestamp_set = get_timestamp();
    }

    /// The current value.
    pub fn get(&self) -> (r: &T)
        ensures
            *r == self.value,
    {
        &self.value
    }

    /// Of two candidates, return the one set later; `other` wins a tie.
    pub fn get_best_of_two(self, other: Self) -> (r: Self)
        ensures
            r == Self::spec_best_of_two(self, other),
    {
        if other.timestamp_set >= self.timestamp_set {
            other
        } else {
            self
        }
    }
}

impl<T: Copy> FieldWithTime<T> {
    /// Adopt `other`'s value and timestamp if `other` was set at the same
    /// time or later; otherwise leave `self` unchanged.
    pub fn merge(&mut self, other: &Self)
        ensures
            *final(self) == Self::spec_best_of_two(*old(self), *other),
    {
        if other.timestamp_set >= self.timestamp_set {
            self.timestamp_set = other.timestamp_set;
            self.value = other.value;
        }
    }

    /// Reduce an ordered list of candidates to the one set last; later
    /// candidates win ties.
    pub fn get_best(first: Self, others: Vec<Self>) -> (r: Self)
        ensures
            r == Self::spec_best(first, others@),
    {
        proof {
            assert(others@.skip(0) =~= others@);
        }
        let mut best = first;
        let mut i: usize = 0;
        while i < others.len()
            invariant
                0 <= i <= others@.len(),
                Self::spec_best(best, others@.skip(i as int)) == Self::spec_best(first, others@),
            decreases others@.len() - i,
        {
            proof {
                assert(others@.skip(i as int)[0] == others@[i as int]);
                assert(others@.skip(i as int).skip(1) =~= others@.skip(i as int + 1));
            }
            if others[i].timestamp_set >= best.timestamp_set {
                best = others[i];
            }
            i += 1;
        }
        best
    }
}

/// The merge of two registers is the operand with the greater timestamp.
pub proof fn lemma_best_of_two_is_latest<T>(a: FieldWithTime<T>, b: FieldWithTime<T>)
    ensures
        b.timestamp_set > a.timestamp_set ==> FieldWithTime::spec_best_of_two(a, b) == b,
        a.timestamp_set > b.timestamp_set ==> FieldWithTime::spec_best_of_two(a, b) == a,
        FieldWithTime::spec_best_of_two(a, b) == a || FieldWithTime::spec_best_of_two(a, b) == b,
{
}

/// The documented tie-break: on equal timestamps the operand passed as
/// "other" is kept.  `merge`, `get_best_of_two` and `get_best` all reduce
/// through `spec_best_of_two`, so all three apply this rule alike.
pub proof fn lemma_equal_timestamps_prefer_other<T>(a: FieldWithTime<T>, b: FieldWithTime<T>)
    requires
        a.timestamp_set == b.timestamp_set,
    ensures
        FieldWithTime::spec_best_of_two(a, b) == b,
        FieldWithTime::spec_best(a, seq![b]) == b,
{
    assert(seq![b][0] == b);
    assert(seq![b].skip(1) =~= Seq::<FieldWithTime<T>>::empty());
    assert(FieldWithTime::spec_best(a, seq![b]) == FieldWithTime::spec_best(
        b,
        Seq::<FieldWithTime<T>>::empty(),
    ));
}

/// Reducing a candidate list keeps a candidate whose timestamp dominates
/// every candidate in the list.
pub proof fn lemma_best_is_latest<T>(first: FieldWithTime<T>, others: Seq<FieldWithTime<T>>)
    ensures
        FieldWithTime::spec_best(first, others).timestamp_set >= first.timestamp_set,
        forall|i: int|
            0 <= i < others.len() ==> FieldWithTime::spec_best(first, others).timestamp_set
                >= others[i].timestamp_set,
        FieldWithTime::spec_best(first, others) == first || exists|i: int|
            0 <= i < others.len() && FieldWithTime::spec_best(first, others) == others[i],
    decreases others.len(),
{
    if others.len() > 0 {
        let next = FieldWithTime::spec_best_of_two(first, others[0]);
        lemma_best_is_latest(next, others.skip(1));
        assert(forall|i: int|
            1 <= i < others.len() ==> others.skip(1)[i - 1] == others[i]);
        if FieldWithTime::spec_best(next, others.skip(1)) == next && next == others[0] {
            assert(FieldWithTime::spec_best(first, others) == others[0]);
        }
    }
}

} // verus!
