//! Counting flags: the number of `true` entries of a sequence, and how it
//! moves when the sequence changes.

use vstd::prelude::*;

verus! {

/// The number of `true` entries of a sequence of flags.
pub open spec fn count_true(flags: Seq<bool>) -> nat
    decreases flags.len(),
{
    if flags.len() == 0 {
        0
    } else {
        count_true(flags.drop_last()) + (if flags.last() {
            1nat
        } else {
            0nat
        })
    }
}

/// Changing one flag changes the count by at most one, in the direction of
/// the change.
pub proof fn lemma_count_true_update(flags: Seq<bool>, i: int, value: bool)
    requires
        0 <= i < flags.len(),
    ensures
        count_true(flags.update(i, value)) + (if flags[i] {
            1nat
        } else {
            0nat
        }) == count_true(flags) + (if value {
            1nat
        } else {
            0nat
        }),
    decreases flags.len(),
{
    let updated = flags.update(i, value);
    if i == flags.len() - 1 {
        assert(updated.drop_last() == flags.drop_last());
    } else {
        lemma_count_true_update(flags.drop_last(), i, value);
        assert(updated.drop_last() == flags.drop_last().update(i, value));
    }
}

/// Appending a flag adds it to the count.
pub proof fn lemma_count_true_push(flags: Seq<bool>, value: bool)
    ensures
        count_true(flags.push(value)) == count_true(flags) + (if value {
            1nat
        } else {
            0nat
        }),
{
    assert(flags.push(value).drop_last() == flags);
}

/// A count of flags never exceeds their number.
pub proof fn lemma_count_true_bound(flags: Seq<bool>)
    ensures
        count_true(flags) <= flags.len(),
    decreases flags.len(),
{
    if flags.len() > 0 {
        lemma_count_true_bound(flags.drop_last());
    }
}

/// The count is zero exactly when no flag is set.
pub proof fn lemma_count_true_zero(flags: Seq<bool>)
    ensures
        count_true(flags) == 0 <==> forall|i: int| 0 <= i < flags.len() ==> !flags[i],
    decreases flags.len(),
{
    if flags.len() > 0 {
        lemma_count_true_zero(flags.drop_last());
        if count_true(flags) == 0 {
            assert forall|i: int| 0 <= i < flags.len() implies !flags[i] by {
                if i < flags.len() - 1 {
                    assert(flags.drop_last()[i] == flags[i]);
                }
            }
        } else {
            if forall|i: int| 0 <= i < flags.len() ==> !flags[i] {
                assert forall|i: int| 0 <= i < flags.drop_last().len() implies !flags.drop_last()[i] by {
                    assert(flags.drop_last()[i] == flags[i]);
                }
            }
        }
    }
}

/// The count is the length exactly when every flag is set.
pub proof fn lemma_count_true_full(flags: Seq<bool>)
    requires
        forall|i: int| 0 <= i < flags.len() ==> flags[i],
    ensures
        count_true(flags) == flags.len(),
    decreases flags.len(),
{
    if flags.len() > 0 {
        assert forall|i: int| 0 <= i < flags.drop_last().len() implies flags.drop_last()[i] by {
            assert(flags.drop_last()[i] == flags[i]);
        }
        lemma_count_true_full(flags.drop_last());
    }
}

/// When the count is the length, every flag is set.
pub proof fn lemma_count_true_all(flags: Seq<bool>)
    requires
        count_true(flags) == flags.len(),
    ensures
        forall|i: int| 0 <= i < flags.len() ==> flags[i],
    decreases flags.len(),
{
    if flags.len() > 0 {
        lemma_count_true_bound(flags.drop_last());
        lemma_count_true_all(flags.drop_last());
        assert forall|i: int| 0 <= i < flags.len() implies flags[i] by {
            if i < flags.len() - 1 {
                assert(flags.drop_last()[i] == flags[i]);
            }
        }
    }
}

} // verus!
