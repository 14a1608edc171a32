//! Counting over the grid: values in flight and cells still to act.
use vstd::prelude::*;
use crate::space::{Space, is_real};

verus! {

/// How many cells of `s` hold a travelling value.
pub open spec fn count_real(s: Seq<Space>) -> nat
    decreases s.len(),
{
    if s.len() == 0 {
        0
    } else {
        count_real(s.drop_last()) + if is_real(s.last().value) {
            1nat
        } else {
            0nat
        }
    }
}

/// How many cells have not acted yet this tick.
pub open spec fn unacted(s: Seq<bool>) -> nat
    decreases s.len(),
{
    if s.len() == 0 {
        0
    } else {
        unacted(s.drop_last()) + if s.last() {
            0nat
        } else {
            1nat
        }
    }
}

pub proof fn lemma_count_real_update(s: Seq<Space>, i: int, c: Space)
    requires
        0 <= i < s.len(),
    ensures
        count_real(s.update(i, c)) + (if is_real(s[i].value) {
            1int
        } else {
            0int
        }) == count_real(s) + (if is_real(c.value) {
            1int
        } else {
            0int
        }),
    decreases s.len(),
{
    let t = s.update(i, c);
    if i == s.len() - 1 {
        assert(t.drop_last() =~= s.drop_last());
    } else {
        assert(t.drop_last() =~= s.drop_last().update(i, c));
        lemma_count_real_update(s.drop_last(), i, c);
    }
}

pub proof fn lemma_unacted_mark(s: Seq<bool>, i: int)
    requires
        0 <= i < s.len(),
        !s[i],
    ensures
        unacted(s.update(i, true)) + 1 == unacted(s),
    decreases s.len(),
{
    let t = s.update(i, true);
    if i == s.len() - 1 {
        assert(t.drop_last() =~= s.drop_last());
    } else {
        assert(t.drop_last() =~= s.drop_last().update(i, true));
        lemma_unacted_mark(s.drop_last(), i);
    }
}

pub proof fn lemma_unacted_none(n: nat)
    ensures
        unacted(Seq::new(n, |i: int| false)) == n,
    decreases n,
{
    if n > 0 {
        assert(Seq::new(n, |i: int| false).drop_last() =~= Seq::new((n - 1) as nat, |i: int| false));
        lemma_unacted_none((n - 1) as nat);
    }
}

} // verus!
