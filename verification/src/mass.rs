//! Sums of solute over the cells of a phase.
use vstd::prelude::*;

verus! {

/// The amounts of a phase as they are stored, read as natural numbers.
pub open spec fn amounts(cells: Seq<u64>) -> Seq<nat> {
    Seq::new(cells.len(), |i: int| cells[i] as nat)
}

/// The solute held by all the cells of a phase together.
pub open spec fn total(phase: Seq<nat>) -> nat
    decreases phase.len(),
{
    if phase.len() == 0 {
        0
    } else {
        total(phase.drop_last()) + phase.last()
    }
}

/// A new cell at the tail adds its amount to the total.
pub proof fn lemma_total_push(phase: Seq<nat>, amount: nat)
    ensures
        total(phase.push(amount)) == total(phase) + amount,
{
    assert(phase.push(amount).drop_last() =~= phase);
}

/// A new cell at the front adds its amount to the total.
pub proof fn lemma_total_push_front(phase: Seq<nat>, amount: nat)
    ensures
        total(seq![amount] + phase) == total(phase) + amount,
    decreases phase.len(),
{
    let joined = seq![amount] + phase;
    if phase.len() == 0 {
        assert(joined.drop_last() =~= phase);
    } else {
        assert(joined.drop_last() =~= seq![amount] + phase.drop_last());
        lemma_total_push_front(phase.drop_last(), amount);
    }
}

/// No single cell holds more than the whole phase.
pub proof fn lemma_total_bounds_cell(phase: Seq<nat>, i: int)
    requires
        0 <= i < phase.len(),
    ensures
        phase[i] <= total(phase),
    decreases phase.len(),
{
    if i < phase.len() - 1 {
        lemma_total_bounds_cell(phase.drop_last(), i);
    }
}

/// Replacing the amount of one cell changes the total by the difference.
pub proof fn lemma_total_update(phase: Seq<nat>, i: int, amount: nat)
    requires
        0 <= i < phase.len(),
    ensures
        total(phase.update(i, amount)) + phase[i] == total(phase) + amount,
    decreases phase.len(),
{
    let changed = phase.update(i, amount);
    if i == phase.len() - 1 {
        assert(changed.drop_last() =~= phase.drop_last());
    } else {
        assert(changed.drop_last() =~= phase.drop_last().update(i, amount));
        lemma_total_update(phase.drop_last(), i, amount);
    }
}

/// Two pairs of phases that agree cell by cell on the sum of upper and lower
/// amount hold the same mass.
pub proof fn lemma_total_cellwise(a: Seq<nat>, b: Seq<nat>, c: Seq<nat>, d: Seq<nat>)
    requires
        a.len() == b.len(),
        b.len() == c.len(),
        c.len() == d.len(),
        forall|i: int| 0 <= i < a.len() ==> a[i] + b[i] == c[i] + d[i],
    ensures
        total(a) + total(b) == total(c) + total(d),
    decreases a.len(),
{
    if a.len() > 0 {
        lemma_total_cellwise(a.drop_last(), b.drop_last(), c.drop_last(), d.drop_last());
    }
}

/// The first `n + 1` cells hold what the first `n` hold and the amount of
/// cell `n`; no leading part of a phase holds more than the whole phase.
pub proof fn lemma_total_take(phase: Seq<nat>, n: int)
    requires
        0 <= n < phase.len(),
    ensures
        total(phase.take(n + 1)) == total(phase.take(n)) + phase[n],
        total(phase.take(n + 1)) <= total(phase),
    decreases phase.len() - n,
{
    assert(phase.take(n + 1).drop_last() =~= phase.take(n));
    if n + 1 < phase.len() {
        lemma_total_take(phase, n + 1);
    } else {
        assert(phase.take(n + 1) =~= phase);
    }
}

} // verus!
