//! The mathematical model of a subcolumn, and the laws it obeys.
use vstd::prelude::*;
use crate::error::CPCError;
use crate::mass::{
    lemma_total_cellwise, lemma_total_push, lemma_total_push_front, lemma_total_update, total,
};
use crate::partition::{lemma_shares_add_up, lemma_shares_in_ratio, lower_share, upper_share};

verus! {

/// A train of cells as a mathematical value.
///
/// Cell `i` holds `upper[i]` units of solute in its mobile phase and
/// `lower[i]` units in its stationary phase; cell 0 is the front, where the
/// mobile phase enters, and the last cell is the tail, where it is collected.
/// `output` lists what has been collected, most recent first. At equilibrium
/// a cell holds its solute in the ratio `num : den`, upper to lower.
pub struct Train {
    pub upper: Seq<nat>,
    pub lower: Seq<nat>,
    pub output: Seq<nat>,
    pub num: nat,
    pub den: nat,
}

impl Train {
    /// A train without cells and without output.
    pub open spec fn empty(num: nat, den: nat) -> Train {
        Train { upper: Seq::empty(), lower: Seq::empty(), output: Seq::empty(), num, den }
    }

    /// Both phases have one entry per cell, and the ratio is positive.
    pub open spec fn wf(self) -> bool {
        &&& self.upper.len() == self.lower.len()
        &&& self.num > 0
        &&& self.den > 0
    }

    /// Well formed, and holding no more solute than a `u64` can count.
    pub open spec fn representable(self) -> bool {
        &&& self.wf()
        &&& self.mass() <= u64::MAX
    }

    /// The number of cells.
    pub open spec fn cells(self) -> nat {
        self.upper.len()
    }

    /// The solute in the train, both phases together.
    pub open spec fn mass(self) -> nat {
        total(self.upper) + total(self.lower)
    }

    /// The solute in cell `i`, both phases together.
    pub open spec fn cell_total(self, i: int) -> nat {
        self.upper[i] + self.lower[i]
    }

    /// The train with one more cell at the tail, empty in both phases.
    pub open spec fn grown(self) -> Train {
        Train { upper: self.upper.push(0), lower: self.lower.push(0), ..self }
    }

    /// The train with the upper phase of cell `i` set to `amount`.
    pub open spec fn with_upper(self, i: int, amount: nat) -> Train {
        Train { upper: self.upper.update(i, amount), ..self }
    }

    /// The train with the lower phase of cell `i` set to `amount`.
    pub open spec fn with_lower(self, i: int, amount: nat) -> Train {
        Train { lower: self.lower.update(i, amount), ..self }
    }

    /// Whether the upper phase of cell `i` can be set to `amount`: the cell
    /// must exist, and the mass must stay within what a `u64` can count.
    pub open spec fn seed_upper_outcome(self, i: int, amount: nat) -> Result<(), CPCError> {
        if !(0 <= i < self.cells()) {
            Err(CPCError::NonExistingCell)
        } else if self.mass() - self.upper[i] + amount > u64::MAX {
            Err(CPCError::MassOverflow)
        } else {
            Ok(())
        }
    }

    /// Whether the lower phase of cell `i` can be set to `amount`: the cell
    /// must exist, and the mass must stay within what a `u64` can count.
    pub open spec fn seed_lower_outcome(self, i: int, amount: nat) -> Result<(), CPCError> {
        if !(0 <= i < self.cells()) {
            Err(CPCError::NonExistingCell)
        } else if self.mass() - self.lower[i] + amount > u64::MAX {
            Err(CPCError::MassOverflow)
        } else {
            Ok(())
        }
    }

    /// What the upper phase of cell `i` holds once the cell is at
    /// equilibrium.
    pub open spec fn settled_upper(self, i: int) -> nat {
        upper_share(self.cell_total(i), self.num, self.den)
    }

    /// What the lower phase of cell `i` holds once the cell is at
    /// equilibrium.
    pub open spec fn settled_lower(self, i: int) -> nat {
        lower_share(self.cell_total(i), self.num, self.den)
    }

    /// The train with cell `i` at equilibrium and every other cell as it was.
    pub open spec fn cell_settled(self, i: int) -> Train {
        Train {
            upper: self.upper.update(i, self.settled_upper(i)),
            lower: self.lower.update(i, self.settled_lower(i)),
            ..self
        }
    }

    /// The train with every cell at equilibrium.
    pub open spec fn settled(self) -> Train {
        Train {
            upper: Seq::new(self.upper.len(), |i: int| self.settled_upper(i)),
            lower: Seq::new(self.lower.len(), |i: int| self.settled_lower(i)),
            ..self
        }
    }

    /// The train with cells `0 .. n` settled one after the other, in
    /// ascending order.
    pub open spec fn settled_through(self, n: nat) -> Train
        decreases n,
    {
        if n == 0 {
            self
        } else {
            self.settled_through((n - 1) as nat).cell_settled(n - 1)
        }
    }

    /// The train after the mobile phase has moved on by one cell: the upper
    /// phase of the tail is collected at the front of `output`, every other
    /// upper phase sits one cell nearer the tail, and the front cell has an
    /// empty upper phase. The lower phase stays where it is.
    pub open spec fn shifted(self) -> Train {
        Train {
            upper: seq![0nat] + self.upper.drop_last(),
            output: seq![self.upper.last()] + self.output,
            ..self
        }
    }

    /// The train after one step: shifted, then settled. A train without
    /// cells has no tail to collect and stays as it is.
    pub open spec fn stepped(self) -> Train {
        if self.cells() == 0 {
            self
        } else {
            self.shifted().settled()
        }
    }

    /// Whether `n` steps can be taken: a step needs a cell.
    pub open spec fn run_outcome(self, n: nat) -> Result<(), CPCError> {
        if n > 0 && self.cells() == 0 {
            Err(CPCError::NullColumn)
        } else {
            Ok(())
        }
    }

    /// The train after `n` steps.
    pub open spec fn stepped_n(self, n: nat) -> Train
        decreases n,
    {
        if n == 0 {
            self
        } else {
            self.stepped_n((n - 1) as nat).stepped()
        }
    }
}

/// Settling a cell conserves its solute, leaves every other cell, the output
/// and the ratio alone, and so conserves the mass of the train.
pub proof fn lemma_cell_settled_conserves(t: Train, i: int)
    requires
        t.wf(),
        0 <= i < t.cells(),
    ensures
        t.cell_settled(i).cell_total(i) == t.cell_total(i),
        forall|j: int|
            0 <= j < t.cells() && j != i ==> t.cell_settled(i).upper[j] == t.upper[j]
                && t.cell_settled(i).lower[j] == t.lower[j],
        t.cell_settled(i).mass() == t.mass(),
        t.cell_settled(i).cells() == t.cells(),
        t.cell_settled(i).wf(),
{
    lemma_shares_add_up(t.cell_total(i), t.num, t.den);
    lemma_total_update(t.upper, i, t.settled_upper(i));
    lemma_total_update(t.lower, i, t.settled_lower(i));
}

/// A settled cell is a fixed point: settling it again changes nothing.
pub proof fn lemma_cell_settled_idempotent(t: Train, i: int)
    requires
        t.wf(),
        0 <= i < t.cells(),
    ensures
        t.cell_settled(i).cell_settled(i) == t.cell_settled(i),
{
    lemma_cell_settled_conserves(t, i);
    let once = t.cell_settled(i);
    let twice = once.cell_settled(i);
    assert(twice.upper =~= once.upper);
    assert(twice.lower =~= once.lower);
}

/// A settled cell holds its solute in the ratio `num : den` as closely as
/// whole units allow: the upper phase falls short of its exact share by less
/// than one unit, and by nothing where that share is a whole number.
pub proof fn lemma_cell_settled_ratio(t: Train, i: int)
    requires
        t.wf(),
        0 <= i < t.cells(),
    ensures
        ({
            let s = t.cell_settled(i);
            &&& 0 <= s.lower[i] * t.num - s.upper[i] * t.den < t.num + t.den
            &&& s.lower[i] * t.num - s.upper[i] * t.den == (t.num * t.cell_total(i)) % (t.num
                + t.den)
        }),
{
    lemma_shares_in_ratio(t.cell_total(i), t.num, t.den);
}

/// Cells settle independently of each other: the order in which two cells
/// are settled does not matter.
pub proof fn lemma_cell_settled_commutes(t: Train, i: int, j: int)
    requires
        t.wf(),
        0 <= i < t.cells(),
        0 <= j < t.cells(),
    ensures
        t.cell_settled(i).cell_settled(j) == t.cell_settled(j).cell_settled(i),
{
    let a = t.cell_settled(i).cell_settled(j);
    let b = t.cell_settled(j).cell_settled(i);
    assert(a.upper =~= b.upper);
    assert(a.lower =~= b.lower);
}

/// Settling the cells one after the other, in ascending order, leaves the
/// first `n` cells at equilibrium and the rest untouched.
pub proof fn lemma_settled_through(t: Train, n: nat)
    requires
        t.wf(),
        n <= t.cells(),
    ensures
        t.settled_through(n).wf(),
        t.settled_through(n).cells() == t.cells(),
        t.settled_through(n).output == t.output,
        t.settled_through(n).num == t.num,
        t.settled_through(n).den == t.den,
        forall|j: int|
            0 <= j < n ==> t.settled_through(n).upper[j] == t.settled_upper(j)
                && t.settled_through(n).lower[j] == t.settled_lower(j),
        forall|j: int|
            n <= j < t.cells() ==> t.settled_through(n).upper[j] == t.upper[j]
                && t.settled_through(n).lower[j] == t.lower[j],
    decreases n,
{
    if n > 0 {
        lemma_settled_through(t, (n - 1) as nat);
    }
}

/// Settling every cell in ascending order settles the train.
pub proof fn lemma_settled_cell_by_cell(t: Train)
    requires
        t.wf(),
    ensures
        t.settled_through(t.cells()) == t.settled(),
{
    lemma_settled_through(t, t.cells());
    let a = t.settled_through(t.cells());
    assert(a.upper =~= t.settled().upper);
    assert(a.lower =~= t.settled().lower);
}

/// Settling a train conserves the solute of every cell, and so its mass; it
/// leaves the number of cells, the output and the ratio alone.
pub proof fn lemma_settled_conserves(t: Train)
    requires
        t.wf(),
    ensures
        forall|i: int| 0 <= i < t.cells() ==> t.settled().cell_total(i) == t.cell_total(i),
        t.settled().mass() == t.mass(),
        t.settled().cells() == t.cells(),
        t.settled().output == t.output,
        t.settled().wf(),
{
    let s = t.settled();
    assert forall|i: int| 0 <= i < t.cells() implies s.upper[i] + s.lower[i] == t.upper[i]
        + t.lower[i] by {
        lemma_shares_add_up(t.cell_total(i), t.num, t.den);
    }
    lemma_total_cellwise(s.upper, s.lower, t.upper, t.lower);
}

/// A settled train is a fixed point: settling it again changes nothing.
pub proof fn lemma_settled_idempotent(t: Train)
    requires
        t.wf(),
    ensures
        t.settled().settled() == t.settled(),
{
    lemma_settled_conserves(t);
    let once = t.settled();
    let twice = once.settled();
    assert(twice.upper =~= once.upper);
    assert(twice.lower =~= once.lower);
}

/// Shifting collects exactly the upper phase of the tail: the output grows
/// by that one entry at its front, the lower phase stays in place, and what
/// was collected is the mass that left the train.
pub proof fn lemma_shifted_collects(t: Train)
    requires
        t.wf(),
        t.cells() > 0,
    ensures
        t.shifted().output == seq![t.upper.last()] + t.output,
        t.shifted().output.len() == t.output.len() + 1,
        t.shifted().output[0] == t.upper[t.cells() - 1],
        t.shifted().lower == t.lower,
        t.shifted().upper[0] == 0,
        forall|i: int| 1 <= i < t.cells() ==> t.shifted().upper[i] == t.upper[i - 1],
        t.shifted().mass() + t.upper.last() == t.mass(),
        t.shifted().cells() == t.cells(),
        t.shifted().wf(),
{
    lemma_total_push_front(t.upper.drop_last(), 0);
    assert(t.upper.drop_last().push(t.upper.last()) =~= t.upper);
    lemma_total_push(t.upper.drop_last(), t.upper.last());
}

/// One step on a train with cells adds exactly one entry to the output, the
/// upper phase that the tail held before the step, and takes exactly that
/// much mass out of the train.
pub proof fn lemma_stepped_collects(t: Train)
    requires
        t.wf(),
        t.cells() > 0,
    ensures
        t.stepped().output == seq![t.upper.last()] + t.output,
        t.stepped().output.len() == t.output.len() + 1,
        t.stepped().output[0] == t.upper[t.cells() - 1],
        t.stepped().mass() + t.upper.last() == t.mass(),
        t.stepped().cells() == t.cells(),
        t.stepped().wf(),
{
    lemma_shifted_collects(t);
    lemma_settled_conserves(t.shifted());
}

/// Setting the amount of one phase of a cell changes the mass by the
/// difference and nothing else about the shape of the train.
pub proof fn lemma_seeded(t: Train, i: int, amount: nat)
    requires
        t.wf(),
        0 <= i < t.cells(),
    ensures
        t.with_upper(i, amount).wf(),
        t.with_upper(i, amount).cells() == t.cells(),
        t.with_upper(i, amount).mass() + t.upper[i] == t.mass() + amount,
        t.with_lower(i, amount).wf(),
        t.with_lower(i, amount).cells() == t.cells(),
        t.with_lower(i, amount).mass() + t.lower[i] == t.mass() + amount,
{
    lemma_total_update(t.upper, i, amount);
    lemma_total_update(t.lower, i, amount);
}

/// A new cell is empty: growing adds one cell and no mass.
pub proof fn lemma_grown(t: Train)
    requires
        t.wf(),
    ensures
        t.grown().wf(),
        t.grown().cells() == t.cells() + 1,
        t.grown().mass() == t.mass(),
{
    lemma_total_push(t.upper, 0);
    lemma_total_push(t.lower, 0);
}

/// However a train is grown, settled and stepped, its two phases keep one
/// entry per cell each, and only growing changes the number of cells.
pub proof fn lemma_wf_preserved(t: Train, n: nat)
    requires
        t.wf(),
    ensures
        t.grown().wf(),
        t.settled().wf(),
        t.settled().cells() == t.cells(),
        t.stepped().wf(),
        t.stepped().cells() == t.cells(),
        t.stepped_n(n).wf(),
        t.stepped_n(n).cells() == t.cells(),
    decreases n,
{
    if t.cells() > 0 {
        lemma_stepped_collects(t);
    }
    if n > 0 {
        let before = t.stepped_n((n - 1) as nat);
        lemma_wf_preserved(t, (n - 1) as nat);
        if before.cells() > 0 {
            lemma_stepped_collects(before);
        }
    }
}

/// Running `n` steps on a train with cells adds exactly `n` entries to the
/// output and never adds mass; a train without cells stays as it is.
pub proof fn lemma_stepped_n_collects(t: Train, n: nat)
    requires
        t.wf(),
    ensures
        t.cells() > 0 ==> t.stepped_n(n).output.len() == t.output.len() + n,
        t.cells() == 0 ==> t.stepped_n(n) == t,
        t.stepped_n(n).mass() <= t.mass(),
    decreases n,
{
    if n > 0 {
        let before = t.stepped_n((n - 1) as nat);
        lemma_stepped_n_collects(t, (n - 1) as nat);
        lemma_wf_preserved(t, (n - 1) as nat);
        if before.cells() > 0 {
            lemma_stepped_collects(before);
        }
    }
}

} // verus!
