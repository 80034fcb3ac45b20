//! One train of cells with its output and its partition coefficient.
use vstd::prelude::*;
use std::collections::VecDeque;
use crate::error::CPCError;
use crate::mass::{amounts, lemma_total_bounds_cell, lemma_total_take, total};
use crate::partition::PartitionCoefficient;
use crate::train::{
    lemma_cell_settled_conserves, lemma_grown, lemma_seeded, lemma_settled_cell_by_cell,
    lemma_settled_conserves, lemma_settled_through, lemma_shifted_collects,
    lemma_stepped_collects, lemma_stepped_n_collects, Train,
};

verus! {

/// A train of cells that evolves on its own: the two phases, cell by cell,
/// what has been collected at the tail so far, and the partition coefficient
/// that governs every cell.
#[derive(Debug)]
pub struct SubColumn {
    upper: Vec<u64>,
    lower: Vec<u64>,
    output: VecDeque<u64>,
    kval: PartitionCoefficient,
}

impl View for SubColumn {
    type V = Train;

    closed spec fn view(&self) -> Train {
        Train {
            upper: amounts(self.upper@),
            lower: amounts(self.lower@),
            output: amounts(self.output@),
            num: self.kval.num(),
            den: self.kval.den(),
        }
    }
}

impl Clone for SubColumn {
    /// A subcolumn of its own with the same cells, output and coefficient.
    fn clone(&self) -> (r: SubColumn)
        ensures
            r@ == self@,
    {
        let r = SubColumn {
            upper: self.upper.clone(),
            lower: self.lower.clone(),
            output: self.output.clone(),
            kval: self.kval,
        };
        proof {
            assert(r.upper@ =~= self.upper@);
            assert(r.lower@ =~= self.lower@);
            assert(r.output@ =~= self.output@);
        }
        r
    }
}

impl SubColumn {
    /// The phases have one entry per cell each, the partition coefficient is
    /// positive, and the mass can be counted in a `u64`.
    pub open spec fn wf(&self) -> bool {
        self@.representable()
    }

    /// A subcolumn without cells and without output.
    pub fn new(kval: PartitionCoefficient) -> (r: SubColumn)
        ensures
            r.wf(),
            r@ == Train::empty(kval.num(), kval.den()),
    {
        let r = SubColumn { upper: Vec::new(), lower: Vec::new(), output: VecDeque::new(), kval };
        proof {
            use_type_invariant(&kval);
            assert(r@.upper =~= Seq::<nat>::empty());
            assert(r@.lower =~= Seq::<nat>::empty());
            assert(r@.output =~= Seq::<nat>::empty());
        }
        r
    }

    /// The number of cells.
    pub fn cells(&self) -> (r: usize)
        ensures
            r == self@.cells(),
    {
        self.upper.len()
    }

    /// The partition coefficient.
    pub fn kval(&self) -> (r: PartitionCoefficient)
        ensures
            r.num() == self@.num,
            r.den() == self@.den,
    {
        self.kval
    }

    /// The upper phase, front cell first.
    pub fn upper(&self) -> (r: &Vec<u64>)
        ensures
            amounts(r@) == self@.upper,
    {
        &self.upper
    }

    /// The lower phase, front cell first.
    pub fn lower(&self) -> (r: &Vec<u64>)
        ensures
            amounts(r@) == self@.lower,
    {
        &self.lower
    }

    /// What has been collected at the tail, most recent first.
    pub fn output(&self) -> (r: &VecDeque<u64>)
        ensures
            amounts(r@) == self@.output,
    {
        &self.output
    }

    /// The solute in the subcolumn, both phases together.
    pub fn mass(&self) -> (r: u64)
        requires
            self.wf(),
        ensures
            r == self@.mass(),
    {
        let n = self.upper.len();
        let ghost upper = amounts(self.upper@);
        let ghost lower = amounts(self.lower@);
        let mut sum: u64 = 0;
        let mut i: usize = 0;
        assert(upper.take(0) =~= Seq::<nat>::empty());
        assert(lower.take(0) =~= Seq::<nat>::empty());
        while i < n
            invariant
                i <= n,
                n == self.upper@.len(),
                n == self.lower@.len(),
                upper == amounts(self.upper@),
                lower == amounts(self.lower@),
                total(upper) + total(lower) <= u64::MAX,
                sum == total(upper.take(i as int)) + total(lower.take(i as int)),
            decreases n - i,
        {
            proof {
                lemma_total_take(upper, i as int);
                lemma_total_take(lower, i as int);
            }
            sum = sum + self.upper[i] + self.lower[i];
            i = i + 1;
        }
        assert(upper.take(n as int) =~= upper);
        assert(lower.take(n as int) =~= lower);
        sum
    }

    /// Appends one cell, empty in both phases, at the tail.
    pub fn grow(&mut self)
        requires
            old(self).wf(),
        ensures
            final(self).wf(),
            final(self)@ == old(self)@.grown(),
    {
        self.upper.push(0);
        self.lower.push(0);
        proof {
            assert(self@.upper =~= old(self)@.upper.push(0));
            assert(self@.lower =~= old(self)@.lower.push(0));
            lemma_grown(old(self)@);
        }
    }

    /// Sets the upper phase of cell `index` to `amount`.
    ///
    /// Fails with `NonExistingCell` when the subcolumn has no such cell, and
    /// with `MassOverflow` when the subcolumn would then hold more than
    /// `u64::MAX` units; a call that fails changes nothing.
    pub fn seed_upper(&mut self, index: usize, amount: u64) -> (r: Result<(), CPCError>)
        requires
            old(self).wf(),
        ensures
            final(self).wf(),
            r == old(self)@.seed_upper_outcome(index as int, amount as nat),
            r is Ok ==> final(self)@ == old(self)@.with_upper(index as int, amount as nat),
            r is Err ==> *final(self) == *old(self),
    {
        if index >= self.upper.len() {
            return Err(CPCError::NonExistingCell);
        }
        proof {
            lemma_total_bounds_cell(self@.upper, index as int);
            lemma_seeded(self@, index as int, amount as nat);
        }
        let rest = self.mass() - self.upper[index];
        if amount > u64::MAX - rest {
            return Err(CPCError::MassOverflow);
        }
        self.upper[index] = amount;
        proof {
            assert(self@.upper =~= old(self)@.upper.update(index as int, amount as nat));
        }
        Ok(())
    }

    /// Sets the lower phase of cell `index` to `amount`.
    ///
    /// Fails with `NonExistingCell` when the subcolumn has no such cell, and
    /// with `MassOverflow` when the subcolumn would then hold more than
    /// `u64::MAX` units; a call that fails changes nothing.
    pub fn seed_lower(&mut self, index: usize, amount: u64) -> (r: Result<(), CPCError>)
        requires
            old(self).wf(),
        ensures
            final(self).wf(),
            r == old(self)@.seed_lower_outcome(index as int, amount as nat),
            r is Ok ==> final(self)@ == old(self)@.with_lower(index as int, amount as nat),
            r is Err ==> *final(self) == *old(self),
    {
        if index >= self.lower.len() {
            return Err(CPCError::NonExistingCell);
        }
        proof {
            lemma_total_bounds_cell(self@.lower, index as int);
            lemma_seeded(self@, index as int, amount as nat);
        }
        let rest = self.mass() - self.lower[index];
        if amount > u64::MAX - rest {
            return Err(CPCError::MassOverflow);
        }
        self.lower[index] = amount;
        proof {
            assert(self@.lower =~= old(self)@.lower.update(index as int, amount as nat));
        }
        Ok(())
    }

    /// Settles cell `index`, which the subcolumn has.
    fn settle(&mut self, index: usize)
        requires
            old(self).wf(),
            index < old(self)@.cells(),
        ensures
            final(self).wf(),
            final(self)@ == old(self)@.cell_settled(index as int),
    {
        proof {
            lemma_total_bounds_cell(self@.upper, index as int);
            lemma_total_bounds_cell(self@.lower, index as int);
            lemma_cell_settled_conserves(self@, index as int);
        }
        let (upper, lower) = self.kval.split(self.upper[index] + self.lower[index]);
        self.upper[index] = upper;
        self.lower[index] = lower;
        proof {
            let settled = old(self)@.cell_settled(index as int);
            assert(self@.upper =~= settled.upper);
            assert(self@.lower =~= settled.lower);
        }
    }

    /// Brings cell `index` to its partition equilibrium: of the solute in
    /// the cell, the upper phase takes its share, rounded down to a whole
    /// unit, and the lower phase keeps the rest.
    ///
    /// The solute in the cell is conserved. Fails with `NonExistingCell`,
    /// and changes nothing, when the subcolumn has no such cell.
    pub fn equilibrate_cell(&mut self, index: usize) -> (r: Result<(), CPCError>)
        requires
            old(self).wf(),
        ensures
            final(self).wf(),
            r is Ok <==> index < old(self)@.cells(),
            r is Ok ==> final(self)@ == old(self)@.cell_settled(index as int),
            r is Ok ==> final(self)@.cell_total(index as int) == old(self)@.cell_total(
                index as int,
            ),
            r is Ok ==> final(self)@.mass() == old(self)@.mass(),
            r is Err ==> r == Err::<(), CPCError>(CPCError::NonExistingCell),
            r is Err ==> *final(self) == *old(self),
    {
        if index >= self.upper.len() {
            return Err(CPCError::NonExistingCell);
        }
        proof {
            lemma_cell_settled_conserves(self@, index as int);
        }
        self.settle(index);
        Ok(())
    }

    /// Brings every cell to its partition equilibrium, front to tail. The
    /// solute in each cell, and so the mass of the subcolumn, is conserved.
    pub fn equilibrate(&mut self)
        requires
            old(self).wf(),
        ensures
            final(self).wf(),
            final(self)@ == old(self)@.settled(),
            final(self)@.cells() == old(self)@.cells(),
            forall|i: int|
                0 <= i < old(self)@.cells() ==> final(self)@.cell_total(i) == old(self)@.cell_total(i),
            final(self)@.mass() == old(self)@.mass(),
    {
        let n = self.upper.len();
        let mut index: usize = 0;
        while index < n
            invariant
                index <= n,
                n == old(self)@.cells(),
                old(self)@.wf(),
                self.wf(),
                self@ == old(self)@.settled_through(index as nat),
            decreases n - index,
        {
            proof {
                lemma_settled_through(old(self)@, index as nat);
            }
            self.settle(index);
            index = index + 1;
        }
        proof {
            lemma_settled_cell_by_cell(old(self)@);
            lemma_settled_conserves(old(self)@);
        }
    }

    /// Advances the mobile phase by one cell and settles the subcolumn.
    ///
    /// The upper phase of the tail cell is collected: it is recorded at the
    /// front of the output and leaves the train. Every other upper phase
    /// moves one cell towards the tail, an empty upper phase enters at the
    /// front, the lower phase stays in place, and then every cell is brought
    /// to equilibrium. Fails with `NullColumn`, and changes nothing, when the
    /// subcolumn has no cells.
    pub fn push_equilibrate_upper(&mut self) -> (r: Result<(), CPCError>)
        requires
            old(self).wf(),
        ensures
            final(self).wf(),
            r is Ok <==> old(self)@.cells() > 0,
            final(self)@ == old(self)@.stepped(),
            final(self)@.cells() == old(self)@.cells(),
            r is Ok ==> final(self)@.output == seq![old(self)@.upper.last()] + old(self)@.output,
            r is Ok ==> final(self)@.output.len() == old(self)@.output.len() + 1,
            r is Ok ==> final(self)@.mass() + old(self)@.upper.last() == old(self)@.mass(),
            r is Err ==> r == Err::<(), CPCError>(CPCError::NullColumn),
            r is Err ==> *final(self) == *old(self),
    {
        let n = self.upper.len();
        if n == 0 {
            return Err(CPCError::NullColumn);
        }
        let back = self.upper[n - 1];
        self.output.push_front(back);
        self.upper[n - 1] = 0;
        self.upper.insert(0, 0);
        self.upper.pop();
        proof {
            let shifted = old(self)@.shifted();
            lemma_shifted_collects(old(self)@);
            lemma_stepped_collects(old(self)@);
            assert(self@.upper =~= shifted.upper);
            assert(self@.output =~= shifted.output);
            assert(self@ == shifted);
        }
        self.equilibrate();
        Ok(())
    }

    /// Takes `loops` steps, one after the other.
    ///
    /// Fails with `NullColumn`, and changes nothing, when a step is asked of
    /// a subcolumn without cells.
    pub fn run(&mut self, loops: u32) -> (r: Result<(), CPCError>)
        requires
            old(self).wf(),
        ensures
            final(self).wf(),
            final(self)@ == old(self)@.stepped_n(loops as nat),
            r == old(self)@.run_outcome(loops as nat),
            r is Err ==> *final(self) == *old(self),
    {
        if loops > 0 && self.upper.len() == 0 {
            proof {
                lemma_stepped_n_collects(self@, loops as nat);
            }
            return Err(CPCError::NullColumn);
        }
        let mut done: u32 = 0;
        while done < loops
            invariant
                done <= loops,
                self.wf(),
                self@.cells() == old(self)@.cells(),
                loops > 0 ==> old(self)@.cells() > 0,
                self@ == old(self)@.stepped_n(done as nat),
            decreases loops - done,
        {
            let _ = self.push_equilibrate_upper();
            done = done + 1;
        }
        Ok(())
    }
}

} // verus!