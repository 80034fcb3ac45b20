//! A collection of subcolumns that are grown, settled and advanced together.
use vstd::prelude::*;
use scoped_threadpool::Pool;
use crate::error::CPCError;
use crate::partition::PartitionCoefficient;
use crate::pool::run_scoped;
use crate::subcolumn::SubColumn;
use crate::train::Train;

verus! {

/// Every train with one more cell.
pub open spec fn all_grown(trains: Seq<Train>) -> Seq<Train> {
    Seq::new(trains.len(), |i: int| trains[i].grown())
}

/// Every train settled.
pub open spec fn all_settled(trains: Seq<Train>) -> Seq<Train> {
    Seq::new(trains.len(), |i: int| trains[i].settled())
}

/// Every train after `n` steps of its own.
pub open spec fn all_stepped_n(trains: Seq<Train>, n: nat) -> Seq<Train> {
    Seq::new(trains.len(), |i: int| trains[i].stepped_n(n))
}

/// Whether one of the trains has no cells.
pub open spec fn some_empty(trains: Seq<Train>) -> bool {
    exists|i: int| 0 <= i < trains.len() && (#[trigger] trains[i]).cells() == 0
}

/// Whether `n` steps can be taken by every train: a step needs a cell.
pub open spec fn run_outcome(trains: Seq<Train>, n: nat) -> Result<(), CPCError> {
    if n > 0 && some_empty(trains) {
        Err(CPCError::NullColumn)
    } else {
        Ok(())
    }
}

/// Whether one phase of cell `cell` of train `train` can be set to `amount`:
/// the train and the cell must exist, and the mass of the train must stay
/// within what a `u64` can count.
pub open spec fn seed_upper_outcome(trains: Seq<Train>, train: int, cell: int, amount: nat)
    -> Result<(), CPCError> {
    if 0 <= train < trains.len() {
        trains[train].seed_upper_outcome(cell, amount)
    } else {
        Err(CPCError::NonExistingCell)
    }
}

/// As `seed_upper_outcome`, for the lower phase.
pub open spec fn seed_lower_outcome(trains: Seq<Train>, train: int, cell: int, amount: nat)
    -> Result<(), CPCError> {
    if 0 <= train < trains.len() {
        trains[train].seed_lower_outcome(cell, amount)
    } else {
        Err(CPCError::NonExistingCell)
    }
}

/// Every train is well formed and within the mass that a `u64` can count.
pub open spec fn all_representable(trains: Seq<Train>) -> bool {
    forall|i: int| 0 <= i < trains.len() ==> (#[trigger] trains[i]).representable()
}

/// Trains evolve independently of each other: what a train holds after a run
/// depends on what it held before and on the number of steps, and on nothing
/// else in the column. This is why a run may be spread over any number of
/// workers without a change in what it leaves.
pub proof fn lemma_trains_independent(a: Seq<Train>, b: Seq<Train>, i: int, n: nat)
    requires
        0 <= i < a.len(),
        0 <= i < b.len(),
        a[i] == b[i],
    ensures
        all_stepped_n(a, n)[i] == all_stepped_n(b, n)[i],
{
}

/// Where all trains but one stay as they are and that one stays
/// representable, all of them stay representable.
proof fn lemma_one_changed(before: Seq<Train>, after: Seq<Train>, i: int)
    requires
        all_representable(before),
        0 <= i < before.len(),
        after.len() == before.len(),
        after[i].representable(),
        forall|j: int| 0 <= j < before.len() && j != i ==> #[trigger] after[j] == before[j],
    ensures
        all_representable(after),
{
    assert forall|j: int| 0 <= j < after.len() implies (#[trigger] after[j]).representable() by {
        assert(j != i ==> before[j].representable());
    }
}

/// An ordered collection of subcolumns that share no state.
#[derive(Debug)]
pub struct Column {
    subcolumns: Vec<SubColumn>,
}

impl View for Column {
    type V = Seq<Train>;

    closed spec fn view(&self) -> Seq<Train> {
        Seq::new(self.subcolumns@.len(), |i: int| self.subcolumns@[i]@)
    }
}

impl Clone for Column {
    /// A column of its own with the same subcolumns.
    fn clone(&self) -> (r: Column)
        ensures
            r@ == self@,
    {
        let n = self.subcolumns.len();
        let mut subcolumns: Vec<SubColumn> = Vec::new();
        let mut i: usize = 0;
        while i < n
            invariant
                i <= n,
                n == self.subcolumns@.len(),
                subcolumns@.len() == i,
                forall|j: int| 0 <= j < i ==> (#[trigger] subcolumns@[j])@ == self.subcolumns@[j]@,
            decreases n - i,
        {
            subcolumns.push(self.subcolumns[i].clone());
            i = i + 1;
        }
        let r = Column { subcolumns };
        assert(r@ =~= self@);
        r
    }
}

impl Column {
    /// Every subcolumn is well formed.
    pub open spec fn wf(&self) -> bool {
        all_representable(self@)
    }

    /// The column is well formed exactly if each of its subcolumns is.
    proof fn lemma_subcolumns_wf(&self)
        ensures
            self.wf() <==> forall|i: int|
                0 <= i < self.subcolumns@.len() ==> (#[trigger] self.subcolumns@[i]).wf(),
    {
        if self.wf() {
            assert forall|i: int| 0 <= i < self.subcolumns@.len() implies (
            #[trigger] self.subcolumns@[i]).wf() by {
                assert(self@[i].representable());
            }
        } else {
            let i = choose|i: int| 0 <= i < self@.len() && !(#[trigger] self@[i]).representable();
            assert(!self.subcolumns@[i].wf());
        }
    }

    /// A column without subcolumns.
    pub fn new() -> (r: Column)
        ensures
            r.wf(),
            r@ == Seq::<Train>::empty(),
    {
        let r = Column { subcolumns: Vec::new() };
        assert(r@ =~= Seq::<Train>::empty());
        r
    }

    /// The number of subcolumns.
    pub fn len(&self) -> (r: usize)
        ensures
            r == self@.len(),
    {
        self.subcolumns.len()
    }

    /// The subcolumn at `index`, if the column has one there.
    pub fn subcolumn(&self, index: usize) -> (r: Option<&SubColumn>)
        ensures
            r is Some <==> index < self@.len(),
            r matches Some(subcolumn) ==> subcolumn@ == self@[index as int],
    {
        if index < self.subcolumns.len() {
            Some(&self.subcolumns[index])
        } else {
            None
        }
    }

    /// Appends an empty subcolumn with the partition coefficient `1 : 1`.
    pub fn add_subcolumn(&mut self)
        requires
            old(self).wf(),
        ensures
            final(self).wf(),
            final(self)@ == old(self)@.push(Train::empty(1, 1)),
    {
        self.add_subcolumn_with(PartitionCoefficient::default());
    }

    /// Appends an empty subcolumn with the partition coefficient `kval`.
    pub fn add_subcolumn_with(&mut self, kval: PartitionCoefficient)
        requires
            old(self).wf(),
        ensures
            final(self).wf(),
            final(self)@ == old(self)@.push(Train::empty(kval.num(), kval.den())),
    {
        self.subcolumns.push(SubColumn::new(kval));
        assert(self@ =~= old(self)@.push(Train::empty(kval.num(), kval.den())));
    }

    /// Sets the upper phase of cell `cell` of subcolumn `subcolumn` to
    /// `amount`.
    ///
    /// Fails with `NonExistingCell` when the column has no such subcolumn or
    /// the subcolumn no such cell, and with `MassOverflow` when the subcolumn
    /// would then hold more than `u64::MAX` units; a call that fails changes
    /// nothing.
    pub fn seed_upper(&mut self, subcolumn: usize, cell: usize, amount: u64)
        -> (r: Result<(), CPCError>)
        requires
            old(self).wf(),
        ensures
            final(self).wf(),
            r == seed_upper_outcome(old(self)@, subcolumn as int, cell as int, amount as nat),
            r is Ok ==> final(self)@ == old(self)@.update(
                subcolumn as int,
                old(self)@[subcolumn as int].with_upper(cell as int, amount as nat),
            ),
            r is Err ==> final(self)@ == old(self)@,
    {
        if subcolumn >= self.subcolumns.len() {
            return Err(CPCError::NonExistingCell);
        }
        assert(self@[subcolumn as int].representable());
        let r = self.subcolumns[subcolumn].seed_upper(cell, amount);
        proof {
            let changed = old(self)@[subcolumn as int].with_upper(cell as int, amount as nat);
            lemma_one_changed(old(self)@, self@, subcolumn as int);
            if r is Ok {
                assert(self@ =~= old(self)@.update(subcolumn as int, changed));
            } else {
                assert(self@ =~= old(self)@);
            }
        }
        r
    }

    /// Sets the lower phase of cell `cell` of subcolumn `subcolumn` to
    /// `amount`.
    ///
    /// Fails with `NonExistingCell` when the column has no such subcolumn or
    /// the subcolumn no such cell, and with `MassOverflow` when the subcolumn
    /// would then hold more than `u64::MAX` units; a call that fails changes
    /// nothing.
    pub fn seed_lower(&mut self, subcolumn: usize, cell: usize, amount: u64)
        -> (r: Result<(), CPCError>)
        requires
            old(self).wf(),
        ensures
            final(self).wf(),
            r == seed_lower_outcome(old(self)@, subcolumn as int, cell as int, amount as nat),
            r is Ok ==> final(self)@ == old(self)@.update(
                subcolumn as int,
                old(self)@[subcolumn as int].with_lower(cell as int, amount as nat),
            ),
            r is Err ==> final(self)@ == old(self)@,
    {
        if subcolumn >= self.subcolumns.len() {
            return Err(CPCError::NonExistingCell);
        }
        assert(self@[subcolumn as int].representable());
        let r = self.subcolumns[subcolumn].seed_lower(cell, amount);
        proof {
            let changed = old(self)@[subcolumn as int].with_lower(cell as int, amount as nat);
            lemma_one_changed(old(self)@, self@, subcolumn as int);
            if r is Ok {
                assert(self@ =~= old(self)@.update(subcolumn as int, changed));
            } else {
                assert(self@ =~= old(self)@);
            }
        }
        r
    }

    /// Appends one empty cell to every subcolumn.
    pub fn grow(&mut self)
        requires
            old(self).wf(),
        ensures
            final(self).wf(),
            final(self)@ == all_grown(old(self)@),
    {
        let n = self.subcolumns.len();
        let mut i: usize = 0;
        while i < n
            invariant
                i <= n,
                n == old(self)@.len(),
                self@.len() == n,
                self.wf(),
                forall|j: int| 0 <= j < i ==> #[trigger] self@[j] == old(self)@[j].grown(),
                forall|j: int| i <= j < n ==> #[trigger] self@[j] == old(self)@[j],
            decreases n - i,
        {
            let ghost before = self@;
            assert(before[i as int].representable());
            self.subcolumns[i].grow();
            proof {
                assert forall|j: int| 0 <= j < n && j != i implies #[trigger] self@[j]
                    == before[j] by {}
                lemma_one_changed(before, self@, i as int);
            }
            i = i + 1;
        }
        assert(self@ =~= all_grown(old(self)@));
    }

    /// Brings every cell of every subcolumn to its partition equilibrium,
    /// one subcolumn after the other.
    pub fn equilibrate(&mut self)
        requires
            old(self).wf(),
        ensures
            final(self).wf(),
            final(self)@ == all_settled(old(self)@),
    {
        let n = self.subcolumns.len();
        let mut i: usize = 0;
        while i < n
            invariant
                i <= n,
                n == old(self)@.len(),
                self@.len() == n,
                self.wf(),
                forall|j: int| 0 <= j < i ==> #[trigger] self@[j] == old(self)@[j].settled(),
                forall|j: int| i <= j < n ==> #[trigger] self@[j] == old(self)@[j],
            decreases n - i,
        {
            let ghost before = self@;
            assert(before[i as int].representable());
            self.subcolumns[i].equilibrate();
            proof {
                assert forall|j: int| 0 <= j < n && j != i implies #[trigger] self@[j]
                    == before[j] by {}
                lemma_one_changed(before, self@, i as int);
            }
            i = i + 1;
        }
        assert(self@ =~= all_settled(old(self)@));
    }

    /// Whether one of the subcolumns has no cells.
    pub fn has_empty_subcolumn(&self) -> (r: bool)
        ensures
            r == some_empty(self@),
    {
        let n = self.subcolumns.len();
        let mut i: usize = 0;
        while i < n
            invariant
                i <= n,
                n == self@.len(),
                n == self.subcolumns@.len(),
                forall|j: int| 0 <= j < i ==> (#[trigger] self@[j]).cells() != 0,
            decreases n - i,
        {
            if self.subcolumns[i].cells() == 0 {
                assert(self@[i as int].cells() == 0);
                return true;
            }
            i = i + 1;
        }
        false
    }

    /// Takes `loops` steps with every subcolumn, one subcolumn after the
    /// other, on the calling thread.
    ///
    /// A subcolumn without cells cannot take a step: it stays as it is, the
    /// others take their steps all the same, and the call fails with
    /// `NullColumn`.
    pub fn push_equilibrate_upper_sequential(&mut self, loops: u32) -> (r: Result<(), CPCError>)
        requires
            old(self).wf(),
        ensures
            final(self).wf(),
            final(self)@ == all_stepped_n(old(self)@, loops as nat),
            r == run_outcome(old(self)@, loops as nat),
    {
        let starved = loops > 0 && self.has_empty_subcolumn();
        let n = self.subcolumns.len();
        let mut i: usize = 0;
        while i < n
            invariant
                i <= n,
                n == old(self)@.len(),
                self@.len() == n,
                self.wf(),
                forall|j: int|
                    0 <= j < i ==> #[trigger] self@[j] == old(self)@[j].stepped_n(loops as nat),
                forall|j: int| i <= j < n ==> #[trigger] self@[j] == old(self)@[j],
            decreases n - i,
        {
            let ghost before = self@;
            assert(before[i as int].representable());
            let _ = self.subcolumns[i].run(loops);
            proof {
                assert forall|j: int| 0 <= j < n && j != i implies #[trigger] self@[j]
                    == before[j] by {}
                lemma_one_changed(before, self@, i as int);
            }
            i = i + 1;
        }
        assert(self@ =~= all_stepped_n(old(self)@, loops as nat));
        if starved {
            Err(CPCError::NullColumn)
        } else {
            Ok(())
        }
    }

    /// Takes `loops` steps with every subcolumn, on a pool of `threads`
    /// worker threads.
    ///
    /// Each subcolumn is one job: its steps are taken one after the other by
    /// one worker, and the call returns when every job is done. Subcolumns
    /// share no state, so what the column holds afterwards depends on
    /// `loops` alone and not on `threads`: it is what
    /// `push_equilibrate_upper_sequential` leaves.
    ///
    /// A subcolumn without cells cannot take a step: it stays as it is, the
    /// others take their steps all the same, and the call fails with
    /// `NullColumn`.
    pub fn push_equilibrate_upper(&mut self, loops: u32, threads: u32)
        -> (r: Result<(), CPCError>)
        requires
            old(self).wf(),
            threads >= 1,
        ensures
            final(self).wf(),
            final(self)@ == all_stepped_n(old(self)@, loops as nat),
            r == run_outcome(old(self)@, loops as nat),
    {
        let starved = loops > 0 && self.has_empty_subcolumn();
        let mut pool = Pool::new(threads);
        proof {
            self.lemma_subcolumns_wf();
        }
        run_scoped(&mut pool, &mut self.subcolumns, loops);
        proof {
            self.lemma_subcolumns_wf();
            assert(self@ =~= all_stepped_n(old(self)@, loops as nat));
        }
        if starved {
            Err(CPCError::NullColumn)
        } else {
            Ok(())
        }
    }
}

} // verus!