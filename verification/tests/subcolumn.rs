use countercurrent::{CPCError, PartitionCoefficient, SubColumn};

/// One unit of concentration, in units of solute.
const ONE: u64 = 1 << 20;

fn concentration(amount: u64) -> f64 {
    amount as f64 / ONE as f64
}

fn train(kval: PartitionCoefficient, cells: usize) -> SubColumn {
    let mut sub = SubColumn::new(kval);
    for _ in 0..cells {
        sub.grow();
    }
    sub
}

fn seeded(num: u64, den: u64, upper: &[u64], lower: &[u64]) -> SubColumn {
    let mut sub = train(PartitionCoefficient::new(num, den).unwrap(), upper.len());
    for (i, amount) in upper.iter().enumerate() {
        sub.seed_upper(i, *amount).unwrap();
    }
    for (i, amount) in lower.iter().enumerate() {
        sub.seed_lower(i, *amount).unwrap();
    }
    sub
}

fn output_of(sub: &SubColumn) -> Vec<u64> {
    sub.output().iter().copied().collect()
}

#[test]
fn new_subcolumn_is_empty() {
    let sub = SubColumn::new(PartitionCoefficient::default());
    assert_eq!(sub.cells(), 0);
    assert!(sub.upper().is_empty());
    assert!(sub.lower().is_empty());
    assert!(sub.output().is_empty());
    assert_eq!(sub.mass(), 0);
    assert_eq!(sub.kval().numerator(), 1);
    assert_eq!(sub.kval().denominator(), 1);
}

#[test]
fn grow_appends_an_empty_cell() {
    let mut sub = seeded(1, 1, &[7, 3], &[2, 5]);
    sub.grow();
    assert_eq!(sub.cells(), 3);
    assert_eq!(sub.upper(), &vec![7, 3, 0]);
    assert_eq!(sub.lower(), &vec![2, 5, 0]);
    assert_eq!(sub.mass(), 17);
    assert!(sub.output().is_empty());
}

#[test]
fn equilibrate_cell_splits_evenly_at_one_to_one() {
    let mut sub = seeded(1, 1, &[10, 4], &[0, 4]);
    assert_eq!(sub.equilibrate_cell(0), Ok(()));
    assert_eq!(sub.upper(), &vec![5, 4]);
    assert_eq!(sub.lower(), &vec![5, 4]);
}

#[test]
fn equilibrate_cell_rounds_the_upper_share_down() {
    // 2 : 1 of 10 units is 6.66.. : 3.33.., so 6 go up and 4 stay down.
    let mut sub = seeded(2, 1, &[10], &[0]);
    assert_eq!(sub.equilibrate_cell(0), Ok(()));
    assert_eq!(sub.upper(), &vec![6]);
    assert_eq!(sub.lower(), &vec![4]);

    // 1 : 3 of 7 units is 1.75 : 5.25.
    let mut sub = seeded(1, 3, &[3], &[4]);
    assert_eq!(sub.equilibrate_cell(0), Ok(()));
    assert_eq!(sub.upper(), &vec![1]);
    assert_eq!(sub.lower(), &vec![6]);

    // A single unit at 1 : 1 cannot be split and stays down.
    let mut sub = seeded(1, 1, &[1], &[0]);
    assert_eq!(sub.equilibrate_cell(0), Ok(()));
    assert_eq!(sub.upper(), &vec![0]);
    assert_eq!(sub.lower(), &vec![1]);
}

#[test]
fn equilibrate_cell_leaves_other_cells_alone() {
    let mut sub = seeded(1, 1, &[10, 9, 8], &[0, 1, 2]);
    assert_eq!(sub.equilibrate_cell(1), Ok(()));
    assert_eq!(sub.upper(), &vec![10, 5, 8]);
    assert_eq!(sub.lower(), &vec![0, 5, 2]);
    assert!(sub.output().is_empty());
}

#[test]
fn equilibrate_cell_conserves_the_cell() {
    let kvals = [(1, 1), (2, 1), (1, 2), (3, 7), (1000, 1), (1, 1000), (u64::MAX, 1), (1, u64::MAX)];
    let cells = [(0, 0), (1, 0), (0, 1), (5, 9), (1 << 40, 3), (12345, 67890), (u64::MAX - 1, 1)];
    for (num, den) in kvals {
        for (upper, lower) in cells {
            let mut sub = seeded(num, den, &[upper], &[lower]);
            assert_eq!(sub.equilibrate_cell(0), Ok(()));
            let after = sub.upper()[0] as u128 + sub.lower()[0] as u128;
            assert_eq!(after, upper as u128 + lower as u128);
            assert_eq!(sub.mass(), upper + lower);
        }
    }
}

#[test]
fn equilibrate_cell_is_idempotent() {
    let kvals = [(1, 1), (2, 1), (1, 2), (3, 7), (1000, 1)];
    let cells = [(0, 0), (1, 0), (0, 1), (5, 9), (1 << 40, 3), (12345, 67890)];
    for (num, den) in kvals {
        for (upper, lower) in cells {
            let mut sub = seeded(num, den, &[upper, 11], &[lower, 13]);
            assert_eq!(sub.equilibrate_cell(0), Ok(()));
            let once = (sub.upper().clone(), sub.lower().clone());
            assert_eq!(sub.equilibrate_cell(0), Ok(()));
            assert_eq!((sub.upper().clone(), sub.lower().clone()), once);
        }
    }
}

#[test]
fn equilibrate_cell_reaches_the_ratio() {
    let kvals: [(u64, u64); 5] = [(1, 1), (2, 1), (1, 2), (3, 7), (1000, 1)];
    let cells = [(1, 0), (0, 1), (5, 9), (1 << 40, 3), (12345, 67890)];
    for (num, den) in kvals {
        for (upper, lower) in cells {
            let mut sub = seeded(num, den, &[upper], &[lower]);
            assert_eq!(sub.equilibrate_cell(0), Ok(()));
            let up = sub.upper()[0] as i128;
            let low = sub.lower()[0] as i128;
            let gap = low * num as i128 - up * den as i128;
            assert!(0 <= gap && gap < (num + den) as i128);
            let exact = (num as u128 * (upper + lower) as u128) % (num + den) as u128 == 0;
            assert_eq!(gap == 0, exact);
        }
    }
    // Where the share is whole, the quotient of the phases is the coefficient.
    let mut sub = seeded(3, 1, &[ONE], &[0]);
    assert_eq!(sub.equilibrate_cell(0), Ok(()));
    assert_eq!(sub.upper()[0] as f64 / sub.lower()[0] as f64, 3.0);
}

#[test]
fn equilibrate_cell_rejects_a_missing_cell() {
    let mut sub = seeded(1, 1, &[10, 4], &[0, 4]);
    assert_eq!(sub.equilibrate_cell(2), Err(CPCError::NonExistingCell));
    assert_eq!(sub.equilibrate_cell(usize::MAX), Err(CPCError::NonExistingCell));
    assert_eq!(sub.upper(), &vec![10, 4]);
    assert_eq!(sub.lower(), &vec![0, 4]);
    assert!(sub.output().is_empty());

    let mut empty = SubColumn::new(PartitionCoefficient::default());
    assert_eq!(empty.equilibrate_cell(0), Err(CPCError::NonExistingCell));
    assert_eq!(empty.cells(), 0);
}

#[test]
fn equilibrate_settles_every_cell() {
    let mut sub = seeded(2, 1, &[10, 0, 3, 1], &[0, 9, 3, 0]);
    sub.equilibrate();
    assert_eq!(sub.upper(), &vec![6, 6, 4, 0]);
    assert_eq!(sub.lower(), &vec![4, 3, 2, 1]);
    assert_eq!(sub.mass(), 26);
    assert!(sub.output().is_empty());
}

#[test]
fn equilibrate_is_equilibrate_cell_in_any_order() {
    let upper = [10, 0, 3, 1, 77];
    let lower = [0, 9, 3, 0, 5];
    let mut whole = seeded(3, 2, &upper, &lower);
    whole.equilibrate();

    let mut ascending = seeded(3, 2, &upper, &lower);
    for i in 0..5 {
        assert_eq!(ascending.equilibrate_cell(i), Ok(()));
    }
    let mut descending = seeded(3, 2, &upper, &lower);
    for i in (0..5).rev() {
        assert_eq!(descending.equilibrate_cell(i), Ok(()));
    }
    assert_eq!(ascending.upper(), whole.upper());
    assert_eq!(ascending.lower(), whole.lower());
    assert_eq!(descending.upper(), whole.upper());
    assert_eq!(descending.lower(), whole.lower());
}

#[test]
fn equilibrate_on_no_cells_does_nothing() {
    let mut sub = SubColumn::new(PartitionCoefficient::default());
    sub.equilibrate();
    assert_eq!(sub.cells(), 0);
    assert!(sub.output().is_empty());
}

#[test]
fn push_equilibrate_upper_collects_the_tail() {
    let mut sub = seeded(1, 1, &[8, 6, 4], &[2, 2, 2]);
    assert_eq!(sub.push_equilibrate_upper(), Ok(()));
    // Collected: 4. Shifted upper: [0, 8, 6] over lower [2, 2, 2].
    assert_eq!(output_of(&sub), vec![4]);
    assert_eq!(sub.upper(), &vec![1, 5, 4]);
    assert_eq!(sub.lower(), &vec![1, 5, 4]);
    assert_eq!(sub.mass(), 20);
}

#[test]
fn push_equilibrate_upper_records_most_recent_first() {
    let mut sub = seeded(1, 1, &[0, 0, 100], &[0, 0, 0]);
    assert_eq!(sub.push_equilibrate_upper(), Ok(()));
    assert_eq!(output_of(&sub), vec![100]);
    sub.seed_upper(2, 7).unwrap();
    assert_eq!(sub.push_equilibrate_upper(), Ok(()));
    assert_eq!(output_of(&sub), vec![7, 100]);
    assert_eq!(sub.push_equilibrate_upper(), Ok(()));
    assert_eq!(output_of(&sub), vec![0, 7, 100]);
}

#[test]
fn push_equilibrate_upper_adds_one_output_and_takes_its_mass() {
    let mut sub = seeded(5, 3, &[ONE, 17, 0, 999, 4], &[3, 0, 0, 12, ONE]);
    for step in 1..=40 {
        let tail = *sub.upper().last().unwrap();
        let mass = sub.mass();
        let before = output_of(&sub);
        assert_eq!(sub.push_equilibrate_upper(), Ok(()));
        let after = output_of(&sub);
        assert_eq!(after.len(), step);
        assert_eq!(after[0], tail);
        assert_eq!(&after[1..], &before[..]);
        assert_eq!(sub.mass() + tail, mass);
        assert_eq!(sub.upper().len(), 5);
        assert_eq!(sub.lower().len(), 5);
    }
}

#[test]
fn push_equilibrate_upper_on_one_cell() {
    let mut sub = seeded(1, 1, &[6], &[4]);
    assert_eq!(sub.push_equilibrate_upper(), Ok(()));
    assert_eq!(output_of(&sub), vec![6]);
    assert_eq!(sub.upper(), &vec![2]);
    assert_eq!(sub.lower(), &vec![2]);
}

#[test]
fn push_equilibrate_upper_rejects_a_subcolumn_without_cells() {
    let mut sub = SubColumn::new(PartitionCoefficient::default());
    assert_eq!(sub.push_equilibrate_upper(), Err(CPCError::NullColumn));
    assert_eq!(sub.cells(), 0);
    assert!(sub.upper().is_empty());
    assert!(sub.lower().is_empty());
    assert!(sub.output().is_empty());
}

#[test]
fn phases_stay_aligned() {
    let mut sub = SubColumn::new(PartitionCoefficient::new(2, 3).unwrap());
    let aligned = |s: &SubColumn| s.upper().len() == s.lower().len() && s.upper().len() == s.cells();
    assert!(aligned(&sub));
    for round in 0..6 {
        sub.grow();
        assert!(aligned(&sub));
        sub.seed_upper(round, 1000 + round as u64).unwrap();
        assert!(aligned(&sub));
        sub.equilibrate();
        assert!(aligned(&sub));
        sub.push_equilibrate_upper().unwrap();
        assert!(aligned(&sub));
        sub.run(3).unwrap();
        assert!(aligned(&sub));
        assert_eq!(sub.cells(), round + 1);
    }
    assert_eq!(sub.output().len(), 24);
}

#[test]
fn three_cells_end_to_end() {
    let mut sub = train(PartitionCoefficient::new(1, 1).unwrap(), 3);
    sub.seed_upper(0, ONE).unwrap();
    let as_concentrations =
        |cells: &Vec<u64>| cells.iter().map(|c| concentration(*c)).collect::<Vec<f64>>();
    assert_eq!(as_concentrations(sub.upper()), vec![1.0, 0.0, 0.0]);
    assert_eq!(as_concentrations(sub.lower()), vec![0.0, 0.0, 0.0]);

    sub.equilibrate();
    assert_eq!(as_concentrations(sub.upper()), vec![0.5, 0.0, 0.0]);
    assert_eq!(as_concentrations(sub.lower()), vec![0.5, 0.0, 0.0]);

    // The tail was empty, so nothing is collected. The upper phase moves on
    // to [0, 0.5, 0] over the lower phase [0.5, 0, 0], and then both cells
    // that hold solute split it evenly.
    assert_eq!(sub.push_equilibrate_upper(), Ok(()));
    assert_eq!(as_concentrations(&output_of(&sub)), vec![0.0]);
    assert_eq!(as_concentrations(sub.upper()), vec![0.25, 0.25, 0.0]);
    assert_eq!(as_concentrations(sub.lower()), vec![0.25, 0.25, 0.0]);
}

#[test]
fn clone_is_a_subcolumn_of_its_own() {
    let mut sub = seeded(2, 1, &[8, 6, 4], &[2, 2, 2]);
    sub.push_equilibrate_upper().unwrap();
    let copy = sub.clone();
    assert_eq!(copy.upper(), sub.upper());
    assert_eq!(copy.lower(), sub.lower());
    assert_eq!(copy.output(), sub.output());
    assert_eq!(copy.kval(), sub.kval());
    sub.push_equilibrate_upper().unwrap();
    assert_eq!(copy.output().len(), 1);
    assert_eq!(sub.output().len(), 2);
}

#[test]
fn run_takes_the_steps_one_by_one() {
    let mut stepwise = seeded(7, 2, &[ONE, 0, 0, 0], &[0, 0, 0, 0]);
    let mut at_once = stepwise.clone();
    for _ in 0..25 {
        stepwise.push_equilibrate_upper().unwrap();
    }
    assert_eq!(at_once.run(25), Ok(()));
    assert_eq!(at_once.upper(), stepwise.upper());
    assert_eq!(at_once.lower(), stepwise.lower());
    assert_eq!(at_once.output(), stepwise.output());
    assert_eq!(at_once.output().len(), 25);
}

#[test]
fn run_of_no_steps_changes_nothing() {
    let mut sub = seeded(1, 1, &[8, 6], &[2, 2]);
    assert_eq!(sub.run(0), Ok(()));
    assert_eq!(sub.upper(), &vec![8, 6]);
    assert_eq!(sub.lower(), &vec![2, 2]);
    assert!(sub.output().is_empty());

    let mut empty = SubColumn::new(PartitionCoefficient::default());
    assert_eq!(empty.run(0), Ok(()));
}

#[test]
fn run_rejects_a_subcolumn_without_cells() {
    let mut empty = SubColumn::new(PartitionCoefficient::default());
    assert_eq!(empty.run(1), Err(CPCError::NullColumn));
    assert_eq!(empty.run(u32::MAX), Err(CPCError::NullColumn));
    assert_eq!(empty.cells(), 0);
    assert!(empty.output().is_empty());
}

#[test]
fn solute_elutes_completely() {
    // Everything that was seeded comes out at the tail or stays in the train.
    let mut sub = seeded(1, 1, &[ONE, 0, 0, 0, 0], &[0, 0, 0, 0, 0]);
    sub.equilibrate();
    sub.run(200).unwrap();
    let collected: u64 = sub.output().iter().sum();
    assert_eq!(collected + sub.mass(), ONE);
    assert!(collected > ONE / 2);
}

#[test]
fn seed_sets_one_phase_of_one_cell() {
    let mut sub = train(PartitionCoefficient::default(), 3);
    assert_eq!(sub.seed_upper(1, 42), Ok(()));
    assert_eq!(sub.seed_lower(2, 9), Ok(()));
    assert_eq!(sub.upper(), &vec![0, 42, 0]);
    assert_eq!(sub.lower(), &vec![0, 0, 9]);
    assert_eq!(sub.seed_upper(1, 5), Ok(()));
    assert_eq!(sub.upper(), &vec![0, 5, 0]);
    assert_eq!(sub.mass(), 14);
}

#[test]
fn seed_rejects_a_missing_cell() {
    let mut sub = train(PartitionCoefficient::default(), 3);
    assert_eq!(sub.seed_upper(3, 1), Err(CPCError::NonExistingCell));
    assert_eq!(sub.seed_lower(3, 1), Err(CPCError::NonExistingCell));
    assert_eq!(sub.mass(), 0);
}

#[test]
fn seed_rejects_more_mass_than_can_be_counted() {
    let mut sub = train(PartitionCoefficient::default(), 2);
    assert_eq!(sub.seed_upper(0, u64::MAX), Ok(()));
    assert_eq!(sub.seed_upper(1, 1), Err(CPCError::MassOverflow));
    assert_eq!(sub.seed_lower(0, 1), Err(CPCError::MassOverflow));
    assert_eq!(sub.upper(), &vec![u64::MAX, 0]);
    assert_eq!(sub.lower(), &vec![0, 0]);
    // Replacing the amount of the full cell is fine.
    assert_eq!(sub.seed_upper(0, u64::MAX - 1), Ok(()));
    assert_eq!(sub.seed_lower(1, 1), Ok(()));
    assert_eq!(sub.mass(), u64::MAX);
    // At the limit the engine still runs.
    sub.equilibrate();
    assert_eq!(sub.mass(), u64::MAX);
    sub.run(3).unwrap();
}

#[test]
fn partition_coefficient_needs_positive_terms() {
    assert!(PartitionCoefficient::new(0, 1).is_none());
    assert!(PartitionCoefficient::new(1, 0).is_none());
    assert!(PartitionCoefficient::new(0, 0).is_none());
    let kval = PartitionCoefficient::new(3, 4).unwrap();
    assert_eq!(kval.numerator(), 3);
    assert_eq!(kval.denominator(), 4);
    assert_eq!(PartitionCoefficient::default(), PartitionCoefficient::new(1, 1).unwrap());
}

#[test]
fn split_gives_both_shares() {
    let kval = PartitionCoefficient::new(2, 1).unwrap();
    assert_eq!(kval.split(0), (0, 0));
    assert_eq!(kval.split(1), (0, 1));
    assert_eq!(kval.split(2), (1, 1));
    assert_eq!(kval.split(3), (2, 1));
    assert_eq!(kval.split(10), (6, 4));
    let steep = PartitionCoefficient::new(u64::MAX, u64::MAX).unwrap();
    assert_eq!(steep.split(u64::MAX), (u64::MAX / 2, u64::MAX / 2 + 1));
}

#[test]
fn errors_describe_themselves() {
    assert_eq!(CPCError::NonExistingCell.description(), "non-existing cell");
    assert_eq!(CPCError::NullColumn.description(), "The column has no cells");
    assert_eq!(CPCError::MassOverflow.description(), "mass overflow");
    assert_eq!(
        CPCError::NonExistingCell.message(),
        "Equilibration attempt of a non-existing cell"
    );
    assert_eq!(CPCError::NullColumn.message(), "The column has no cells");
    assert_eq!(CPCError::MassOverflow.message(), "The subcolumn cannot hold that much solute");
}
