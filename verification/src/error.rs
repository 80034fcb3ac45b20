//! What can go wrong when a column is driven.
use vstd::prelude::*;

verus! {

/// The ways in which an operation on a column can fail.
#[derive(Clone, Copy, Debug, PartialEq, Eq)]
pub enum CPCError {
    /// A cell was addressed that the subcolumn does not have.
    NonExistingCell,
    /// A step was asked of a subcolumn without cells.
    NullColumn,
    /// A seed would bring the mass of a subcolumn beyond what a `u64` can
    /// count.
    MassOverflow,
}

impl CPCError {
    /// A short name for the failure.
    pub fn description(&self) -> (r: &'static str)
        ensures
            *self == CPCError::NonExistingCell ==> r@ == "non-existing cell"@,
            *self == CPCError::NullColumn ==> r@ == "The column has no cells"@,
            *self == CPCError::MassOverflow ==> r@ == "mass overflow"@,
    {
        match self {
            CPCError::NonExistingCell => "non-existing cell",
            CPCError::NullColumn => "The column has no cells",
            CPCError::MassOverflow => "mass overflow",
        }
    }

    /// The failure as a sentence for the user.
    pub fn message(&self) -> (r: String)
        ensures
            *self == CPCError::NonExistingCell ==> r@
                == "Equilibration attempt of a non-existing cell"@,
            *self == CPCError::NullColumn ==> r@ == "The column has no cells"@,
            *self == CPCError::MassOverflow ==> r@
                == "The subcolumn cannot hold that much solute"@,
    {
        match self {
            CPCError::NonExistingCell => "Equilibration attempt of a non-existing cell".to_owned(),
            CPCError::NullColumn => "The column has no cells".to_owned(),
            CPCError::MassOverflow => "The subcolumn cannot hold that much solute".to_owned(),
        }
    }
}

} // verus!
