//! A discrete countercurrent distribution engine.
//!
//! A *subcolumn* is a train of cells. Each cell holds solute in two
//! immiscible phases: the mobile upper phase and the stationary lower phase.
//! One step of the simulation collects the upper phase of the tail cell,
//! moves every other upper phase one cell towards the tail, lets an empty
//! upper phase enter at the front, and then settles every cell back to its
//! partition equilibrium. A *column* is a collection of subcolumns that share
//! no state and are advanced side by side on a pool of worker threads.
//!
//! Solute is counted in whole, indivisible units and a partition coefficient
//! is a ratio of two positive integers. Every quantity is therefore exact:
//! a cell at equilibrium is within one unit of its ideal split, and mass is
//! conserved to the unit.
//!
//! The modules, from the leaves up:
//!
//! * `error`: what can go wrong;
//! * `partition`: partition coefficients and the split of one cell;
//! * `mass`: sums of solute over a phase;
//! * `train`: the mathematical model of a subcolumn and the laws it obeys;
//! * `subcolumn`: the subcolumn itself;
//! * `pool`: what is relied on of the worker pool, unproved;
//! * `column`: the column.
pub mod column;
pub mod error;
pub mod mass;
pub mod partition;
mod pool;
pub mod subcolumn;
pub mod train;

pub use column::Column;
pub use error::CPCError;
pub use partition::PartitionCoefficient;
pub use subcolumn::SubColumn;
