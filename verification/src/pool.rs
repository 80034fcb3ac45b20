//! The boundary to the worker pool.
//!
//! Nothing in this file is proved: it states what the engine relies on the
//! `scoped_threadpool` crate for.
use vstd::prelude::*;
use scoped_threadpool::Pool;
use crate::subcolumn::SubColumn;

verus! {

#[verifier::external_type_specification]
#[verifier::external_body]
pub struct ExPool(Pool);

/// `scoped_threadpool::Pool::new` spawns the worker threads of a pool. It
/// asserts that it is asked for at least one. Nothing is claimed of the pool
/// that it returns.
pub assume_specification[ Pool::new ](n: u32) -> (pool: Pool)
    requires
        n >= 1,
;

/// Hands one job per subcolumn to `Pool::scoped` and `Scope::execute` of
/// `scoped_threadpool`; each job is one call of `SubColumn::run`.
///
/// The contract claims of the pool that it runs every job it was handed
/// exactly once, and that `scoped` returns only when all of them have run to
/// completion; and of `iter_mut` that it yields every subcolumn once. What a
/// job does to its subcolumn is then what `SubColumn::run` ensures.
#[verifier::external_body]
pub(crate) fn run_scoped(pool: &mut Pool, subcolumns: &mut Vec<SubColumn>, loops: u32)
    requires
        forall|i: int| 0 <= i < old(subcolumns)@.len() ==> (#[trigger] old(subcolumns)@[i]).wf(),
    ensures
        final(subcolumns)@.len() == old(subcolumns)@.len(),
        forall|i: int|
            0 <= i < old(subcolumns)@.len() ==> (#[trigger] final(subcolumns)@[i]).wf()
                && final(subcolumns)@[i]@ == old(subcolumns)@[i]@.stepped_n(loops as nat),
{
    pool.scoped(|scope| {
        for subcolumn in subcolumns.iter_mut() {
            scope.execute(move || {
                let _ = subcolumn.run(loops);
            });
        }
    });
}

} // verus!
