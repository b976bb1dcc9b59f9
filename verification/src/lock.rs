//! Entering the critical section around the model.
//!
//! The Sail runtime under the model keeps process-wide scratch, so calls are
//! made under one lock, whichever instance they are for. The lock itself is a
//! process-wide item of the program around the library.

use vstd::prelude::*;

verus! {

/// What taking the model lock came to. The guard is there either way.
pub enum Acquired<G> {
    /// No holder has panicked.
    Clean(G),
    /// An earlier holder panicked while it held the lock.
    Poisoned(G),
}

impl<G> Acquired<G> {
    pub open spec fn guard(self) -> G {
        match self {
            Acquired::Clean(guard) => guard,
            Acquired::Poisoned(guard) => guard,
        }
    }
}

/// Take the lock under which model calls are made, once; `acquire` blocks until
/// the calling thread has it.
///
/// The guarded sections only run model code, which does not panic, so a
/// poisoned lock cannot indicate torn model state: its guard serves as well.
pub fn model_lock<G, L: FnOnce() -> Acquired<G>>(acquire: L) -> (guard: G)
    requires
        call_requires(acquire, ()),
    ensures
        exists|acquired: Acquired<G>| #[trigger]
            call_ensures(acquire, (), acquired) && guard == acquired.guard(),
        call_ensures(acquire, (), Acquired::Clean(guard)) || call_ensures(
            acquire,
            (),
            Acquired::Poisoned(guard),
        ),
{
    let acquired = acquire();
    match acquired {
        Acquired::Clean(guard) => guard,
        Acquired::Poisoned(guard) => guard,
    }
}

} // verus!
