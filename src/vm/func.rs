//! The commands that a script is made of.
use vstd::prelude::*;
use crate::vm::context::{Context, Value};
use crate::vm::trap::Trap;

verus! {

/// A command: a unit of work that reads and changes the variable store.
pub trait Callable {
    /// The store after a call on `store`, and what the call returns. A
    /// command that does not state its effect is taken to leave the store
    /// alone and succeed.
    open spec fn effect(&self, store: Map<Seq<char>, Value>) -> (Map<Seq<char>, Value>, Result<(), Trap>) {
        (store, Ok(()))
    }

    /// Runs the command against the store.
    fn call(&self, ctx: &mut Context) -> (r: Result<(), Trap>)
        ensures
            (final(ctx)@, r) == self.effect(old(ctx)@),
    ;
}

} // verus!
