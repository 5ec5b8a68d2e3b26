//! The arena: the owner of the storage that objects are allocated in.

use vstd::prelude::*;
use crate::builder::Builder;
use crate::cell::Violation;
use crate::graph::Graph;
use crate::model::{closed, Session};

verus! {

/// Storage for objects of type `T`. An object lives, at a fixed place, for as
/// long as the arena that it was allocated in.
///
/// The storage is a `typed_arena::Arena`. What it holds changes behind a
/// shared reference, so nothing of its contents is visible to proofs.
#[verifier::external_body]
#[verifier::reject_recursive_types(T)]
pub struct Arena<T> {
    slab: typed_arena::Arena<T>,
}

/// `typed_arena::Arena::new`. Nothing is claimed of the storage it returns.
/// Like every allocation it stops the program when memory runs out.
#[verifier::external_body]
fn slab_new<T>() -> Arena<T> {
    Arena { slab: typed_arena::Arena::new() }
}

/// `typed_arena::Arena::alloc`. The claim is that the reference handed back
/// points at the value that was passed in, which the storage has taken over.
/// That the value stays where it is for as long as the storage lives is
/// carried by the lifetime of the reference. The call stops the program when
/// memory runs out, and on nothing else.
#[verifier::external_body]
fn slab_alloc<'a, T>(arena: &'a Arena<T>, value: T) -> (place: &'a mut T)
    ensures
        *place == value,
{
    arena.slab.alloc(value)
}

impl<T> Arena<T> {
    /// A new arena, with nothing allocated in it. No clause says so: what an
    /// arena holds changes behind a shared reference, so to proofs one arena
    /// is like any other, and what a session has allocated is told by the
    /// session's own view.
    pub fn new() -> Arena<T> {
        slab_new()
    }

    /// Moves `t` into the arena and hands back a read-only reference to it.
    pub fn allocate<'arena>(&'arena self, t: T) -> (object: &'arena T)
        ensures
            *object == t,
    {
        let place = slab_alloc(self, t);
        place
    }

    /// Opens a construction session on the arena. The caller ends it with
    /// [`Builder::commit`].
    pub fn session<'arena>(&'arena self) -> (session: Builder<'arena, T>)
        ensures
            session@ == Session::<T>::empty(),
    {
        Builder::new(self)
    }

    /// Runs one construction session from start to end: opens it, lets `f`
    /// build in it, and commits what `f` has queued. Hands back what `f`
    /// returned together with the committed objects, or the double assignment
    /// that the commit ran into.
    pub fn build<'arena, R, F>(&'arena self, f: F) -> (outcome: Result<
        (R, Graph<'arena, T>),
        Violation,
    >) where F: FnOnce(&mut Builder<'arena, T>) -> R
        requires
            forall|session: &mut Builder<'arena, T>|
                session@ == Session::<T>::empty() ==> call_requires(f, (session,)),
        ensures
            exists|session: &mut Builder<'arena, T>, result: R|
                {
                    &&& session@ == Session::<T>::empty()
                    &&& call_ensures(f, (session,), result)
                    &&& match outcome {
                        Ok((returned, graph)) => {
                            &&& returned == result
                            &&& final(session)@.conflict_free()
                            &&& graph@ == final(session)@.committed()
                            &&& closed(graph@)
                        },
                        Err(violation) => {
                            &&& violation == Violation::DoubleAssignment
                            &&& !final(session)@.conflict_free()
                        },
                    }
                },
    {
        let mut session = Builder::new(self);
        let result = f(&mut session);
        match session.commit() {
            Ok(graph) => Ok((result, graph)),
            Err(violation) => Err(violation),
        }
    }

    /// Moves `value` into the arena and hands back the one reference to it
    /// through which it can still be changed.
    pub(crate) fn allocate_mut<'arena>(&'arena self, value: T) -> (place: &'arena mut T)
        ensures
            *place == value,
    {
        slab_alloc(self, value)
    }
}

} // verus!
