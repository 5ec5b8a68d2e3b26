//! The objects of a session that has ended: every cell has the binding it
//! will keep, and nothing can be changed any more.

use vstd::prelude::*;
use crate::builder::{objects, Slot};
use crate::cell::{read, Ref, Violation};
use crate::model::{closed, has_cell, read_through, readable, targets_below, Object};

verus! {

/// The objects that a committed session leaves behind. Its view holds, for
/// each object, the final states of its cells and the value it was frozen
/// with.
pub struct Graph<'arena, T> {
    slots: Vec<Slot<'arena, T>>,
}

impl<'arena, T> View for Graph<'arena, T> {
    type V = Seq<Object<T>>;

    closed spec fn view(&self) -> Seq<Object<T>> {
        objects(self.slots@)
    }
}

impl<'arena, T> Graph<'arena, T> {
    #[verifier::type_invariant]
    spec fn well_formed(self) -> bool {
        closed(self@)
    }

    /// The graph of the objects that `slots` stands for.
    pub(crate) fn from_slots(slots: Vec<Slot<'arena, T>>) -> (graph: Self)
        requires
            closed(objects(slots@)),
        ensures
            graph@ == objects(slots@),
    {
        Graph { slots }
    }

    /// The number of objects.
    pub fn len(&self) -> (count: usize)
        ensures
            count == self@.len(),
    {
        self.slots.len()
    }

    /// Whether the object `object` exists and has a cell `slot`.
    pub fn has_cell(&self, object: usize, slot: usize) -> (found: bool)
        ensures
            found == has_cell(self@, object as int, slot as int),
    {
        object < self.slots.len() && slot < self.slots[object].cells.len()
    }

    /// The index of the object that cell `slot` of `object` is bound to, or
    /// the violation of reading an unbound cell.
    pub fn target(&self, object: usize, slot: usize) -> (outcome: Result<usize, Violation>)
        requires
            has_cell(self@, object as int, slot as int),
        ensures
            outcome == read(self@[object as int].cells[slot as int]),
            outcome matches Ok(target) ==> target < self@.len(),
    {
        proof {
            use_type_invariant(self);
            assert(targets_below(self@[object as int].cells, self@.len()));
        }
        self.slots[object].cells[slot].try_get()
    }

    /// The object `id`, if there is one and it was frozen before the session
    /// ended. An object that was never frozen can be read by nobody.
    pub fn get(&self, id: usize) -> (object: Option<&'arena T>)
        ensures
            match object {
                Some(value) => id < self@.len() && self@[id as int].frozen == Some(*value),
                None => id >= self@.len() || self@[id as int].frozen is None,
            },
    {
        if id < self.slots.len() {
            self.slots[id].frozen
        } else {
            None
        }
    }

    /// Reads through cell `slot` of `object`: the object that the cell is
    /// bound to, or the violation of reading an unbound cell.
    pub fn deref(&self, object: usize, slot: usize) -> (outcome: Result<&'arena T, Violation>)
        requires
            has_cell(self@, object as int, slot as int),
            readable(self@, object as int, slot as int),
        ensures
            match outcome {
                Ok(value) => read_through(self@, object as int, slot as int) == Ok::<T, Violation>(
                    *value,
                ),
                Err(violation) => read_through(self@, object as int, slot as int) == Err::<
                    T,
                    Violation,
                >(
                    violation,
                ),
            },
    {
        match self.slots[object].cells[slot].try_get() {
            Ok(target) => Ok(self.slots[target].frozen.unwrap()),
            Err(violation) => Err(violation),
        }
    }
}

} // verus!
