//! The abstract state of a construction session, and what committing it
//! yields. Contracts elsewhere in the crate are stated over these.

use vstd::prelude::*;
use crate::cell::{read, Ref, Violation};

verus! {

/// A deferred assignment: at the end of the session, cell `slot` of the object
/// `object` is to be bound to the object `target`.
#[derive(Clone, Copy, Debug, PartialEq, Eq, Structural)]
pub struct Assignment {
    pub object: usize,
    pub slot: usize,
    pub target: usize,
}

/// Whether two assignments are to the same cell.
pub open spec fn same_cell(a: Assignment, b: Assignment) -> bool {
    a.object == b.object && a.slot == b.slot
}

/// One object of a session: the states of its cells, in order, and the value
/// it was frozen with, if it has been frozen.
#[verifier::ext_equal]
pub struct Object<T> {
    pub cells: Seq<Option<usize>>,
    pub frozen: Option<T>,
}

/// The states of a sequence of cells.
pub open spec fn states(cells: Seq<Ref>) -> Seq<Option<usize>> {
    Seq::new(cells.len(), |i: int| cells[i]@)
}

/// Whether every cell in `cells` that is bound is bound to one of the first
/// `count` objects.
pub open spec fn targets_below(cells: Seq<Option<usize>>, count: nat) -> bool {
    forall|s: int| 0 <= s < cells.len() ==> (#[trigger] cells[s] matches Some(target) ==> target < count)
}

/// Whether `objects` holds an object `object` that has a cell `slot`.
pub open spec fn has_cell<T>(objects: Seq<Object<T>>, object: int, slot: int) -> bool {
    0 <= object < objects.len() && 0 <= slot < objects[object].cells.len()
}

/// Whether cell `slot` of `object` can be read through: it is unbound, or
/// bound to an object that has been frozen.
pub open spec fn readable<T>(objects: Seq<Object<T>>, object: int, slot: int) -> bool {
    objects[object].cells[slot] matches Some(target) ==> target < objects.len()
        && objects[target as int].frozen is Some
}

/// Reading through cell `slot` of `object`: the value of the object that the
/// cell is bound to, or the violation of reading an unbound cell.
pub open spec fn read_through<T>(objects: Seq<Object<T>>, object: int, slot: int) -> Result<T, Violation> {
    match read(objects[object].cells[slot]) {
        Ok(target) => Ok(objects[target as int].frozen->0),
        Err(violation) => Err(violation),
    }
}

/// Whether every bound cell of every object in `objects` is bound to one of
/// these objects.
pub open spec fn closed<T>(objects: Seq<Object<T>>) -> bool {
    forall|o: int| 0 <= o < objects.len() ==> targets_below(#[trigger] objects[o].cells, objects.len())
}

/// A session: its objects, each at the index it was allocated with, and the
/// assignments it has queued, in the order in which they were queued.
#[verifier::ext_equal]
pub struct Session<T> {
    pub objects: Seq<Object<T>>,
    pub pending: Seq<Assignment>,
}

impl<T> Session<T> {
    /// The session that has just been opened.
    pub open spec fn empty() -> Self {
        Session { objects: Seq::empty(), pending: Seq::empty() }
    }

    /// Whether `id` is the index of an object of the session.
    pub open spec fn has_object(self, id: int) -> bool {
        0 <= id < self.objects.len()
    }

    /// Whether the object `object` exists and has a cell `slot`.
    pub open spec fn has_cell(self, object: int, slot: int) -> bool {
        has_cell(self.objects, object, slot)
    }

    /// Whether the object `id` exists and has not been frozen.
    pub open spec fn is_building(self, id: int) -> bool {
        self.has_object(id) && self.objects[id].frozen is None
    }

    /// Every bound cell is bound to an object of the session, and every queued
    /// assignment names a cell and a target of the session.
    pub open spec fn wf(self) -> bool {
        &&& closed(self.objects)
        &&& forall|i: int|
            0 <= i < self.pending.len() ==> {
                &&& self.has_cell(
                    (#[trigger] self.pending[i]).object as int,
                    self.pending[i].slot as int,
                )
                &&& self.has_object(self.pending[i].target as int)
            }
    }

    /// The session after an object with the cells `cells` has been allocated:
    /// the new object gets the next index, and nothing else changes.
    pub open spec fn allocate(self, cells: Seq<Option<usize>>) -> Self {
        Session { objects: self.objects.push(Object { cells, frozen: None }), ..self }
    }

    /// The session after `assignment` has been queued.
    pub open spec fn enqueue(self, assignment: Assignment) -> Self {
        Session { pending: self.pending.push(assignment), ..self }
    }

    /// The session after the object `id` has been frozen with `value`.
    pub open spec fn freeze(self, id: int, value: T) -> Self {
        Session {
            objects: self.objects.update(id, Object { frozen: Some(value), ..self.objects[id] }),
            ..self
        }
    }

    /// Whether the `i`-th queued assignment is one to cell `slot` of `object`.
    pub open spec fn names(self, i: int, object: int, slot: int) -> bool {
        &&& 0 <= i < self.pending.len()
        &&& self.pending[i].object == object
        &&& self.pending[i].slot == slot
    }

    /// Whether the queue can be committed: no queued assignment is to a cell
    /// that is already bound, and no two of them are to the same cell.
    pub open spec fn conflict_free(self) -> bool {
        &&& forall|i: int|
            0 <= i < self.pending.len() ==> self.objects[(#[trigger] self.pending[i]).object as int].cells[self.pending[i].slot as int] is None
        &&& forall|i: int, j: int|
            0 <= i < j < self.pending.len() ==> !same_cell(
                #[trigger] self.pending[i],
                #[trigger] self.pending[j],
            )
    }

    /// The state of cell `slot` of `object` once the queue has been committed:
    /// a cell that was bound keeps its target, an unbound cell that a queued
    /// assignment names is bound to that assignment's target, and any other
    /// cell stays unbound.
    pub open spec fn committed_cell(self, object: int, slot: int) -> Option<usize> {
        match self.objects[object].cells[slot] {
            Some(target) => Some(target),
            None => if exists|i: int| self.names(i, object, slot) {
                Some(self.pending[choose|i: int| self.names(i, object, slot)].target)
            } else {
                None
            },
        }
    }

    /// The objects of the session once the queue has been committed. The order
    /// in which the assignments were queued plays no part in it.
    pub open spec fn committed(self) -> Seq<Object<T>> {
        Seq::new(
            self.objects.len(),
            |o: int|
                Object {
                    cells: Seq::new(
                        self.objects[o].cells.len(),
                        |s: int| self.committed_cell(o, s),
                    ),
                    frozen: self.objects[o].frozen,
                },
        )
    }
}

/// Allocating keeps a session well formed, provided that the new cells are
/// bound to nothing but earlier objects and the new object itself.
pub proof fn lemma_allocate_wf<T>(session: Session<T>, cells: Seq<Option<usize>>)
    requires
        session.wf(),
        targets_below(cells, session.objects.len() + 1),
    ensures
        session.allocate(cells).wf(),
{
    let after = session.allocate(cells);
    assert forall|o: int| 0 <= o < after.objects.len() implies targets_below(
        #[trigger] after.objects[o].cells,
        after.objects.len(),
    ) by {
        if o < session.objects.len() {
            assert(after.objects[o] == session.objects[o]);
            assert(targets_below(session.objects[o].cells, session.objects.len()));
        }
    }
    assert forall|i: int| 0 <= i < after.pending.len() implies {
        &&& after.has_cell(
            (#[trigger] after.pending[i]).object as int,
            after.pending[i].slot as int,
        )
        &&& after.has_object(after.pending[i].target as int)
    } by {
        let a = session.pending[i];
        assert(session.has_cell(a.object as int, a.slot as int));
        assert(after.objects[a.object as int] == session.objects[a.object as int]);
    }
}

/// Queueing an assignment that names a cell and a target of the session keeps
/// the session well formed.
pub proof fn lemma_enqueue_wf<T>(session: Session<T>, assignment: Assignment)
    requires
        session.wf(),
        session.has_cell(assignment.object as int, assignment.slot as int),
        session.has_object(assignment.target as int),
    ensures
        session.enqueue(assignment).wf(),
{
    let after = session.enqueue(assignment);
    assert forall|i: int| 0 <= i < after.pending.len() implies {
        &&& after.has_cell(
            (#[trigger] after.pending[i]).object as int,
            after.pending[i].slot as int,
        )
        &&& after.has_object(after.pending[i].target as int)
    } by {
        if i < session.pending.len() {
            assert(after.pending[i] == session.pending[i]);
        }
    }
}

/// Freezing an object keeps the session well formed.
pub proof fn lemma_freeze_wf<T>(session: Session<T>, id: int, value: T)
    requires
        session.wf(),
        session.has_object(id),
    ensures
        session.freeze(id, value).wf(),
{
    let after = session.freeze(id, value);
    assert forall|o: int| 0 <= o < after.objects.len() implies targets_below(
        #[trigger] after.objects[o].cells,
        after.objects.len(),
    ) by {
        assert(after.objects[o].cells == session.objects[o].cells);
        assert(targets_below(session.objects[o].cells, session.objects.len()));
    }
    assert forall|i: int| 0 <= i < after.pending.len() implies {
        &&& after.has_cell(
            (#[trigger] after.pending[i]).object as int,
            after.pending[i].slot as int,
        )
        &&& after.has_object(after.pending[i].target as int)
    } by {
        let a = session.pending[i];
        assert(session.has_cell(a.object as int, a.slot as int));
        assert(after.objects[a.object as int].cells == session.objects[a.object as int].cells);
    }
}

} // verus!
