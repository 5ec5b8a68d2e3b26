//! What holds of every cell and of every session.

use vstd::prelude::*;
use crate::cell::{bind, read, Violation};
use crate::model::{
    lemma_enqueue_wf, lemma_freeze_wf, read_through, same_cell, Assignment, Session,
};

verus! {

/// A cell is bound at most once. Whatever state a cell is in and whatever the
/// two targets are, after one binding was tried a second one is reported as
/// a double assignment and leaves the cell as the first one left it.
pub proof fn second_binding_is_reported(cell: Option<usize>, first: usize, second: usize)
    ensures
        bind(bind(cell, first).0, second) == (
            bind(cell, first).0,
            Err::<(), Violation>(Violation::DoubleAssignment),
        ),
        cell is None ==> bind(cell, first).0 == Some(first),
{
}

/// A session in which two queued assignments are to the same cell cannot be
/// committed, whatever their targets.
pub proof fn cell_queued_twice_cannot_commit<T>(session: Session<T>, i: int, j: int)
    requires
        0 <= i < j < session.pending.len(),
        same_cell(session.pending[i], session.pending[j]),
    ensures
        !session.conflict_free(),
{
}

/// A session in which an assignment is queued to a cell that is bound already
/// cannot be committed.
pub proof fn bound_cell_queued_cannot_commit<T>(session: Session<T>, i: int)
    requires
        0 <= i < session.pending.len(),
        session.objects[session.pending[i].object as int].cells[session.pending[i].slot as int] is Some,
    ensures
        !session.conflict_free(),
{
}

/// Reading a cell that was never bound is a violation: no object comes out
/// of it.
pub proof fn unbound_cell_cannot_be_read(cell: Option<usize>)
    requires
        cell is None,
    ensures
        read(cell) == Err::<usize, Violation>(Violation::UnboundDereference),
{
}

/// A cell that was allocated unbound and that no queued assignment names is
/// still unbound after the commit, and reading through it is a violation.
pub proof fn unassigned_cell_stays_unbound<T>(session: Session<T>, object: int, slot: int)
    requires
        session.has_cell(object, slot),
        session.objects[object].cells[slot] is None,
        forall|i: int| !session.names(i, object, slot),
    ensures
        session.committed()[object].cells[slot] is None,
        read_through(session.committed(), object, slot) == Err::<T, Violation>(
            Violation::UnboundDereference,
        ),
{
}

/// An object stays where it was allocated. Allocating a further object gives
/// that one the next index and changes no object that was there before;
/// queueing an assignment changes no object at all; and committing changes
/// neither the number of objects nor what a frozen object holds.
pub proof fn allocation_moves_nothing<T>(
    session: Session<T>,
    cells: Seq<Option<usize>>,
    assignment: Assignment,
    id: int,
)
    requires
        session.has_object(id),
    ensures
        session.allocate(cells).objects.len() == session.objects.len() + 1,
        session.allocate(cells).objects[session.objects.len() as int].cells == cells,
        session.allocate(cells).objects[id] == session.objects[id],
        session.enqueue(assignment).objects == session.objects,
        session.committed().len() == session.objects.len(),
        session.committed()[id].frozen == session.objects[id].frozen,
{
}

/// Committing binds every queued assignment's cell to that assignment's
/// target.
pub proof fn committed_cell_is_bound_as_queued<T>(session: Session<T>, i: int)
    requires
        session.wf(),
        session.conflict_free(),
        0 <= i < session.pending.len(),
    ensures
        session.committed()[session.pending[i].object as int].cells[session.pending[i].slot as int]
            == Some(session.pending[i].target),
{
    let a = session.pending[i];
    let (object, slot) = (a.object as int, a.slot as int);
    assert(session.has_cell(object, slot));
    assert(session.names(i, object, slot));
    let j = choose|j: int| session.names(j, object, slot);
    if j < i {
        assert(same_cell(session.pending[j], session.pending[i]));
    } else if i < j {
        assert(same_cell(session.pending[i], session.pending[j]));
    }
}

/// It makes no difference whether the target of an assignment is frozen
/// before the assignment is queued or after it: the session is the same
/// either way, and once it is committed the cell reads through to the value
/// that the target was frozen with.
pub proof fn freezing_before_or_after_queueing<T>(
    session: Session<T>,
    assignment: Assignment,
    value: T,
)
    requires
        session.wf(),
        session.has_cell(assignment.object as int, assignment.slot as int),
        session.is_building(assignment.target as int),
    ensures
        session.enqueue(assignment).freeze(assignment.target as int, value) == session.freeze(
            assignment.target as int,
            value,
        ).enqueue(assignment),
        session.enqueue(assignment).freeze(assignment.target as int, value).conflict_free()
            ==> read_through(
            session.enqueue(assignment).freeze(assignment.target as int, value).committed(),
            assignment.object as int,
            assignment.slot as int,
        ) == Ok::<T, Violation>(value),
{
    let target = assignment.target as int;
    let early = session.enqueue(assignment).freeze(target, value);
    let late = session.freeze(target, value).enqueue(assignment);
    assert(early =~~= late);
    if early.conflict_free() {
        lemma_enqueue_wf(session, assignment);
        lemma_freeze_wf(session.enqueue(assignment), target, value);
        let last = session.pending.len() as int;
        assert(early.pending[last] == assignment);
        committed_cell_is_bound_as_queued(early, last);
    }
}

/// A cell may be bound to the object that holds it. After the commit such a
/// cell is bound to its own object, and reads through to the value that the
/// object was frozen with.
pub proof fn self_loop_reads_back_itself<T>(session: Session<T>, i: int)
    requires
        session.wf(),
        session.conflict_free(),
        0 <= i < session.pending.len(),
        session.pending[i].target == session.pending[i].object,
    ensures
        session.committed()[session.pending[i].object as int].cells[session.pending[i].slot as int]
            == Some(session.pending[i].object),
        session.objects[session.pending[i].object as int].frozen is Some ==> read_through(
            session.committed(),
            session.pending[i].object as int,
            session.pending[i].slot as int,
        ) == Ok::<T, Violation>(session.objects[session.pending[i].object as int].frozen->0),
{
    committed_cell_is_bound_as_queued(session, i);
    assert(session.has_cell(session.pending[i].object as int, session.pending[i].slot as int));
}

} // verus!
