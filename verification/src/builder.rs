//! The construction session: allocation, deferred assignments and freezing.

use vstd::prelude::*;
use crate::arena::Arena;
use crate::cell::{Ref, Violation};
use crate::graph::Graph;
use crate::model::{
    closed, lemma_allocate_wf, lemma_enqueue_wf, lemma_freeze_wf, same_cell, states,
    targets_below, Assignment, Object, Session,
};

verus! {

/// The one mutable view of an object that has been allocated and not yet
/// frozen.
pub struct Handle<'arena, T> {
    index: usize,
    place: &'arena mut T,
}

impl<'arena, T> Handle<'arena, T> {
    /// The index of the object.
    pub closed spec fn index(&self) -> usize {
        self.index
    }

    /// The value that the object holds.
    pub closed spec fn value(&self) -> T {
        *self.place
    }

    /// The index of the object.
    pub fn id(&self) -> (id: usize)
        ensures
            id == self.index(),
    {
        self.index
    }

    /// Read access to the object.
    pub fn get(&self) -> (value: &T)
        ensures
            *value == self.value(),
    {
        &*self.place
    }

    /// Write access to the object. The handle stays with the same object, and
    /// holds whatever the caller leaves in it.
    pub fn get_mut(&mut self) -> (value: &mut T)
        ensures
            *value == old(self).value(),
            final(self).index() == old(self).index(),
            final(self).value() == *final(value),
    {
        &mut *self.place
    }
}

/// A read-only reference to an object that has been frozen. Copying it copies
/// the reference, not the object.
pub struct Frozen<'arena, T> {
    index: usize,
    object: &'arena T,
}

impl<'arena, T> Clone for Frozen<'arena, T> {
    fn clone(&self) -> (copy: Self)
        ensures
            copy == *self,
    {
        Frozen { index: self.index, object: self.object }
    }
}

impl<'arena, T> Copy for Frozen<'arena, T> {

}

impl<'arena, T> Frozen<'arena, T> {
    /// The index of the object.
    pub closed spec fn index(&self) -> usize {
        self.index
    }

    /// The value that the object holds.
    pub closed spec fn value(&self) -> T {
        *self.object
    }

    /// The index of the object.
    pub fn id(&self) -> (id: usize)
        ensures
            id == self.index(),
    {
        self.index
    }

    /// Read access to the object, for as long as the arena lives.
    pub fn get(&self) -> (value: &'arena T)
        ensures
            *value == self.value(),
    {
        self.object
    }
}

/// What the session keeps of one object: its cells, and the frozen reference
/// to it once there is one.
pub(crate) struct Slot<'arena, T> {
    pub(crate) cells: Vec<Ref>,
    pub(crate) frozen: Option<&'arena T>,
}

impl<'arena, T> Slot<'arena, T> {
    pub(crate) open spec fn view(&self) -> Object<T> {
        Object {
            cells: states(self.cells@),
            frozen: match self.frozen {
                Some(object) => Some(*object),
                None => None,
            },
        }
    }
}

/// The objects that a vector of slots stands for.
pub(crate) open spec fn objects<'arena, T>(slots: Seq<Slot<'arena, T>>) -> Seq<Object<T>> {
    Seq::new(slots.len(), |o: int| slots[o].view())
}

/// A construction session on an arena. Its view is the [`Session`] that it has
/// built up so far.
#[verifier::reject_recursive_types(T)]
pub struct Builder<'arena, T> {
    arena: &'arena Arena<T>,
    slots: Vec<Slot<'arena, T>>,
    pending: Vec<Assignment>,
}

impl<'arena, T> View for Builder<'arena, T> {
    type V = Session<T>;

    closed spec fn view(&self) -> Session<T> {
        Session { objects: objects(self.slots@), pending: self.pending@ }
    }
}

impl<'arena, T> Builder<'arena, T> {
    #[verifier::type_invariant]
    spec fn well_formed(self) -> bool {
        self@.wf()
    }

    /// Opens a session on `arena`.
    pub(crate) fn new(arena: &'arena Arena<T>) -> (session: Self)
        ensures
            session@ == Session::<T>::empty(),
    {
        Builder { arena, slots: Vec::new(), pending: Vec::new() }
    }

    /// The number of objects allocated so far.
    pub fn len(&self) -> (count: usize)
        ensures
            count == self@.objects.len(),
    {
        self.slots.len()
    }

    /// Allocates an object that holds `value` and has the cells `cells`, which
    /// may be bound already, to earlier objects or to the new object itself.
    /// The object gets the next index, and no earlier object is touched.
    pub fn allocate(&mut self, value: T, cells: Vec<Ref>) -> (handle: Handle<'arena, T>)
        requires
            targets_below(states(cells@), old(self)@.objects.len() + 1),
        ensures
            handle.index() == old(self)@.objects.len(),
            handle.value() == value,
            final(self)@ == old(self)@.allocate(states(cells@)),
            final(self)@.wf(),
    {
        proof {
            use_type_invariant(&*self);
        }
        let index = self.slots.len();
        let place = self.arena.allocate_mut(value);
        let ghost before = self@;
        let ghost added = states(cells@);
        // The vectors are taken out while they change, so that the session
        // is well formed whenever one of its fields is borrowed.
        let mut slots = Vec::new();
        let mut pending = Vec::new();
        std::mem::swap(&mut self.pending, &mut pending);
        std::mem::swap(&mut self.slots, &mut slots);
        slots.push(Slot { cells, frozen: None });
        proof {
            lemma_allocate_wf(before, added);
            assert(objects(slots@) =~~= before.allocate(added).objects);
        }
        std::mem::swap(&mut self.slots, &mut slots);
        std::mem::swap(&mut self.pending, &mut pending);
        assert(self@ =~~= before.allocate(added));
        Handle { index, place }
    }

    /// Whether the object `object` exists and has a cell `slot`.
    pub fn has_cell(&self, object: usize, slot: usize) -> (found: bool)
        ensures
            found == self@.has_cell(object as int, slot as int),
    {
        object < self.slots.len() && slot < self.slots[object].cells.len()
    }

    /// Whether the object `id` exists and has not been frozen.
    pub fn is_building(&self, id: usize) -> (building: bool)
        ensures
            building == self@.is_building(id as int),
    {
        id < self.slots.len() && self.slots[id].frozen.is_none()
    }

    /// Queues the assignment of the object `target` to cell `slot` of the
    /// object behind `source`. The cell is bound when the session is
    /// committed, whether or not `target` has been frozen by then.
    pub fn set_reference(&mut self, source: &Handle<'arena, T>, slot: usize, target: usize)
        requires
            old(self)@.has_cell(source.index() as int, slot as int),
            old(self)@.has_object(target as int),
        ensures
            final(self)@ == old(self)@.enqueue(
                (Assignment { object: source.index(), slot, target }),
            ),
            final(self)@.wf(),
    {
        proof {
            use_type_invariant(&*self);
        }
        let assignment = Assignment { object: source.index, slot, target };
        let ghost before = self@;
        let mut pending = Vec::new();
        std::mem::swap(&mut self.pending, &mut pending);
        pending.push(assignment);
        proof {
            lemma_enqueue_wf(before, assignment);
        }
        std::mem::swap(&mut self.pending, &mut pending);
        assert(self@ =~~= before.enqueue(assignment));
    }

    /// Freezes the object behind `handle`: the handle is used up, and the
    /// reference handed back is to the same object, which nothing can change
    /// from now on.
    pub fn freeze(&mut self, handle: Handle<'arena, T>) -> (frozen: Frozen<'arena, T>)
        requires
            old(self)@.is_building(handle.index() as int),
        ensures
            frozen.index() == handle.index(),
            frozen.value() == handle.value(),
            final(self)@ == old(self)@.freeze(handle.index() as int, handle.value()),
            final(self)@.wf(),
    {
        proof {
            use_type_invariant(&*self);
        }
        let Handle { index, place } = handle;
        let object: &'arena T = place;
        let ghost before = self@;
        let mut slots = Vec::new();
        let mut pending = Vec::new();
        std::mem::swap(&mut self.pending, &mut pending);
        std::mem::swap(&mut self.slots, &mut slots);
        slots[index].frozen = Some(object);
        proof {
            lemma_freeze_wf(before, index as int, *object);
            assert(objects(slots@) =~~= before.freeze(index as int, *object).objects);
        }
        std::mem::swap(&mut self.slots, &mut slots);
        std::mem::swap(&mut self.pending, &mut pending);
        assert(self@ =~~= before.freeze(index as int, *object));
        Frozen { index, object }
    }

    /// Ends the session: every queued assignment is applied to the cell it
    /// names. On a queue that is free of conflicts this yields the objects
    /// with their cells bound as queued. On any other queue some cell would
    /// be bound a second time, which is reported and nothing is yielded.
    #[verifier::loop_isolation(false)]
    pub fn commit(self) -> (outcome: Result<Graph<'arena, T>, Violation>)
        ensures
            match outcome {
                Ok(graph) => self@.conflict_free() && graph@ == self@.committed() && closed(graph@),
                Err(violation) => violation == Violation::DoubleAssignment
                    && !self@.conflict_free(),
            },
    {
        proof {
            use_type_invariant(&self);
        }
        let ghost session = self@;
        let Builder { arena: _, slots, pending } = self;
        let mut slots = slots;
        let mut done: usize = 0;
        while done < pending.len()
            invariant
                session.wf(),
                pending@ == session.pending,
                applied(session, objects(slots@), done as int),
            decreases pending.len() - done,
        {
            let ghost now = objects(slots@);
            let assignment = pending[done];
            assert(session.has_cell(assignment.object as int, assignment.slot as int));
            assert(now[assignment.object as int].cells.len()
                == session.objects[assignment.object as int].cells.len());
            let outcome = slots[assignment.object].cells[assignment.slot].try_set(assignment.target);
            match outcome {
                Ok(()) => {
                    proof {
                        lemma_applied_step(session, now, objects(slots@), done as int);
                    }
                },
                Err(_) => {
                    proof {
                        lemma_applied_conflict(session, now, done as int);
                    }
                    return Err(Violation::DoubleAssignment);
                },
            }
            done = done + 1;
        }
        proof {
            lemma_applied_all(session, objects(slots@));
        }
        Ok(Graph::from_slots(slots))
    }
}

/// Whether `now` is what the objects of `session` have become once the first
/// `done` queued assignments have been applied, each to a cell that was
/// unbound when its turn came.
spec fn applied<T>(session: Session<T>, now: Seq<Object<T>>, done: int) -> bool {
    &&& 0 <= done <= session.pending.len()
    &&& now.len() == session.objects.len()
    &&& forall|o: int|
        0 <= o < now.len() ==> (#[trigger] now[o]).frozen == session.objects[o].frozen
            && now[o].cells.len() == session.objects[o].cells.len()
    &&& forall|i: int|
        0 <= i < done ==> session.objects[(#[trigger] session.pending[i]).object as int].cells[session.pending[i].slot as int] is None
    &&& forall|i: int, j: int|
        0 <= i < j < done ==> !same_cell(#[trigger] session.pending[i], #[trigger] session.pending[j])
    &&& forall|i: int|
        0 <= i < done ==> now[(#[trigger] session.pending[i]).object as int].cells[session.pending[i].slot as int]
            == Some(session.pending[i].target)
    &&& forall|o: int, s: int|
        session.has_cell(o, s) && !named_before(session, done, o, s) ==> #[trigger] now[o].cells[s]
            == session.objects[o].cells[s]
}

/// Whether one of the first `done` queued assignments is to cell `slot` of
/// `object`.
spec fn named_before<T>(session: Session<T>, done: int, object: int, slot: int) -> bool {
    exists|i: int| 0 <= i < done && #[trigger] session.names(i, object, slot)
}

proof fn lemma_applied_step<T>(
    session: Session<T>,
    now: Seq<Object<T>>,
    next: Seq<Object<T>>,
    done: int,
)
    requires
        session.wf(),
        applied(session, now, done),
        done < session.pending.len(),
        now[session.pending[done].object as int].cells[session.pending[done].slot as int] is None,
        next.len() == now.len(),
        forall|o: int| 0 <= o < now.len() ==> (#[trigger] next[o]).frozen == now[o].frozen
            && next[o].cells.len() == now[o].cells.len(),
        forall|o: int, s: int|
            session.has_cell(o, s) ==> #[trigger] next[o].cells[s] == (if o
                == session.pending[done].object && s == session.pending[done].slot {
                Some(session.pending[done].target)
            } else {
                now[o].cells[s]
            }),
    ensures
        applied(session, next, done + 1),
{
    let a = session.pending[done];
    let (ao, asl) = (a.object as int, a.slot as int);
    assert(session.has_cell(ao, asl));
    // No earlier assignment is to this cell: it would have bound it.
    assert(!named_before(session, done, ao, asl)) by {
        if named_before(session, done, ao, asl) {
            let i = choose|i: int| 0 <= i < done && #[trigger] session.names(i, ao, asl);
            assert(now[session.pending[i].object as int].cells[session.pending[i].slot as int]
                == Some(session.pending[i].target));
        }
    }
    assert(now[ao].cells[asl] == session.objects[ao].cells[asl]);
    assert forall|i: int, j: int| 0 <= i < j < done + 1 implies !same_cell(
        #[trigger] session.pending[i],
        #[trigger] session.pending[j],
    ) by {
        if j == done && same_cell(session.pending[i], session.pending[j]) {
            assert(session.names(i, ao, asl));
        }
    }
    assert forall|i: int| 0 <= i < done + 1 implies next[(#[trigger] session.pending[i]).object as int].cells[session.pending[i].slot as int]
        == Some(session.pending[i].target) by {
        let b = session.pending[i];
        assert(session.has_cell(b.object as int, b.slot as int));
        if i < done {
            assert(!same_cell(session.pending[i], session.pending[done]));
        }
    }
    assert forall|o: int, s: int|
        session.has_cell(o, s) && !named_before(session, done + 1, o, s) implies #[trigger] next[o].cells[s]
        == session.objects[o].cells[s] by {
        if o == ao && s == asl {
            assert(session.names(done, o, s));
        }
        if named_before(session, done, o, s) {
            let i = choose|i: int| 0 <= i < done && #[trigger] session.names(i, o, s);
            assert(session.names(i, o, s));
        }
    }
}

proof fn lemma_applied_conflict<T>(session: Session<T>, now: Seq<Object<T>>, done: int)
    requires
        session.wf(),
        applied(session, now, done),
        done < session.pending.len(),
        now[session.pending[done].object as int].cells[session.pending[done].slot as int] is Some,
    ensures
        !session.conflict_free(),
{
    let a = session.pending[done];
    let (ao, asl) = (a.object as int, a.slot as int);
    assert(session.has_cell(ao, asl));
    if session.objects[ao].cells[asl] is None {
        assert(named_before(session, done, ao, asl));
        let i = choose|i: int| 0 <= i < done && #[trigger] session.names(i, ao, asl);
        assert(same_cell(session.pending[i], session.pending[done]));
    }
}

proof fn lemma_applied_all<T>(session: Session<T>, now: Seq<Object<T>>)
    requires
        session.wf(),
        applied(session, now, session.pending.len() as int),
    ensures
        session.conflict_free(),
        now == session.committed(),
        closed(now),
{
    let done = session.pending.len() as int;
    let goal = session.committed();
    assert forall|o: int, s: int| session.has_cell(o, s) implies #[trigger] now[o].cells[s]
        == session.committed_cell(o, s) by {
        if exists|i: int| session.names(i, o, s) {
            let i = choose|i: int| session.names(i, o, s);
            assert(now[session.pending[i].object as int].cells[session.pending[i].slot as int]
                == Some(session.pending[i].target));
        } else {
            assert(!named_before(session, done, o, s));
        }
    }
    assert forall|o: int| 0 <= o < now.len() implies #[trigger] now[o] =~~= goal[o] by {
        assert forall|s: int| 0 <= s < now[o].cells.len() implies now[o].cells[s]
            == goal[o].cells[s] by {
            assert(session.has_cell(o, s));
        }
    }
    assert(now =~~= goal);
    assert forall|o: int| 0 <= o < now.len() implies targets_below(
        #[trigger] now[o].cells,
        now.len(),
    ) by {
        assert(targets_below(session.objects[o].cells, session.objects.len()));
        assert forall|s: int| 0 <= s < now[o].cells.len() implies (#[trigger] now[o].cells[s] matches Some(
            target,
        ) ==> target < now.len()) by {
            assert(session.has_cell(o, s));
            if exists|i: int| session.names(i, o, s) {
                let i = choose|i: int| session.names(i, o, s);
                assert(session.has_object(session.pending[i].target as int));
            }
        }
    }
}

} // verus!
