use immutable_arena::{Arena, Assignment, Builder, Frozen, Ref, Violation};

struct BasicTest {
    id: u32,
    a: Ref,
    b: Ref,
}

#[test]
fn basic_test() {
    let arena = Arena::new();
    let mut session = arena.session();

    let mut x = session.allocate(
        BasicTest {
            id: 0,
            a: Ref::empty(),
            b: Ref::empty(),
        },
        Vec::new(),
    );
    let mut y = session.allocate(
        BasicTest {
            id: 1,
            a: Ref::empty(),
            b: Ref::empty(),
        },
        Vec::new(),
    );
    let mut z = session.allocate(
        BasicTest {
            id: 2,
            a: Ref::empty(),
            b: Ref::empty(),
        },
        Vec::new(),
    );
    x.get_mut().a.set(y.id());
    x.get_mut().b.set(z.id());
    y.get_mut().a.set(x.id());
    y.get_mut().b.set(z.id());
    z.get_mut().a.set(x.id());
    z.get_mut().b.set(y.id());

    let x = session.freeze(x);
    let y = session.freeze(y);
    let z = session.freeze(z);
    let graph = session.commit().unwrap();

    assert!(graph.get(x.get().a.get()).unwrap().id == 1);
    assert!(graph.get(x.get().b.get()).unwrap().id == 2);
    assert!(graph.get(y.get().a.get()).unwrap().id == 0);
    assert!(graph.get(y.get().b.get()).unwrap().id == 2);
    assert!(graph.get(z.get().a.get()).unwrap().id == 0);
    assert!(graph.get(z.get().b.get()).unwrap().id == 1);
}

struct Node {
    id: u32,
}

const A: usize = 0;
const B: usize = 1;

fn two_cells() -> Vec<Ref> {
    vec![Ref::empty(), Ref::empty()]
}

#[test]
fn cycle_round_trip() {
    let arena = Arena::new();
    let mut session = arena.session();
    let x = session.allocate(Node { id: 0 }, two_cells());
    let y = session.allocate(Node { id: 1 }, two_cells());
    let z = session.allocate(Node { id: 2 }, two_cells());
    session.set_reference(&x, A, y.id());
    session.set_reference(&x, B, z.id());
    session.set_reference(&y, A, x.id());
    session.set_reference(&y, B, z.id());
    session.set_reference(&z, A, x.id());
    session.set_reference(&z, B, y.id());
    let x = session.freeze(x);
    let y = session.freeze(y);
    let z = session.freeze(z);
    let graph = session.commit().unwrap();

    assert_eq!(graph.deref(x.id(), A).unwrap().id, 1);
    assert_eq!(graph.deref(x.id(), B).unwrap().id, 2);
    assert_eq!(graph.deref(y.id(), A).unwrap().id, 0);
    assert_eq!(graph.deref(y.id(), B).unwrap().id, 2);
    assert_eq!(graph.deref(z.id(), A).unwrap().id, 0);
    assert_eq!(graph.deref(z.id(), B).unwrap().id, 1);

    // x.a.b.a is x again
    let xa = graph.target(x.id(), A).unwrap();
    let xab = graph.target(xa, B).unwrap();
    let xaba = graph.target(xab, A).unwrap();
    assert_eq!(xaba, x.id());
    assert!(std::ptr::eq(graph.get(xaba).unwrap(), x.get()));
    assert_eq!(graph.deref(xab, A).unwrap().id, x.get().id);
}

#[test]
fn indices_count_allocations() {
    let arena = Arena::new();
    let mut session = arena.session();
    assert_eq!(session.len(), 0);
    let x = session.allocate(Node { id: 10 }, two_cells());
    let y = session.allocate(Node { id: 11 }, Vec::new());
    assert_eq!(x.id(), 0);
    assert_eq!(y.id(), 1);
    assert_eq!(session.len(), 2);
    assert!(session.has_cell(0, 0));
    assert!(session.has_cell(0, 1));
    assert!(!session.has_cell(0, 2));
    assert!(!session.has_cell(1, 0));
    assert!(!session.has_cell(2, 0));
}

#[test]
fn queue_on_the_same_cell_twice_is_a_double_assignment() {
    let arena = Arena::new();
    let mut session = arena.session();
    let x = session.allocate(Node { id: 0 }, two_cells());
    let y = session.allocate(Node { id: 1 }, two_cells());
    session.set_reference(&x, A, y.id());
    session.set_reference(&y, A, x.id());
    session.set_reference(&x, A, x.id());
    assert_eq!(session.commit().err(), Some(Violation::DoubleAssignment));
}

#[test]
fn queue_on_the_same_cell_twice_with_one_target_is_a_double_assignment() {
    let arena = Arena::new();
    let mut session = arena.session();
    let x = session.allocate(Node { id: 0 }, two_cells());
    session.set_reference(&x, B, x.id());
    session.set_reference(&x, B, x.id());
    assert_eq!(session.commit().err(), Some(Violation::DoubleAssignment));
}

#[test]
fn queue_on_a_bound_cell_is_a_double_assignment() {
    let arena = Arena::new();
    let mut session = arena.session();
    let x = session.allocate(Node { id: 0 }, two_cells());
    let mut bound = Ref::empty();
    bound.set(x.id());
    let y = session.allocate(Node { id: 1 }, vec![bound, Ref::empty()]);
    session.set_reference(&y, A, y.id());
    assert_eq!(session.commit().err(), Some(Violation::DoubleAssignment));
}

#[test]
fn bound_cells_keep_their_targets_over_the_commit() {
    let arena = Arena::new();
    let mut session = arena.session();
    let x = session.allocate(Node { id: 0 }, two_cells());
    let mut to_x = Ref::empty();
    to_x.set(x.id());
    let mut to_self = Ref::empty();
    to_self.set(1);
    let y = session.allocate(Node { id: 1 }, vec![to_x, to_self, Ref::empty()]);
    session.set_reference(&y, 2, x.id());
    session.freeze(x);
    session.freeze(y);
    let graph = session.commit().unwrap();
    assert_eq!(graph.target(1, 0), Ok(0));
    assert_eq!(graph.target(1, 1), Ok(1));
    assert_eq!(graph.target(1, 2), Ok(0));
    assert_eq!(graph.deref(1, 1).unwrap().id, 1);
}

#[test]
fn cell_that_was_never_set_cannot_be_read() {
    let arena = Arena::new();
    let mut session = arena.session();
    let x = session.allocate(Node { id: 0 }, two_cells());
    session.set_reference(&x, A, x.id());
    session.freeze(x);
    let graph = session.commit().unwrap();
    assert_eq!(graph.target(0, A), Ok(0));
    assert_eq!(graph.target(0, B), Err(Violation::UnboundDereference));
    assert_eq!(graph.deref(0, B).err(), Some(Violation::UnboundDereference));
}

#[test]
fn empty_session_commits_to_an_empty_graph() {
    let arena: Arena<Node> = Arena::new();
    let session = arena.session();
    let graph = session.commit().unwrap();
    assert_eq!(graph.len(), 0);
    assert!(graph.get(0).is_none());
    assert!(!graph.has_cell(0, 0));
}

#[test]
fn objects_stay_where_they_were_allocated() {
    let arena = Arena::new();
    let mut session = arena.session();
    let first = session.allocate(Node { id: 7 }, two_cells());
    let first = session.freeze(first);
    let place: &Node = first.get();
    let mut others: Vec<Frozen<Node>> = Vec::new();
    for i in 0..5000u32 {
        let handle = session.allocate(Node { id: 100 + i }, Vec::new());
        assert_eq!(handle.id(), 1 + i as usize);
        others.push(session.freeze(handle));
    }
    assert_eq!(first.id(), 0);
    assert_eq!(first.get().id, 7);
    assert!(std::ptr::eq(first.get(), place));
    let graph = session.commit().unwrap();
    assert_eq!(graph.len(), 5001);
    assert!(std::ptr::eq(graph.get(0).unwrap(), place));
    assert_eq!(graph.get(0).unwrap().id, 7);
    for (i, other) in others.iter().enumerate() {
        assert_eq!(other.id(), i + 1);
        assert_eq!(other.get().id, 100 + i as u32);
        assert!(std::ptr::eq(graph.get(i + 1).unwrap(), other.get()));
        assert!(!std::ptr::eq(other.get(), place));
    }
}

#[test]
fn arena_hands_back_what_was_allocated() {
    let arena = Arena::new();
    let one = arena.allocate(String::from("one"));
    let two = arena.allocate(String::from("two"));
    let mut more = Vec::new();
    for i in 0..3000usize {
        more.push(arena.allocate(i.to_string()));
    }
    assert_eq!(one, "one");
    assert_eq!(two, "two");
    assert!(!std::ptr::eq(one, two));
    for (i, text) in more.iter().enumerate() {
        assert_eq!(**text, i.to_string());
    }
}

#[test]
fn freezing_the_target_first_or_last_reads_the_same() {
    let arena = Arena::new();

    // the target is still under construction when the cell is assigned
    let mut early = arena.session();
    let x = early.allocate(Node { id: 0 }, two_cells());
    let y = early.allocate(Node { id: 1 }, two_cells());
    early.set_reference(&x, A, y.id());
    let y = early.freeze(y);
    early.freeze(x);
    let early_graph = early.commit().unwrap();

    // the target has been frozen when the cell is assigned
    let mut late = arena.session();
    let x = late.allocate(Node { id: 0 }, two_cells());
    let w = late.allocate(Node { id: 1 }, two_cells());
    let w = late.freeze(w);
    late.set_reference(&x, A, w.id());
    late.freeze(x);
    let late_graph = late.commit().unwrap();

    assert_eq!(early_graph.target(0, A), late_graph.target(0, A));
    assert_eq!(early_graph.target(0, A), Ok(y.id()));
    assert_eq!(late_graph.target(0, A), Ok(w.id()));
    assert_eq!(early_graph.deref(0, A).unwrap().id, 1);
    assert_eq!(late_graph.deref(0, A).unwrap().id, 1);
    assert!(std::ptr::eq(early_graph.deref(0, A).unwrap(), y.get()));
    assert!(std::ptr::eq(late_graph.deref(0, A).unwrap(), w.get()));
}

#[test]
fn self_loop() {
    let arena = Arena::new();
    let mut session = arena.session();
    let x = session.allocate(Node { id: 42 }, vec![Ref::empty()]);
    session.set_reference(&x, 0, x.id());
    let x = session.freeze(x);
    let graph = session.commit().unwrap();
    assert_eq!(graph.target(x.id(), 0), Ok(x.id()));
    assert_eq!(graph.deref(x.id(), 0).unwrap().id, 42);
    assert!(std::ptr::eq(graph.deref(x.id(), 0).unwrap(), x.get()));
}

#[test]
fn handle_writes_are_seen_through_the_frozen_reference() {
    let arena = Arena::new();
    let mut session = arena.session();
    let mut x = session.allocate(Node { id: 1 }, Vec::new());
    assert_eq!(x.get().id, 1);
    x.get_mut().id = 2;
    assert_eq!(x.get().id, 2);
    assert!(session.is_building(x.id()));
    let x = session.freeze(x);
    assert!(!session.is_building(x.id()));
    assert!(!session.is_building(1));
    let copy = x;
    assert_eq!(x.get().id, 2);
    assert_eq!(copy.get().id, 2);
    assert_eq!(copy.id(), x.id());
    assert!(std::ptr::eq(copy.get(), x.clone().get()));
    let graph = session.commit().unwrap();
    assert_eq!(graph.get(0).unwrap().id, 2);
}

#[test]
fn object_that_was_never_frozen_cannot_be_read() {
    let arena = Arena::new();
    let mut session = arena.session();
    let x = session.allocate(Node { id: 0 }, two_cells());
    let y = session.allocate(Node { id: 1 }, two_cells());
    session.set_reference(&x, A, y.id());
    session.freeze(x);
    let graph = session.commit().unwrap();
    assert_eq!(graph.len(), 2);
    assert_eq!(graph.target(0, A), Ok(1));
    assert!(graph.get(0).is_some());
    assert!(graph.get(1).is_none());
    assert!(graph.get(2).is_none());
    assert_eq!(y.get().id, 1);
}

#[test]
fn build_commits_before_it_returns() {
    let arena = Arena::new();
    let built = arena.build(|session: &mut Builder<Node>| {
        let x = session.allocate(Node { id: 0 }, two_cells());
        let y = session.allocate(Node { id: 1 }, two_cells());
        session.set_reference(&x, A, y.id());
        session.set_reference(&y, A, x.id());
        (session.freeze(x), session.freeze(y))
    });
    let ((x, y), graph) = built.ok().unwrap();
    assert_eq!(graph.deref(x.id(), A).unwrap().id, 1);
    assert_eq!(graph.deref(y.id(), A).unwrap().id, 0);
    assert_eq!(graph.target(x.id(), B), Err(Violation::UnboundDereference));
}

#[test]
fn build_reports_a_double_assignment() {
    let arena = Arena::new();
    let built = arena.build(|session: &mut Builder<Node>| {
        let x = session.allocate(Node { id: 0 }, two_cells());
        session.set_reference(&x, A, x.id());
        session.set_reference(&x, A, x.id());
        session.freeze(x).id()
    });
    assert_eq!(built.err(), Some(Violation::DoubleAssignment));
}

#[test]
fn assignments_are_plain_values() {
    let first = Assignment { object: 1, slot: 2, target: 3 };
    let copy = first;
    assert_eq!(first, copy);
    assert_ne!(first, Assignment { object: 1, slot: 2, target: 4 });
}
