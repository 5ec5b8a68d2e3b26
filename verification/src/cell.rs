//! The write-once reference cell.

use vstd::prelude::*;

verus! {

/// The two ways in which a caller can break the protocol of a cell.
#[derive(Clone, Copy, Debug, PartialEq, Eq, Structural)]
pub enum Violation {
    /// A cell that is already bound was to be bound again.
    DoubleAssignment,
    /// A cell was read while it was still unbound.
    UnboundDereference,
}

/// Binding a cell in state `cell` to the object `to`: the state it is left in,
/// and whether the binding took place. An unbound cell becomes bound to `to`;
/// a bound cell keeps its target and the attempt is a double assignment.
pub open spec fn bind(cell: Option<usize>, to: usize) -> (Option<usize>, Result<(), Violation>) {
    match cell {
        None => (Some(to), Ok(())),
        Some(_) => (cell, Err(Violation::DoubleAssignment)),
    }
}

/// Reading a cell in state `cell`: the object it is bound to, or the
/// violation of reading an unbound cell.
pub open spec fn read(cell: Option<usize>) -> Result<usize, Violation> {
    match cell {
        Some(target) => Ok(target),
        None => Err(Violation::UnboundDereference),
    }
}

/// A cell that starts unbound and can be bound to one object, once.
///
/// Its view is `None` while it is unbound and `Some(index)` once it is bound
/// to the object with that index.
#[derive(Debug)]
pub struct Ref {
    target: Option<usize>,
}

impl View for Ref {
    type V = Option<usize>;

    closed spec fn view(&self) -> Option<usize> {
        self.target
    }
}

impl Clone for Ref {
    /// The copy has the binding of the cell it was taken from, and shares
    /// nothing else with it.
    fn clone(&self) -> (copy: Self)
        ensures
            copy@ == self@,
    {
        Ref { target: self.target }
    }
}

impl Copy for Ref {

}

impl Ref {
    /// An unbound cell.
    pub fn empty() -> (cell: Ref)
        ensures
            cell@ == None::<usize>,
    {
        Ref { target: None }
    }

    /// Whether the cell has been bound.
    pub fn is_bound(&self) -> (bound: bool)
        ensures
            bound == self@.is_some(),
    {
        self.target.is_some()
    }

    /// Binds an unbound cell to the object `to`.
    pub fn set(&mut self, to: usize)
        requires
            old(self)@.is_none(),
        ensures
            final(self)@ == Some(to),
    {
        self.target = Some(to);
    }

    /// Binds the cell to the object `to` if it is unbound. A cell that is
    /// already bound is left as it is and the double assignment is reported.
    pub fn try_set(&mut self, to: usize) -> (outcome: Result<(), Violation>)
        ensures
            (final(self)@, outcome) == bind(old(self)@, to),
    {
        if self.target.is_some() {
            Err(Violation::DoubleAssignment)
        } else {
            self.target = Some(to);
            Ok(())
        }
    }

    /// The object that a bound cell is bound to.
    pub fn get(&self) -> (target: usize)
        requires
            self@.is_some(),
        ensures
            self@ == Some(target),
    {
        self.target.unwrap()
    }

    /// The object that the cell is bound to, or the violation of reading an
    /// unbound cell.
    pub fn try_get(&self) -> (outcome: Result<usize, Violation>)
        ensures
            outcome == read(self@),
    {
        match self.target {
            Some(target) => Ok(target),
            None => Err(Violation::UnboundDereference),
        }
    }
}

} // verus!
