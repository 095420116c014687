//! Cells for values that are set once the kernel has started.

use vstd::prelude::*;

verus! {

/// A cell that may be empty and whose value may be replaced.
pub struct SyncRefCell<T> {
    cell: Option<T>,
}

impl<T> View for SyncRefCell<T> {
    type V = Option<T>;

    /// What the cell holds.
    closed spec fn view(&self) -> Option<T> {
        self.cell
    }
}

impl<T> SyncRefCell<T> {
    /// A cell that holds nothing.
    pub fn empty() -> (result: Self)
        ensures
            result@.is_none(),
    {
        Self { cell: None }
    }

    /// A cell that holds `obj`.
    pub fn new(obj: T) -> (result: Self)
        ensures
            result@ == Some(obj),
    {
        Self { cell: Some(obj) }
    }

    /// Puts `obj` into the cell, in place of what it held.
    pub fn set(&mut self, obj: T)
        ensures
            final(self)@ == Some(obj),
    {
        self.cell = Some(obj);
    }

    /// What the cell holds, if it holds anything.
    pub fn borrow(&self) -> (result: Option<&T>)
        ensures
            result.is_some() == self@.is_some(),
            result.is_some() ==> *result.unwrap() == self@.unwrap(),
    {
        self.cell.as_ref()
    }
}

/// A cell that is filled once and keeps its value.
pub struct SyncOnceCell<T> {
    inner_cell: Option<T>,
}

impl<T> View for SyncOnceCell<T> {
    type V = Option<T>;

    /// What the cell holds.
    closed spec fn view(&self) -> Option<T> {
        self.inner_cell
    }
}

impl<T> SyncOnceCell<T> {
    /// A cell that holds nothing.
    pub fn new() -> (result: Self)
        ensures
            result@.is_none(),
    {
        Self { inner_cell: None }
    }

    /// Fills the cell with `obj` if it is empty. A cell that is filled
    /// keeps its value and gives `obj` back.
    pub fn set(&mut self, obj: T) -> (result: Result<(), T>)
        ensures
            old(self)@.is_none() ==> result.is_ok() && final(self)@ == Some(obj),
            old(self)@.is_some() ==> result == Err::<(), T>(obj) && final(self)@ == old(self)@,
    {
        if self.inner_cell.is_some() {
            Err(obj)
        } else {
            self.inner_cell = Some(obj);
            Ok(())
        }
    }

    /// What the cell holds, if it was filled.
    pub fn get(&self) -> (result: Option<&T>)
        ensures
            result.is_some() == self@.is_some(),
            result.is_some() ==> *result.unwrap() == self@.unwrap(),
    {
        self.inner_cell.as_ref()
    }

    /// What the cell holds, to be changed in place, if it was filled.
    pub fn get_mut(&mut self) -> (result: Option<&mut T>)
        ensures
            result.is_some() == old(self)@.is_some(),
            result matches Some(value) ==> *value == old(self)@.unwrap() && final(self)@ == Some(
                *final(value),
            ),
            result.is_none() ==> final(self)@ == old(self)@,
    {
        match &mut self.inner_cell {
            Some(value) => Some(value),
            None => None,
        }
    }

    /// Takes out what the cell holds and leaves it empty.
    pub fn take(&mut self) -> (result: Option<T>)
        ensures
            result == old(self)@,
            final(self)@.is_none(),
    {
        self.inner_cell.take()
    }
}

} // verus!
