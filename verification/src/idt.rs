//! The handlers that the kernel runs for interrupts from outside the processor.

use vstd::prelude::*;

verus! {

/// The vector of the first interrupt line.
pub const INTERRUPT_BASE: u8 = 32;

/// Number of interrupt lines that can carry lists of callbacks.
pub const CALLBACK_LINES: usize = 16;

/// The interrupt lines that have a handler of their own.
#[derive(Clone, Copy, Debug, PartialEq, Eq, Structural)]
pub enum InterruptOffset {
    Timer,
    Keyboard,
}

impl InterruptOffset {
    /// The number of the line, counted from the first line.
    pub open spec fn line(self) -> u8 {
        match self {
            InterruptOffset::Timer => 0,
            InterruptOffset::Keyboard => 1,
        }
    }

    /// The vector on which the line interrupts the processor.
    pub fn vector(self) -> (result: u8)
        ensures
            result == INTERRUPT_BASE + self.line(),
    {
        match self {
            InterruptOffset::Timer => INTERRUPT_BASE,
            InterruptOffset::Keyboard => INTERRUPT_BASE + 1,
        }
    }

    /// The number of the line, counted from the first line.
    pub fn without_base(self) -> (result: u8)
        ensures
            result == self.line(),
    {
        self.vector() - INTERRUPT_BASE
    }
}

/// Why the lists of callbacks could not be set up.
#[derive(Clone, Copy, Debug, PartialEq, Eq, Structural)]
pub enum CallbackError {
    /// The lists exist already.
    AlreadyEnabled,
}

/// The handlers of the interrupt lines, and the lists of callbacks that
/// further lines may get.
pub struct InterruptHandlers<H> {
    handlers: Vec<H>,
    callbacks: Vec<Vec<H>>,
}

impl<H> InterruptHandlers<H> {
    /// The handlers, by number of the line.
    pub closed spec fn handlers(&self) -> Seq<H> {
        self.handlers@
    }

    /// Number of lines that have a list of callbacks.
    pub closed spec fn callback_lines(&self) -> nat {
        self.callbacks@.len()
    }

    /// The callbacks of line `line`.
    pub closed spec fn callbacks_of(&self, line: int) -> Seq<H> {
        self.callbacks@[line]@
    }

    /// Every line with a handler of its own has one.
    pub open spec fn wf(&self) -> bool {
        self.handlers().len() == 2
    }

    /// The table with the given handlers for the timer and the keyboard, and
    /// no lists of callbacks.
    pub fn init(timer: H, keyboard: H) -> (result: InterruptHandlers<H>)
        ensures
            result.wf(),
            result.handlers() == seq![timer, keyboard],
            result.callback_lines() == 0,
    {
        let mut handlers: Vec<H> = Vec::new();
        handlers.push(timer);
        handlers.push(keyboard);
        assert(handlers@ =~= seq![timer, keyboard]);
        InterruptHandlers { handlers, callbacks: Vec::new() }
    }

    /// Gives every one of the sixteen lines an empty list of callbacks.
    /// Fails, and changes nothing, if the lists exist already.
    pub fn enable_interrupt_callbacks(&mut self) -> (result: Result<(), CallbackError>)
        ensures
            final(self).handlers() == old(self).handlers(),
            old(self).callback_lines() == 0 ==> result.is_ok() && final(self).callback_lines()
                == CALLBACK_LINES && forall|line: int|
                0 <= line < CALLBACK_LINES ==> final(self).callbacks_of(line) == Seq::<H>::empty(),
            old(self).callback_lines() != 0 ==> result == Err::<(), CallbackError>(
                CallbackError::AlreadyEnabled,
            ) && final(self).callback_lines() == old(self).callback_lines() && forall|line: int|
                0 <= line < old(self).callback_lines() ==> final(self).callbacks_of(line) == old(
                    self,
                ).callbacks_of(line),
    {
        if self.callbacks.len() != 0 {
            return Err(CallbackError::AlreadyEnabled);
        }
        let mut offset: usize = 0;
        while offset < CALLBACK_LINES
            invariant
                offset <= CALLBACK_LINES,
                self.handlers@ == old(self).handlers@,
                self.callbacks@.len() == offset,
                forall|line: int| 0 <= line < offset ==> self.callbacks@[line]@ == Seq::<H>::empty(),
            decreases CALLBACK_LINES - offset,
        {
            self.callbacks.push(Vec::new());
            offset += 1;
        }
        Ok(())
    }

    /// Replaces the handler of a line.
    pub fn set_interrupt_handler(&mut self, offset: InterruptOffset, handler: H)
        requires
            old(self).wf(),
        ensures
            final(self).wf(),
            final(self).handlers() == old(self).handlers().update(offset.line() as int, handler),
            final(self).callback_lines() == old(self).callback_lines(),
            forall|line: int|
                0 <= line < old(self).callback_lines() ==> final(self).callbacks_of(line) == old(
                    self,
                ).callbacks_of(line),
    {
        self.handlers.set(offset.without_base() as usize, handler);
    }

    /// The handler of a line.
    pub fn handler(&self, offset: InterruptOffset) -> (result: &H)
        requires
            self.wf(),
        ensures
            *result == self.handlers()[offset.line() as int],
    {
        &self.handlers[offset.without_base() as usize]
    }
}

} // verus!
