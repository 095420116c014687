//! The two rings through which a storage controller takes commands and
//! reports their completion.

use crate::address::Frame;
use crate::bits::{bit_u32, get_bit_u32};
use vstd::prelude::*;

verus! {

/// The report of the controller on one command.
#[derive(Clone, Copy, Debug, PartialEq, Eq, Structural)]
pub struct Completion {
    pub result: u32,
    pub reserved: u32,
    pub submission: u32,
    pub status: u32,
}

impl Completion {
    /// The phase of the report: bit 16 of its status word.
    pub open spec fn phase(&self) -> bool {
        bit_u32(self.status, 16)
    }

    /// The phase of the report. The controller flips the phase each time it
    /// has gone round the ring, so that new reports can be told from old.
    pub fn phase_tag(&self) -> (result: bool)
        ensures
            result == self.phase(),
    {
        get_bit_u32(self.status, 16)
    }
}

/// The ring of completion reports.
pub struct CompletionQueue {
    base: Frame,
    entries: Vec<Completion>,
    doorbell: u32,
    cur_index: u16,
    phase_tag: bool,
}

impl CompletionQueue {
    /// The frame at which the ring starts.
    pub closed spec fn base(&self) -> Frame {
        self.base
    }

    /// The reports in the ring.
    pub closed spec fn entries(&self) -> Seq<Completion> {
        self.entries@
    }

    /// The index of the report that is read next.
    pub closed spec fn position(&self) -> u16 {
        self.cur_index
    }

    /// The phase that a new report has.
    pub closed spec fn expected_phase(&self) -> bool {
        self.phase_tag
    }

    /// The value last written to the doorbell.
    pub closed spec fn doorbell(&self) -> u32 {
        self.doorbell
    }

    /// The ring is not empty, its slots can be counted in 16 bits, and the
    /// position lies in it.
    pub open spec fn wf(&self) -> bool {
        self.position() < self.entries().len() <= u16::MAX
    }

    /// A ring over the given reports, read from the start, with the phase
    /// of the first round. Returns nothing for an empty ring and for one of more than 65535 slots.
    pub fn new(base: Frame, entries: Vec<Completion>) -> (result: Option<CompletionQueue>)
        ensures
            result.is_some() <==> 0 < entries@.len() <= u16::MAX,
            result.is_some() ==> {
                let queue = result.unwrap();
                &&& queue.wf()
                &&& queue.base() == base
                &&& queue.entries() == entries@
                &&& queue.position() == 0
                &&& queue.expected_phase()
                &&& queue.doorbell() == 0
            },
    {
        if entries.len() == 0 || entries.len() > 0xFFFF {
            None
        } else {
            Some(CompletionQueue { base, entries, doorbell: 0, cur_index: 0, phase_tag: true })
        }
    }

    /// The physical address at which the ring starts.
    pub fn base_phys_addr(&self) -> (result: u64)
        ensures
            result == self.base()@,
    {
        self.base.get()
    }

    /// Replaces the report in slot `index`, as the controller does when it
    /// completes a command.
    pub fn post(&mut self, index: usize, completion: Completion)
        requires
            old(self).wf(),
            index < old(self).entries().len(),
        ensures
            final(self).wf(),
            final(self).base() == old(self).base(),
            final(self).entries() == old(self).entries().update(index as int, completion),
            final(self).position() == old(self).position(),
            final(self).expected_phase() == old(self).expected_phase(),
            final(self).doorbell() == old(self).doorbell(),
    {
        self.entries.set(index, completion);
    }

    fn increment_index(&mut self)
        requires
            old(self).wf(),
        ensures
            final(self).wf(),
            final(self).base() == old(self).base(),
            final(self).entries() == old(self).entries(),
            final(self).position() == if old(self).position() == old(self).entries().len() - 1 {
                0
            } else {
                (old(self).position() + 1) as u16
            },
            final(self).expected_phase() == if old(self).position() == old(self).entries().len()
                - 1 {
                !old(self).expected_phase()
            } else {
                old(self).expected_phase()
            },
            final(self).doorbell() == final(self).position(),
    {
        if (self.cur_index as usize) == (self.entries.len() - 1) {
            self.phase_tag = !self.phase_tag;
            self.cur_index = 0;
        } else {
            self.cur_index += 1;
        }
        self.doorbell = self.cur_index as u32;
    }

    /// The next report, if the controller has written one: the report at
    /// the position is new when its phase is the expected one. Taking it
    /// moves the position on, behind the last slot to the first with the
    /// phase flipped, and tells the doorbell.
    pub fn next_entry(&mut self) -> (result: Option<Completion>)
        requires
            old(self).wf(),
        ensures
            final(self).wf(),
            final(self).base() == old(self).base(),
            final(self).entries() == old(self).entries(),
            ({
                let at = old(self).position() as int;
                let report = old(self).entries()[at];
                let last = at == old(self).entries().len() - 1;
                if report.phase() == old(self).expected_phase() {
                    &&& result == Some(report)
                    &&& final(self).position() == if last {
                        0
                    } else {
                        (at + 1) as u16
                    }
                    &&& final(self).expected_phase() == (old(self).expected_phase() != last)
                    &&& final(self).doorbell() == final(self).position()
                } else {
                    &&& result.is_none()
                    &&& final(self).position() == old(self).position()
                    &&& final(self).expected_phase() == old(self).expected_phase()
                    &&& final(self).doorbell() == old(self).doorbell()
                }
            }),
    {
        let completion = self.entries[self.cur_index as usize];
        if completion.phase_tag() == self.phase_tag {
            self.increment_index();
            Some(completion)
        } else {
            None
        }
    }
}

/// The first word of a command.
#[derive(Clone, Copy, Debug, PartialEq, Eq, Structural)]
pub struct Command {
    pub opcode: u8,
    pub flags: u8,
    pub command_id: u16,
}

/// The ring of commands.
pub struct SubmissionQueue {
    base: Frame,
    entries: Vec<Command>,
    doorbell: u32,
    cur_index: u16,
    unsubmitted_entries: u16,
}

impl SubmissionQueue {
    /// The frame at which the ring starts.
    pub closed spec fn base(&self) -> Frame {
        self.base
    }

    /// The commands in the ring.
    pub closed spec fn entries(&self) -> Seq<Command> {
        self.entries@
    }

    /// The index of the slot that the next command goes into.
    pub closed spec fn position(&self) -> u16 {
        self.cur_index
    }

    /// Number of commands that were written and not yet handed over.
    pub closed spec fn unsubmitted(&self) -> u16 {
        self.unsubmitted_entries
    }

    /// The value last written to the doorbell.
    pub closed spec fn doorbell(&self) -> u32 {
        self.doorbell
    }

    /// The ring is not empty, the position lies in it, and no more commands
    /// wait than it has slots.
    pub open spec fn wf(&self) -> bool {
        &&& self.position() < self.entries().len() <= u16::MAX
        &&& self.unsubmitted() <= self.entries().len()
    }

    /// A ring over the given slots, written from the start. Returns
    /// nothing for an empty ring and for one of more than 65535 slots.
    pub fn new(base: Frame, entries: Vec<Command>) -> (result: Option<SubmissionQueue>)
        ensures
            result.is_some() <==> 0 < entries@.len() <= u16::MAX,
            result.is_some() ==> {
                let queue = result.unwrap();
                &&& queue.wf()
                &&& queue.base() == base
                &&& queue.entries() == entries@
                &&& queue.position() == 0
                &&& queue.unsubmitted() == 0
                &&& queue.doorbell() == 0
            },
    {
        if entries.len() == 0 || entries.len() > 0xFFFF {
            None
        } else {
            Some(SubmissionQueue { base, entries, doorbell: 0, cur_index: 0, unsubmitted_entries: 0 })
        }
    }

    /// The physical address at which the ring starts.
    pub fn base_phys_addr(&self) -> (result: u64)
        ensures
            result == self.base()@,
    {
        self.base.get()
    }

    fn increment_index(&mut self)
        requires
            old(self).wf(),
        ensures
            final(self).entries() == old(self).entries(),
            final(self).unsubmitted() == old(self).unsubmitted(),
            final(self).doorbell() == old(self).doorbell(),
            final(self).position() == if old(self).position() == old(self).entries().len() - 1 {
                0
            } else {
                (old(self).position() + 1) as u16
            },
            final(self).wf(),
            final(self).base() == old(self).base(),
    {
        if (self.cur_index as usize) == self.entries.len() - 1 {
            self.cur_index = 0;
        } else {
            self.cur_index += 1;
        }
    }

    /// Prepares the next slot for a command with the given opcode and
    /// returns its index, if a slot is free: the slot is cleared, the opcode
    /// is set, and the position moves on, behind the last slot to the first.
    /// With every slot waiting to be handed over nothing changes.
    pub fn next_entry(&mut self, opcode: u8) -> (result: Option<u16>)
        requires
            old(self).wf(),
        ensures
            final(self).wf(),
            final(self).base() == old(self).base(),
            final(self).doorbell() == old(self).doorbell(),
            ({
                let at = old(self).position();
                if old(self).unsubmitted() < old(self).entries().len() {
                    &&& result == Some(at)
                    &&& final(self).entries() == old(self).entries().update(
                        at as int,
                        Command { opcode, flags: 0, command_id: 0 },
                    )
                    &&& final(self).unsubmitted() == old(self).unsubmitted() + 1
                    &&& final(self).position() == if at == old(self).entries().len() - 1 {
                        0
                    } else {
                        (at + 1) as u16
                    }
                } else {
                    &&& result.is_none()
                    &&& final(self).entries() == old(self).entries()
                    &&& final(self).unsubmitted() == old(self).unsubmitted()
                    &&& final(self).position() == old(self).position()
                }
            }),
    {
        if (self.unsubmitted_entries as usize) < self.entries.len() {
            let at: u16 = self.cur_index;
            self.entries.set(at as usize, Command { opcode, flags: 0, command_id: 0 });
            self.unsubmitted_entries += 1;
            self.increment_index();
            Some(at)
        } else {
            None
        }
    }

    /// Hands the written commands over: the doorbell is told the position,
    /// and no command waits any more.
    pub fn flush_commands(&mut self)
        requires
            old(self).wf(),
        ensures
            final(self).wf(),
            final(self).base() == old(self).base(),
            final(self).doorbell() == old(self).position(),
            final(self).unsubmitted() == 0,
            final(self).position() == old(self).position(),
            final(self).entries() == old(self).entries(),
    {
        self.doorbell = self.cur_index as u32;
        self.unsubmitted_entries = 0;
    }
}

} // verus!
