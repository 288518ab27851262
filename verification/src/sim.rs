//! A recorded model of the device's two memory-mapped registers.
//!
//! On hardware the transmit protocol talks to the device through volatile
//! reads of the line-status register (LSR) and volatile writes of the
//! transmit-holding register (THR). [`SimDevice`] stands for the memory
//! behind those two addresses: reading the LSR consumes a schedule of
//! status values, writing the THR captures the byte, and every access is
//! recorded in order in a trace. The protocol's guarantees — in
//! particular that a byte is written only on a poll cycle that observed
//! the ready bit set — are stated over this trace.

use vstd::prelude::*;

verus! {

use crate::device::QemuUart;

/// One access to a device register, as the device observes it: a read of
/// the line-status register returning the given value, or a write of the
/// given byte to the transmit-holding register.
pub enum RegEvent {
    Poll(u8),
    Write(u8),
}

/// The memory behind the device's registers, with every access recorded.
///
/// Successive LSR reads return `schedule[0]`, `schedule[1]`, ... in
/// order; once the schedule is exhausted the device has drained and every
/// further read returns `ready_status`. A device whose `ready_status`
/// reports the holding register empty therefore becomes ready after
/// finitely many polls — the hardware guarantee the blocking transmit
/// operations rely on.
pub struct SimDevice {
    /// Status values returned to successive LSR reads.
    pub schedule: Vec<u8>,
    /// Number of LSR reads performed so far.
    pub polls: usize,
    /// Status value returned once the schedule is exhausted.
    pub ready_status: u8,
    /// Bytes written to the THR, in order.
    pub written: Vec<u8>,
    /// Every register access, in order.
    pub trace: Vec<RegEvent>,
}

impl SimDevice {
    /// The status value the next LSR read returns when `i` reads have
    /// already happened.
    pub open spec fn status_at(self, i: int) -> u8 {
        if 0 <= i < self.schedule@.len() {
            self.schedule@[i]
        } else {
            self.ready_status
        }
    }

    /// The fields that describe the device itself, as opposed to the
    /// access history, are unchanged.
    pub open spec fn same_device(self, other: SimDevice) -> bool {
        &&& self.schedule@ == other.schedule@
        &&& self.ready_status == other.ready_status
    }

    /// A device that always reports the holding register empty.
    pub fn new_ready(ready_status: u8) -> (r: SimDevice)
        ensures
            r.schedule@.len() == 0,
            r.polls == 0,
            r.ready_status == ready_status,
            r.written@.len() == 0,
            r.trace@.len() == 0,
    {
        SimDevice { schedule: Vec::new(), polls: 0, ready_status, written: Vec::new(), trace: Vec::new() }
    }

    /// A device that answers the first polls from the given schedule and
    /// reports `ready_status` from then on.
    pub fn new_scheduled(schedule: Vec<u8>, ready_status: u8) -> (r: SimDevice)
        ensures
            r.schedule@ == schedule@,
            r.polls == 0,
            r.ready_status == ready_status,
            r.written@.len() == 0,
            r.trace@.len() == 0,
    {
        SimDevice { schedule, polls: 0, ready_status, written: Vec::new(), trace: Vec::new() }
    }

    /// One volatile read of the line-status register.
    pub fn read_lsr(&mut self) -> (r: u8)
        requires
            old(self).polls < usize::MAX,
        ensures
            r == old(self).status_at(old(self).polls as int),
            final(self).same_device(*old(self)),
            final(self).polls == old(self).polls + 1,
            final(self).written@ == old(self).written@,
            final(self).trace@ == old(self).trace@.push(RegEvent::Poll(r)),
    {
        let r: u8 = if self.polls < self.schedule.len() {
            self.schedule[self.polls]
        } else {
            self.ready_status
        };
        self.polls = self.polls + 1;
        self.trace.push(RegEvent::Poll(r));
        r
    }

    /// One volatile write of the transmit-holding register.
    pub fn write_thr(&mut self, byte: u8)
        ensures
            final(self).same_device(*old(self)),
            final(self).polls == old(self).polls,
            final(self).written@ == old(self).written@.push(byte),
            final(self).trace@ == old(self).trace@.push(RegEvent::Write(byte)),
    {
        self.written.push(byte);
        self.trace.push(RegEvent::Write(byte));
    }
}

/// The poll-then-write discipline: every write in the trace happens on a
/// poll cycle that observed the ready bit — it is immediately preceded by
/// a status read whose value, masked, was non-zero.
pub open spec fn poll_then_write(trace: Seq<RegEvent>, mask: u8) -> bool {
    forall|i: int|
        0 <= i < trace.len() && trace[i] is Write ==> #[trigger] trace[i] is Write && i >= 1
            && (trace[i - 1] matches RegEvent::Poll(s) && s & mask != 0)
}

/// The poll-then-write discipline holds of a fresh device's empty trace;
/// every transmit operation states that it preserves the discipline, so
/// it holds of every trace the protocol builds.
pub proof fn lemma_ptw_fresh(mask: u8)
    ensures
        poll_then_write(Seq::<RegEvent>::empty(), mask),
{
}

/// The last recorded access is a status read that observed the ready
/// bit: what holds of the trace right after a drain wait.
pub open spec fn last_is_ready_poll(trace: Seq<RegEvent>, mask: u8) -> bool {
    trace.len() > 0 && (trace.last() matches RegEvent::Poll(s) && s & mask != 0)
}

/// Observing one more status value keeps the poll-then-write discipline.
pub proof fn lemma_ptw_push_poll(trace: Seq<RegEvent>, mask: u8, s: u8)
    requires
        poll_then_write(trace, mask),
    ensures
        poll_then_write(trace.push(RegEvent::Poll(s)), mask),
{
}

/// Writing a byte right after observing a ready status keeps the
/// poll-then-write discipline.
pub proof fn lemma_ptw_push_write(trace: Seq<RegEvent>, mask: u8, s: u8, byte: u8)
    requires
        poll_then_write(trace, mask),
        s & mask != 0,
    ensures
        poll_then_write(trace.push(RegEvent::Poll(s)).push(RegEvent::Write(byte)), mask),
{
    let t = trace.push(RegEvent::Poll(s)).push(RegEvent::Write(byte));
    assert forall|i: int| 0 <= i < t.len() && t[i] is Write implies i >= 1
        && (t[i - 1] matches RegEvent::Poll(p) && p & mask != 0) by {
        if i < trace.len() {
            assert(trace[i] is Write);
        }
    }
}

} // verus!
