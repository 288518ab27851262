//! The synchronized output facility: pushes a whole rendered message
//! through the transmit protocol while holding the exclusion primitive,
//! so that concurrent callers' messages never interleave at the byte
//! level.
//!
//! The facility takes the message already rendered to bytes; turning a
//! format template and arguments into bytes is the callers'
//! convenience-layer concern and carries no device logic.

use vstd::prelude::*;

verus! {

use crate::device::QemuUart;
use crate::lock::SpinFlag;
use crate::sim::RegEvent;
use crate::sim::SimDevice;
use crate::sim::last_is_ready_poll;
use crate::sim::poll_then_write;
use crate::transmit::polls_cap;

/// Which exclusion strategy guards the transmitter: a busy-wait spinlock,
/// or the global critical section entered through the `critical_section`
/// crate.
#[derive(Clone, Copy)]
pub enum Strategy {
    Spinlock,
    CriticalSection,
}

/// Relies on `critical_section::with`: it enters the one global critical
/// section, runs the closure exactly once with the section token,
/// leaves the section on exit, and returns the closure's result. The
/// closure does nothing but call the verified transmit protocol, so what
/// holds of `transmit_string` holds of this call.
#[verifier::external_body]
fn transmit_in_critical_section(
    uart: &QemuUart,
    dev: &mut SimDevice,
    msg: &[u8],
    drain_after_last: bool,
)
    requires
        uart.wf(),
        uart.spec_ready(old(dev).ready_status),
        old(dev).polls + msg@.len() < usize::MAX,
        old(dev).schedule@.len() + msg@.len() < usize::MAX,
    ensures
        final(dev).same_device(*old(dev)),
        final(dev).written@ == old(dev).written@ + msg@,
        final(dev).polls <= polls_cap(*old(dev), msg@.len() + 1int),
        old(dev).trace@.is_prefix_of(final(dev).trace@),
        drain_after_last ==> last_is_ready_poll(final(dev).trace@, uart.lsr_empty_mask),
        !drain_after_last && msg@.len() > 0 ==> final(dev).trace@.last() == RegEvent::Write(
            msg@.last(),
        ),
        poll_then_write(old(dev).trace@, uart.lsr_empty_mask) ==> poll_then_write(
            final(dev).trace@,
            uart.lsr_empty_mask,
        ),
{
    critical_section::with(|_cs| uart.transmit_string(dev, msg, drain_after_last))
}

/// The output facility: one exclusion strategy chosen at construction,
/// the spinlock flag it owns, and whether each message should drain the
/// holding register after its last byte.
pub struct Facility {
    pub strategy: Strategy,
    pub drain_after_last: bool,
    pub lock: SpinFlag,
}

impl Facility {
    /// Between calls the facility's lock is free: every call releases on
    /// every exit path.
    pub open spec fn wf(self) -> bool {
        !self.lock.held
    }

    /// A facility with the given strategy and drain option, its lock
    /// free.
    pub fn new(strategy: Strategy, drain_after_last: bool) -> (r: Facility)
        ensures
            r.wf(),
            r.strategy == strategy,
            r.drain_after_last == drain_after_last,
    {
        Facility { strategy, drain_after_last, lock: SpinFlag::new() }
    }

    /// Emits one rendered message as one atomic unit: acquires the
    /// exclusion primitive, transmits every byte in order through the
    /// poll-then-write protocol, and releases the primitive before
    /// returning.
    pub fn print(&mut self, uart: &QemuUart, dev: &mut SimDevice, msg: &[u8])
        requires
            old(self).wf(),
            uart.wf(),
            uart.spec_ready(old(dev).ready_status),
            old(dev).polls + msg@.len() < usize::MAX,
            old(dev).schedule@.len() + msg@.len() < usize::MAX,
        ensures
            final(self).wf(),
            final(self).strategy == old(self).strategy,
            final(self).drain_after_last == old(self).drain_after_last,
            final(dev).same_device(*old(dev)),
            final(dev).written@ == old(dev).written@ + msg@,
            final(dev).polls <= polls_cap(*old(dev), msg@.len() + 1int),
            old(dev).trace@.is_prefix_of(final(dev).trace@),
            old(self).drain_after_last ==> last_is_ready_poll(final(dev).trace@, uart.lsr_empty_mask),
            !old(self).drain_after_last && msg@.len() > 0 ==> final(dev).trace@.last()
                == RegEvent::Write(msg@.last()),
            poll_then_write(old(dev).trace@, uart.lsr_empty_mask) ==> poll_then_write(
                final(dev).trace@,
                uart.lsr_empty_mask,
            ),
    {
        match self.strategy {
            Strategy::Spinlock => {
                self.lock.try_acquire();
                uart.transmit_string(dev, msg, self.drain_after_last);
                self.lock.release();
            },
            Strategy::CriticalSection => {
                transmit_in_critical_section(uart, dev, msg, self.drain_after_last);
            },
        }
    }

    /// Like [`Facility::print`], with a line terminator appended to the
    /// message; message and terminator go out as one atomic unit.
    pub fn println(&mut self, uart: &QemuUart, dev: &mut SimDevice, msg: &[u8])
        requires
            old(self).wf(),
            uart.wf(),
            uart.spec_ready(old(dev).ready_status),
            old(dev).polls + msg@.len() + 1 < usize::MAX,
            old(dev).schedule@.len() + msg@.len() + 1 < usize::MAX,
        ensures
            final(self).wf(),
            final(self).strategy == old(self).strategy,
            final(self).drain_after_last == old(self).drain_after_last,
            final(dev).same_device(*old(dev)),
            final(dev).written@ == old(dev).written@ + msg@ + seq![10u8],
            final(dev).polls <= polls_cap(*old(dev), msg@.len() + 2int),
            old(dev).trace@.is_prefix_of(final(dev).trace@),
            poll_then_write(old(dev).trace@, uart.lsr_empty_mask) ==> poll_then_write(
                final(dev).trace@,
                uart.lsr_empty_mask,
            ),
    {
        let mut line: Vec<u8> = Vec::new();
        let mut i: usize = 0;
        while i < msg.len()
            invariant
                i <= msg@.len(),
                line@ == msg@.take(i as int),
            decreases msg@.len() - i,
        {
            line.push(msg[i]);
            proof {
                assert(line@ =~= msg@.take(i + 1));
            }
            i = i + 1;
        }
        line.push(10u8);
        proof {
            assert(msg@.take(msg@.len() as int) =~= msg@);
            assert(line@ =~= msg@ + seq![10u8]);
        }
        self.print(uart, dev, line.as_slice());
        proof {
            assert(dev.written@ =~= old(dev).written@ + msg@ + seq![10u8]);
        }
    }
}

} // verus!
