//! The register-level transmit protocol: poll the line-status register,
//! write a byte to the transmit-holding register only when the ready bit
//! was observed set.

use vstd::prelude::*;

verus! {

use crate::device::QemuUart;
use crate::device::UARTError;
use crate::sim::RegEvent;
use crate::sim::SimDevice;
use crate::sim::last_is_ready_poll;
use crate::sim::lemma_ptw_push_poll;
use crate::sim::lemma_ptw_push_write;
use crate::sim::poll_then_write;

/// An upper bound on the poll counter: the larger of the counter and
/// the schedule's length, plus headroom for the given number of further
/// successful polls. Every transmit operation keeps the counter under
/// this bound, which is what lets callers chain calls without the
/// counter's overflow check failing.
pub open spec fn polls_cap(dev: SimDevice, extra: int) -> int {
    (if dev.polls >= dev.schedule@.len() {
        dev.polls as int
    } else {
        dev.schedule@.len() as int
    }) + extra
}

/// The index of the first poll at or after `i` that observes a ready
/// status. Beyond the schedule the device reports `ready_status`, so when
/// that value is ready the search stops at the schedule's end at the
/// latest.
pub open spec fn first_ready_from(uart: QemuUart, dev: SimDevice, i: int) -> int
    decreases dev.schedule@.len() - i,
{
    if i >= dev.schedule@.len() || uart.spec_ready(dev.status_at(i)) {
        i
    } else {
        first_ready_from(uart, dev, i + 1)
    }
}

/// What `first_ready_from` finds, spelled out: it is the least index at
/// or after `i` whose status is ready, and it lies no further out than
/// the schedule's end (for a device whose drained status is ready).
proof fn lemma_first_ready_props(uart: QemuUart, dev: SimDevice, i: int)
    requires
        uart.spec_ready(dev.ready_status),
        0 <= i,
    ensures
        i <= first_ready_from(uart, dev, i),
        first_ready_from(uart, dev, i) <= dev.schedule@.len() || first_ready_from(uart, dev, i) == i,
        uart.spec_ready(dev.status_at(first_ready_from(uart, dev, i))),
        forall|j: int| i <= j < first_ready_from(uart, dev, i) ==> !uart.spec_ready(#[trigger] dev.status_at(j)),
    decreases dev.schedule@.len() - i,
{
    if i >= dev.schedule@.len() || uart.spec_ready(dev.status_at(i)) {
    } else {
        lemma_first_ready_props(uart, dev, i + 1);
    }
}

impl QemuUart {
    /// One non-blocking transmit attempt: read the status register once;
    /// if the ready bit is set, write the byte to the transmit register
    /// and succeed; otherwise change nothing on the device and report it
    /// busy. Success happens if and only if the poll observed a ready
    /// status.
    pub fn try_transmit_byte(&self, dev: &mut SimDevice, byte: u8) -> (r: Result<(), UARTError>)
        requires
            old(dev).polls < usize::MAX,
        ensures
            final(dev).same_device(*old(dev)),
            final(dev).polls == old(dev).polls + 1,
            r is Ok <==> self.spec_ready(old(dev).status_at(old(dev).polls as int)),
            ({
                let s = old(dev).status_at(old(dev).polls as int);
                if self.spec_ready(s) {
                    &&& final(dev).written@ == old(dev).written@.push(byte)
                    &&& final(dev).trace@ == old(dev).trace@.push(RegEvent::Poll(s)).push(
                        RegEvent::Write(byte),
                    )
                } else {
                    &&& r matches Err(UARTError::NonEmptyLSR)
                    &&& final(dev).written@ == old(dev).written@
                    &&& final(dev).trace@ == old(dev).trace@.push(RegEvent::Poll(s))
                }
            }),
            poll_then_write(old(dev).trace@, self.lsr_empty_mask) ==> poll_then_write(
                final(dev).trace@,
                self.lsr_empty_mask,
            ),
    {
        let status = dev.read_lsr();
        if self.ready(status) {
            dev.write_thr(byte);
            proof {
                if poll_then_write(old(dev).trace@, self.lsr_empty_mask) {
                    lemma_ptw_push_write(old(dev).trace@, self.lsr_empty_mask, status, byte);
                }
            }
            Ok(())
        } else {
            proof {
                if poll_then_write(old(dev).trace@, self.lsr_empty_mask) {
                    lemma_ptw_push_poll(old(dev).trace@, self.lsr_empty_mask, status);
                }
            }
            Err(UARTError::NonEmptyLSR)
        }
    }

    /// Transmits one byte, blocking: retries the non-blocking attempt in
    /// a tight loop until it succeeds. The poll count ends exactly one
    /// past the first ready poll, so the byte is written on that poll and
    /// on no earlier one. Unbounded in principle, the wait ends because
    /// a drained device reports ready.
    pub fn transmit_byte(&self, dev: &mut SimDevice, byte: u8)
        requires
            self.wf(),
            self.spec_ready(old(dev).ready_status),
            old(dev).polls < usize::MAX,
            old(dev).schedule@.len() < usize::MAX,
        ensures
            final(dev).same_device(*old(dev)),
            final(dev).written@ == old(dev).written@.push(byte),
            final(dev).polls == first_ready_from(*self, *old(dev), old(dev).polls as int) + 1,
            final(dev).polls <= polls_cap(*old(dev), 1),
            old(dev).trace@.is_prefix_of(final(dev).trace@),
            final(dev).trace@.len() >= old(dev).trace@.len() + 2,
            final(dev).trace@.last() == RegEvent::Write(byte),
            poll_then_write(old(dev).trace@, self.lsr_empty_mask) ==> poll_then_write(
                final(dev).trace@,
                self.lsr_empty_mask,
            ),
    {
        let ghost fr = first_ready_from(*self, *old(dev), old(dev).polls as int);
        proof {
            lemma_first_ready_props(*self, *old(dev), old(dev).polls as int);
        }
        loop
            invariant
                self.wf(),
                dev.same_device(*old(dev)),
                dev.written@ == old(dev).written@,
                old(dev).polls <= dev.polls <= fr,
                fr == first_ready_from(*self, *old(dev), old(dev).polls as int),
                fr <= old(dev).schedule@.len() || fr == old(dev).polls,
                old(dev).polls < usize::MAX,
                old(dev).schedule@.len() < usize::MAX,
                self.spec_ready(old(dev).status_at(fr)),
                forall|j: int|
                    old(dev).polls <= j < fr ==> !self.spec_ready(#[trigger] old(dev).status_at(j)),
                old(dev).trace@.is_prefix_of(dev.trace@),
                poll_then_write(old(dev).trace@, self.lsr_empty_mask) ==> poll_then_write(
                    dev.trace@,
                    self.lsr_empty_mask,
                ),
            decreases fr - dev.polls,
        {
            let ghost pre = *dev;
            assert(pre.status_at(pre.polls as int) == old(dev).status_at(pre.polls as int));
            match self.try_transmit_byte(dev, byte) {
                Ok(()) => {
                    proof {
                        assert(pre.polls == fr);
                        assert(old(dev).trace@.is_prefix_of(dev.trace@)) by {
                            lemma_prefix_extended(old(dev).trace@, pre.trace@, dev.trace@);
                        }
                    }
                    return;
                },
                Err(_) => {
                    proof {
                        assert(pre.polls < fr);
                        assert(old(dev).trace@.is_prefix_of(dev.trace@)) by {
                            lemma_prefix_extended(old(dev).trace@, pre.trace@, dev.trace@);
                        }
                    }
                },
            }
        }
    }

    /// Busy-waits until the status register reports the holding register
    /// empty: the drain step of the transmit protocol. Writes nothing;
    /// the last recorded access is the poll that observed the ready bit.
    pub fn wait_ready(&self, dev: &mut SimDevice)
        requires
            self.wf(),
            self.spec_ready(old(dev).ready_status),
            old(dev).polls < usize::MAX,
            old(dev).schedule@.len() < usize::MAX,
        ensures
            final(dev).same_device(*old(dev)),
            final(dev).written@ == old(dev).written@,
            final(dev).polls == first_ready_from(*self, *old(dev), old(dev).polls as int) + 1,
            final(dev).polls <= polls_cap(*old(dev), 1),
            old(dev).trace@.is_prefix_of(final(dev).trace@),
            final(dev).trace@.len() >= old(dev).trace@.len() + 1,
            ({
                let s = old(dev).status_at(first_ready_from(*self, *old(dev), old(dev).polls as int));
                final(dev).trace@.last() == RegEvent::Poll(s) && self.spec_ready(s)
            }),
            poll_then_write(old(dev).trace@, self.lsr_empty_mask) ==> poll_then_write(
                final(dev).trace@,
                self.lsr_empty_mask,
            ),
    {
        let ghost fr = first_ready_from(*self, *old(dev), old(dev).polls as int);
        proof {
            lemma_first_ready_props(*self, *old(dev), old(dev).polls as int);
        }
        loop
            invariant
                self.wf(),
                dev.same_device(*old(dev)),
                dev.written@ == old(dev).written@,
                old(dev).polls <= dev.polls <= fr,
                fr == first_ready_from(*self, *old(dev), old(dev).polls as int),
                fr <= old(dev).schedule@.len() || fr == old(dev).polls,
                old(dev).polls < usize::MAX,
                old(dev).schedule@.len() < usize::MAX,
                self.spec_ready(old(dev).status_at(fr)),
                forall|j: int|
                    old(dev).polls <= j < fr ==> !self.spec_ready(#[trigger] old(dev).status_at(j)),
                old(dev).trace@.is_prefix_of(dev.trace@),
                poll_then_write(old(dev).trace@, self.lsr_empty_mask) ==> poll_then_write(
                    dev.trace@,
                    self.lsr_empty_mask,
                ),
            decreases fr - dev.polls,
        {
            let ghost pre = *dev;
            assert(pre.status_at(pre.polls as int) == old(dev).status_at(pre.polls as int));
            let status = dev.read_lsr();
            proof {
                if poll_then_write(pre.trace@, self.lsr_empty_mask) {
                    lemma_ptw_push_poll(pre.trace@, self.lsr_empty_mask, status);
                }
                lemma_prefix_extended(old(dev).trace@, pre.trace@, dev.trace@);
            }
            if self.ready(status) {
                proof {
                    assert(pre.polls == fr);
                }
                return;
            }
            proof {
                assert(pre.polls < fr);
            }
        }
    }
    /// Transmits a whole message: every byte in order, each through the
    /// blocking single-byte transmit. With `drain_after_last` set the
    /// call additionally busy-waits, after the final byte, until the
    /// status register reports ready again, so the caller regains
    /// control only once the holding register has drained; without it
    /// the call returns as soon as the last byte is accepted.
    #[verifier::rlimit(50)]
    pub fn transmit_string(&self, dev: &mut SimDevice, msg: &[u8], drain_after_last: bool)
        requires
            self.wf(),
            self.spec_ready(old(dev).ready_status),
            old(dev).polls + msg@.len() < usize::MAX,
            old(dev).schedule@.len() + msg@.len() < usize::MAX,
        ensures
            final(dev).same_device(*old(dev)),
            final(dev).written@ == old(dev).written@ + msg@,
            final(dev).polls <= polls_cap(*old(dev), msg@.len() + 1int),
            old(dev).trace@.is_prefix_of(final(dev).trace@),
            drain_after_last ==> last_is_ready_poll(final(dev).trace@, self.lsr_empty_mask),
            !drain_after_last && msg@.len() > 0 ==> final(dev).trace@.last() == RegEvent::Write(
                msg@.last(),
            ),
            poll_then_write(old(dev).trace@, self.lsr_empty_mask) ==> poll_then_write(
                final(dev).trace@,
                self.lsr_empty_mask,
            ),
    {
        let ghost max0: int = if old(dev).polls >= old(dev).schedule@.len() {
            old(dev).polls as int
        } else {
            old(dev).schedule@.len() as int
        };
        let mut i: usize = 0;
        while i < msg.len()
            invariant
                self.wf(),
                i <= msg@.len(),
                dev.same_device(*old(dev)),
                self.spec_ready(dev.ready_status),
                dev.written@ == old(dev).written@ + msg@.take(i as int),
                dev.polls <= max0 + i,
                max0 == polls_cap(*old(dev), 0),
                old(dev).polls + msg@.len() < usize::MAX,
                old(dev).schedule@.len() + msg@.len() < usize::MAX,
                max0 == if old(dev).polls >= old(dev).schedule@.len() {
                    old(dev).polls as int
                } else {
                    old(dev).schedule@.len() as int
                },
                old(dev).trace@.is_prefix_of(dev.trace@),
                i > 0 ==> dev.trace@.len() > 0 && dev.trace@.last() == RegEvent::Write(
                    msg@[i - 1],
                ),
                poll_then_write(old(dev).trace@, self.lsr_empty_mask) ==> poll_then_write(
                    dev.trace@,
                    self.lsr_empty_mask,
                ),
            decreases msg@.len() - i,
        {
            let ghost pre = *dev;
            self.transmit_byte(dev, msg[i]);
            proof {
                lemma_first_ready_props(*self, pre, pre.polls as int);
                lemma_prefix_extended(old(dev).trace@, pre.trace@, dev.trace@);
                assert(dev.written@ =~= old(dev).written@ + msg@.take(i + 1));
            }
            i = i + 1;
        }
        proof {
            assert(msg@.take(msg@.len() as int) =~= msg@);
        }
        if drain_after_last {
            let ghost pre = *dev;
            self.wait_ready(dev);
            proof {
                lemma_prefix_extended(old(dev).trace@, pre.trace@, dev.trace@);
            }
        }
    }
}

/// A prefix of a sequence stays a prefix when the sequence grows at the
/// end.
proof fn lemma_prefix_extended(a: Seq<RegEvent>, b: Seq<RegEvent>, c: Seq<RegEvent>)
    requires
        a.is_prefix_of(b),
        b.is_prefix_of(c),
    ensures
        a.is_prefix_of(c),
{
    assert(c.take(a.len() as int) =~= b.take(a.len() as int));
}

} // verus!
