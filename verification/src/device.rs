//! The device description: register addresses and the ready mask.

use vstd::prelude::*;

verus! {

/// Error returned by a single non-blocking transmit attempt: the line
/// status register did not report the transmit-holding register empty.
#[non_exhaustive]
pub enum UARTError {
    NonEmptyLSR,
}

/// Address layout of one UART16550-class transmitter: the base address,
/// the transmit-holding register (THR) and line-status register (LSR)
/// addresses, and the LSR bit (or bit group) that reports the holding
/// register empty.
///
/// The addresses are plain integers: the raw volatile accesses behind
/// them are hardware operations performed by the platform glue, while
/// everything this library proves about the device goes through the
/// recorded register model in [`crate::sim`].
pub struct QemuUart {
    pub base: usize,
    pub thr: usize,
    pub lsr: usize,
    pub lsr_empty_mask: u8,
}

impl QemuUart {
    /// The addresses are fixed for the device's lifetime: the THR is the
    /// base address, the LSR lies at or above it, and the ready mask
    /// names at least one status bit (a zero mask could never report the
    /// device ready, so every transmit would hang forever).
    pub open spec fn wf(self) -> bool {
        &&& self.thr == self.base
        &&& self.base <= self.lsr
        &&& self.lsr_empty_mask != 0
    }

    /// Whether an observed LSR value reports the holding register empty.
    pub open spec fn spec_ready(self, status: u8) -> bool {
        status & self.lsr_empty_mask != 0
    }

    /// The poll decision of the transmit protocol: a byte may be written
    /// exactly when the observed status has a ready bit set.
    pub fn ready(&self, status: u8) -> (r: bool)
        ensures
            r == self.spec_ready(status),
    {
        status & self.lsr_empty_mask != 0
    }
}

/// The whole transmitter as the process owns it: one device description,
/// constructed once at startup and never reassigned.
pub struct Uart {
    pub uart: QemuUart,
}

impl Uart {
    /// Builds the device description from the base address, the offset of
    /// the line-status register and the ready mask.
    pub fn new(base: usize, lsr_offset: usize, lsr_empty_mask: u8) -> (r: Self)
        requires
            base + lsr_offset <= usize::MAX,
            lsr_empty_mask != 0,
        ensures
            r.uart.wf(),
            r.uart.base == base,
            r.uart.thr == base,
            r.uart.lsr == base + lsr_offset,
            r.uart.lsr_empty_mask == lsr_empty_mask,
    {
        Self {
            uart: QemuUart {
                base,
                thr: base,
                lsr: base + lsr_offset,
                lsr_empty_mask,
            },
        }
    }
}

} // verus!
