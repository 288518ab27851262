//! A verified model of a polled, memory-mapped serial transmitter
//! (UART16550-class) shared by several hardware execution contexts
//! ("harts") on a bare-metal machine.
//!
//! The library verifies the three coupled pieces that make such a device
//! safe to share without an operating system:
//!
//! * the register-level transmit protocol (poll the line-status register,
//!   write the transmit-holding register only when the ready bit was
//!   observed set);
//! * the exclusion primitive that serializes whole messages across harts
//!   (a spinlock model, and a critical-section strategy backed by the
//!   `critical_section` crate);
//! * the boot readiness gate that keeps secondary harts from running past
//!   a checkpoint before the primary hart signals readiness.
//!
//! Register accesses are modelled by [`sim::SimDevice`], which stands for
//! the memory behind the device's addresses and records every access, so
//! that the protocol's ordering guarantees are stated and proved over the
//! recorded trace. The raw volatile accesses themselves are hardware
//! operations and live with the platform entry glue, outside this crate.

pub mod device;
pub mod gate;
pub mod interleave;
pub mod lock;
pub mod output;
pub mod sim;
pub mod transmit;

pub use device::QemuUart;
pub use device::UARTError;
pub use device::Uart;
