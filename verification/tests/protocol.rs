use qemu_uart::QemuUart;
use qemu_uart::UARTError;
use qemu_uart::Uart;
use qemu_uart::output::Facility;
use qemu_uart::output::Strategy;
use qemu_uart::sim::RegEvent;
use qemu_uart::sim::SimDevice;

const BASE: usize = 0x1000_0000;
const LSR_OFFSET: usize = 5;
const READY_MASK: u8 = 0x20;

fn qemu_virt_uart() -> QemuUart {
    Uart::new(BASE, LSR_OFFSET, READY_MASK).uart
}

#[test]
fn uart_new_register_layout() {
    let uart = Uart::new(BASE, LSR_OFFSET, READY_MASK);
    assert_eq!(uart.uart.base, BASE);
    assert_eq!(uart.uart.thr, BASE);
    assert_eq!(uart.uart.lsr, BASE + LSR_OFFSET);
    assert_eq!(uart.uart.lsr_empty_mask, READY_MASK);
}

#[test]
fn ready_decision_masks_status() {
    let uart = qemu_virt_uart();
    assert!(uart.ready(0x20));
    assert!(uart.ready(0xff));
    assert!(!uart.ready(0x00));
    assert!(!uart.ready(0xdf));
}

#[test]
fn try_transmit_on_ready_device_writes() {
    let uart = qemu_virt_uart();
    let mut dev = SimDevice::new_ready(0x20);
    let r = uart.try_transmit_byte(&mut dev, 0x41);
    assert!(r.is_ok());
    assert_eq!(dev.written, vec![0x41]);
    assert_eq!(dev.polls, 1);
}

#[test]
fn try_transmit_on_busy_device_reports_busy() {
    let uart = qemu_virt_uart();
    let mut dev = SimDevice::new_scheduled(vec![0x00], 0x20);
    let r = uart.try_transmit_byte(&mut dev, 0x41);
    assert!(matches!(r, Err(UARTError::NonEmptyLSR)));
    assert!(dev.written.is_empty());
    assert_eq!(dev.polls, 1);
}

#[test]
fn transmit_byte_succeeds_on_second_poll() {
    // The ready bit starts clear and comes up on the second poll: the
    // write happens on exactly that poll cycle.
    let uart = qemu_virt_uart();
    let mut dev = SimDevice::new_scheduled(vec![0x00, 0x20], 0x20);
    uart.transmit_byte(&mut dev, 0x41);
    assert_eq!(dev.polls, 2);
    assert_eq!(dev.written, vec![0x41]);
    assert_eq!(dev.trace.len(), 3);
    assert!(matches!(dev.trace[0], RegEvent::Poll(0x00)));
    assert!(matches!(dev.trace[1], RegEvent::Poll(0x20)));
    assert!(matches!(dev.trace[2], RegEvent::Write(0x41)));
}

#[test]
fn transmit_byte_toggling_ready_bit() {
    // Clear/set alternating status: each byte goes out on the poll that
    // observed the bit set, never on one that observed it clear.
    let uart = qemu_virt_uart();
    let mut dev = SimDevice::new_scheduled(vec![0x00, 0x20, 0x00, 0x20], 0x20);
    uart.transmit_byte(&mut dev, 0x41);
    uart.transmit_byte(&mut dev, 0x42);
    assert_eq!(dev.polls, 4);
    assert_eq!(dev.written, vec![0x41, 0x42]);
    for i in 0..dev.trace.len() {
        if matches!(dev.trace[i], RegEvent::Write(_)) {
            assert!(i >= 1);
            match dev.trace[i - 1] {
                RegEvent::Poll(s) => assert!(s & READY_MASK != 0),
                RegEvent::Write(_) => panic!("write not preceded by a poll"),
            }
        }
    }
}

#[test]
fn transmit_string_sends_bytes_in_order() {
    let uart = qemu_virt_uart();
    let mut dev = SimDevice::new_ready(0x20);
    uart.transmit_string(&mut dev, b"abc", false);
    assert_eq!(dev.written, b"abc".to_vec());
}

#[test]
fn transmit_string_drain_waits_for_ready() {
    // One ready poll for the byte, then a busy poll, then ready again:
    // with the drain option the call keeps polling until the ready bit
    // reappears after the last byte.
    let uart = qemu_virt_uart();
    let mut dev = SimDevice::new_scheduled(vec![0x20, 0x00, 0x20], 0x20);
    uart.transmit_string(&mut dev, &[0x41], true);
    assert_eq!(dev.written, vec![0x41]);
    assert_eq!(dev.polls, 3);
    assert!(matches!(dev.trace.last(), Some(RegEvent::Poll(0x20))));
}

#[test]
fn transmit_string_without_drain_returns_at_last_byte() {
    let uart = qemu_virt_uart();
    let mut dev = SimDevice::new_scheduled(vec![0x20, 0x00, 0x20], 0x20);
    uart.transmit_string(&mut dev, &[0x41], false);
    assert_eq!(dev.written, vec![0x41]);
    assert_eq!(dev.polls, 1);
    assert!(matches!(dev.trace.last(), Some(RegEvent::Write(0x41))));
}

#[test]
fn print_on_always_ready_device() {
    // Simulated device always ready: print("hi") comes out as "hi".
    let uart = qemu_virt_uart();
    let mut dev = SimDevice::new_ready(0x20);
    let mut facility = Facility::new(Strategy::Spinlock, false);
    facility.print(&uart, &mut dev, b"hi");
    assert_eq!(dev.written, b"hi".to_vec());
}

#[test]
fn print_through_critical_section() {
    // The critical-section strategy goes through the `critical_section`
    // crate and must transmit the same bytes.
    let uart = qemu_virt_uart();
    let mut dev = SimDevice::new_ready(0x20);
    let mut facility = Facility::new(Strategy::CriticalSection, true);
    facility.print(&uart, &mut dev, b"hello");
    assert_eq!(dev.written, b"hello".to_vec());
    assert!(matches!(dev.trace.last(), Some(RegEvent::Poll(0x20))));
}

#[test]
fn println_appends_line_terminator() {
    let uart = qemu_virt_uart();
    let mut dev = SimDevice::new_ready(0x20);
    let mut facility = Facility::new(Strategy::Spinlock, false);
    facility.println(&uart, &mut dev, b"hi");
    assert_eq!(dev.written, b"hi\n".to_vec());
}

#[test]
fn messages_accumulate_in_call_order() {
    let uart = qemu_virt_uart();
    let mut dev = SimDevice::new_ready(0x20);
    let mut facility = Facility::new(Strategy::Spinlock, false);
    facility.print(&uart, &mut dev, b"one ");
    facility.print(&uart, &mut dev, b"two");
    assert_eq!(dev.written, b"one two".to_vec());
}
