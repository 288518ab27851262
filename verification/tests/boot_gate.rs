use qemu_uart::gate::BootFlag;
use qemu_uart::gate::GateOp;
use qemu_uart::gate::GateSim;
use qemu_uart::gate::check_flag;
use qemu_uart::gate::mp_hook_step;
use qemu_uart::gate::set_flag;

#[test]
fn flag_starts_not_ready_and_sets_once() {
    let mut flag = BootFlag::new();
    assert!(!check_flag(&flag));
    set_flag(&mut flag);
    assert!(check_flag(&flag));
}

#[test]
fn hook_primary_proceeds_at_once() {
    let flag = BootFlag::new();
    assert_eq!(mp_hook_step(&flag, 0), Some(true));
}

#[test]
fn hook_secondary_spins_until_ready() {
    let mut flag = BootFlag::new();
    assert_eq!(mp_hook_step(&flag, 1), None);
    assert_eq!(mp_hook_step(&flag, 1), None);
    set_flag(&mut flag);
    assert_eq!(mp_hook_step(&flag, 1), Some(false));
}

#[test]
fn secondary_hart_blocks_until_primary_signals() {
    // Hart 1 polls the barrier before hart 0 has signalled: it stays
    // blocked. After hart 0's signal one poll releases it, and it stays
    // released.
    let mut gate = GateSim::new(2);
    gate.step(1, GateOp::Poll);
    assert!(!gate.is_released(1));
    gate.step(1, GateOp::Poll);
    assert!(!gate.is_released(1));
    gate.step(0, GateOp::Signal);
    gate.step(1, GateOp::Poll);
    assert!(gate.is_released(1));
    gate.step(1, GateOp::Poll);
    assert!(gate.is_released(1));
}

#[test]
fn signal_by_secondary_hart_changes_nothing() {
    // Only the primary hart's signal moves the barrier.
    let mut gate = GateSim::new(2);
    gate.step(1, GateOp::Signal);
    gate.step(1, GateOp::Poll);
    assert!(!gate.is_released(1));
    gate.step(0, GateOp::Signal);
    gate.step(1, GateOp::Poll);
    assert!(gate.is_released(1));
}
