use qemu_uart::interleave::DuoSim;
use qemu_uart::lock::LockOp;
use qemu_uart::lock::LockSim;
use qemu_uart::lock::SpinFlag;

fn holders(sim: &LockSim, n: usize) -> usize {
    let mut count = 0;
    for caller in 0..n {
        if sim.is_inside(caller) {
            count += 1;
        }
    }
    count
}

#[test]
fn spin_flag_compare_and_swap() {
    let mut flag = SpinFlag::new();
    assert!(flag.try_acquire());
    assert!(!flag.try_acquire());
    flag.release();
    assert!(flag.try_acquire());
}

#[test]
fn holder_count_never_exceeds_one() {
    // Three simulated callers hammer the lock in a fixed interleaving;
    // after every step at most one of them is inside.
    let n = 3;
    let mut sim = LockSim::new(n);
    let schedule = [
        (0, LockOp::Acquire),
        (1, LockOp::Acquire),
        (2, LockOp::Acquire),
        (0, LockOp::Release),
        (1, LockOp::Acquire),
        (2, LockOp::Acquire),
        (1, LockOp::Release),
        (2, LockOp::Acquire),
        (0, LockOp::Acquire),
        (2, LockOp::Release),
        (0, LockOp::Release),
    ];
    for (caller, op) in schedule {
        sim.step(caller, op);
        assert!(holders(&sim, n) <= 1);
    }
}

#[test]
fn contended_acquire_fails_until_release() {
    let mut sim = LockSim::new(2);
    sim.step(0, LockOp::Acquire);
    assert!(sim.is_inside(0));
    sim.step(1, LockOp::Acquire);
    assert!(!sim.is_inside(1));
    sim.step(0, LockOp::Release);
    assert!(!sim.is_inside(0));
    sim.step(1, LockOp::Acquire);
    assert!(sim.is_inside(1));
}

#[test]
fn release_by_outsider_changes_nothing() {
    let mut sim = LockSim::new(2);
    sim.step(0, LockOp::Acquire);
    sim.step(1, LockOp::Release);
    assert!(sim.is_inside(0));
    sim.step(1, LockOp::Acquire);
    assert!(!sim.is_inside(1));
}

fn run_until_done(sim: &mut DuoSim, schedule: &[usize]) {
    let mut i = 0;
    while !(sim.is_done(0) && sim.is_done(1)) {
        sim.step(schedule[i % schedule.len()]);
        i += 1;
        assert!(i < 10_000, "interleaving did not finish");
    }
}

#[test]
fn concurrent_prints_first_caller_wins() {
    // Strict alternation starting with caller 0: caller 0 enters first,
    // caller 1 spins until the release, so the output is "AAABBB".
    let mut sim = DuoSim::new(b"AAA".to_vec(), b"BBB".to_vec());
    run_until_done(&mut sim, &[0, 1]);
    assert_eq!(sim.out, b"AAABBB".to_vec());
}

#[test]
fn concurrent_prints_second_caller_wins() {
    let mut sim = DuoSim::new(b"AAA".to_vec(), b"BBB".to_vec());
    run_until_done(&mut sim, &[1, 0]);
    assert_eq!(sim.out, b"BBBAAA".to_vec());
}

#[test]
fn concurrent_prints_never_interleave_bytes() {
    // Whatever the interleaving, the output is one message and then the
    // other, never a byte-level shuffle.
    let schedules: [&[usize]; 4] = [&[0, 1, 1], &[1, 0, 0, 1], &[0, 0, 1, 1, 1], &[1, 1, 0]];
    for schedule in schedules {
        let mut sim = DuoSim::new(b"AAA".to_vec(), b"BBB".to_vec());
        run_until_done(&mut sim, schedule);
        assert!(
            sim.out == b"AAABBB".to_vec() || sim.out == b"BBBAAA".to_vec(),
            "messages interleaved: {:?}",
            sim.out
        );
    }
}
