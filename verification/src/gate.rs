//! The boot readiness gate: a process-wide flag that starts not ready,
//! is set exactly once by the primary hart (identifier 0), and that every
//! secondary hart spins on before running past the boot checkpoint.

use vstd::prelude::*;

verus! {

/// The barrier's state machine: `NotReady` initially, `Ready` once the
/// primary hart has finished the one-time setup. `Ready` is terminal.
pub enum GateState {
    NotReady,
    Ready,
}

/// The process-wide boot flag. It starts not ready; only the primary
/// hart sets it, and it is never reset.
pub struct BootFlag {
    pub state: GateState,
}

impl BootFlag {
    /// The flag as the program starts: not ready, so secondary harts
    /// wait until the primary hart has signalled.
    pub fn new() -> (r: BootFlag)
        ensures
            r.state is NotReady,
    {
        BootFlag { state: GateState::NotReady }
    }
}

/// Marks the one-time setup finished: the store the primary hart performs
/// at the checkpoint. Idempotent — the barrier is ready afterwards whatever
/// it held before.
pub fn set_flag(flag: &mut BootFlag)
    ensures
        final(flag).state is Ready,
{
    flag.state = GateState::Ready;
}

/// Reads the flag: one iteration of a secondary hart's spin.
pub fn check_flag(flag: &BootFlag) -> (r: bool)
    ensures
        r == flag.state is Ready,
{
    match flag.state {
        GateState::Ready => true,
        GateState::NotReady => false,
    }
}

/// One observation of the barrier by the hart with the given identifier, as
/// the platform's boot hook makes it: the primary hart proceeds at once
/// as the boot hart (`Some(true)`); a secondary hart proceeds as a
/// non-boot hart (`Some(false)`) only once it observes the flag ready,
/// and otherwise keeps spinning (`None`).
pub fn mp_hook_step(flag: &BootFlag, hartid: usize) -> (r: Option<bool>)
    ensures
        hartid == 0 ==> r == Some(true),
        hartid != 0 && flag.state is Ready ==> r == Some(false),
        hartid != 0 && flag.state is NotReady ==> r is None,
{
    if hartid == 0 {
        Some(true)
    } else if check_flag(flag) {
        Some(false)
    } else {
        None
    }
}

/// What a hart does to the barrier in one step of an interleaving: signal
/// readiness (the store at the end of the one-time setup), or poll the
/// flag (one spin iteration).
#[derive(Clone, Copy)]
pub enum GateOp {
    Signal,
    Poll,
}

/// One step of one hart in an interleaving.
pub struct GateEvent {
    pub hart: int,
    pub op: GateOp,
}

/// The barrier as all harts together see it: the flag's state, and for each
/// hart whether it has already run past the checkpoint.
pub struct GateModel {
    pub state: GateState,
    pub released: Seq<bool>,
}

impl GateModel {
    /// Boot time: the flag not ready, every hart still at the
    /// checkpoint.
    pub open spec fn initial(n_harts: nat) -> GateModel {
        GateModel { state: GateState::NotReady, released: Seq::new(n_harts, |i: int| false) }
    }
}

/// How one step changes the barrier. Only the primary hart's signal sets
/// the flag — every other hart only reads it, so its signal changes
/// nothing. A poll releases the polling hart exactly when it observes
/// the flag ready; nothing ever clears the flag or takes a released hart
/// back.
pub open spec fn gate_step(m: GateModel, e: GateEvent) -> GateModel {
    match e.op {
        GateOp::Signal => if e.hart == 0 {
            GateModel { state: GateState::Ready, ..m }
        } else {
            m
        },
        GateOp::Poll => if m.state is Ready && 0 <= e.hart < m.released.len() {
            GateModel { released: m.released.update(e.hart, true), ..m }
        } else {
            m
        },
    }
}

/// The barrier after an interleaving of steps, applied in order.
pub open spec fn gate_run(m: GateModel, trace: Seq<GateEvent>) -> GateModel
    decreases trace.len(),
{
    if trace.len() == 0 {
        m
    } else {
        gate_run(gate_step(m, trace[0]), trace.skip(1))
    }
}

/// Running a trace from a ready gate leaves it ready: `Ready` is
/// terminal.
pub proof fn lemma_gate_ready_stable(m: GateModel, trace: Seq<GateEvent>)
    requires
        m.state is Ready,
    ensures
        gate_run(m, trace).state is Ready,
    decreases trace.len(),
{
    if trace.len() > 0 {
        lemma_gate_ready_stable(gate_step(m, trace[0]), trace.skip(1));
    }
}

/// Running a trace decomposes around any cut: run the front, then the
/// rest.
proof fn lemma_gate_run_split(m: GateModel, trace: Seq<GateEvent>, k: int)
    requires
        0 <= k <= trace.len(),
    ensures
        gate_run(m, trace) == gate_run(gate_run(m, trace.take(k)), trace.skip(k)),
    decreases k,
{
    if k == 0 {
        assert(trace.take(0) =~= Seq::<GateEvent>::empty());
        assert(trace.skip(0) =~= trace);
    } else {
        assert(trace.take(k)[0] == trace[0]);
        assert(trace.take(k).skip(1) =~= trace.skip(1).take(k - 1));
        assert(trace.skip(k) =~= trace.skip(1).skip(k - 1));
        lemma_gate_run_split(gate_step(m, trace[0]), trace.skip(1), k - 1);
    }
}

/// One step appended at the end of a trace is one step applied to the
/// trace's final state.
proof fn lemma_gate_run_push(m: GateModel, trace: Seq<GateEvent>, e: GateEvent)
    ensures
        gate_run(m, trace.push(e)) == gate_step(gate_run(m, trace), e),
    decreases trace.len(),
{
    if trace.len() == 0 {
        assert(trace.push(e)[0] == e);
        assert(trace.push(e).skip(1) =~= Seq::<GateEvent>::empty());
        assert(gate_run(gate_step(m, e), Seq::<GateEvent>::empty()) == gate_step(m, e));
    } else {
        assert(trace.push(e)[0] == trace[0]);
        assert(trace.push(e).skip(1) =~= trace.skip(1).push(e));
        lemma_gate_run_push(gate_step(m, trace[0]), trace.skip(1), e);
    }
}

/// The state after one more step of a prefix is one step applied to the
/// prefix's state.
proof fn lemma_gate_run_snoc(m: GateModel, trace: Seq<GateEvent>, k: int)
    requires
        0 <= k < trace.len(),
    ensures
        gate_run(m, trace.take(k + 1)) == gate_step(gate_run(m, trace.take(k)), trace[k]),
{
    assert(trace.take(k + 1) =~= trace.take(k).push(trace[k]));
    lemma_gate_run_push(m, trace.take(k), trace[k]);
}

/// Only the primary hart moves the barrier: whenever a step along a trace
/// changes the barrier's state, that step is the primary hart's signal, and
/// the change is `NotReady` to `Ready`.
pub proof fn lemma_gate_transition_primary(n_harts: nat, trace: Seq<GateEvent>, k: int)
    requires
        0 <= k < trace.len(),
        gate_run(GateModel::initial(n_harts), trace.take(k + 1)).state != gate_run(
            GateModel::initial(n_harts),
            trace.take(k),
        ).state,
    ensures
        trace[k].op is Signal,
        trace[k].hart == 0,
        gate_run(GateModel::initial(n_harts), trace.take(k)).state is NotReady,
        gate_run(GateModel::initial(n_harts), trace.take(k + 1)).state is Ready,
{
    lemma_gate_run_snoc(GateModel::initial(n_harts), trace, k);
}

/// The barrier changes state at most once along any interleaving: there are
/// no two distinct instants at which it transitions.
pub proof fn lemma_gate_single_transition(n_harts: nat, trace: Seq<GateEvent>, k1: int, k2: int)
    requires
        0 <= k1 < k2 < trace.len(),
        gate_run(GateModel::initial(n_harts), trace.take(k1 + 1)).state != gate_run(
            GateModel::initial(n_harts),
            trace.take(k1),
        ).state,
    ensures
        gate_run(GateModel::initial(n_harts), trace.take(k2 + 1)).state == gate_run(
            GateModel::initial(n_harts),
            trace.take(k2),
        ).state,
{
    let m0 = GateModel::initial(n_harts);
    lemma_gate_transition_primary(n_harts, trace, k1);
    let after = gate_run(m0, trace.take(k1 + 1));
    assert(gate_run(m0, trace.take(k2)).state is Ready) by {
        lemma_gate_run_split(m0, trace.take(k2), k1 + 1);
        assert(trace.take(k2).take(k1 + 1) =~= trace.take(k1 + 1));
        lemma_gate_ready_stable(after, trace.take(k2).skip(k1 + 1));
    }
    assert(gate_run(m0, trace.take(k2 + 1)).state is Ready) by {
        lemma_gate_run_split(m0, trace.take(k2 + 1), k1 + 1);
        assert(trace.take(k2 + 1).take(k1 + 1) =~= trace.take(k1 + 1));
        lemma_gate_ready_stable(after, trace.take(k2 + 1).skip(k1 + 1));
    }
}

/// The executable counterpart of [`GateModel`]: the boot flag and the
/// per-hart released marks, stepped one event at a time, for driving
/// simulated boot interleavings.
pub struct GateSim {
    pub flag: BootFlag,
    pub released: Vec<bool>,
}

impl GateSim {
    /// The model state this simulation is in.
    pub open spec fn view(self) -> GateModel {
        GateModel { state: self.flag.state, released: self.released@ }
    }

    /// Boot time for the given number of harts.
    pub fn new(n_harts: usize) -> (r: GateSim)
        ensures
            r.view() == GateModel::initial(n_harts as nat),
    {
        let mut released: Vec<bool> = Vec::new();
        let mut i: usize = 0;
        while i < n_harts
            invariant
                i <= n_harts,
                released@ =~= Seq::new(i as nat, |j: int| false),
            decreases n_harts - i,
        {
            released.push(false);
            i = i + 1;
        }
        proof {
            assert(released@ =~= Seq::new(n_harts as nat, |j: int| false));
        }
        GateSim { flag: BootFlag::new(), released }
    }

    /// Whether the given hart has run past the checkpoint.
    pub fn is_released(&self, hart: usize) -> (r: bool)
        requires
            hart < self.released@.len(),
        ensures
            r == self.view().released[hart as int],
    {
        self.released[hart]
    }

    /// One step of one hart against the barrier.
    pub fn step(&mut self, hart: usize, op: GateOp)
        ensures
            final(self).view() == gate_step(old(self).view(), (GateEvent { hart: hart as int, op })),
    {
        match op {
            GateOp::Signal => {
                if hart == 0 {
                    set_flag(&mut self.flag);
                }
            },
            GateOp::Poll => {
                if check_flag(&self.flag) && hart < self.released.len() {
                    self.released.set(hart, true);
                }
            },
        }
        proof {
            assert(self.view() =~= gate_step(old(self).view(), (GateEvent { hart: hart as int, op })));
        }
    }
}

} // verus!
