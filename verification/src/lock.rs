//! The exclusion primitive that serializes access to the transmitter.
//!
//! [`SpinFlag`] is the spinlock strategy's flag: `false` means free,
//! `true` means held, with no owner identity recorded. Acquisition is a
//! compare-and-swap that succeeds exactly when the flag was free.
//!
//! [`LockModel`] and [`LockSim`] model the same flag shared by any number
//! of concurrent callers, each either outside or inside the guarded
//! region, and every interleaving of their acquire and release steps.
//! The mutual-exclusion law [`lemma_mutual_exclusion`] states that along
//! any such interleaving at most one caller is ever inside.

use vstd::prelude::*;

verus! {

/// The spinlock's flag: `false` = free, `true` = held.
pub struct SpinFlag {
    pub held: bool,
}

impl SpinFlag {
    /// A fresh lock, free.
    pub fn new() -> (r: SpinFlag)
        ensures
            !r.held,
    {
        SpinFlag { held: false }
    }

    /// One compare-and-swap attempt on the flag: succeeds, taking the
    /// lock, exactly when the flag was free; otherwise leaves it alone.
    pub fn try_acquire(&mut self) -> (r: bool)
        ensures
            r == !old(self).held,
            final(self).held == (old(self).held || r),
    {
        if self.held {
            false
        } else {
            self.held = true;
            true
        }
    }

    /// Releases the lock: stores `false`. The caller is the holder —
    /// release is paired with a successful acquire by the guard's scope.
    pub fn release(&mut self)
        requires
            old(self).held,
        ensures
            !final(self).held,
    {
        self.held = false;
    }
}

/// One caller's step against the shared lock: an acquire attempt (a spin
/// iteration) or a release of a held lock.
#[derive(Clone, Copy)]
pub enum LockOp {
    Acquire,
    Release,
}

/// One step of one caller in an interleaving.
pub struct LockEvent {
    pub caller: int,
    pub op: LockOp,
}

/// The shared flag together with, for each of the concurrent callers,
/// whether that caller is currently inside the guarded region.
pub struct LockModel {
    pub flag: bool,
    pub inside: Seq<bool>,
}

impl LockModel {
    /// The state every caller starts from: lock free, nobody inside.
    pub open spec fn initial(n_callers: nat) -> LockModel {
        LockModel { flag: false, inside: Seq::new(n_callers, |i: int| false) }
    }

    /// At most one caller observes itself inside the guarded region: the
    /// instrumented holder count never exceeds one.
    pub open spec fn at_most_one_holder(self) -> bool {
        forall|h1: int, h2: int|
            0 <= h1 < self.inside.len() && 0 <= h2 < self.inside.len() && #[trigger] self.inside[h1]
                && #[trigger] self.inside[h2] ==> h1 == h2
    }

    /// The lock discipline's inductive invariant: the flag is set exactly
    /// when some caller is inside, and at most one caller is inside.
    pub open spec fn inv(self) -> bool {
        &&& self.flag == exists|h: int| 0 <= h < self.inside.len() && #[trigger] self.inside[h]
        &&& self.at_most_one_holder()
    }
}

/// How one step changes the shared state. An acquire attempt is the
/// compare-and-swap: it takes the lock exactly when the flag is free, and
/// is otherwise a spin iteration that changes nothing. A release is
/// performed only by a caller that is inside (release and acquire are
/// paired by the guard's scope); any other step changes nothing.
pub open spec fn lock_step(m: LockModel, e: LockEvent) -> LockModel {
    if 0 <= e.caller < m.inside.len() {
        match e.op {
            LockOp::Acquire => if !m.flag {
                LockModel { flag: true, inside: m.inside.update(e.caller, true) }
            } else {
                m
            },
            LockOp::Release => if m.inside[e.caller] {
                LockModel { flag: false, inside: m.inside.update(e.caller, false) }
            } else {
                m
            },
        }
    } else {
        m
    }
}

/// The state after an interleaving of steps, applied in order.
pub open spec fn lock_run(m: LockModel, trace: Seq<LockEvent>) -> LockModel
    decreases trace.len(),
{
    if trace.len() == 0 {
        m
    } else {
        lock_run(lock_step(m, trace[0]), trace.skip(1))
    }
}

/// Every single step preserves the lock discipline's invariant.
pub proof fn lemma_lock_step_inv(m: LockModel, e: LockEvent)
    requires
        m.inv(),
    ensures
        lock_step(m, e).inv(),
{
    let m2 = lock_step(m, e);
    if 0 <= e.caller < m.inside.len() {
        match e.op {
            LockOp::Acquire => {
                if !m.flag {
                    assert(m2.inside[e.caller]);
                }
            },
            LockOp::Release => {
                if m.inside[e.caller] {
                    assert forall|h: int| 0 <= h < m2.inside.len() implies !(#[trigger] m2.inside[h]) by {
                        if h != e.caller {
                            assert(m.inside[h] ==> h == e.caller);
                        }
                    }
                }
            },
        }
    }
}

/// The invariant holds after any interleaving that starts in a state
/// satisfying it.
pub proof fn lemma_lock_run_inv(m: LockModel, trace: Seq<LockEvent>)
    requires
        m.inv(),
    ensures
        lock_run(m, trace).inv(),
    decreases trace.len(),
{
    if trace.len() > 0 {
        lemma_lock_step_inv(m, trace[0]);
        lemma_lock_run_inv(lock_step(m, trace[0]), trace.skip(1));
    }
}

/// Mutual exclusion: for every number of concurrent callers, every
/// interleaving of their acquire and release steps, and every instant
/// along it, at most one caller is inside the guarded region — the
/// holder count never exceeds one between an acquire and the matching
/// release.
pub proof fn lemma_mutual_exclusion(n_callers: nat, trace: Seq<LockEvent>, k: int)
    requires
        0 <= k <= trace.len(),
    ensures
        lock_run(LockModel::initial(n_callers), trace.take(k)).at_most_one_holder(),
{
    let m0 = LockModel::initial(n_callers);
    assert(m0.inv());
    lemma_lock_run_inv(m0, trace.take(k));
}

/// The executable counterpart of [`LockModel`]: the shared flag and the
/// per-caller holder flags, stepped one event at a time, for driving
/// simulated interleavings.
pub struct LockSim {
    pub lock: SpinFlag,
    pub inside: Vec<bool>,
}

impl LockSim {
    /// The model state this simulation is in.
    pub open spec fn view(self) -> LockModel {
        LockModel { flag: self.lock.held, inside: self.inside@ }
    }

    /// A fresh simulation: lock free, every caller outside.
    pub fn new(n_callers: usize) -> (r: LockSim)
        ensures
            r.view() == LockModel::initial(n_callers as nat),
    {
        let mut inside: Vec<bool> = Vec::new();
        let mut i: usize = 0;
        while i < n_callers
            invariant
                i <= n_callers,
                inside@ =~= Seq::new(i as nat, |j: int| false),
            decreases n_callers - i,
        {
            inside.push(false);
            i = i + 1;
        }
        proof {
            assert(inside@ =~= Seq::new(n_callers as nat, |j: int| false));
        }
        LockSim { lock: SpinFlag::new(), inside }
    }

    /// Whether the given caller is currently inside the guarded region.
    pub fn is_inside(&self, caller: usize) -> (r: bool)
        requires
            caller < self.inside@.len(),
        ensures
            r == self.view().inside[caller as int],
    {
        self.inside[caller]
    }

    /// One step of one caller: an acquire attempt or a release.
    pub fn step(&mut self, caller: usize, op: LockOp)
        ensures
            final(self).view() == lock_step(
                old(self).view(),
                (LockEvent { caller: caller as int, op }),
            ),
    {
        if caller < self.inside.len() {
            match op {
                LockOp::Acquire => {
                    if self.lock.try_acquire() {
                        self.inside.set(caller, true);
                    }
                },
                LockOp::Release => {
                    if self.inside[caller] {
                        self.lock.held = false;
                        self.inside.set(caller, false);
                    }
                },
            }
        }
        proof {
            assert(self.view() =~= lock_step(
                old(self).view(),
                (LockEvent { caller: caller as int, op }),
            ));
        }
    }
}

} // verus!
