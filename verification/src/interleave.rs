//! Two concurrent callers of the output facility, interleaved step by
//! step.
//!
//! Each caller spins for the shared lock, transmits its message one byte
//! at a time while holding it, and releases it when done. The model
//! admits every interleaving of the two callers' steps; the message
//! atomicity law [`lemma_message_atomicity`] states that whatever the
//! interleaving, the combined output is one message followed by the
//! other, never a byte-level shuffle.

use vstd::prelude::*;

verus! {

use crate::lock::SpinFlag;

/// Where one caller stands: spinning for the lock, inside the guarded
/// region with the next byte's index, or finished.
#[derive(Clone, Copy)]
pub enum Phase {
    Wait,
    Inside(usize),
    Done,
}

/// The shared state of two concurrent callers: the lock flag, each
/// caller's phase and message, and the bytes the device has received.
pub struct DuoModel {
    pub flag: bool,
    pub p0: Phase,
    pub p1: Phase,
    pub msg0: Seq<u8>,
    pub msg1: Seq<u8>,
    pub out: Seq<u8>,
}

/// The state before either caller has run: lock free, both spinning,
/// nothing transmitted.
pub open spec fn duo_initial(a: Seq<u8>, b: Seq<u8>) -> DuoModel {
    DuoModel { flag: false, p0: Phase::Wait, p1: Phase::Wait, msg0: a, msg1: b, out: Seq::empty() }
}

/// One step of the given caller. Spinning is the compare-and-swap on
/// the flag: it enters exactly when the flag is free. Inside, each step
/// transmits the next byte; past the last byte the caller releases the
/// lock and is done. A finished caller, or an unknown identifier, does
/// nothing.
pub open spec fn duo_step(m: DuoModel, hart: int) -> DuoModel {
    if hart == 0 {
        match m.p0 {
            Phase::Wait => if !m.flag {
                DuoModel { flag: true, p0: Phase::Inside(0), ..m }
            } else {
                m
            },
            Phase::Inside(p) => if p < m.msg0.len() {
                DuoModel { out: m.out.push(m.msg0[p as int]), p0: Phase::Inside((p + 1) as usize), ..m }
            } else {
                DuoModel { flag: false, p0: Phase::Done, ..m }
            },
            Phase::Done => m,
        }
    } else if hart == 1 {
        match m.p1 {
            Phase::Wait => if !m.flag {
                DuoModel { flag: true, p1: Phase::Inside(0), ..m }
            } else {
                m
            },
            Phase::Inside(q) => if q < m.msg1.len() {
                DuoModel { out: m.out.push(m.msg1[q as int]), p1: Phase::Inside((q + 1) as usize), ..m }
            } else {
                DuoModel { flag: false, p1: Phase::Done, ..m }
            },
            Phase::Done => m,
        }
    } else {
        m
    }
}

/// What the output looks like at every instant: empty while nobody has
/// entered; the prefix so far of the caller inside, after whatever the
/// other caller completed before it; a full message once its caller is
/// done; and, with both done, one whole message followed by the other.
pub open spec fn duo_out_inv(m: DuoModel) -> bool {
    match (m.p0, m.p1) {
        (Phase::Wait, Phase::Wait) => m.out == Seq::<u8>::empty(),
        (Phase::Inside(p), Phase::Wait) => m.out == m.msg0.take(p as int),
        (Phase::Wait, Phase::Inside(q)) => m.out == m.msg1.take(q as int),
        (Phase::Done, Phase::Wait) => m.out == m.msg0,
        (Phase::Wait, Phase::Done) => m.out == m.msg1,
        (Phase::Done, Phase::Inside(q)) => m.out == m.msg0 + m.msg1.take(q as int),
        (Phase::Inside(p), Phase::Done) => m.out == m.msg1 + m.msg0.take(p as int),
        (Phase::Done, Phase::Done) => m.out == m.msg0 + m.msg1 || m.out == m.msg1 + m.msg0,
        (Phase::Inside(_), Phase::Inside(_)) => false,
    }
}

/// The inductive invariant: the flag is held exactly while a caller is
/// inside, never by both — the exclusion discipline — and the output is
/// as [`duo_out_inv`] describes.
pub open spec fn duo_inv(m: DuoModel) -> bool {
    &&& m.msg0.len() <= usize::MAX
    &&& m.msg1.len() <= usize::MAX
    &&& m.flag == (m.p0 is Inside || m.p1 is Inside)
    &&& !(m.p0 is Inside && m.p1 is Inside)
    &&& (m.p0 matches Phase::Inside(p) ==> p <= m.msg0.len())
    &&& (m.p1 matches Phase::Inside(q) ==> q <= m.msg1.len())
    &&& duo_out_inv(m)
}

/// Every single step of either caller preserves the invariant, and never
/// changes the messages themselves.
pub proof fn lemma_duo_step_inv(m: DuoModel, hart: int)
    requires
        duo_inv(m),
    ensures
        duo_inv(duo_step(m, hart)),
        duo_step(m, hart).msg0 == m.msg0,
        duo_step(m, hart).msg1 == m.msg1,
{
    if hart == 0 {
        match m.p0 {
            Phase::Wait => {
                if !m.flag {
                    assert(m.msg0.take(0) =~= Seq::<u8>::empty());
                    if m.p1 is Done {
                        assert(m.msg1 + m.msg0.take(0) =~= m.msg1);
                    }
                }
            },
            Phase::Inside(p) => {
                if p < m.msg0.len() {
                    if m.p1 is Wait {
                        assert(m.msg0.take(p as int).push(m.msg0[p as int]) =~= m.msg0.take(
                            p as int + 1,
                        ));
                    } else {
                        assert((m.msg1 + m.msg0.take(p as int)).push(m.msg0[p as int]) =~= m.msg1
                            + m.msg0.take(p as int + 1));
                    }
                } else {
                    assert(m.msg0.take(p as int) =~= m.msg0);
                }
            },
            Phase::Done => {},
        }
    } else if hart == 1 {
        match m.p1 {
            Phase::Wait => {
                if !m.flag {
                    assert(m.msg1.take(0) =~= Seq::<u8>::empty());
                    if m.p0 is Done {
                        assert(m.msg0 + m.msg1.take(0) =~= m.msg0);
                    }
                }
            },
            Phase::Inside(q) => {
                if q < m.msg1.len() {
                    if m.p0 is Wait {
                        assert(m.msg1.take(q as int).push(m.msg1[q as int]) =~= m.msg1.take(
                            q as int + 1,
                        ));
                    } else {
                        assert((m.msg0 + m.msg1.take(q as int)).push(m.msg1[q as int]) =~= m.msg0
                            + m.msg1.take(q as int + 1));
                    }
                } else {
                    assert(m.msg1.take(q as int) =~= m.msg1);
                }
            },
            Phase::Done => {},
        }
    }
}

/// The state after an interleaving, applied in order: each entry of the
/// schedule names the caller that takes the next step.
pub open spec fn duo_run(m: DuoModel, sched: Seq<int>) -> DuoModel
    decreases sched.len(),
{
    if sched.len() == 0 {
        m
    } else {
        duo_run(duo_step(m, sched[0]), sched.skip(1))
    }
}

/// The invariant holds after any interleaving that starts in a state
/// satisfying it, and the messages are never changed.
pub proof fn lemma_duo_run_inv(m: DuoModel, sched: Seq<int>)
    requires
        duo_inv(m),
    ensures
        duo_inv(duo_run(m, sched)),
        duo_run(m, sched).msg0 == m.msg0,
        duo_run(m, sched).msg1 == m.msg1,
    decreases sched.len(),
{
    if sched.len() > 0 {
        lemma_duo_step_inv(m, sched[0]);
        lemma_duo_run_inv(duo_step(m, sched[0]), sched.skip(1));
    }
}

/// Message atomicity: for any two messages and any interleaving of the
/// two callers' steps after which both have finished, the combined
/// output is exactly one message followed by the other — concurrent
/// messages interleave at message granularity, never at byte level.
pub proof fn lemma_message_atomicity(a: Seq<u8>, b: Seq<u8>, sched: Seq<int>)
    requires
        a.len() <= usize::MAX,
        b.len() <= usize::MAX,
    ensures
        ({
            let f = duo_run(duo_initial(a, b), sched);
            (f.p0 is Done && f.p1 is Done) ==> (f.out == a + b || f.out == b + a)
        }),
{
    let m0 = duo_initial(a, b);
    assert(duo_inv(m0));
    lemma_duo_run_inv(m0, sched);
}

/// The executable counterpart of [`DuoModel`]: two simulated callers
/// stepped one at a time, for driving concrete interleavings against a
/// captured output.
pub struct DuoSim {
    pub lock: SpinFlag,
    pub p0: Phase,
    pub p1: Phase,
    pub msg0: Vec<u8>,
    pub msg1: Vec<u8>,
    pub out: Vec<u8>,
}

impl DuoSim {
    /// The model state this simulation is in.
    pub open spec fn view(self) -> DuoModel {
        DuoModel {
            flag: self.lock.held,
            p0: self.p0,
            p1: self.p1,
            msg0: self.msg0@,
            msg1: self.msg1@,
            out: self.out@,
        }
    }

    /// Two callers about to print the given messages: lock free, both
    /// spinning, nothing transmitted.
    pub fn new(msg0: Vec<u8>, msg1: Vec<u8>) -> (r: DuoSim)
        ensures
            r.view() == duo_initial(msg0@, msg1@),
    {
        let r = DuoSim {
            lock: SpinFlag::new(),
            p0: Phase::Wait,
            p1: Phase::Wait,
            msg0,
            msg1,
            out: Vec::new(),
        };
        proof {
            assert(r.view() =~= duo_initial(r.msg0@, r.msg1@));
        }
        r
    }

    /// Whether the given caller has finished its message.
    pub fn is_done(&self, hart: usize) -> (r: bool)
        ensures
            hart == 0 ==> r == self.view().p0 is Done,
            hart != 0 ==> r == self.view().p1 is Done,
    {
        if hart == 0 {
            matches!(self.p0, Phase::Done)
        } else {
            matches!(self.p1, Phase::Done)
        }
    }

    /// One step of the given caller.
    pub fn step(&mut self, hart: usize)
        ensures
            final(self).view() == duo_step(old(self).view(), hart as int),
    {
        if hart == 0 {
            match self.p0 {
                Phase::Wait => {
                    if self.lock.try_acquire() {
                        self.p0 = Phase::Inside(0);
                    }
                },
                Phase::Inside(p) => {
                    if p < self.msg0.len() {
                        let byte = self.msg0[p];
                        self.out.push(byte);
                        self.p0 = Phase::Inside(p + 1);
                    } else {
                        self.lock.held = false;
                        self.p0 = Phase::Done;
                    }
                },
                Phase::Done => {},
            }
        } else if hart == 1 {
            match self.p1 {
                Phase::Wait => {
                    if self.lock.try_acquire() {
                        self.p1 = Phase::Inside(0);
                    }
                },
                Phase::Inside(q) => {
                    if q < self.msg1.len() {
                        let byte = self.msg1[q];
                        self.out.push(byte);
                        self.p1 = Phase::Inside(q + 1);
                    } else {
                        self.lock.held = false;
                        self.p1 = Phase::Done;
                    }
                },
                Phase::Done => {},
            }
        }
        proof {
            assert(self.view() =~= duo_step(old(self).view(), hart as int));
        }
    }
}

} // verus!
