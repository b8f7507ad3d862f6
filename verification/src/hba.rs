//! The controller as a whole: taking it over from the firmware, resetting
//! it, bringing up every port it implements, and routing requests to the
//! port that the disk is bound to.

use vstd::prelude::*;
use crate::action::{Action, Timing};
use crate::error::AhciError;
use crate::port::{
    lemma_begin_recovery_keeps,
    lemma_begin_setup_keeps,
    lemma_issue_keeps,
    lemma_step_keeps,
    low32,
    Port,
    PortModel,
    PortStatus,
    Request,
    Stage,
};
use crate::regs::{
    BOHC_BB,
    BOHC_BOS,
    BOHC_OOS,
    CAP2_BOH,
    CAP_S64A,
    GHC_AE,
    GHC_HR,
    HBA_BOHC,
    HBA_CAP,
    HBA_CAP2,
    HBA_GHC,
    HBA_IS,
    HBA_PI,
    MAX_PORTS,
};

verus! {

/// What software knows of the controller.
#[derive(Clone, Copy, Debug, PartialEq, Eq, Structural)]
pub enum HbaStatus {
    /// The controller was not initialized, or is being initialized.
    Uninitialized,
    /// Initialization ran to its end.
    Ready,
    /// Initialization failed before it reached the ports.
    Failed,
}

/// The outcome that a busy controller is waiting for.
#[derive(Clone, Copy, Debug, PartialEq, Eq, Structural)]
pub enum HbaStage {
    /// Nothing is under way.
    Rest,
    /// CAP2, to see whether the firmware hands the controller over.
    ProbeHandoff,
    /// BOHC, to see whether the firmware owns the controller.
    HandoffRead,
    /// BOHC, after ownership was requested.
    HandoffPoll,
    /// GHC, to assert the reset from its current value.
    ResetProbe,
    /// GHC, after the reset was asserted.
    ResetPoll,
    /// CAP.
    ReadCap,
    /// PI.
    ReadPi,
    /// Whatever the port under the cursor waits for while it is set up.
    PortSetup,
    /// IS, to clear what is stale in it.
    ClearStatus,
    /// The write that clears IS.
    Finish,
    /// Whatever the port under the cursor waits for while it serves a
    /// request or recovers.
    PortWork,
}

/// Whether bit `p` of the ports-implemented mask `pi` is set.
pub open spec fn implemented(pi: u32, p: int) -> bool {
    0 <= p < MAX_PORTS && (pi >> (p as u32)) & 1 == 1
}

/// The lowest implemented port from `from` on, if there is one.
pub open spec fn next_implemented(pi: u32, from: int) -> Option<u8>
    decreases MAX_PORTS - from,
{
    if from < 0 || from >= MAX_PORTS {
        None
    } else if implemented(pi, from) {
        Some(from as u8)
    } else {
        next_implemented(pi, from + 1)
    }
}

/// The lowest idle port from `from` on, if there is one.
pub open spec fn first_idle(ports: Seq<PortModel>, from: int) -> Option<u8>
    decreases ports.len() - from,
{
    if from < 0 || from >= ports.len() || from > u8::MAX {
        None
    } else if ports[from].status == PortStatus::Idle {
        Some(from as u8)
    } else {
        first_idle(ports, from + 1)
    }
}

/// Number of command slots that a capabilities word announces: one more
/// than the five bits from bit 8 on say.
pub open spec fn spec_command_slots(cap: u32) -> u8 {
    (cap / 0x100 % 32 + 1) as u8
}

/// Whether a capabilities word announces 64-bit addressing.
pub open spec fn spec_wide(cap: u32) -> bool {
    cap & CAP_S64A != 0
}

/// The state of the controller as the contracts speak of it.
pub struct HbaModel {
    /// What software knows of the controller.
    pub status: HbaStatus,
    /// What the controller waits for once its pending actions are
    /// performed.
    pub stage: HbaStage,
    /// How many more pauses the current wait may take.
    pub remaining: u32,
    /// The waits the controller grants.
    pub timing: Timing,
    /// The capabilities word as read from the controller.
    pub cap: u32,
    /// The ports-implemented mask as read from the controller.
    pub pi: u32,
    /// The port that is being set up or is at work.
    pub cursor: u8,
    /// The port that the disk is bound to.
    pub bound: Option<u8>,
    /// All ports the controller could implement, by number.
    pub ports: Seq<PortModel>,
    /// Actions decided on but not yet handed out, next first.
    pub pending: Seq<Action>,
}

impl HbaModel {
    /// Whether setup was attempted on port `p`.
    pub open spec fn attempted(self, p: int) -> bool {
        0 <= p < self.ports.len() && self.ports[p].status != PortStatus::Uninitialized
    }

    /// Whether the controller delegates to the port under its cursor.
    pub open spec fn delegating(self) -> bool {
        self.stage == HbaStage::PortSetup || self.stage == HbaStage::PortWork
    }

    /// What holds of every controller. There are 32 ports, each
    /// consistent, knowing its number and granting the controller's waits. At rest nothing is pending. No
    /// pending action ends a transaction. A port is busy only while the
    /// controller delegates to it. While ports are set up, setup was
    /// attempted on exactly the implemented ports below the cursor and
    /// is under way on the implemented port under it; once the ports are
    /// done, and for as long as the controller is ready, setup was
    /// attempted on exactly the implemented ports. The disk is bound only
    /// on a ready controller, and to a port on which setup was attempted.
    pub open spec fn wf(self) -> bool {
        &&& self.ports.len() == MAX_PORTS
        &&& forall|i: int|
            0 <= i < self.ports.len() ==> (#[trigger] self.ports[i]).wf() && self.ports[i].index
                == i && self.ports[i].timing == self.timing
        &&& self.stage == HbaStage::Rest ==> self.pending.len() == 0 && self.remaining == 0
        &&& forall|i: int|
            0 <= i < self.pending.len() ==> !(#[trigger] self.pending[i]).spec_is_final()
        &&& self.delegating() ==> self.cursor < MAX_PORTS && self.pending.len() == 0
            && self.remaining == 0 && self.ports[self.cursor as int].status == PortStatus::Busy
        &&& forall|i: int|
            0 <= i < self.ports.len() && (#[trigger] self.ports[i]).status == PortStatus::Busy
                ==> self.delegating() && i == self.cursor
        &&& self.stage == HbaStage::PortWork ==> self.status == HbaStatus::Ready
        &&& self.stage != HbaStage::Rest && self.stage != HbaStage::PortWork ==> self.status
            == HbaStatus::Uninitialized
        &&& self.status != HbaStatus::Ready && !(self.stage == HbaStage::PortSetup || self.stage
            == HbaStage::ClearStatus || self.stage == HbaStage::Finish) ==> forall|i: int|
            0 <= i < self.ports.len() ==> (#[trigger] self.ports[i]).status
                == PortStatus::Uninitialized
        &&& self.stage == HbaStage::PortSetup ==> implemented(self.pi, self.cursor as int)
            && forall|i: int|
            0 <= i < self.ports.len() ==> ((#[trigger] self.ports[i]).status
                != PortStatus::Uninitialized <==> i <= self.cursor && implemented(self.pi, i))
        &&& self.status == HbaStatus::Ready || self.stage == HbaStage::ClearStatus || self.stage
            == HbaStage::Finish ==> forall|i: int|
            0 <= i < self.ports.len() ==> ((#[trigger] self.ports[i]).status
                != PortStatus::Uninitialized <==> implemented(self.pi, i))
        &&& self.bound is Some ==> self.status == HbaStatus::Ready && self.attempted(
            self.bound->0 as int,
        )
    }

    /// The controller hands out `script` action by action and then waits
    /// in `stage`; the first action is handed out at once.
    pub open spec fn run(self, script: Seq<Action>, stage: HbaStage, remaining: u32) -> (
        HbaModel,
        Action,
    ) {
        (HbaModel { stage, remaining, pending: script.drop_first(), ..self }, script[0])
    }

    /// Initialization fails before it reached the ports.
    pub open spec fn fail(self, error: AhciError) -> (HbaModel, Action) {
        (
            HbaModel {
                status: HbaStatus::Failed,
                stage: HbaStage::Rest,
                remaining: 0,
                pending: Seq::empty(),
                ..self
            },
            Action::Failed { error },
        )
    }

    /// The controller pauses and looks again at the register at
    /// `offset`, if the current wait has a pause left; initialization
    /// fails with `error` if not.
    pub open spec fn wait_more(self, offset: u32, stage: HbaStage, error: AhciError) -> (
        HbaModel,
        Action,
    ) {
        if self.remaining == 0 {
            self.fail(error)
        } else {
            self.run(
                seq![Action::Delay { ms: self.timing.poll_interval_ms }, Action::ReadReg { offset }],
                stage,
                (self.remaining - 1) as u32,
            )
        }
    }

    /// The controller is the driver's: GHC is read to assert the reset
    /// from its current value.
    pub open spec fn start_reset(self) -> (HbaModel, Action) {
        self.run(seq![Action::ReadReg { offset: HBA_GHC }], HbaStage::ResetProbe, 0)
    }

    /// Setup goes on with the lowest implemented port from `from` on; if
    /// there is none left, IS is read to clear what is stale in it.
    pub open spec fn setup_from(self, from: int) -> (HbaModel, Action) {
        match next_implemented(self.pi, from) {
            Some(p) => {
                let (port, action) = self.ports[p as int].begin_setup(spec_wide(self.cap));
                (
                    HbaModel {
                        stage: HbaStage::PortSetup,
                        remaining: 0,
                        pending: Seq::empty(),
                        cursor: p,
                        ports: self.ports.update(p as int, port),
                        ..self
                    },
                    action,
                )
            },
            None => self.run(seq![Action::ReadReg { offset: HBA_IS }], HbaStage::ClearStatus, 0),
        }
    }

    /// What the controller does when it is told to initialize: a
    /// controller with a transaction under way refuses and stays as it
    /// is; any other forgets what it knew of its ports and reads CAP2.
    pub open spec fn begin_init(self) -> (HbaModel, Action) {
        if self.stage != HbaStage::Rest {
            (self, Action::Failed { error: AhciError::PortNotResponding })
        } else {
            HbaModel {
                status: HbaStatus::Uninitialized,
                cap: 0,
                pi: 0,
                cursor: 0,
                bound: None,
                ports: Seq::new(self.ports.len(), |i: int| self.ports[i].reset()),
                ..self
            }.run(seq![Action::ReadReg { offset: HBA_CAP2 }], HbaStage::ProbeHandoff, 0)
        }
    }

    /// Whether the controller takes a request or a recovery now: it is
    /// ready, nothing is under way, and the disk is bound to a port.
    pub open spec fn accepting(self) -> bool {
        self.stage == HbaStage::Rest && self.status == HbaStatus::Ready && self.bound is Some
    }

    /// The controller takes the first action of a transaction that the
    /// bound port has started, or hands on the port's refusal.
    pub open spec fn delegate(self, started: (PortModel, Action)) -> (HbaModel, Action) {
        if started.1.spec_is_final() {
            (self, started.1)
        } else {
            (
                HbaModel {
                    stage: HbaStage::PortWork,
                    cursor: self.bound->0,
                    ports: self.ports.update(self.bound->0 as int, started.0),
                    ..self
                },
                started.1,
            )
        }
    }

    /// What the controller does with a request: it refuses unless it is
    /// accepting, and otherwise hands the request to the bound port.
    pub open spec fn submit(self, request: Request) -> (HbaModel, Action) {
        if !self.accepting() {
            (self, Action::Failed { error: AhciError::PortNotResponding })
        } else {
            self.delegate(self.ports[self.bound->0 as int].issue(request))
        }
    }

    /// What the controller does when it is told to recover the bound
    /// port: it refuses unless it is accepting, and otherwise tells the
    /// port to recover.
    pub open spec fn recover(self) -> (HbaModel, Action) {
        if !self.accepting() {
            (self, Action::Failed { error: AhciError::PortNotResponding })
        } else {
            self.delegate(self.ports[self.bound->0 as int].begin_recovery())
        }
    }

    /// What the controller does when the platform reports the outcome
    /// `reply` of the action handed out last.
    pub open spec fn step(self, reply: u64) -> (HbaModel, Action) {
        let value = low32(reply);
        if self.pending.len() > 0 {
            (HbaModel { pending: self.pending.drop_first(), ..self }, self.pending[0])
        } else {
            match self.stage {
                HbaStage::Rest => (self, Action::Failed { error: AhciError::PortNotResponding }),
                HbaStage::ProbeHandoff => if value & CAP2_BOH != 0 {
                    self.run(seq![Action::ReadReg { offset: HBA_BOHC }], HbaStage::HandoffRead, 0)
                } else {
                    self.start_reset()
                },
                HbaStage::HandoffRead => if value & BOHC_BOS == 0 {
                    self.start_reset()
                } else {
                    self.run(
                        seq![
                            Action::WriteReg { offset: HBA_BOHC, value: value | BOHC_OOS },
                            Action::ReadReg { offset: HBA_BOHC },
                        ],
                        HbaStage::HandoffPoll,
                        self.timing.handoff_polls,
                    )
                },
                HbaStage::HandoffPoll => if value & (BOHC_BOS | BOHC_BB) == 0 {
                    self.start_reset()
                } else {
                    self.wait_more(HBA_BOHC, HbaStage::HandoffPoll, AhciError::HandoffTimeout)
                },
                HbaStage::ResetProbe => self.run(
                    seq![
                        Action::WriteReg { offset: HBA_GHC, value: value | GHC_HR },
                        Action::ReadReg { offset: HBA_GHC },
                    ],
                    HbaStage::ResetPoll,
                    self.timing.reset_polls,
                ),
                HbaStage::ResetPoll => if value & GHC_HR == 0 {
                    self.run(
                        seq![
                            Action::WriteReg { offset: HBA_GHC, value: value | GHC_AE },
                            Action::ReadReg { offset: HBA_CAP },
                        ],
                        HbaStage::ReadCap,
                        0,
                    )
                } else {
                    self.wait_more(HBA_GHC, HbaStage::ResetPoll, AhciError::ResetTimeout)
                },
                HbaStage::ReadCap => HbaModel { cap: value, ..self }.run(
                    seq![Action::ReadReg { offset: HBA_PI }],
                    HbaStage::ReadPi,
                    0,
                ),
                HbaStage::ReadPi => HbaModel { pi: value, ..self }.setup_from(0),
                HbaStage::PortSetup => {
                    let (port, action) = self.ports[self.cursor as int].step(reply);
                    let hba = HbaModel {
                        ports: self.ports.update(self.cursor as int, port),
                        ..self
                    };
                    if action.spec_is_final() {
                        hba.setup_from(self.cursor + 1)
                    } else {
                        (hba, action)
                    }
                },
                HbaStage::ClearStatus => self.run(
                    seq![Action::WriteReg { offset: HBA_IS, value }],
                    HbaStage::Finish,
                    0,
                ),
                HbaStage::Finish => (
                    HbaModel {
                        status: HbaStatus::Ready,
                        stage: HbaStage::Rest,
                        remaining: 0,
                        bound: first_idle(self.ports, 0),
                        ..self
                    },
                    Action::Done,
                ),
                HbaStage::PortWork => {
                    let (port, action) = self.ports[self.cursor as int].step(reply);
                    let hba = HbaModel {
                        ports: self.ports.update(self.cursor as int, port),
                        ..self
                    };
                    if action.spec_is_final() {
                        (HbaModel { stage: HbaStage::Rest, ..hba }, action)
                    } else {
                        (hba, action)
                    }
                },
            }
        }
    }
}

/// The lowest implemented port from `from` on is implemented, and no port
/// between `from` and it is; if there is none, no port from `from` on is
/// implemented.
pub proof fn lemma_next_implemented(pi: u32, from: int)
    requires
        0 <= from,
    ensures
        match next_implemented(pi, from) {
            Some(p) => from <= p < MAX_PORTS && implemented(pi, p as int) && forall|q: int|
                from <= q < p ==> !implemented(pi, q),
            None => forall|q: int| from <= q ==> !implemented(pi, q),
        },
    decreases MAX_PORTS - from,
{
    if from < MAX_PORTS && !implemented(pi, from) {
        lemma_next_implemented(pi, from + 1);
    }
}

/// The lowest idle port from `from` on is a port and idle.
pub proof fn lemma_first_idle(ports: Seq<PortModel>, from: int)
    requires
        0 <= from,
    ensures
        first_idle(ports, from) is Some ==> from <= first_idle(ports, from)->0 < ports.len()
            && ports[first_idle(ports, from)->0 as int].status == PortStatus::Idle,
        first_idle(ports, from) is Some ==> forall|q: int|
            from <= q < first_idle(ports, from)->0 ==> ports[q].status != PortStatus::Idle,
        first_idle(ports, from) is None ==> forall|q: int|
            from <= q < ports.len() && q <= u8::MAX ==> ports[q].status != PortStatus::Idle,
    decreases ports.len() - from,
{
    if from < ports.len() && from <= u8::MAX && ports[from].status != PortStatus::Idle {
        lemma_first_idle(ports, from + 1);
    }
}

/// Going on with the ports keeps the controller consistent, given that
/// setup was attempted on exactly the implemented ports below `from`, and
/// that no port is busy.
proof fn lemma_setup_from_keeps(m: HbaModel, from: int)
    requires
        0 <= from <= MAX_PORTS,
        m.status == HbaStatus::Uninitialized,
        m.bound is None,
        m.ports.len() == MAX_PORTS,
        forall|i: int| 0 <= i < m.ports.len() ==> (#[trigger] m.ports[i]).wf() && m.ports[i].index == i && m.ports[i].timing == m.timing,
        forall|i: int| 0 <= i < m.ports.len() ==> (#[trigger] m.ports[i]).status != PortStatus::Busy,
        forall|i: int|
            0 <= i < m.ports.len() ==> ((#[trigger] m.ports[i]).status != PortStatus::Uninitialized <==> i < from && implemented(m.pi, i)),
    ensures
        m.setup_from(from).0.wf(),
        !m.setup_from(from).1.spec_is_final(),
        m.setup_from(from).0.timing == m.timing,
{
    lemma_next_implemented(m.pi, from);
    let n = m.setup_from(from).0;
    match next_implemented(m.pi, from) {
        Some(p) => {
            lemma_begin_setup_keeps(m.ports[p as int], spec_wide(m.cap));
            assert forall|i: int| 0 <= i < n.ports.len() implies ((#[trigger] n.ports[i]).status != PortStatus::Uninitialized <==> i <= p
                && implemented(m.pi, i)) by {
                if i != p {
                    assert(n.ports[i] == m.ports[i]);
                    assert(m.ports[i].status != PortStatus::Uninitialized <==> i < from && implemented(m.pi, i));
                }
            }
            assert forall|i: int| 0 <= i < n.ports.len() implies (#[trigger] n.ports[i]).wf()
                && n.ports[i].index == i && n.ports[i].timing == n.timing by {
                if i != p {
                    assert(n.ports[i] == m.ports[i]);
                }
            }
            assert forall|i: int|
                0 <= i < n.ports.len() && (#[trigger] n.ports[i]).status
                    == PortStatus::Busy implies n.delegating() && i == n.cursor by {
                if i != p {
                    assert(n.ports[i] == m.ports[i]);
                }
            }
        },
        None => {
            assert forall|i: int| 0 <= i < n.ports.len() implies ((#[trigger] n.ports[i]).status != PortStatus::Uninitialized <==> implemented(
                m.pi,
                i,
            )) by {
                assert(m.ports[i].status != PortStatus::Uninitialized <==> i < from && implemented(m.pi, i));
            }
        },
    }
}

/// A step keeps a consistent controller consistent and leaves its waits
/// alone.
pub proof fn lemma_hba_step_keeps(m: HbaModel, reply: u64)
    requires
        m.wf(),
    ensures
        m.step(reply).0.wf(),
        m.step(reply).0.timing == m.timing,
{
    let n = m.step(reply).0;
    if m.pending.len() > 0 {
        assert forall|i: int| 0 <= i < n.pending.len() implies !(#[trigger] n.pending[i]).spec_is_final() by {
            assert(n.pending[i] == m.pending[i + 1]);
        }
        assert(m.stage != HbaStage::Rest);
        assert(!m.delegating());
    } else {
        match m.stage {
            HbaStage::ReadPi => {
                let with_pi = HbaModel { pi: low32(reply), ..m };
                assert forall|i: int| 0 <= i < with_pi.ports.len() implies ((#[trigger] with_pi.ports[i]).status != PortStatus::Uninitialized <==> i < 0 && implemented(with_pi.pi, i)) by {
                    assert(m.ports[i].status == PortStatus::Uninitialized);
                }
                lemma_setup_from_keeps(with_pi, 0);
            },
            HbaStage::PortSetup => {
                let c = m.cursor as int;
                lemma_step_keeps(m.ports[c], reply);
                let (port, action) = m.ports[c].step(reply);
                let hba = HbaModel { ports: m.ports.update(c, port), ..m };
                assert forall|i: int| 0 <= i < hba.ports.len() implies (#[trigger] hba.ports[i]).wf()
                    && hba.ports[i].index == i && hba.ports[i].timing == hba.timing by {
                    if i != c {
                        assert(hba.ports[i] == m.ports[i]);
                    }
                }
                assert forall|i: int| 0 <= i < hba.ports.len() implies ((#[trigger] hba.ports[i]).status != PortStatus::Uninitialized <==> i
                    <= c && implemented(m.pi, i)) by {
                    if i != c {
                        assert(hba.ports[i] == m.ports[i]);
                        assert(m.ports[i].status != PortStatus::Uninitialized <==> i <= c && implemented(m.pi, i));
                    }
                }
                if action.spec_is_final() {
                    assert forall|i: int| 0 <= i < hba.ports.len() implies (
                    #[trigger] hba.ports[i]).status != PortStatus::Busy by {
                        if i != c {
                            assert(hba.ports[i] == m.ports[i]);
                        }
                    }
                    lemma_setup_from_keeps(hba, c + 1);
                } else {
                    assert forall|i: int|
                        0 <= i < hba.ports.len() && (#[trigger] hba.ports[i]).status
                            == PortStatus::Busy implies hba.delegating() && i == hba.cursor by {
                        if i != c {
                            assert(hba.ports[i] == m.ports[i]);
                        }
                    }
                }
            },
            HbaStage::PortWork => {
                let c = m.cursor as int;
                lemma_step_keeps(m.ports[c], reply);
                let (port, action) = m.ports[c].step(reply);
                assert forall|i: int| 0 <= i < n.ports.len() implies (#[trigger] n.ports[i]).wf()
                    && n.ports[i].index == i && n.ports[i].timing == n.timing by {
                    if i != c {
                        assert(n.ports[i] == m.ports[i]);
                    }
                }
                assert forall|i: int| 0 <= i < n.ports.len() implies ((#[trigger] n.ports[i]).status != PortStatus::Uninitialized <==> implemented(m.pi, i)) by {
                    assert(m.ports[i].status != PortStatus::Uninitialized <==> implemented(m.pi, i));
                    if i != c {
                        assert(n.ports[i] == m.ports[i]);
                    }
                }
                assert forall|i: int|
                    0 <= i < n.ports.len() && (#[trigger] n.ports[i]).status
                        == PortStatus::Busy implies n.delegating() && i == n.cursor by {
                    if i != c {
                        assert(n.ports[i] == m.ports[i]);
                    }
                }
                if m.bound is Some {
                    assert(m.attempted(m.bound->0 as int));
                    assert(implemented(m.pi, m.bound->0 as int));
                }
            },
            HbaStage::Finish => {
                lemma_first_idle(m.ports, 0);
            },
            _ => {},
        }
    }
}

/// Starting the initialization keeps a consistent controller consistent.
/// A controller with a transaction under way refuses and stays as it is;
/// any other names an action that does not end the transaction.
pub proof fn lemma_begin_init_keeps(m: HbaModel)
    requires
        m.wf(),
    ensures
        m.begin_init().0.wf(),
        m.begin_init().0.timing == m.timing,
        m.stage != HbaStage::Rest ==> m.begin_init().0 == m,
        m.stage == HbaStage::Rest ==> !m.begin_init().1.spec_is_final(),
{
    if m.stage == HbaStage::Rest {
        let n = m.begin_init().0;
        assert forall|i: int| 0 <= i < n.ports.len() implies (#[trigger] n.ports[i]).wf()
            && n.ports[i].index == i && n.ports[i].timing == n.timing && n.ports[i].status == PortStatus::Uninitialized by {
            assert(m.ports[i].wf());
            assert(m.ports[i].status != PortStatus::Busy);
        }
    }
}

/// A request or a recovery keeps a consistent controller consistent: the
/// controller stays as it is when the bound port refuses, and delegates
/// to the port when the port starts.
proof fn lemma_delegate_keeps(m: HbaModel, started: (PortModel, Action))
    requires
        m.wf(),
        m.accepting(),
        started.0.wf(),
        started.0.index == m.ports[m.bound->0 as int].index,
        started.0.timing == m.ports[m.bound->0 as int].timing,
        started.1.spec_is_final() ==> started.0 == m.ports[m.bound->0 as int],
        !started.1.spec_is_final() ==> started.0.status == PortStatus::Busy,
    ensures
        m.delegate(started).0.wf(),
        m.delegate(started).0.timing == m.timing,
        started.1.spec_is_final() ==> m.delegate(started).0 == m,
{
    let n = m.delegate(started).0;
    let b = m.bound->0 as int;
    if !started.1.spec_is_final() {
        assert forall|i: int| 0 <= i < n.ports.len() implies (#[trigger] n.ports[i]).wf()
            && n.ports[i].index == i && n.ports[i].timing == n.timing by {
            if i != b {
                assert(n.ports[i] == m.ports[i]);
            }
        }
        assert forall|i: int| 0 <= i < n.ports.len() implies ((#[trigger] n.ports[i]).status != PortStatus::Uninitialized <==> implemented(
            m.pi,
            i,
        )) by {
            assert(m.ports[i].status != PortStatus::Uninitialized <==> implemented(m.pi, i));
            if i != b {
                assert(n.ports[i] == m.ports[i]);
            }
        }
        assert forall|i: int|
            0 <= i < n.ports.len() && (#[trigger] n.ports[i]).status
                == PortStatus::Busy implies n.delegating() && i == n.cursor by {
            if i != b {
                assert(n.ports[i] == m.ports[i]);
            }
        }
    }
}

/// A request keeps a consistent controller consistent.
pub proof fn lemma_submit_keeps(m: HbaModel, request: Request)
    requires
        m.wf(),
    ensures
        m.submit(request).0.wf(),
        m.submit(request).0.timing == m.timing,
        m.submit(request).1.spec_is_final() ==> m.submit(request).0 == m,
{
    if m.accepting() {
        let b = m.bound->0 as int;
        lemma_issue_keeps(m.ports[b], request);
        lemma_delegate_keeps(m, m.ports[b].issue(request));
    }
}

/// A recovery keeps a consistent controller consistent.
pub proof fn lemma_recover_keeps(m: HbaModel)
    requires
        m.wf(),
    ensures
        m.recover().0.wf(),
        m.recover().0.timing == m.timing,
        m.recover().1.spec_is_final() ==> m.recover().0 == m,
{
    if m.accepting() {
        let b = m.bound->0 as int;
        lemma_begin_recovery_keeps(m.ports[b]);
        lemma_delegate_keeps(m, m.ports[b].begin_recovery());
    }
}

impl HbaModel {
    /// A controller of which nothing is known yet.
    pub open spec fn initial(timing: Timing) -> HbaModel {
        HbaModel {
            status: HbaStatus::Uninitialized,
            stage: HbaStage::Rest,
            remaining: 0,
            timing,
            cap: 0,
            pi: 0,
            cursor: 0,
            bound: None,
            ports: Seq::new(
                MAX_PORTS as nat,
                |i: int|
                    PortModel {
                        index: i as u8,
                        status: PortStatus::Uninitialized,
                        stage: Stage::Rest,
                        remaining: 0,
                        dma: crate::command::DmaArea { list: 0, fis: 0, table: 0, wide: false },
                        timing,
                        pending: Seq::empty(),
                    },
            ),
            pending: Seq::empty(),
        }
    }
}

/// The controller.
pub struct Hba {
    status: HbaStatus,
    stage: HbaStage,
    remaining: u32,
    timing: Timing,
    cap: u32,
    pi: u32,
    cursor: u8,
    bound: Option<u8>,
    ports: Vec<Port>,
    script: Vec<Action>,
    next: usize,
}

impl View for Hba {
    type V = HbaModel;

    closed spec fn view(&self) -> HbaModel {
        HbaModel {
            status: self.status,
            stage: self.stage,
            remaining: self.remaining,
            timing: self.timing,
            cap: self.cap,
            pi: self.pi,
            cursor: self.cursor,
            bound: self.bound,
            ports: Seq::new(self.ports@.len(), |i: int| self.ports@[i]@),
            pending: self.script@.skip(self.next as int),
        }
    }
}

/// Finds the lowest implemented port from `from` on.
pub fn next_implemented_port(pi: u32, from: u8) -> (r: Option<u8>)
    ensures
        r == next_implemented(pi, from as int),
{
    let mut p: u8 = from;
    while p < MAX_PORTS
        invariant
            from <= p,
            next_implemented(pi, from as int) == next_implemented(pi, p as int),
        decreases MAX_PORTS - p,
    {
        if (pi >> (p as u32)) & 1 == 1 {
            return Some(p);
        }
        p = p + 1;
    }
    None
}

impl Hba {
    /// Whether the controller is consistent.
    pub closed spec fn wf(&self) -> bool {
        &&& self.next <= self.script@.len()
        &&& forall|i: int| 0 <= i < self.ports@.len() ==> (#[trigger] self.ports@[i]).wf()
        &&& self@.wf()
    }

    /// What follows from a controller's consistency for its model.
    pub proof fn lemma_wf(&self)
        requires
            self.wf(),
        ensures
            self@.wf(),
    {
    }

    /// A controller of which nothing is known yet.
    pub fn new(timing: Timing) -> (h: Hba)
        ensures
            h.wf(),
            h@ == HbaModel::initial(timing),
    {
        let mut ports: Vec<Port> = Vec::new();
        let mut i: u8 = 0;
        while i < MAX_PORTS
            invariant
                i <= MAX_PORTS,
                ports@.len() == i,
                forall|j: int| 0 <= j < i ==> (#[trigger] ports@[j]).wf() && ports@[j]@
                    == HbaModel::initial(timing).ports[j],
            decreases MAX_PORTS - i,
        {
            let p = Port::new(i, timing);
            ports.push(p);
            i = i + 1;
        }
        let h = Hba {
            status: HbaStatus::Uninitialized,
            stage: HbaStage::Rest,
            remaining: 0,
            timing,
            cap: 0,
            pi: 0,
            cursor: 0,
            bound: None,
            ports,
            script: Vec::new(),
            next: 0,
        };
        assert(h@.ports =~= HbaModel::initial(timing).ports);
        assert(h@.pending =~= Seq::empty());
        h
    }

    /// What software knows of the controller.
    pub fn status(&self) -> (s: HbaStatus)
        ensures
            s == self@.status,
    {
        self.status
    }

    /// Whether a transaction is under way.
    pub fn is_busy(&self) -> (b: bool)
        ensures
            b == (self@.stage != HbaStage::Rest),
    {
        match self.stage {
            HbaStage::Rest => false,
            _ => true,
        }
    }

    /// The ports-implemented mask that initialization read.
    pub fn ports_implemented(&self) -> (pi: u32)
        ensures
            pi == self@.pi,
    {
        self.pi
    }

    /// Number of command slots that the controller announced.
    pub fn command_slots(&self) -> (n: u8)
        ensures
            n == spec_command_slots(self@.cap),
            1 <= n <= 32,
    {
        let cap: u32 = self.cap;
        assert(((cap >> 8) & 0x1f) == cap / 0x100 % 32) by (bit_vector);
        (((cap >> 8) & 0x1f) + 1) as u8
    }

    /// Whether the controller announced 64-bit addressing.
    pub fn supports_64bit(&self) -> (b: bool)
        ensures
            b == spec_wide(self@.cap),
    {
        self.cap & CAP_S64A != 0
    }

    /// The port that the disk is bound to.
    pub fn bound_port(&self) -> (b: Option<u8>)
        ensures
            b == self@.bound,
    {
        self.bound
    }

    /// What software knows of port `p`, if the controller can have such
    /// a port.
    pub fn port_status(&self, p: u8) -> (s: Option<PortStatus>)
        requires
            self.wf(),
        ensures
            s is Some <==> p < MAX_PORTS,
            s is Some ==> s->0 == self@.ports[p as int].status,
    {
        if p < MAX_PORTS {
            Some(self.ports[p as usize].status())
        } else {
            None
        }
    }

    /// Takes `script` as the pending actions, hands out the first and
    /// makes the controller wait in `stage`.
    fn run(&mut self, script: Vec<Action>, stage: HbaStage, remaining: u32) -> (a: Action)
        requires
            script@.len() > 0,
        ensures
            (final(self)@, a) == old(self)@.run(script@, stage, remaining),
            final(self).next <= final(self).script@.len(),
            final(self).ports == old(self).ports,
    {
        let a = script[0];
        self.script = script;
        self.next = 1;
        self.stage = stage;
        self.remaining = remaining;
        assert(self@.pending =~= script@.drop_first());
        a
    }

    /// Ends the initialization in failure.
    fn fail(&mut self, error: AhciError) -> (a: Action)
        ensures
            (final(self)@, a) == old(self)@.fail(error),
            final(self).next <= final(self).script@.len(),
            final(self).ports == old(self).ports,
    {
        self.script = Vec::new();
        self.next = 0;
        self.status = HbaStatus::Failed;
        self.stage = HbaStage::Rest;
        self.remaining = 0;
        assert(self@.pending =~= Seq::empty());
        Action::Failed { error }
    }

    /// Pauses and looks again, or gives the wait up.
    fn wait_more(&mut self, offset: u32, stage: HbaStage, error: AhciError) -> (a: Action)
        ensures
            (final(self)@, a) == old(self)@.wait_more(offset, stage, error),
            final(self).next <= final(self).script@.len(),
            final(self).ports == old(self).ports,
    {
        if self.remaining == 0 {
            self.fail(error)
        } else {
            let mut script: Vec<Action> = Vec::new();
            script.push(Action::Delay { ms: self.timing.poll_interval_ms });
            script.push(Action::ReadReg { offset });
            assert(script@ =~= seq![
                Action::Delay { ms: self.timing.poll_interval_ms },
                Action::ReadReg { offset },
            ]);
            let left: u32 = self.remaining - 1;
            self.run(script, stage, left)
        }
    }

    /// Hands out one action and waits in `stage`.
    fn run_one(&mut self, action: Action, stage: HbaStage) -> (a: Action)
        ensures
            (final(self)@, a) == old(self)@.run(seq![action], stage, 0),
            final(self).next <= final(self).script@.len(),
            final(self).ports == old(self).ports,
    {
        let mut script: Vec<Action> = Vec::new();
        script.push(action);
        assert(script@ =~= seq![action]);
        self.run(script, stage, 0)
    }

    /// Hands out a write and a read and waits in `stage`.
    fn run_write_read(
        &mut self,
        offset: u32,
        value: u32,
        then: u32,
        stage: HbaStage,
        remaining: u32,
    ) -> (a: Action)
        ensures
            (final(self)@, a) == old(self)@.run(
                seq![Action::WriteReg { offset, value }, Action::ReadReg { offset: then }],
                stage,
                remaining,
            ),
            final(self).next <= final(self).script@.len(),
            final(self).ports == old(self).ports,
    {
        let mut script: Vec<Action> = Vec::new();
        script.push(Action::WriteReg { offset, value });
        script.push(Action::ReadReg { offset: then });
        assert(script@ =~= seq![Action::WriteReg { offset, value }, Action::ReadReg { offset: then }]);
        self.run(script, stage, remaining)
    }

    /// Goes on with the lowest implemented port from `from` on.
    fn setup_from(&mut self, from: u8) -> (a: Action)
        requires
            from <= MAX_PORTS,
            old(self).ports@.len() == MAX_PORTS,
            forall|i: int| 0 <= i < old(self).ports@.len() ==> (#[trigger] old(self).ports@[i]).wf(),
        ensures
            (final(self)@, a) == old(self)@.setup_from(from as int),
            final(self).next <= final(self).script@.len(),
            final(self).ports@.len() == MAX_PORTS,
            forall|i: int| 0 <= i < final(self).ports@.len() ==> (#[trigger] final(self).ports@[i]).wf(),
    {
        proof {
            lemma_next_implemented(self.pi, from as int);
        }
        match next_implemented_port(self.pi, from) {
            Some(p) => {
                let wide: bool = self.cap & CAP_S64A != 0;
                let a = self.ports[p as usize].begin_setup(wide);
                self.script = Vec::new();
                self.next = 0;
                self.stage = HbaStage::PortSetup;
                self.remaining = 0;
                self.cursor = p;
                assert(self@.pending =~= Seq::empty());
                assert(self@.ports =~= old(self)@.ports.update(
                    p as int,
                    old(self)@.ports[p as int].begin_setup(wide).0,
                ));
                a
            },
            None => self.run_one(Action::ReadReg { offset: HBA_IS }, HbaStage::ClearStatus),
        }
    }

    /// Finds the lowest idle port.
    fn find_idle(&self) -> (r: Option<u8>)
        requires
            self.ports@.len() == MAX_PORTS,
        ensures
            r == first_idle(self@.ports, 0),
    {
        let mut p: u8 = 0;
        while p < MAX_PORTS
            invariant
                self.ports@.len() == MAX_PORTS,
                first_idle(self@.ports, 0) == first_idle(self@.ports, p as int),
            decreases MAX_PORTS - p,
        {
            if self.ports[p as usize].is_idle() {
                return Some(p);
            }
            p = p + 1;
        }
        None
    }

    /// Starts the initialization of the controller.
    pub fn begin_init(&mut self) -> (a: Action)
        requires
            old(self).wf(),
        ensures
            final(self).wf(),
            (final(self)@, a) == old(self)@.begin_init(),
    {
        proof {
            lemma_begin_init_keeps(self@);
        }
        match self.stage {
            HbaStage::Rest => {},
            _ => {
                return Action::Failed { error: AhciError::PortNotResponding };
            },
        }
        let mut i: usize = 0;
        while i < self.ports.len()
            invariant
                i <= self.ports@.len(),
                self.ports@.len() == old(self).ports@.len(),
                forall|j: int| 0 <= j < self.ports@.len() ==> (#[trigger] self.ports@[j]).wf(),
                forall|j: int| 0 <= j < i ==> (#[trigger] self.ports@[j])@ == old(self).ports@[j]@.reset(),
                forall|j: int|
                    i <= j < self.ports@.len() ==> (#[trigger] self.ports@[j])@ == old(self).ports@[j]@,
                self.status == old(self).status,
                self.stage == old(self).stage,
                self.remaining == old(self).remaining,
                self.timing == old(self).timing,
                self.script == old(self).script,
                self.next == old(self).next,
            decreases self.ports@.len() - i,
        {
            self.ports[i].reset();
            i = i + 1;
        }
        self.status = HbaStatus::Uninitialized;
        self.cap = 0;
        self.pi = 0;
        self.cursor = 0;
        self.bound = None;
        assert(self@.ports =~= Seq::new(
            old(self)@.ports.len(),
            |i: int| old(self)@.ports[i].reset(),
        ));
        self.run_one(Action::ReadReg { offset: HBA_CAP2 }, HbaStage::ProbeHandoff)
    }

    /// Takes the first action of a transaction that the bound port has
    /// started, or hands on the port's refusal.
    fn delegate(&mut self, port: u8, action: Action) -> (a: Action)
        requires
            old(self).stage == HbaStage::Rest,
        ensures
            a == action,
            final(self).ports == old(self).ports,
            final(self).script == old(self).script,
            final(self).next == old(self).next,
            final(self).status == old(self).status,
            final(self).remaining == old(self).remaining,
            final(self).timing == old(self).timing,
            final(self).cap == old(self).cap,
            final(self).pi == old(self).pi,
            final(self).bound == old(self).bound,
            action.spec_is_final() ==> final(self).stage == old(self).stage && final(self).cursor
                == old(self).cursor,
            !action.spec_is_final() ==> final(self).stage == HbaStage::PortWork && final(self).cursor == port,
    {
        if !action.is_final() {
            self.stage = HbaStage::PortWork;
            self.cursor = port;
        }
        action
    }

    /// Hands a request to the port that the disk is bound to.
    pub fn submit(&mut self, request: Request) -> (a: Action)
        requires
            old(self).wf(),
        ensures
            final(self).wf(),
            (final(self)@, a) == old(self)@.submit(request),
    {
        proof {
            lemma_submit_keeps(self@, request);
        }
        let b: u8 = match (self.stage, self.status, self.bound) {
            (HbaStage::Rest, HbaStatus::Ready, Some(b)) => b,
            _ => {
                return Action::Failed { error: AhciError::PortNotResponding };
            },
        };
        proof {
            lemma_issue_keeps(self@.ports[b as int], request);
        }
        let started = self.ports[b as usize].issue(request);
        let a = self.delegate(b, started);
        assert(self@.ports =~= if a.spec_is_final() {
            old(self)@.ports
        } else {
            old(self)@.ports.update(b as int, old(self)@.ports[b as int].issue(request).0)
        });
        a
    }

    /// Starts recovering the port that the disk is bound to.
    pub fn recover(&mut self) -> (a: Action)
        requires
            old(self).wf(),
        ensures
            final(self).wf(),
            (final(self)@, a) == old(self)@.recover(),
    {
        proof {
            lemma_recover_keeps(self@);
        }
        let b: u8 = match (self.stage, self.status, self.bound) {
            (HbaStage::Rest, HbaStatus::Ready, Some(b)) => b,
            _ => {
                return Action::Failed { error: AhciError::PortNotResponding };
            },
        };
        proof {
            lemma_begin_recovery_keeps(self@.ports[b as int]);
        }
        let started = self.ports[b as usize].begin_recovery();
        let a = self.delegate(b, started);
        assert(self@.ports =~= if a.spec_is_final() {
            old(self)@.ports
        } else {
            old(self)@.ports.update(b as int, old(self)@.ports[b as int].begin_recovery().0)
        });
        a
    }

    /// Takes the outcome of the action handed out last and names the
    /// next one.
    pub fn resume(&mut self, reply: u64) -> (a: Action)
        requires
            old(self).wf(),
        ensures
            final(self).wf(),
            (final(self)@, a) == old(self)@.step(reply),
    {
        proof {
            lemma_hba_step_keeps(self@, reply);
        }
        if self.next < self.script.len() {
            let a = self.script[self.next];
            self.next = self.next + 1;
            assert(self@.pending =~= old(self)@.pending.drop_first());
            assert(self@.ports =~= old(self)@.ports);
            return a;
        }
        let value: u32 = (reply & 0xffff_ffff) as u32;
        match self.stage {
            HbaStage::Rest => Action::Failed { error: AhciError::PortNotResponding },
            HbaStage::ProbeHandoff => {
                if value & CAP2_BOH != 0 {
                    self.run_one(Action::ReadReg { offset: HBA_BOHC }, HbaStage::HandoffRead)
                } else {
                    self.run_one(Action::ReadReg { offset: HBA_GHC }, HbaStage::ResetProbe)
                }
            },
            HbaStage::HandoffRead => {
                if value & BOHC_BOS == 0 {
                    self.run_one(Action::ReadReg { offset: HBA_GHC }, HbaStage::ResetProbe)
                } else {
                    let polls: u32 = self.timing.handoff_polls;
                    self.run_write_read(
                        HBA_BOHC,
                        value | BOHC_OOS,
                        HBA_BOHC,
                        HbaStage::HandoffPoll,
                        polls,
                    )
                }
            },
            HbaStage::HandoffPoll => {
                if value & (BOHC_BOS | BOHC_BB) == 0 {
                    self.run_one(Action::ReadReg { offset: HBA_GHC }, HbaStage::ResetProbe)
                } else {
                    self.wait_more(HBA_BOHC, HbaStage::HandoffPoll, AhciError::HandoffTimeout)
                }
            },
            HbaStage::ResetProbe => {
                let polls: u32 = self.timing.reset_polls;
                self.run_write_read(HBA_GHC, value | GHC_HR, HBA_GHC, HbaStage::ResetPoll, polls)
            },
            HbaStage::ResetPoll => {
                if value & GHC_HR == 0 {
                    self.run_write_read(HBA_GHC, value | GHC_AE, HBA_CAP, HbaStage::ReadCap, 0)
                } else {
                    self.wait_more(HBA_GHC, HbaStage::ResetPoll, AhciError::ResetTimeout)
                }
            },
            HbaStage::ReadCap => {
                self.cap = value;
                self.run_one(Action::ReadReg { offset: HBA_PI }, HbaStage::ReadPi)
            },
            HbaStage::ReadPi => {
                self.pi = value;
                self.setup_from(0)
            },
            HbaStage::PortSetup => {
                let c: u8 = self.cursor;
                let a = self.ports[c as usize].resume(reply);
                assert(self@.ports =~= old(self)@.ports.update(
                    c as int,
                    old(self)@.ports[c as int].step(reply).0,
                ));
                if a.is_final() {
                    self.setup_from(c + 1)
                } else {
                    a
                }
            },
            HbaStage::ClearStatus => {
                self.run_one(Action::WriteReg { offset: HBA_IS, value }, HbaStage::Finish)
            },
            HbaStage::Finish => {
                let bound = self.find_idle();
                self.status = HbaStatus::Ready;
                self.stage = HbaStage::Rest;
                self.remaining = 0;
                self.bound = bound;
                assert(self@.ports =~= old(self)@.ports);
                Action::Done
            },
            HbaStage::PortWork => {
                let c: u8 = self.cursor;
                let a = self.ports[c as usize].resume(reply);
                assert(self@.ports =~= old(self)@.ports.update(
                    c as int,
                    old(self)@.ports[c as int].step(reply).0,
                ));
                if a.is_final() {
                    self.stage = HbaStage::Rest;
                }
                a
            },
        }
    }
}

} // verus!
