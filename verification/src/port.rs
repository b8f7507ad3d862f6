//! The state machine of one port: bringing its engines up, issuing one
//! command at a time through slot 0, waiting for the device, and
//! recovering after a failure.

use vstd::prelude::*;
use crate::action::{Action, Timing};
use crate::command::{
    build_flush,
    build_rw,
    apart,
    check_apart,
    check_region,
    flush_command,
    header_words,
    region_ok,
    rw_command,
    table_words,
    transfer_ok,
    Command,
    CommandView,
    Direction,
    DmaArea,
    COMMAND_LIST_BYTES,
    COMMAND_TABLE_BYTES,
};
use crate::error::AhciError;
use crate::fis::{d2h_status_error, spec_d2h_error, spec_d2h_status, RFIS_BYTES, RFIS_D2H_OFFSET};
use crate::regs::{
    port_reg,
    spec_port_reg,
    PortReg,
    CLEAR_ALL,
    COMMAND_SLOT_BIT,
    PORT_CMD_CR,
    PORT_CMD_FR,
    PORT_CMD_FRE,
    PORT_CMD_ST,
    PORT_IS_ERRORS,
};

verus! {

/// What software knows of a port.
#[derive(Clone, Copy, Debug, PartialEq, Eq, Structural)]
pub enum PortStatus {
    /// The port was never brought up.
    Uninitialized,
    /// The port is up and takes a command.
    Idle,
    /// A transaction is under way on the port.
    Busy,
    /// The port failed and takes no command until it is recovered.
    Error,
}

/// The outcome that a busy port is waiting for.
#[derive(Clone, Copy, Debug, PartialEq, Eq, Structural)]
pub enum Stage {
    /// Nothing is under way.
    Rest,
    /// PxCMD, to see whether the engines run and must be stopped.
    StopProbe,
    /// PxCMD, after the engines were told to stop.
    StopPoll,
    /// Memory for the command list.
    AllocList,
    /// Memory for the received-FIS area.
    AllocFis,
    /// Memory for the command table.
    AllocTable,
    /// PxCMD, to switch the posting of received FISes on from its current
    /// value.
    StartProbe,
    /// PxCMD, to start the command list from its current value, now that
    /// received FISes are posted.
    StartEngine,
    /// PxCMD, after the engines were told to start.
    StartPoll,
    /// PxIS, to see whether the command in flight has failed.
    PollStatus,
    /// PxCI, to see whether the command in flight was consumed.
    PollIssue,
    /// The first word of the frame that the device posted with its error.
    Diagnose,
    /// The barrier that makes the data of a finished command visible.
    Complete,
}

/// A request to a port.
#[derive(Clone, Copy, Debug, PartialEq, Eq, Structural)]
pub enum Request {
    /// Read `block_count` blocks from `lba` into the buffer at `buffer`.
    Read { lba: u64, block_count: u16, buffer: u64 },
    /// Write `block_count` blocks to `lba` from the buffer at `buffer`.
    Write { lba: u64, block_count: u16, buffer: u64 },
    /// Flush the device's cache.
    Flush,
}

/// One of the controller's ports.
pub struct Port {
    index: u8,
    status: PortStatus,
    stage: Stage,
    remaining: u32,
    dma: DmaArea,
    timing: Timing,
    script: Vec<Action>,
    next: usize,
}

/// The state of a port as the contracts speak of it.
pub struct PortModel {
    /// Number of the port on its controller.
    pub index: u8,
    /// What software knows of the port.
    pub status: PortStatus,
    /// What the port waits for once its pending actions are performed.
    pub stage: Stage,
    /// How many more pauses the current wait may take.
    pub remaining: u32,
    /// The port's DMA memory.
    pub dma: DmaArea,
    /// The waits the port grants.
    pub timing: Timing,
    /// Actions decided on but not yet handed out, next first.
    pub pending: Seq<Action>,
}

/// The low half of an outcome: the value of a 32-bit read.
pub open spec fn low32(reply: u64) -> u32 {
    (reply & 0xffff_ffff) as u32
}

/// Stores that put `words` into memory from address `base` on.
pub open spec fn stores(base: u64, words: Seq<u32>) -> Seq<Action> {
    Seq::new(words.len(), |k: int| Action::WriteMem { addr: (base + 4 * k) as u64, value: words[k] })
}

/// The actions that hand a command to the device: header into slot 0 of
/// the command list, table into its place, a barrier so that the device
/// sees both, the doorbell, and a first look at the interrupt status.
pub open spec fn issue_script(index: u8, dma: DmaArea, cmd: CommandView) -> Seq<Action> {
    stores(dma.list, header_words(cmd.header)) + stores(dma.table, table_words(cmd.fis, cmd.prdt))
        + seq![
        Action::Barrier,
        Action::WriteReg { offset: spec_port_reg(index, PortReg::Ci), value: COMMAND_SLOT_BIT },
        Action::ReadReg { offset: spec_port_reg(index, PortReg::Is) },
    ]
}

/// The actions that program a stopped port: the received-FIS area is
/// zeroed, both base addresses are written, stale errors are cleared, and
/// PxCMD is read to start the engines from its current value.
pub open spec fn program_script(index: u8, dma: DmaArea) -> Seq<Action> {
    stores(dma.fis, Seq::new((RFIS_BYTES / 4) as nat, |k: int| 0u32)) + seq![
        Action::WriteReg {
            offset: spec_port_reg(index, PortReg::Clb),
            value: (dma.list % 0x1_0000_0000) as u32,
        },
        Action::WriteReg {
            offset: spec_port_reg(index, PortReg::Clbu),
            value: (dma.list / 0x1_0000_0000) as u32,
        },
        Action::WriteReg {
            offset: spec_port_reg(index, PortReg::Fb),
            value: (dma.fis % 0x1_0000_0000) as u32,
        },
        Action::WriteReg {
            offset: spec_port_reg(index, PortReg::Fbu),
            value: (dma.fis / 0x1_0000_0000) as u32,
        },
        Action::WriteReg { offset: spec_port_reg(index, PortReg::Serr), value: CLEAR_ALL },
        Action::WriteReg { offset: spec_port_reg(index, PortReg::Is), value: CLEAR_ALL },
        Action::ReadReg { offset: spec_port_reg(index, PortReg::Cmd) },
    ]
}

/// The command that a request stands for, if it can be put into one.
pub open spec fn request_command(dma: DmaArea, request: Request) -> Option<CommandView> {
    match request {
        Request::Read { lba, block_count, buffer } => if transfer_ok(
            dma.wide,
            lba,
            block_count,
            buffer,
        ) {
            Some(rw_command(dma, lba, block_count, buffer, Direction::Read))
        } else {
            None
        },
        Request::Write { lba, block_count, buffer } => if transfer_ok(
            dma.wide,
            lba,
            block_count,
            buffer,
        ) {
            Some(rw_command(dma, lba, block_count, buffer, Direction::Write))
        } else {
            None
        },
        Request::Flush => Some(flush_command(dma)),
    }
}

impl PortModel {
    /// What holds of every port: a port at rest has nothing pending and
    /// nothing to wait for, only a busy port is under way, no pending
    /// action ends a transaction, and a port that is idle or past its
    /// allocations has usable DMA memory.
    pub open spec fn wf(self) -> bool {
        &&& (self.status != PortStatus::Busy) == (self.stage == Stage::Rest)
        &&& self.stage == Stage::Rest ==> self.pending.len() == 0 && self.remaining == 0
        &&& forall|i: int| 0 <= i < self.pending.len() ==> !(#[trigger] self.pending[i]).spec_is_final()
        &&& self.status == PortStatus::Idle ==> self.dma.wf()
        &&& (self.stage == Stage::StartProbe || self.stage == Stage::StartEngine || self.stage
            == Stage::StartPoll || self.stage
            == Stage::PollStatus || self.stage == Stage::PollIssue || self.stage == Stage::Diagnose
            || self.stage == Stage::Complete) ==> self.dma.wf()
    }

    /// The port hands out `script` action by action and then waits in
    /// `stage`; the first action is handed out at once.
    pub open spec fn run(self, script: Seq<Action>, stage: Stage, remaining: u32) -> (
        PortModel,
        Action,
    ) {
        (
            PortModel {
                status: PortStatus::Busy,
                stage,
                remaining,
                pending: script.drop_first(),
                ..self
            },
            script[0],
        )
    }

    /// The transaction fails and leaves the port in error.
    pub open spec fn fail(self, error: AhciError) -> (PortModel, Action) {
        (
            PortModel {
                status: PortStatus::Error,
                stage: Stage::Rest,
                remaining: 0,
                pending: Seq::empty(),
                ..self
            },
            Action::Failed { error },
        )
    }

    /// The transaction succeeds and leaves the port idle.
    pub open spec fn succeed(self) -> (PortModel, Action) {
        (
            PortModel {
                status: PortStatus::Idle,
                stage: Stage::Rest,
                remaining: 0,
                pending: Seq::empty(),
                ..self
            },
            Action::Done,
        )
    }

    /// The engines are stopped: memory the port already has is used
    /// again, a port without memory asks for its command list.
    pub open spec fn after_stop(self) -> (PortModel, Action) {
        if self.dma.wf() {
            self.run(program_script(self.index, self.dma), Stage::StartProbe, 0)
        } else {
            self.run(
                seq![Action::Allocate { size: COMMAND_LIST_BYTES, align: 0x400 }],
                Stage::AllocList,
                0,
            )
        }
    }

    /// The port pauses and looks again at register `reg`, if the current
    /// wait has a pause left; the transaction fails with `error` if not.
    pub open spec fn wait_more(self, reg: PortReg, stage: Stage, error: AhciError) -> (
        PortModel,
        Action,
    ) {
        if self.remaining == 0 {
            self.fail(error)
        } else {
            self.run(
                seq![
                    Action::Delay { ms: self.timing.poll_interval_ms },
                    Action::ReadReg { offset: spec_port_reg(self.index, reg) },
                ],
                stage,
                (self.remaining - 1) as u32,
            )
        }
    }

    /// What the port does when the platform reports the outcome `reply`
    /// of the action handed out last: it hands out the next pending
    /// action, or decides by what it was waiting for.
    pub open spec fn step(self, reply: u64) -> (PortModel, Action) {
        let value = low32(reply);
        if self.pending.len() > 0 {
            (PortModel { pending: self.pending.drop_first(), ..self }, self.pending[0])
        } else {
            match self.stage {
                Stage::Rest => (self, Action::Failed { error: AhciError::PortNotResponding }),
                Stage::StopProbe => if value & (PORT_CMD_ST | PORT_CMD_CR | PORT_CMD_FRE
                    | PORT_CMD_FR) == 0 {
                    self.after_stop()
                } else {
                    self.run(
                        seq![
                            Action::WriteReg {
                                offset: spec_port_reg(self.index, PortReg::Cmd),
                                value: value & !(PORT_CMD_ST | PORT_CMD_FRE),
                            },
                            Action::ReadReg { offset: spec_port_reg(self.index, PortReg::Cmd) },
                        ],
                        Stage::StopPoll,
                        self.timing.port_polls,
                    )
                },
                Stage::StopPoll => if value & (PORT_CMD_CR | PORT_CMD_FR) == 0 {
                    self.after_stop()
                } else {
                    self.wait_more(PortReg::Cmd, Stage::StopPoll, AhciError::PortNotResponding)
                },
                Stage::AllocList => if region_ok(reply, COMMAND_LIST_BYTES, 0x400, self.dma.wide) {
                    PortModel { dma: DmaArea { list: reply, ..self.dma }, ..self }.run(
                        seq![Action::Allocate { size: RFIS_BYTES, align: 0x100 }],
                        Stage::AllocFis,
                        0,
                    )
                } else {
                    self.fail(AhciError::PortNotResponding)
                },
                Stage::AllocFis => if region_ok(reply, RFIS_BYTES, 0x100, self.dma.wide) && apart(
                    self.dma.list,
                    COMMAND_LIST_BYTES,
                    reply,
                    RFIS_BYTES,
                ) {
                    PortModel { dma: DmaArea { fis: reply, ..self.dma }, ..self }.run(
                        seq![Action::Allocate { size: COMMAND_TABLE_BYTES, align: 0x80 }],
                        Stage::AllocTable,
                        0,
                    )
                } else {
                    self.fail(AhciError::PortNotResponding)
                },
                Stage::AllocTable => if region_ok(reply, COMMAND_TABLE_BYTES, 0x80, self.dma.wide)
                    && (DmaArea { table: reply, ..self.dma }).wf() {
                    let dma = DmaArea { table: reply, ..self.dma };
                    PortModel { dma, ..self }.run(
                        program_script(self.index, dma),
                        Stage::StartProbe,
                        0,
                    )
                } else {
                    self.fail(AhciError::PortNotResponding)
                },
                Stage::StartProbe => self.run(
                    seq![
                        Action::WriteReg {
                            offset: spec_port_reg(self.index, PortReg::Cmd),
                            value: value | PORT_CMD_FRE,
                        },
                        Action::ReadReg { offset: spec_port_reg(self.index, PortReg::Cmd) },
                    ],
                    Stage::StartEngine,
                    0,
                ),
                Stage::StartEngine => self.run(
                    seq![
                        Action::WriteReg {
                            offset: spec_port_reg(self.index, PortReg::Cmd),
                            value: value | PORT_CMD_ST,
                        },
                        Action::ReadReg { offset: spec_port_reg(self.index, PortReg::Cmd) },
                    ],
                    Stage::StartPoll,
                    self.timing.port_polls,
                ),
                Stage::StartPoll => if value & PORT_CMD_CR != 0 {
                    self.succeed()
                } else {
                    self.wait_more(PortReg::Cmd, Stage::StartPoll, AhciError::PortNotResponding)
                },
                Stage::PollStatus => if value & PORT_IS_ERRORS != 0 {
                    self.run(
                        seq![Action::ReadMem { addr: (self.dma.fis + RFIS_D2H_OFFSET) as u64 }],
                        Stage::Diagnose,
                        0,
                    )
                } else {
                    self.run(
                        seq![Action::ReadReg { offset: spec_port_reg(self.index, PortReg::Ci) }],
                        Stage::PollIssue,
                        self.remaining,
                    )
                },
                Stage::PollIssue => if value & COMMAND_SLOT_BIT == 0 {
                    self.run(seq![Action::Barrier], Stage::Complete, 0)
                } else {
                    self.wait_more(PortReg::Is, Stage::PollStatus, AhciError::CommandTimeout)
                },
                Stage::Diagnose => self.fail(
                    AhciError::DeviceError {
                        status: spec_d2h_status(value),
                        error: spec_d2h_error(value),
                    },
                ),
                Stage::Complete => self.succeed(),
            }
        }
    }

    /// What the port does when it is told to bring itself up on a
    /// controller that does (`wide`) or does not take 64-bit addresses: a
    /// busy port refuses and stays as it is, any other reads PxCMD to see
    /// whether its engines have to be stopped first.
    pub open spec fn begin_setup(self, wide: bool) -> (PortModel, Action) {
        if self.status == PortStatus::Busy {
            (self, Action::Failed { error: AhciError::PortNotResponding })
        } else {
            PortModel { dma: DmaArea { wide, ..self.dma }, ..self }.run(
                seq![Action::ReadReg { offset: spec_port_reg(self.index, PortReg::Cmd) }],
                Stage::StopProbe,
                0,
            )
        }
    }

    /// What the port does when it is told to recover: a port in error is
    /// brought up again with the memory it has, an idle port has nothing
    /// to recover from, any other refuses. A port that does not start
    /// recovering stays as it is.
    pub open spec fn begin_recovery(self) -> (PortModel, Action) {
        match self.status {
            PortStatus::Error => self.begin_setup(self.dma.wide),
            PortStatus::Idle => (self, Action::Done),
            _ => (self, Action::Failed { error: AhciError::PortNotResponding }),
        }
    }

    /// The port forgets that it was brought up; its memory stays. A busy
    /// port stays as it is.
    pub open spec fn reset(self) -> PortModel {
        if self.status == PortStatus::Busy {
            self
        } else {
            PortModel { status: PortStatus::Uninitialized, ..self }
        }
    }

    /// What the port does with a request: one that cannot be put into a
    /// command is refused as invalid, one to a port that is not idle is
    /// refused too, and in both cases the port stays as it is; otherwise
    /// the command is handed to the device and the port waits for it.
    pub open spec fn issue(self, request: Request) -> (PortModel, Action) {
        match request_command(self.dma, request) {
            None => (self, Action::Failed { error: AhciError::InvalidTransferSize }),
            Some(cmd) => if self.status != PortStatus::Idle {
                (self, Action::Failed { error: AhciError::PortNotResponding })
            } else {
                self.run(
                    issue_script(self.index, self.dma, cmd),
                    Stage::PollStatus,
                    self.timing.command_polls,
                )
            },
        }
    }
}

/// A step keeps a consistent port consistent and leaves its number, its
/// waits and its controller's reach alone. A port at rest refuses the
/// step and stays as it is. A busy port was brought up at least once when
/// the step is over, and it stops being busy exactly when the step ends
/// the transaction.
pub proof fn lemma_step_keeps(m: PortModel, reply: u64)
    requires
        m.wf(),
    ensures
        m.step(reply).0.wf(),
        m.step(reply).0.index == m.index,
        m.step(reply).0.timing == m.timing,
        m.step(reply).0.dma.wide == m.dma.wide,
        m.status != PortStatus::Busy ==> m.step(reply).0 == m && m.step(reply).1 == (Action::Failed {
            error: AhciError::PortNotResponding,
        }),
        m.status == PortStatus::Busy ==> m.step(reply).0.status != PortStatus::Uninitialized && (
        m.step(reply).1.spec_is_final() <==> m.step(reply).0.status != PortStatus::Busy),
{
    lemma_scripts_go_on(m.index, m.dma);
    if m.pending.len() > 0 {
        assert(!m.pending[0].spec_is_final());
        let n = m.step(reply).0;
        assert forall|i: int| 0 <= i < n.pending.len() implies !(#[trigger] n.pending[i]).spec_is_final() by {
            assert(n.pending[i] == m.pending[i + 1]);
        }
    } else if m.stage == Stage::AllocTable {
        let dma = DmaArea { table: reply, ..m.dma };
        lemma_scripts_go_on(m.index, dma);
    }
}

/// The actions that program a port are not empty and none of them ends a
/// transaction.
pub proof fn lemma_scripts_go_on(index: u8, dma: DmaArea)
    ensures
        program_script(index, dma).len() == RFIS_BYTES / 4 + 7,
        forall|i: int|
            0 <= i < program_script(index, dma).len() ==> !(#[trigger] program_script(
                index,
                dma,
            )[i]).spec_is_final(),
{
}

/// The actions that hand a command to the device are not empty and none
/// of them ends a transaction.
pub proof fn lemma_issue_goes_on(index: u8, dma: DmaArea, cmd: CommandView)
    ensures
        issue_script(index, dma, cmd).len() == 8 + 32 + 4 * cmd.prdt.len() + 3,
        forall|i: int|
            0 <= i < issue_script(index, dma, cmd).len() ==> !(#[trigger] issue_script(
                index,
                dma,
                cmd,
            )[i]).spec_is_final(),
{
}

/// Bringing a port up keeps it consistent. A busy port refuses and stays
/// as it is; any other becomes busy and names an action that does not end
/// the transaction.
pub proof fn lemma_begin_setup_keeps(m: PortModel, wide: bool)
    requires
        m.wf(),
    ensures
        m.begin_setup(wide).0.wf(),
        m.begin_setup(wide).0.index == m.index,
        m.begin_setup(wide).0.timing == m.timing,
        m.status == PortStatus::Busy ==> m.begin_setup(wide).0 == m,
        m.status != PortStatus::Busy ==> m.begin_setup(wide).0.status == PortStatus::Busy
            && !m.begin_setup(wide).1.spec_is_final() && m.begin_setup(wide).0.dma.wide == wide,
{
}

/// A request keeps a port consistent. The port either refuses and stays
/// as it is, or becomes busy and names an action that does not end the
/// transaction; it refuses exactly when the request cannot be put into a
/// command or the port is not idle.
pub proof fn lemma_issue_keeps(m: PortModel, request: Request)
    requires
        m.wf(),
    ensures
        m.issue(request).0.wf(),
        m.issue(request).1.spec_is_final() <==> (request_command(m.dma, request) is None || m.status
            != PortStatus::Idle),
        m.issue(request).1.spec_is_final() ==> m.issue(request).0 == m,
        !m.issue(request).1.spec_is_final() ==> m.issue(request).0.status == PortStatus::Busy
            && m.issue(request).0.index == m.index && m.issue(request).0.timing == m.timing
            && m.issue(request).0.dma == m.dma,
{
    match request_command(m.dma, request) {
        Some(cmd) => {
            lemma_issue_goes_on(m.index, m.dma, cmd);
        },
        None => {},
    }
}

/// Recovery keeps a port consistent. Only a port in error starts to
/// recover and becomes busy; any other stays as it is and is answered at
/// once.
pub proof fn lemma_begin_recovery_keeps(m: PortModel)
    requires
        m.wf(),
    ensures
        m.begin_recovery().0.wf(),
        m.begin_recovery().0.index == m.index,
        m.begin_recovery().0.timing == m.timing,
        m.begin_recovery().1.spec_is_final() <==> m.status != PortStatus::Error,
        m.begin_recovery().1.spec_is_final() ==> m.begin_recovery().0 == m,
        !m.begin_recovery().1.spec_is_final() ==> m.begin_recovery().0.status == PortStatus::Busy,
{
    lemma_begin_setup_keeps(m, m.dma.wide);
}

/// Appends to `script` the stores that put `words` into memory from
/// address `base` on.
fn push_stores(script: &mut Vec<Action>, base: u64, words: &[u32])
    requires
        base + 4 * words@.len() <= u64::MAX,
    ensures
        final(script)@ == old(script)@ + stores(base, words@),
{
    let mut k: usize = 0;
    while k < words.len()
        invariant
            k <= words@.len(),
            base + 4 * words@.len() <= u64::MAX,
            script@ == old(script)@ + stores(base, words@).take(k as int),
        decreases words@.len() - k,
    {
        script.push(Action::WriteMem { addr: base + 4 * (k as u64), value: words[k] });
        k = k + 1;
        assert(script@ =~= old(script)@ + stores(base, words@).take(k as int));
    }
    assert(stores(base, words@).take(k as int) =~= stores(base, words@));
}

impl View for Port {
    type V = PortModel;

    closed spec fn view(&self) -> PortModel {
        PortModel {
            index: self.index,
            status: self.status,
            stage: self.stage,
            remaining: self.remaining,
            dma: self.dma,
            timing: self.timing,
            pending: self.script@.skip(self.next as int),
        }
    }
}

impl Port {
    /// Whether the port is consistent.
    pub closed spec fn wf(&self) -> bool {
        &&& self.next <= self.script@.len()
        &&& self@.wf()
    }

    /// What follows from a port's consistency for its model.
    pub proof fn lemma_wf(&self)
        requires
            self.wf(),
        ensures
            self@.wf(),
    {
    }

    /// A port that was never brought up and owns no memory.
    pub fn new(index: u8, timing: Timing) -> (p: Port)
        ensures
            p.wf(),
            p@ == (PortModel {
                index,
                status: PortStatus::Uninitialized,
                stage: Stage::Rest,
                remaining: 0,
                dma: DmaArea { list: 0, fis: 0, table: 0, wide: false },
                timing,
                pending: Seq::empty(),
            }),
    {
        let p = Port {
            index,
            status: PortStatus::Uninitialized,
            stage: Stage::Rest,
            remaining: 0,
            dma: DmaArea { list: 0, fis: 0, table: 0, wide: false },
            timing,
            script: Vec::new(),
            next: 0,
        };
        assert(p@.pending =~= Seq::empty());
        p
    }

    /// Number of the port on its controller.
    pub fn index(&self) -> (i: u8)
        ensures
            i == self@.index,
    {
        self.index
    }

    /// What software knows of the port.
    pub fn status(&self) -> (s: PortStatus)
        ensures
            s == self@.status,
    {
        self.status
    }

    /// Whether the port takes a command.
    pub fn is_idle(&self) -> (b: bool)
        ensures
            b == (self@.status == PortStatus::Idle),
    {
        match self.status {
            PortStatus::Idle => true,
            _ => false,
        }
    }

    /// The port's DMA memory.
    pub fn dma(&self) -> (d: DmaArea)
        ensures
            d == self@.dma,
    {
        self.dma
    }

    /// Decides whether the port's memory is all there and usable.
    fn has_memory(&self) -> (b: bool)
        ensures
            b == self@.dma.wf(),
    {
        self.dma.is_usable()
    }

    /// Takes `script` as the pending actions, hands out the first and
    /// makes the port wait in `stage`.
    fn run(&mut self, script: Vec<Action>, stage: Stage, remaining: u32) -> (a: Action)
        requires
            script@.len() > 0,
        ensures
            (final(self)@, a) == old(self)@.run(script@, stage, remaining),
            final(self).next <= final(self).script@.len(),
    {
        let a = script[0];
        self.script = script;
        self.next = 1;
        self.status = PortStatus::Busy;
        self.stage = stage;
        self.remaining = remaining;
        assert(self@.pending =~= script@.drop_first());
        a
    }

    /// Hands out a write of `value` to PxCMD and a read of it, and waits
    /// in `stage`.
    fn run_write_read(&mut self, value: u32, stage: Stage, remaining: u32) -> (a: Action)
        ensures
            (final(self)@, a) == old(self)@.run(
                seq![
                    Action::WriteReg { offset: spec_port_reg(old(self)@.index, PortReg::Cmd), value },
                    Action::ReadReg { offset: spec_port_reg(old(self)@.index, PortReg::Cmd) },
                ],
                stage,
                remaining,
            ),
            final(self).next <= final(self).script@.len(),
    {
        let mut script: Vec<Action> = Vec::new();
        script.push(Action::WriteReg { offset: port_reg(self.index, PortReg::Cmd), value });
        script.push(Action::ReadReg { offset: port_reg(self.index, PortReg::Cmd) });
        assert(script@ =~= seq![
            Action::WriteReg { offset: spec_port_reg(self.index, PortReg::Cmd), value },
            Action::ReadReg { offset: spec_port_reg(self.index, PortReg::Cmd) },
        ]);
        self.run(script, stage, remaining)
    }

    /// Ends the transaction in failure.
    fn fail(&mut self, error: AhciError) -> (a: Action)
        ensures
            (final(self)@, a) == old(self)@.fail(error),
            final(self).next <= final(self).script@.len(),
    {
        self.script = Vec::new();
        self.next = 0;
        self.status = PortStatus::Error;
        self.stage = Stage::Rest;
        self.remaining = 0;
        assert(self@.pending =~= Seq::empty());
        Action::Failed { error }
    }

    /// Ends the transaction in success.
    fn succeed(&mut self) -> (a: Action)
        ensures
            (final(self)@, a) == old(self)@.succeed(),
            final(self).next <= final(self).script@.len(),
    {
        self.script = Vec::new();
        self.next = 0;
        self.status = PortStatus::Idle;
        self.stage = Stage::Rest;
        self.remaining = 0;
        assert(self@.pending =~= Seq::empty());
        Action::Done
    }

    /// Builds the actions that program the stopped port.
    fn program(&self) -> (script: Vec<Action>)
        requires
            self@.dma.wf(),
        ensures
            script@ == program_script(self@.index, self@.dma),
            script@.len() > 0,
    {
        let mut script: Vec<Action> = Vec::new();
        let mut k: u64 = 0;
        let ghost zeros = Seq::new((RFIS_BYTES / 4) as nat, |k: int| 0u32);
        while k < RFIS_BYTES / 4
            invariant
                k <= RFIS_BYTES / 4,
                self@.dma.wf(),
                zeros == Seq::new((RFIS_BYTES / 4) as nat, |k: int| 0u32),
                script@ == stores(self.dma.fis, zeros).take(k as int),
            decreases RFIS_BYTES / 4 - k,
        {
            script.push(Action::WriteMem { addr: self.dma.fis + 4 * k, value: 0 });
            k = k + 1;
            assert(script@ =~= stores(self.dma.fis, zeros).take(k as int));
        }
        assert(script@ =~= stores(self.dma.fis, zeros));
        let list: u64 = self.dma.list;
        let fis: u64 = self.dma.fis;
        assert(list & 0xffff_ffff == list % 0x1_0000_0000 && (list >> 32) == list / 0x1_0000_0000
            && (list >> 32) <= 0xffff_ffff) by (bit_vector);
        assert(fis & 0xffff_ffff == fis % 0x1_0000_0000 && (fis >> 32) == fis / 0x1_0000_0000 && (
        fis >> 32) <= 0xffff_ffff) by (bit_vector);
        script.push(
            Action::WriteReg {
                offset: port_reg(self.index, PortReg::Clb),
                value: (list & 0xffff_ffff) as u32,
            },
        );
        script.push(
            Action::WriteReg {
                offset: port_reg(self.index, PortReg::Clbu),
                value: (list >> 32) as u32,
            },
        );
        script.push(
            Action::WriteReg {
                offset: port_reg(self.index, PortReg::Fb),
                value: (fis & 0xffff_ffff) as u32,
            },
        );
        script.push(
            Action::WriteReg { offset: port_reg(self.index, PortReg::Fbu), value: (fis >> 32) as u32 },
        );
        script.push(
            Action::WriteReg { offset: port_reg(self.index, PortReg::Serr), value: CLEAR_ALL },
        );
        script.push(Action::WriteReg { offset: port_reg(self.index, PortReg::Is), value: CLEAR_ALL });
        script.push(Action::ReadReg { offset: port_reg(self.index, PortReg::Cmd) });
        assert(script@ =~= program_script(self@.index, self@.dma));
        script
    }

    /// Goes on after the engines have stopped.
    fn after_stop(&mut self) -> (a: Action)
        requires
            old(self).wf(),
        ensures
            (final(self)@, a) == old(self)@.after_stop(),
            final(self).next <= final(self).script@.len(),
    {
        if self.has_memory() {
            let script = self.program();
            self.run(script, Stage::StartProbe, 0)
        } else {
            let mut script: Vec<Action> = Vec::new();
            script.push(Action::Allocate { size: COMMAND_LIST_BYTES, align: 0x400 });
            assert(script@ =~= seq![Action::Allocate { size: COMMAND_LIST_BYTES, align: 0x400 }]);
            self.run(script, Stage::AllocList, 0)
        }
    }

    /// Pauses and looks again, or gives the wait up.
    fn wait_more(&mut self, reg: PortReg, stage: Stage, error: AhciError) -> (a: Action)
        ensures
            (final(self)@, a) == old(self)@.wait_more(reg, stage, error),
            final(self).next <= final(self).script@.len(),
    {
        if self.remaining == 0 {
            self.fail(error)
        } else {
            let mut script: Vec<Action> = Vec::new();
            script.push(Action::Delay { ms: self.timing.poll_interval_ms });
            script.push(Action::ReadReg { offset: port_reg(self.index, reg) });
            assert(script@ =~= seq![
                Action::Delay { ms: self.timing.poll_interval_ms },
                Action::ReadReg { offset: spec_port_reg(self.index, reg) },
            ]);
            let left: u32 = self.remaining - 1;
            self.run(script, stage, left)
        }
    }

    /// Takes an allocation that the platform made, or fails if it cannot
    /// be used.
    fn take_region(&mut self, reply: u64) -> (a: Action)
        requires
            old(self).wf(),
            old(self)@.pending.len() == 0,
            old(self)@.stage == Stage::AllocList || old(self)@.stage == Stage::AllocFis || old(self)@.stage == Stage::AllocTable,
        ensures
            (final(self)@, a) == old(self)@.step(reply),
            final(self).next <= final(self).script@.len(),
    {
        match self.stage {
            Stage::AllocList => {
                if check_region(reply, COMMAND_LIST_BYTES, 0x400, self.dma.wide) {
                    self.dma.list = reply;
                    let mut script: Vec<Action> = Vec::new();
                    script.push(Action::Allocate { size: RFIS_BYTES, align: 0x100 });
                    assert(script@ =~= seq![Action::Allocate { size: RFIS_BYTES, align: 0x100 }]);
                    self.run(script, Stage::AllocFis, 0)
                } else {
                    self.fail(AhciError::PortNotResponding)
                }
            },
            Stage::AllocFis => {
                if check_region(reply, RFIS_BYTES, 0x100, self.dma.wide) && check_apart(
                    self.dma.list,
                    COMMAND_LIST_BYTES,
                    reply,
                    RFIS_BYTES,
                ) {
                    self.dma.fis = reply;
                    let mut script: Vec<Action> = Vec::new();
                    script.push(Action::Allocate { size: COMMAND_TABLE_BYTES, align: 0x80 });
                    assert(script@ =~= seq![
                        Action::Allocate { size: COMMAND_TABLE_BYTES, align: 0x80 },
                    ]);
                    self.run(script, Stage::AllocTable, 0)
                } else {
                    self.fail(AhciError::PortNotResponding)
                }
            },
            _ => {
                let old_table: u64 = self.dma.table;
                if check_region(reply, COMMAND_TABLE_BYTES, 0x80, self.dma.wide) {
                    self.dma.table = reply;
                    if self.has_memory() {
                        let script = self.program();
                        self.run(script, Stage::StartProbe, 0)
                    } else {
                        self.dma.table = old_table;
                        self.fail(AhciError::PortNotResponding)
                    }
                } else {
                    self.fail(AhciError::PortNotResponding)
                }
            },
        }
    }

    /// Starts bringing the port up.
    pub fn begin_setup(&mut self, wide: bool) -> (a: Action)
        requires
            old(self).wf(),
        ensures
            final(self).wf(),
            (final(self)@, a) == old(self)@.begin_setup(wide),
    {
        match self.status {
            PortStatus::Busy => Action::Failed { error: AhciError::PortNotResponding },
            _ => {
                self.dma.wide = wide;
                let mut script: Vec<Action> = Vec::new();
                script.push(Action::ReadReg { offset: port_reg(self.index, PortReg::Cmd) });
                assert(script@ =~= seq![
                    Action::ReadReg { offset: spec_port_reg(self.index, PortReg::Cmd) },
                ]);
                self.run(script, Stage::StopProbe, 0)
            },
        }
    }

    /// Forgets that the port was brought up.
    pub fn reset(&mut self)
        requires
            old(self).wf(),
        ensures
            final(self).wf(),
            final(self)@ == old(self)@.reset(),
    {
        match self.status {
            PortStatus::Busy => {},
            _ => {
                self.status = PortStatus::Uninitialized;
            },
        }
    }

    /// Starts recovering a port that is in error.
    pub fn begin_recovery(&mut self) -> (a: Action)
        requires
            old(self).wf(),
        ensures
            final(self).wf(),
            (final(self)@, a) == old(self)@.begin_recovery(),
    {
        match self.status {
            PortStatus::Error => {
                let wide: bool = self.dma.wide;
                self.begin_setup(wide)
            },
            PortStatus::Idle => Action::Done,
            _ => Action::Failed { error: AhciError::PortNotResponding },
        }
    }

    /// Builds the command that a request stands for.
    fn command_for(&self, request: Request) -> (c: Option<Command>)
        ensures
            c is Some <==> request_command(self@.dma, request) is Some,
            c is Some ==> Some(c->0@) == request_command(self@.dma, request) && c->0@.wf(),
    {
        match request {
            Request::Read { lba, block_count, buffer } => {
                match build_rw(&self.dma, lba, block_count, buffer, Direction::Read) {
                    Ok(c) => Some(c),
                    Err(_) => None,
                }
            },
            Request::Write { lba, block_count, buffer } => {
                match build_rw(&self.dma, lba, block_count, buffer, Direction::Write) {
                    Ok(c) => Some(c),
                    Err(_) => None,
                }
            },
            Request::Flush => Some(build_flush(&self.dma)),
        }
    }

    /// Hands a request to the device.
    pub fn issue(&mut self, request: Request) -> (a: Action)
        requires
            old(self).wf(),
        ensures
            final(self).wf(),
            (final(self)@, a) == old(self)@.issue(request),
    {
        let cmd: Command = match self.command_for(request) {
            None => {
                return Action::Failed { error: AhciError::InvalidTransferSize };
            },
            Some(c) => c,
        };
        match self.status {
            PortStatus::Idle => {},
            _ => {
                return Action::Failed { error: AhciError::PortNotResponding };
            },
        }
        let mut script: Vec<Action> = Vec::new();
        let header: [u32; 8] = cmd.header.words();
        let table: Vec<u32> = cmd.table_image();
        push_stores(&mut script, self.dma.list, header.as_slice());
        push_stores(&mut script, self.dma.table, table.as_slice());
        script.push(Action::Barrier);
        script.push(
            Action::WriteReg { offset: port_reg(self.index, PortReg::Ci), value: COMMAND_SLOT_BIT },
        );
        script.push(Action::ReadReg { offset: port_reg(self.index, PortReg::Is) });
        assert(script@ =~= issue_script(self@.index, self@.dma, cmd@));
        let polls: u32 = self.timing.command_polls;
        self.run(script, Stage::PollStatus, polls)
    }

    /// Takes the outcome of the action handed out last and names the
    /// next one.
    pub fn resume(&mut self, reply: u64) -> (a: Action)
        requires
            old(self).wf(),
        ensures
            final(self).wf(),
            (final(self)@, a) == old(self)@.step(reply),
    {
        if self.next < self.script.len() {
            let a = self.script[self.next];
            self.next = self.next + 1;
            assert(self@.pending =~= old(self)@.pending.drop_first());
            return a;
        }
        let value: u32 = (reply & 0xffff_ffff) as u32;
        match self.stage {
            Stage::Rest => Action::Failed { error: AhciError::PortNotResponding },
            Stage::StopProbe => {
                if value & (PORT_CMD_ST | PORT_CMD_CR | PORT_CMD_FRE | PORT_CMD_FR) == 0 {
                    self.after_stop()
                } else {
                    let polls: u32 = self.timing.port_polls;
                    self.run_write_read(value & !(PORT_CMD_ST | PORT_CMD_FRE), Stage::StopPoll, polls)
                }
            },
            Stage::StopPoll => {
                if value & (PORT_CMD_CR | PORT_CMD_FR) == 0 {
                    self.after_stop()
                } else {
                    self.wait_more(PortReg::Cmd, Stage::StopPoll, AhciError::PortNotResponding)
                }
            },
            Stage::AllocList => self.take_region(reply),
            Stage::AllocFis => self.take_region(reply),
            Stage::AllocTable => self.take_region(reply),
            Stage::StartProbe => {
                self.run_write_read(value | PORT_CMD_FRE, Stage::StartEngine, 0)
            },
            Stage::StartEngine => {
                let polls: u32 = self.timing.port_polls;
                self.run_write_read(value | PORT_CMD_ST, Stage::StartPoll, polls)
            },
            Stage::StartPoll => {
                if value & PORT_CMD_CR != 0 {
                    self.succeed()
                } else {
                    self.wait_more(PortReg::Cmd, Stage::StartPoll, AhciError::PortNotResponding)
                }
            },
            Stage::PollStatus => {
                let mut script: Vec<Action> = Vec::new();
                if value & PORT_IS_ERRORS != 0 {
                    script.push(Action::ReadMem { addr: self.dma.fis + RFIS_D2H_OFFSET });
                    assert(script@ =~= seq![
                        Action::ReadMem { addr: (self.dma.fis + RFIS_D2H_OFFSET) as u64 },
                    ]);
                    self.run(script, Stage::Diagnose, 0)
                } else {
                    script.push(Action::ReadReg { offset: port_reg(self.index, PortReg::Ci) });
                    assert(script@ =~= seq![
                        Action::ReadReg { offset: spec_port_reg(self.index, PortReg::Ci) },
                    ]);
                    let left: u32 = self.remaining;
                    self.run(script, Stage::PollIssue, left)
                }
            },
            Stage::PollIssue => {
                if value & COMMAND_SLOT_BIT == 0 {
                    let mut script: Vec<Action> = Vec::new();
                    script.push(Action::Barrier);
                    assert(script@ =~= seq![Action::Barrier]);
                    self.run(script, Stage::Complete, 0)
                } else {
                    self.wait_more(PortReg::Is, Stage::PollStatus, AhciError::CommandTimeout)
                }
            },
            Stage::Diagnose => {
                let se: (u8, u8) = d2h_status_error(value);
                self.fail(AhciError::DeviceError { status: se.0, error: se.1 })
            },
            Stage::Complete => self.succeed(),
        }
    }
}

} // verus!
