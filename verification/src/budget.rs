//! Every transaction ends: how many actions a port, and the controller,
//! can still take before they report an outcome, whatever the platform
//! answers.

use vstd::prelude::*;
use crate::action::{Action, Timing};
use crate::driver::DriverModel;
use crate::hba::{
    lemma_hba_step_keeps,
    lemma_next_implemented,
    next_implemented,
    spec_wide,
    HbaModel,
    HbaStage,
};
use crate::laws::{driver_run, port_run, Platform};
use crate::port::{
    lemma_begin_setup_keeps,
    lemma_scripts_go_on,
    lemma_step_keeps,
    PortModel,
    Stage,
};

verus! {

/// The most steps a port takes to an outcome once it waits in `stage`
/// with `remaining` pauses left and nothing pending.
pub open spec fn stage_budget(stage: Stage, remaining: u32, timing: Timing) -> int {
    let polls = timing.port_polls as int;
    match stage {
        Stage::Rest => 1,
        Stage::Complete => 1,
        Stage::Diagnose => 1,
        Stage::PollIssue => 3 * remaining + 2,
        Stage::PollStatus => 3 * remaining + 3,
        Stage::StartPoll => 2 * remaining + 1,
        Stage::StartEngine => 2 * polls + 3,
        Stage::StartProbe => 2 * polls + 5,
        Stage::AllocTable => 2 * polls + 76,
        Stage::AllocFis => 2 * polls + 77,
        Stage::AllocList => 2 * polls + 78,
        Stage::StopPoll => 2 * remaining + 2 * polls + 79,
        Stage::StopProbe => 4 * polls + 81,
    }
}

/// The most steps a port takes to an outcome: one for every pending
/// action, and then what its stage can take.
pub open spec fn port_budget(m: PortModel) -> int {
    m.pending.len() + stage_budget(m.stage, m.remaining, m.timing)
}

/// Every step of a port ends the transaction or leaves fewer steps to
/// take.
pub proof fn lemma_port_step_spends(m: PortModel, reply: u64)
    requires
        m.wf(),
    ensures
        port_budget(m) >= 1,
        m.step(reply).1.spec_is_final() || port_budget(m.step(reply).0) < port_budget(m),
{
    lemma_scripts_go_on(m.index, m.dma);
    if m.pending.len() == 0 && m.stage == Stage::AllocTable {
        lemma_scripts_go_on(m.index, crate::command::DmaArea { table: reply, ..m.dma });
    }
}

/// A port reports an outcome within its budget, whatever the platform
/// answers.
pub proof fn lemma_port_transaction_ends(
    m: PortModel,
    action: Action,
    hw: Platform,
    t: nat,
    fuel: nat,
)
    requires
        m.wf(),
        fuel >= port_budget(m),
    ensures
        port_run(m, action, hw, t, fuel).1.spec_is_final(),
    decreases fuel,
{
    lemma_port_step_spends(m, hw(t, action));
    if !action.spec_is_final() {
        let next = m.step(hw(t, action));
        lemma_step_keeps(m, hw(t, action));
        if !next.1.spec_is_final() {
            lemma_port_transaction_ends(next.0, next.1, hw, t + 1, (fuel - 1) as nat);
        } else {
            assert(port_run(next.0, next.1, hw, t + 1, (fuel - 1) as nat) == next);
        }
    }
}

/// The most steps that the setup of one port takes, with the step that
/// moves on to it.
pub open spec fn setup_budget(timing: Timing) -> int {
    4 * timing.port_polls + 82
}

/// The most steps the controller takes to an outcome once it waits in
/// its stage with nothing pending.
pub open spec fn hba_stage_budget(h: HbaModel) -> int {
    let ports = 32 * setup_budget(h.timing);
    let reset = 2 * h.timing.reset_polls as int;
    let handoff = 2 * h.timing.handoff_polls as int;
    match h.stage {
        HbaStage::Rest => 1,
        HbaStage::Finish => 1,
        HbaStage::ClearStatus => 2,
        HbaStage::PortSetup => port_budget(h.ports[h.cursor as int]) + (31 - h.cursor)
            * setup_budget(h.timing) + 3,
        HbaStage::PortWork => port_budget(h.ports[h.cursor as int]),
        HbaStage::ReadPi => ports + 3,
        HbaStage::ReadCap => ports + 4,
        HbaStage::ResetPoll => 2 * h.remaining + ports + 6,
        HbaStage::ResetProbe => reset + ports + 8,
        HbaStage::HandoffPoll => 2 * h.remaining + reset + ports + 10,
        HbaStage::HandoffRead => handoff + reset + ports + 12,
        HbaStage::ProbeHandoff => handoff + reset + ports + 13,
    }
}

/// The most steps the controller takes to an outcome.
pub open spec fn hba_budget(h: HbaModel) -> int {
    h.pending.len() + hba_stage_budget(h)
}

/// Every step of the controller ends the transaction or leaves fewer
/// steps to take.
pub proof fn lemma_hba_step_spends(h: HbaModel, reply: u64)
    requires
        h.wf(),
    ensures
        hba_budget(h) >= 1,
        h.step(reply).1.spec_is_final() || hba_budget(h.step(reply).0) < hba_budget(h),
{
    let k = setup_budget(h.timing);
    let next = h.step(reply);
    if h.pending.len() == 0 {
        match h.stage {
            HbaStage::ReadPi => {
                let with_pi = HbaModel { pi: crate::port::low32(reply), ..h };
                lemma_moving_on_spends(with_pi, 0);
            },
            HbaStage::PortSetup => {
                let c = h.cursor as int;
                lemma_port_step_spends(h.ports[c], reply);
                lemma_step_keeps(h.ports[c], reply);
                let stepped = h.ports[c].step(reply);
                let hba = HbaModel { ports: h.ports.update(c, stepped.0), ..h };
                if stepped.1.spec_is_final() {
                    assert forall|i: int| 0 <= i < hba.ports.len() implies (
                    #[trigger] hba.ports[i]).wf() && hba.ports[i].timing == hba.timing by {
                        if i != c {
                            assert(hba.ports[i] == h.ports[i]);
                        }
                    }
                    lemma_moving_on_spends(hba, c + 1);
                    assert((31 - c) * k == (30 - c) * k + k) by (nonlinear_arith);
                }
            },
            HbaStage::PortWork => {
                let c = h.cursor as int;
                lemma_port_step_spends(h.ports[c], reply);
            },
            _ => {},
        }
    } else {
        assert(h.stage != HbaStage::PortSetup && h.stage != HbaStage::PortWork);
        assert(next.0.ports == h.ports);
    }
    if h.stage == HbaStage::PortSetup || h.stage == HbaStage::PortWork {
        lemma_port_step_spends(h.ports[h.cursor as int], reply);
        assert((31 - h.cursor) * k >= 0) by (nonlinear_arith)
            requires
                h.cursor <= 31,
                k >= 0,
        ;
    }
}

/// Moving on to the ports from `from` on leaves no more steps to take
/// than one setup for every port from `from` on, and the clearing of the
/// interrupt status.
proof fn lemma_moving_on_spends(h: HbaModel, from: int)
    requires
        0 <= from <= 32,
        h.ports.len() == 32,
        forall|i: int|
            0 <= i < h.ports.len() ==> (#[trigger] h.ports[i]).wf() && h.ports[i].timing
                == h.timing,
        forall|i: int|
            from <= i < h.ports.len() ==> (#[trigger] h.ports[i]).status
                != crate::port::PortStatus::Busy,
    ensures
        hba_budget(h.setup_from(from).0) <= (32 - from) * setup_budget(h.timing) + 2,
{
    let k = setup_budget(h.timing);
    lemma_next_implemented(h.pi, from);
    match next_implemented(h.pi, from) {
        Some(p) => {
            lemma_begin_setup_keeps(h.ports[p as int], spec_wide(h.cap));
            let begun = h.ports[p as int].begin_setup(spec_wide(h.cap)).0;
            assert(h.setup_from(from).0.ports[p as int] == begun);
            assert(begun.pending.len() == 0);
            assert(port_budget(begun) == k - 1);
            assert((31 - p) * k + k <= (32 - from) * k) by (nonlinear_arith)
                requires
                    from <= p,
                    k >= 0,
            ;
        },
        None => {
            assert((32 - from) * k >= 0) by (nonlinear_arith)
                requires
                    from <= 32,
                    k >= 0,
            ;
        },
    }
}

/// Every transaction ends: the driver reports an outcome within the
/// controller's budget, whatever the platform answers.
pub proof fn lemma_transaction_ends(d: DriverModel, action: Action, hw: Platform, t: nat, fuel: nat)
    requires
        d.wf(),
        fuel >= hba_budget(d.hba),
    ensures
        driver_run(d, action, hw, t, fuel).1.spec_is_final(),
    decreases fuel,
{
    lemma_hba_step_spends(d.hba, hw(t, action));
    if !action.spec_is_final() {
        let next = d.step(hw(t, action));
        lemma_hba_step_keeps(d.hba, hw(t, action));
        if !next.1.spec_is_final() {
            lemma_transaction_ends(next.0, next.1, hw, t + 1, (fuel - 1) as nat);
        } else {
            assert(driver_run(next.0, next.1, hw, t + 1, (fuel - 1) as nat) == next);
        }
    }
}

} // verus!
