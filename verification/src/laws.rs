//! What holds of the engine as a whole, proved from the transition
//! functions of port, controller and driver.

use vstd::prelude::*;
use crate::action::Action;
use crate::command::{flush_command, table_words, DmaArea, TABLE_PREFIX_WORDS};
use crate::driver::DriverModel;
use crate::error::AhciError;
use crate::hba::{
    implemented,
    lemma_hba_step_keeps,
    lemma_next_implemented,
    next_implemented,
    HbaModel,
    HbaStage,
    HbaStatus,
};
use crate::port::{
    issue_script,
    lemma_issue_goes_on,
    lemma_issue_keeps,
    lemma_step_keeps,
    low32,
    request_command,
    PortModel,
    PortStatus,
    Request,
    Stage,
};
use crate::regs::{spec_port_reg, PortReg, COMMAND_SLOT_BIT, MAX_PORTS, PORT_IS_ERRORS};

verus! {

/// A platform as the engine meets it: the outcome it reports for the
/// action it is handed at step `t`.
pub type Platform = spec_fn(nat, Action) -> u64;

/// Where a port is after the platform `hw` has performed up to `fuel`
/// actions, the first of them `action` at step `t`. The run ends early
/// with the action that ends the transaction.
pub open spec fn port_run(m: PortModel, action: Action, hw: Platform, t: nat, fuel: nat) -> (
    PortModel,
    Action,
)
    decreases fuel,
{
    if fuel == 0 || action.spec_is_final() {
        (m, action)
    } else {
        let next = m.step(hw(t, action));
        port_run(next.0, next.1, hw, t + 1, (fuel - 1) as nat)
    }
}

/// Where a driver is after the platform `hw` has performed up to `fuel`
/// actions, the first of them `action` at step `t`.
pub open spec fn driver_run(d: DriverModel, action: Action, hw: Platform, t: nat, fuel: nat) -> (
    DriverModel,
    Action,
)
    decreases fuel,
{
    if fuel == 0 || action.spec_is_final() {
        (d, action)
    } else {
        let next = d.step(hw(t, action));
        driver_run(next.0, next.1, hw, t + 1, (fuel - 1) as nat)
    }
}

/// Whether the device behind port `index` of `hw` never consumes a
/// command and never reports an error: at every step PxCI reads with the
/// slot's bit set and PxIS reads without an error bit.
pub open spec fn never_completes(hw: Platform, index: u8) -> bool {
    &&& forall|t: nat|
        low32(#[trigger] hw(t, Action::ReadReg { offset: spec_port_reg(index, PortReg::Ci) }))
            & COMMAND_SLOT_BIT != 0
    &&& forall|t: nat|
        low32(#[trigger] hw(t, Action::ReadReg { offset: spec_port_reg(index, PortReg::Is) }))
            & PORT_IS_ERRORS == 0
}

/// Number of actions after which a command that is never consumed has
/// timed out: all of the issue but the last look at PxIS, three for every
/// granted pause (PxIS, PxCI, the pause), and the two last looks.
pub open spec fn timeout_steps(m: PortModel, request: Request) -> nat {
    (issue_script(m.index, m.dma, request_command(m.dma, request)->0).len() - 1 + 3
        * m.timing.command_polls + 2) as nat
}

/// A port hands out its pending actions one by one, whatever the
/// platform reports in between.
proof fn lemma_port_drains(m: PortModel, action: Action, hw: Platform, t: nat, fuel: nat)
    requires
        !action.spec_is_final(),
        forall|i: int| 0 <= i < m.pending.len() ==> !(#[trigger] m.pending[i]).spec_is_final(),
        m.pending.len() >= 1,
        fuel >= m.pending.len(),
    ensures
        port_run(m, action, hw, t, fuel) == port_run(
            PortModel { pending: Seq::empty(), ..m },
            m.pending.last(),
            hw,
            t + m.pending.len(),
            (fuel - m.pending.len()) as nat,
        ),
    decreases m.pending.len(),
{
    let next = m.step(hw(t, action));
    assert(next.1 == m.pending[0]);
    assert(next.0 == PortModel { pending: m.pending.drop_first(), ..m });
    if m.pending.len() == 1 {
        assert(next.0.pending =~= Seq::empty());
    } else {
        assert forall|i: int| 0 <= i < next.0.pending.len() implies !(
        #[trigger] next.0.pending[i]).spec_is_final() by {
            assert(next.0.pending[i] == m.pending[i + 1]);
        }
        lemma_port_drains(next.0, next.1, hw, t + 1, (fuel - 1) as nat);
        assert(next.0.pending.last() == m.pending.last());
        assert(PortModel { pending: Seq::empty(), ..next.0 } == PortModel {
            pending: Seq::empty(),
            ..m
        });
    }
}

/// A port that looks at PxIS with `m.remaining` pauses left, behind a
/// device that never completes, gives up after three actions for every
/// pause and two more.
proof fn lemma_poll_gives_up(m: PortModel, hw: Platform, t: nat)
    requires
        m.status == PortStatus::Busy,
        m.stage == Stage::PollStatus,
        m.pending.len() == 0,
        never_completes(hw, m.index),
    ensures
        port_run(
            m,
            Action::ReadReg { offset: spec_port_reg(m.index, PortReg::Is) },
            hw,
            t,
            (3 * m.remaining + 2) as nat,
        ) == m.fail(AhciError::CommandTimeout),
    decreases m.remaining,
{
    let read_is = Action::ReadReg { offset: spec_port_reg(m.index, PortReg::Is) };
    let read_ci = Action::ReadReg { offset: spec_port_reg(m.index, PortReg::Ci) };
    let fuel = (3 * m.remaining + 2) as nat;
    let s1 = m.step(hw(t, read_is));
    assert(low32(hw(t, read_is)) & PORT_IS_ERRORS == 0);
    assert(s1.1 == read_ci);
    assert(s1.0.pending =~= Seq::empty());
    assert(port_run(m, read_is, hw, t, fuel) == port_run(s1.0, s1.1, hw, t + 1, (fuel - 1) as nat));
    let s2 = s1.0.step(hw(t + 1, read_ci));
    assert(low32(hw(t + 1, read_ci)) & COMMAND_SLOT_BIT != 0);
    assert(port_run(s1.0, s1.1, hw, t + 1, (fuel - 1) as nat) == port_run(
        s2.0,
        s2.1,
        hw,
        t + 2,
        (fuel - 2) as nat,
    ));
    if m.remaining == 0 {
        assert(s2 == s1.0.fail(AhciError::CommandTimeout));
        assert(s2.0 == m.fail(AhciError::CommandTimeout).0);
    } else {
        assert(s2.1 == Action::Delay { ms: m.timing.poll_interval_ms });
        let s3 = s2.0.step(hw(t + 2, s2.1));
        assert(s2.0.pending.len() == 1);
        assert(s3.1 == read_is);
        assert(s3.0.pending =~= Seq::empty());
        assert(port_run(s2.0, s2.1, hw, t + 2, (fuel - 2) as nat) == port_run(
            s3.0,
            s3.1,
            hw,
            t + 3,
            (fuel - 3) as nat,
        ));
        lemma_poll_gives_up(s3.0, hw, t + 3);
        assert(s3.0.fail(AhciError::CommandTimeout) == m.fail(AhciError::CommandTimeout));
    }
}

/// A command that the device never consumes times out: when every look
/// at PxCI finds the slot's bit set and no look at PxIS finds an error,
/// the transaction ends after the granted pauses with `CommandTimeout`
/// and the port is in error. From then on the port refuses every request
/// at once and stays as it is, until it is recovered.
pub proof fn lemma_stuck_command_times_out(m: PortModel, request: Request, hw: Platform, t: nat)
    requires
        m.wf(),
        m.status == PortStatus::Idle,
        request_command(m.dma, request) is Some,
        never_completes(hw, m.index),
    ensures
        port_run(m.issue(request).0, m.issue(request).1, hw, t, timeout_steps(m, request)) == m.fail(
            AhciError::CommandTimeout,
        ),
        m.fail(AhciError::CommandTimeout).0.status == PortStatus::Error,
        m.fail(AhciError::CommandTimeout).0.wf(),
        forall|later: Request|
            (#[trigger] m.fail(AhciError::CommandTimeout).0.issue(later)).1.spec_is_final() && m.fail(
                AhciError::CommandTimeout,
            ).0.issue(later).0 == m.fail(AhciError::CommandTimeout).0,
{
    let cmd = request_command(m.dma, request)->0;
    let script = issue_script(m.index, m.dma, cmd);
    lemma_issue_goes_on(m.index, m.dma, cmd);
    let started = m.issue(request);
    let read_is = Action::ReadReg { offset: spec_port_reg(m.index, PortReg::Is) };
    assert(started.1 == script[0]);
    assert(started.0.pending == script.drop_first());
    assert forall|i: int| 0 <= i < started.0.pending.len() implies !(
    #[trigger] started.0.pending[i]).spec_is_final() by {
        assert(started.0.pending[i] == script[i + 1]);
    }
    assert(started.0.pending.last() == script.last());
    assert(script.last() == read_is);
    lemma_port_drains(started.0, started.1, hw, t, timeout_steps(m, request));
    let polling = PortModel { pending: Seq::empty(), ..started.0 };
    lemma_poll_gives_up(polling, hw, t + started.0.pending.len());
    assert(polling.fail(AhciError::CommandTimeout) == m.fail(AhciError::CommandTimeout));
    let failed = m.fail(AhciError::CommandTimeout).0;
    assert forall|later: Request|
        (#[trigger] failed.issue(later)).1.spec_is_final() && failed.issue(later).0 == failed by {
        lemma_issue_keeps(failed, later);
    }
}

/// An idle port keeps nothing of the commands it served: two consistent
/// idle ports with the same number, memory and waits are the same port,
/// so what either does with a flush, or any other request, and with
/// every outcome the platform then reports, is the same whatever was
/// read or written before and however it ended.
pub proof fn lemma_idle_port_keeps_no_history(a: PortModel, b: PortModel)
    requires
        a.wf(),
        b.wf(),
        a.status == PortStatus::Idle,
        b.status == PortStatus::Idle,
        a.index == b.index,
        a.dma == b.dma,
        a.timing == b.timing,
    ensures
        a == b,
        a.issue(Request::Flush) == b.issue(Request::Flush),
{
    assert(a.pending =~= b.pending);
}

/// A flush moves no data: its command has no descriptor and counts no
/// byte, its header does not ask for a write, and its table ends with
/// the words before the descriptors.
pub proof fn lemma_flush_has_no_data_phase(dma: DmaArea)
    ensures
        flush_command(dma).prdt.len() == 0,
        flush_command(dma).header.prdt_len == 0,
        flush_command(dma).header.byte_count == 0,
        !flush_command(dma).header.write,
        flush_command(dma).fis.count == 0,
        table_words(flush_command(dma).fis, flush_command(dma).prdt).len() == TABLE_PREFIX_WORDS,
        request_command(dma, Request::Flush) == Some(flush_command(dma)),
{
}

/// Once initialization has run to its end, setup was attempted on
/// exactly the ports of the ports-implemented mask.
pub proof fn lemma_setup_covers_implemented_ports(h: HbaModel)
    requires
        h.wf(),
        h.status == HbaStatus::Ready,
    ensures
        forall|p: int| 0 <= p < MAX_PORTS ==> (h.attempted(p) <==> implemented(h.pi, p)),
        forall|p: int| !(0 <= p < MAX_PORTS) ==> !h.attempted(p) && !implemented(h.pi, p),
{
    assert forall|p: int| 0 <= p < MAX_PORTS implies (h.attempted(p) <==> implemented(h.pi, p)) by {
        assert(h.ports[p].status != PortStatus::Uninitialized <==> implemented(h.pi, p));
    }
}

/// While the ports are set up, a step changes no port but the one under
/// the cursor and the one that setup moves on to. When the setup of the
/// port under the cursor ends, in success or in failure, initialization
/// goes on: with the next implemented port, which becomes busy, or, after
/// the last, with the clearing of the interrupt status.
pub proof fn lemma_port_failure_is_contained(h: HbaModel, reply: u64)
    requires
        h.wf(),
        h.stage == HbaStage::PortSetup,
    ensures
        !h.step(reply).1.spec_is_final(),
        h.step(reply).0.ports[h.cursor as int] == h.ports[h.cursor as int].step(reply).0,
        forall|q: int|
            0 <= q < MAX_PORTS && q != h.cursor && q != h.step(reply).0.cursor ==> h.step(
                reply,
            ).0.ports[q] == h.ports[q],
        h.ports[h.cursor as int].step(reply).1.spec_is_final() ==> match next_implemented(
            h.pi,
            h.cursor + 1,
        ) {
            Some(p) => h.step(reply).0.stage == HbaStage::PortSetup && h.step(reply).0.cursor == p
                && p > h.cursor && h.step(reply).0.ports[p as int].status == PortStatus::Busy,
            None => h.step(reply).0.stage == HbaStage::ClearStatus,
        },
{
    let c = h.cursor as int;
    lemma_step_keeps(h.ports[c], reply);
    lemma_hba_step_keeps(h, reply);
    lemma_next_implemented(h.pi, c + 1);
    let stepped = h.ports[c].step(reply);
    if stepped.1.spec_is_final() {
        match next_implemented(h.pi, c + 1) {
            Some(p) => {
                assert(h.ports[p as int].status == PortStatus::Uninitialized);
                crate::port::lemma_begin_setup_keeps(
                    h.ports.update(c, stepped.0)[p as int],
                    crate::hba::spec_wide(h.cap),
                );
            },
            None => {},
        }
    }
}

/// The driver whose port under the cursor is `port` and whose controller
/// is at rest unless that port is busy.
pub open spec fn with_port_at_work(d: DriverModel, port: PortModel) -> DriverModel {
    DriverModel {
        hba: HbaModel {
            ports: d.hba.ports.update(d.hba.cursor as int, port),
            stage: if port.status == PortStatus::Busy {
                HbaStage::PortWork
            } else {
                HbaStage::Rest
            },
            ..d.hba
        },
        ..d
    }
}

/// While the controller delegates to a port at work, the driver does
/// what the port does: after any number of actions the port under the
/// cursor is where it would be on its own, every other port is as
/// before, and the controller is at rest again exactly when the port is
/// no longer busy.
pub proof fn lemma_driver_follows_port(d: DriverModel, action: Action, hw: Platform, t: nat, fuel: nat)
    requires
        d.wf(),
        d.hba.stage == HbaStage::PortWork,
    ensures
        driver_run(d, action, hw, t, fuel) == (
            with_port_at_work(
                d,
                port_run(d.hba.ports[d.hba.cursor as int], action, hw, t, fuel).0,
            ),
            port_run(d.hba.ports[d.hba.cursor as int], action, hw, t, fuel).1,
        ),
    decreases fuel,
{
    let c = d.hba.cursor as int;
    if fuel == 0 || action.spec_is_final() {
        assert(d.hba.ports.update(c, d.hba.ports[c]) =~= d.hba.ports);
        assert(with_port_at_work(d, d.hba.ports[c]).hba == d.hba);
    } else {
        let reply = hw(t, action);
        lemma_step_keeps(d.hba.ports[c], reply);
        lemma_hba_step_keeps(d.hba, reply);
        let stepped = d.hba.ports[c].step(reply);
        let next = d.step(reply);
        assert(d.hba.pending.len() == 0);
        assert(next.1 == stepped.1);
        assert(next.0.hba.ports == d.hba.ports.update(c, stepped.0));
        assert(next.0 == with_port_at_work(d, stepped.0));
        assert(driver_run(d, action, hw, t, fuel) == driver_run(
            next.0,
            next.1,
            hw,
            t + 1,
            (fuel - 1) as nat,
        ));
        assert(port_run(d.hba.ports[c], action, hw, t, fuel) == port_run(
            stepped.0,
            stepped.1,
            hw,
            t + 1,
            (fuel - 1) as nat,
        ));
        if stepped.1.spec_is_final() {
            assert(port_run(stepped.0, stepped.1, hw, t + 1, (fuel - 1) as nat) == stepped);
            assert(driver_run(next.0, next.1, hw, t + 1, (fuel - 1) as nat) == next);
        } else {
            lemma_driver_follows_port(next.0, next.1, hw, t + 1, (fuel - 1) as nat);
            let port = port_run(stepped.0, stepped.1, hw, t + 1, (fuel - 1) as nat);
            assert(next.0.hba.ports.update(c, port.0) =~= d.hba.ports.update(c, port.0));
            assert(with_port_at_work(next.0, port.0).hba == with_port_at_work(d, port.0).hba);
        }
    }
}

/// A transfer or a flush that the device never consumes times out. On a
/// driver that accepts requests and whose port is idle, a request that
/// can be put into a command ends with `CommandTimeout` after the
/// granted pauses when every look at PxCI finds the slot's bit set and
/// no look at PxIS finds an error; the port is then in error, the
/// controller is at rest, and every later request is refused at once,
/// with the driver left as it is.
pub proof fn lemma_stuck_request_times_out(d: DriverModel, request: Request, hw: Platform, t: nat)
    requires
        d.wf(),
        d.hba.accepting(),
        d.hba.ports[d.hba.bound->0 as int].status == PortStatus::Idle,
        request_command(d.hba.ports[d.hba.bound->0 as int].dma, request) is Some,
        never_completes(hw, d.hba.bound->0),
    ensures
        ({
            let b = d.hba.bound->0 as int;
            let started = d.hba.submit(request);
            let end = driver_run(
                DriverModel { hba: started.0, ..d },
                started.1,
                hw,
                t,
                timeout_steps(d.hba.ports[b], request),
            );
            &&& end.1 == Action::Failed { error: AhciError::CommandTimeout }
            &&& end.0.wf()
            &&& end.0.hba.stage == HbaStage::Rest
            &&& end.0.hba.ports[b].status == PortStatus::Error
            &&& forall|later: Request|
                (#[trigger] end.0.hba.submit(later)).0 == end.0.hba && end.0.hba.submit(
                    later,
                ).1 is Failed
        }),
{
    let b = d.hba.bound->0 as int;
    let port = d.hba.ports[b];
    assert(port.wf() && port.index == b);
    lemma_issue_keeps(port, request);
    crate::hba::lemma_submit_keeps(d.hba, request);
    lemma_stuck_command_times_out(port, request, hw, t);
    let started = d.hba.submit(request);
    let begun = DriverModel { hba: started.0, ..d };
    assert(started.0.ports[b] == port.issue(request).0);
    lemma_driver_follows_port(begun, started.1, hw, t, timeout_steps(port, request));
    let end = driver_run(begun, started.1, hw, t, timeout_steps(port, request));
    let failed = port.fail(AhciError::CommandTimeout).0;
    assert(end.0.hba.ports =~= d.hba.ports.update(b, failed));
    assert forall|i: int| 0 <= i < end.0.hba.ports.len() implies (#[trigger] end.0.hba.ports[i]).wf()
        && end.0.hba.ports[i].index == i by {
        if i != b {
            assert(end.0.hba.ports[i] == d.hba.ports[i]);
        }
    }
    assert forall|i: int|
        0 <= i < end.0.hba.ports.len() implies ((#[trigger] end.0.hba.ports[i]).status
        != PortStatus::Uninitialized <==> implemented(end.0.hba.pi, i)) by {
        assert(d.hba.ports[i].status != PortStatus::Uninitialized <==> implemented(d.hba.pi, i));
    }
    assert forall|i: int|
        0 <= i < end.0.hba.ports.len() && (#[trigger] end.0.hba.ports[i]).status
            == PortStatus::Busy implies false by {
        if i != b {
            assert(end.0.hba.ports[i] == d.hba.ports[i]);
        }
    }
    assert(end.0.hba.wf());
    assert forall|later: Request|
        (#[trigger] end.0.hba.submit(later)).0 == end.0.hba && end.0.hba.submit(
            later,
        ).1 is Failed by {
        lemma_issue_keeps(failed, later);
    }
}

} // verus!
