//! The WAN processes of the ports: when one is started, stopped and started
//! again.

use vstd::prelude::*;

use crate::dataplane;
use crate::dataplane::{Dataplane, PasstSlot};
use crate::model::MacAddr;
use crate::names::NameMap;
use crate::passt;
use crate::passt::{passt_config_for, restart_backoff, PasstConfig};
use crate::protocol::RpcError;

verus! {

/// What has to be done so that a WAN process runs with what it should.
#[derive(Debug)]
pub enum PasstPlan {
    /// Nothing: it does.
    Keep,
    /// A process is started, and before that the running one is stopped,
    /// where there is one.
    Start { stop: bool, config: PasstConfig },
}

/// What a [`PasstPlan`] holds.
#[verifier::ext_equal]
pub enum PasstPlanView {
    Keep,
    Start { stop: bool, config: passt::ConfigView },
}

impl View for PasstPlan {
    type V = PasstPlanView;

    open spec fn view(&self) -> PasstPlanView {
        match self {
            PasstPlan::Keep => PasstPlanView::Keep,
            PasstPlan::Start { stop, config } => PasstPlanView::Start {
                stop: *stop,
                config: config@,
            },
        }
    }
}

/// A slot for a process that was never started.
pub open spec fn fresh_slot(config: passt::ConfigView) -> dataplane::SlotView {
    dataplane::SlotView {
        desired: config,
        live: false,
        asked: false,
        failures: 0,
        next_retry: None,
        mac: None,
    }
}

/// The time `delay` after `now`, or the end of time.
pub open spec fn later(now: u64, delay: int) -> u64 {
    if now + delay <= u64::MAX {
        (now + delay) as u64
    } else {
        u64::MAX
    }
}

/// One more failure.
pub open spec fn one_more(failures: u32) -> u32 {
    if failures < u32::MAX {
        (failures + 1) as u32
    } else {
        u32::MAX
    }
}

/// The slot after its process failed at the time `now`: it may be started
/// again once the delay for that many failures is over.
pub open spec fn failed(slot: dataplane::SlotView, now: u64) -> dataplane::SlotView {
    dataplane::SlotView {
        live: false,
        failures: one_more(slot.failures),
        next_retry: Some(later(now, passt::backoff(one_more(slot.failures)))),
        ..slot
    }
}

/// The slot with its process running. A process that was asked for has no
/// failures yet. One that is only started again keeps its failures: that a
/// process starts does not show that it will keep running.
pub open spec fn started(slot: dataplane::SlotView) -> dataplane::SlotView {
    dataplane::SlotView {
        live: true,
        asked: false,
        failures: if slot.asked {
            0
        } else {
            slot.failures
        },
        next_retry: None,
        ..slot
    }
}

/// The slot once its running process has delivered a frame, which shows that
/// it works: its failures are forgotten.
pub open spec fn working(slot: dataplane::SlotView) -> dataplane::SlotView {
    dataplane::SlotView {
        failures: if slot.live {
            0
        } else {
            slot.failures
        },
        ..slot
    }
}

/// Whether the process of the slot is to be started at the time `now`.
pub open spec fn due(slot: dataplane::SlotView, now: u64) -> bool {
    !slot.live && (slot.next_retry is None || slot.next_retry->0 <= now)
}

/// The slot once it is looked after at the time `now`: a process that has
/// exited has failed.
pub open spec fn looked_after(
    slot: dataplane::SlotView,
    exited: bool,
    now: u64,
) -> dataplane::SlotView {
    if slot.live && exited {
        failed(slot, now)
    } else {
        slot
    }
}

/// The state in which the WAN process of the port `port` is ensured, and what
/// has to be done for it. A port that is not attached to a network that is
/// there is not found.
pub open spec fn ensured(
    v: dataplane::DataView,
    port: Seq<char>,
    config: passt::ConfigView,
) -> (dataplane::DataView, Result<PasstPlanView, RpcError>) {
    let slot = if v.passts.contains_key(port) {
        v.passts[port]
    } else {
        fresh_slot(config)
    };
    if !(v.ports.contains_key(port) && v.ports[port].network is Some && v.networks.contains_key(
        v.ports[port].network->0,
    )) {
        (v, Err(RpcError::NotFound))
    } else if slot.live && slot.desired == config {
        (v, Ok(PasstPlanView::Keep))
    } else {
        (
            v.with_slot(
                port,
                dataplane::SlotView { desired: config, live: false, asked: true, ..slot },
            ),
            Ok(PasstPlanView::Start { stop: slot.live, config }),
        )
    }
}

/// `now` and `delay` together, or the end of time.
fn after(now: u64, delay: u64) -> (r: u64)
    ensures
        r == later(now, delay as int),
{
    if delay <= u64::MAX - now {
        now + delay
    } else {
        u64::MAX
    }
}

impl PasstSlot {
    /// Marks the process as failed at the time `now`.
    fn fail(&mut self, now: u64)
        ensures
            final(self)@ == failed(old(self)@, now),
    {
        self.live = false;
        if self.failures < u32::MAX {
            self.failures = self.failures + 1;
        }
        self.next_retry = Some(after(now, restart_backoff(self.failures)));
    }
}

impl Dataplane {
    /// Ensures that the WAN process of the port runs for the address and the
    /// published pairs, VM port first.
    ///
    /// Where one runs with just that, it is kept. Otherwise the plan says what
    /// to start, and [`Dataplane::passt_started`] or
    /// [`Dataplane::passt_failed`] is to be called next.
    pub fn ensure_passt(&mut self, port: &str, vm_ip: &str, published: &Vec<(u16, u16)>) -> (r:
        Result<PasstPlan, RpcError>)
        ensures
            ({
                let config = passt::ConfigView {
                    vm_ip: vm_ip@,
                    forwards: passt::forwards_for(published@),
                };
                let (w, plan) = ensured(old(self)@, port@, config);
                &&& final(self)@ == w
                &&& match r {
                    Ok(p) => plan == Ok::<PasstPlanView, RpcError>(p@),
                    Err(e) => plan == Err::<PasstPlanView, RpcError>(e),
                }
            }),
    {
        let attached = match self.ports.get(port) {
            Some(p) => match &p.network {
                Some(net) => self.networks.contains_key(net.as_str()),
                None => false,
            },
            None => false,
        };
        if !attached {
            return Err(RpcError::NotFound);
        }
        let config = passt_config_for(vm_ip, published);
        let keep = match self.passts.get(port) {
            Some(slot) => slot.live && slot.desired.same(&config),
            None => false,
        };
        if keep {
            return Ok(PasstPlan::Keep);
        }
        let mut slot: PasstSlot = match self.passts.remove(port) {
            Some(slot) => slot,
            None => PasstSlot {
                desired: config.clone(),
                live: false,
                asked: false,
                failures: 0,
                next_retry: None,
                mac: None,
            },
        };
        let stop = slot.live;
        slot.live = false;
        slot.asked = true;
        slot.desired = config.clone();
        let _ = self.passts.insert(port.to_owned(), slot);
        assert(self@ =~= ensured(old(self)@, port@, config@).0);
        Ok(PasstPlan::Start { stop, config })
    }

    /// Takes note that the WAN process of the port was started.
    pub fn passt_started(&mut self, port: &str)
        ensures
            final(self)@ == (if old(self)@.passts.contains_key(port@) {
                old(self)@.with_slot(port@, started(old(self)@.passts[port@]))
            } else {
                old(self)@
            }),
    {
        match self.passts.remove(port) {
            Some(s) => {
                let mut slot: PasstSlot = s;
                slot.live = true;
                if slot.asked {
                    slot.failures = 0;
                }
                slot.asked = false;
                slot.next_retry = None;
                let _ = self.passts.insert(port.to_owned(), slot);
                assert(self@ =~= old(self)@.with_slot(port@, started(old(self)@.passts[port@])));
            },
            None => {
                assert(self@ =~= old(self)@);
            },
        }
    }

    /// Takes note that the WAN process of the port has delivered a frame.
    pub fn passt_delivered(&mut self, port: &str)
        ensures
            final(self)@ == (if old(self)@.passts.contains_key(port@) {
                old(self)@.with_slot(port@, working(old(self)@.passts[port@]))
            } else {
                old(self)@
            }),
    {
        match self.passts.remove(port) {
            Some(s) => {
                let mut slot: PasstSlot = s;
                if slot.live {
                    slot.failures = 0;
                }
                let _ = self.passts.insert(port.to_owned(), slot);
                assert(self@ =~= old(self)@.with_slot(port@, working(old(self)@.passts[port@])));
            },
            None => {
                assert(self@ =~= old(self)@);
            },
        }
    }

    /// Takes note that the WAN process of the port could not be started at the
    /// time `now`, in milliseconds.
    pub fn passt_failed(&mut self, port: &str, now: u64)
        ensures
            final(self)@ == (if old(self)@.passts.contains_key(port@) {
                old(self)@.with_slot(port@, failed(old(self)@.passts[port@], now))
            } else {
                old(self)@
            }),
    {
        match self.passts.remove(port) {
            Some(s) => {
                let mut slot: PasstSlot = s;
                slot.fail(now);
                let _ = self.passts.insert(port.to_owned(), slot);
                assert(self@ =~= old(self)@.with_slot(
                    port@,
                    failed(old(self)@.passts[port@], now),
                ));
            },
            None => {
                assert(self@ =~= old(self)@);
            },
        }
    }

    /// Forgets the WAN process of the port; says whether one runs, which is
    /// then to be stopped.
    pub fn teardown_passt(&mut self, port: &str) -> (r: bool)
        ensures
            r == (old(self)@.passts.contains_key(port@) && old(self)@.passts[port@].live),
            final(self)@ == (dataplane::DataView {
                passts: old(self)@.passts.remove(port@),
                ..old(self)@
            }),
    {
        let gone = self.passts.remove(port);
        assert(self@.passts =~= old(self)@.passts.remove(port@));
        match gone {
            Some(slot) => slot.live,
            None => false,
        }
    }

    /// Looks after the WAN process of the port at the time `now`, in
    /// milliseconds; `exited` says whether it has exited. Gives what a process
    /// is to be started with, where one is due, and then
    /// [`Dataplane::passt_started`] or [`Dataplane::passt_failed`] is to be
    /// called next.
    pub fn supervise_passt(&mut self, port: &str, exited: bool, now: u64) -> (r: Option<
        PasstConfig,
    >)
        ensures
            if old(self)@.passts.contains_key(port@) {
                let slot = looked_after(old(self)@.passts[port@], exited, now);
                &&& final(self)@ == old(self)@.with_slot(port@, slot)
                &&& r is Some <==> due(slot, now)
                &&& r is Some ==> r->0@ == slot.desired
            } else {
                r is None && final(self)@ == old(self)@
            },
    {
        match self.passts.remove(port) {
            None => {
                assert(self@ =~= old(self)@);
                None
            },
            Some(s) => {
                let mut slot: PasstSlot = s;
                if slot.live && exited {
                    slot.fail(now);
                }
                let over = match slot.next_retry {
                    Some(t) => t <= now,
                    None => true,
                };
                let r = if !slot.live && over {
                    Some(slot.desired.clone())
                } else {
                    None
                };
                let _ = self.passts.insert(port.to_owned(), slot);
                assert(self@ =~= old(self)@.with_slot(port@, slot@));
                r
            },
        }
    }

    /// Takes note of the MAC address of the WAN of the port, where the port
    /// has a WAN process; says whether it is new.
    pub fn learn_passt_mac(&mut self, port: &str, mac: MacAddr) -> (r: bool)
        ensures
            if old(self)@.passts.contains_key(port@) {
                &&& final(self)@ == old(self)@.with_slot(
                    port@,
                    dataplane::SlotView { mac: Some(mac), ..old(self)@.passts[port@] },
                )
                &&& r == (old(self)@.passts[port@].mac != Some(mac))
            } else {
                !r && final(self)@ == old(self)@
            },
    {
        match self.passts.remove(port) {
            None => {
                assert(self@ =~= old(self)@);
                false
            },
            Some(s) => {
                let mut slot: PasstSlot = s;
                let new = slot.mac != Some(mac);
                slot.mac = Some(mac);
                let _ = self.passts.insert(port.to_owned(), slot);
                assert(self@ =~= old(self)@.with_slot(port@, slot@));
                new
            },
        }
    }

    /// Whether the WAN process of the port runs.
    pub fn passt_runs(&self, port: &str) -> (r: bool)
        ensures
            r == (self@.passts.contains_key(port@) && self@.passts[port@].live),
    {
        match self.passts.get(port) {
            Some(slot) => slot.live,
            None => false,
        }
    }
}

// -- laws ---------------------------------------------------------------------

/// Ensuring what was just ensured and started changes nothing: the process
/// keeps running.
pub proof fn law_ensuring_again_keeps_the_process(
    v: dataplane::DataView,
    port: Seq<char>,
    config: passt::ConfigView,
)
    requires
        ensured(v, port, config).1 is Ok,
    ensures
        ({
            let w = ensured(v, port, config).0;
            let x = w.with_slot(port, started(w.passts[port]));
            ensured(x, port, config) == (x, Ok::<PasstPlanView, RpcError>(PasstPlanView::Keep))
        }),
{
}

/// Other forwards, or another address, replace a running process.
pub proof fn law_changed_forwards_restart_the_process(
    v: dataplane::DataView,
    port: Seq<char>,
    config: passt::ConfigView,
)
    requires
        v.passts.contains_key(port),
        v.passts[port].live,
        v.passts[port].desired != config,
        ensured(v, port, config).1 is Ok,
    ensures
        ensured(v, port, config).1 == Ok::<PasstPlanView, RpcError>(
            PasstPlanView::Start { stop: true, config },
        ),
{
}

/// A process that exits is never started again at once: it is due only when at
/// least the shortest delay has passed, and at the latest after the longest.
pub proof fn law_failed_process_waits(slot: dataplane::SlotView, now: u64, t: u64)
    requires
        now + passt::BACKOFF_CAP_MS <= u64::MAX,
        now <= t,
    ensures
        t < now + passt::BACKOFF_BASE_MS ==> !due(failed(slot, now), t),
        t >= now + passt::BACKOFF_CAP_MS ==> due(failed(slot, now), t),
{
    passt::law_backoff_grows_to_its_cap(one_more(slot.failures), one_more(slot.failures));
}

/// The delay never shrinks while a process keeps failing, and starting it again
/// changes nothing about it.
pub proof fn law_failures_add_up(slot: dataplane::SlotView, now: u64)
    ensures
        failed(slot, now).failures >= slot.failures,
        passt::backoff(failed(slot, now).failures) >= passt::backoff(slot.failures),
        !slot.asked ==> started(slot).failures == slot.failures,
        !looked_after(started(slot), true, now).asked,
{
    passt::law_backoff_grows_to_its_cap(slot.failures, one_more(slot.failures));
}

/// A process that was asked for starts without failures, whatever process the
/// port had before, so that its first exit is followed by the shortest delay.
pub proof fn law_what_is_asked_for_starts_afresh(
    v: dataplane::DataView,
    port: Seq<char>,
    config: passt::ConfigView,
    now: u64,
)
    requires
        ensured(v, port, config).1 is Ok,
        ensured(v, port, config).1 != Ok::<PasstPlanView, RpcError>(PasstPlanView::Keep),
    ensures
        ({
            let slot = started(ensured(v, port, config).0.passts[port]);
            &&& slot.desired == config
            &&& slot.failures == 0
            &&& looked_after(slot, true, now).next_retry == Some(
                later(now, passt::BACKOFF_BASE_MS as int),
            )
        }),
{
    vstd::arithmetic::power2::lemma2_to64();
}

/// The slot once its process has exited at each of the given times and was
/// started again in between.
pub open spec fn after_exits(slot: dataplane::SlotView, times: Seq<u64>) -> dataplane::SlotView
    decreases times.len(),
{
    if times.len() == 0 {
        slot
    } else {
        looked_after(started(after_exits(slot, times.drop_last())), true, times.last())
    }
}

/// The delay grows over exits: the n-th exit in a row of a process is followed
/// by no start before the delay for n failures has passed, and by one as soon
/// as it has.
pub proof fn law_every_exit_in_a_row_waits_longer(
    slot: dataplane::SlotView,
    times: Seq<u64>,
    t: u64,
)
    requires
        slot.failures == 0,
        0 < times.len() <= u32::MAX,
    ensures
        after_exits(slot, times).failures == times.len(),
        due(after_exits(slot, times), t) <==> t >= later(
            times.last(),
            passt::backoff(times.len() as u32),
        ),
    decreases times.len(),
{
    if times.len() > 1 {
        law_every_exit_in_a_row_waits_longer(slot, times.drop_last(), t);
    } else {
        assert(after_exits(slot, times.drop_last()) == slot);
    }
}

/// What becomes of a process, in numbers. One that runs and has exited, or did
/// not start, runs no longer, has failed once more, and may be started again
/// when the delay for its failures has passed; nothing else makes it fail. One
/// that was started runs. What it is to be started with, and what is known of
/// its WAN, stays.
pub proof fn law_what_becomes_of_a_process(slot: dataplane::SlotView, exited: bool, now: u64, t: u64)
    ensures
        ({
            let w = failed(slot, now);
            &&& !w.live
            &&& slot.failures < u32::MAX ==> w.failures == slot.failures + 1
            &&& now + 2000 <= u64::MAX ==> w.next_retry == Some(
                (now + passt::backoff(w.failures)) as u64,
            )
            &&& w.desired == slot.desired && w.mac == slot.mac && w.asked == slot.asked
        }),
        looked_after(slot, exited, now) == (if slot.live && exited {
            failed(slot, now)
        } else {
            slot
        }),
        ({
            let w = started(slot);
            &&& w.live
            &&& w.next_retry is None
            &&& w.failures == (if slot.asked { 0 } else { slot.failures })
            &&& w.desired == slot.desired && w.mac == slot.mac && !w.asked
        }),
        ({
            let w = working(slot);
            &&& slot.live ==> w.failures == 0
            &&& !slot.live ==> w == slot
            &&& w == (dataplane::SlotView { failures: w.failures, ..slot })
        }),
        due(slot, t) <==> !slot.live && (slot.next_retry is Some ==> slot.next_retry->0 <= t),
{
    passt::law_backoff_grows_to_its_cap(one_more(slot.failures), one_more(slot.failures));
}

} // verus!
