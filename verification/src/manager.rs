//! The forwarder manager: which forwarders run, and how the set follows the configuration.
use tokio_util::sync::CancellationToken;
use vstd::prelude::*;

use crate::cancel::{cancel_token, new_token, CancelledToken, StopHandle};
use crate::config::ForwarderConfig;
use crate::forwarder::{ConnGuard, Pump};
use crate::stats::{CountingStream, PollOutcome, StatsId, StatsRegistry};

verus! {

/// A forwarder that runs.
pub(crate) struct ForwarderHandle {
    label: String,
    stop: StopHandle,
    stats: StatsId,
}

/// A forwarder that runs: its name, the token that stops it and the counters it writes. The
/// manager holds the unused right to cancel this token, so it has not cancelled it.
#[verifier::ext_equal]
pub struct Running {
    pub label: Seq<char>,
    pub token: CancellationToken,
    pub stats: StatsId,
}

impl View for ForwarderHandle {
    type V = Running;

    closed spec fn view(&self) -> Running {
        Running { label: self.label@, token: self.stop.token(), stats: self.stats }
    }
}

/// Manages the life of all forwarders: start, stop, reload.
pub struct ForwarderManager {
    forwarders: Vec<ForwarderHandle>,
    stats_registry: StatsRegistry,
}

/// What a [`ForwarderManager`] holds: the forwarders that run, in the order in which they were
/// started, and the registry of their counters.
#[verifier::ext_equal]
pub struct Managed {
    pub running: Seq<Running>,
    pub registry: Seq<crate::stats::Registered>,
}

impl View for ForwarderManager {
    type V = Managed;

    closed spec fn view(&self) -> Managed {
        Managed {
            running: self.forwarders@.map_values(|h: ForwarderHandle| h@),
            registry: self.stats_registry@,
        }
    }
}

/// The labels of the forwarders that run.
pub open spec fn labels(running: Seq<Running>) -> Seq<Seq<char>> {
    running.map_values(|r: Running| r.label)
}

/// Whether no two forwarders run under one label.
pub open spec fn labels_distinct(running: Seq<Running>) -> bool {
    forall|i: int, j: int|
        0 <= i < j < running.len() ==> (#[trigger] running[i]).label != (
        #[trigger] running[j]).label
}

/// Whether no two forwarders are stopped by one token.
pub open spec fn tokens_distinct(running: Seq<Running>) -> bool {
    forall|i: int, j: int|
        0 <= i < j < running.len() ==> (#[trigger] running[i]).token != (
        #[trigger] running[j]).token
}

/// Whether some forwarder in the list has the given label.
pub open spec fn desired(configs: Seq<crate::config::Forwarder>, label: Seq<char>) -> bool {
    exists|i: int| 0 <= i < configs.len() && (#[trigger] configs[i]).label() == label
}

impl Managed {
    /// Whether a forwarder runs under the given label.
    pub open spec fn runs(self, label: Seq<char>) -> bool {
        exists|i: int| 0 <= i < self.running.len() && (#[trigger] self.running[i]).label == label
    }

    /// After a forwarder has been started.
    pub open spec fn with(self, label: Seq<char>, token: CancellationToken) -> Managed {
        Managed {
            running: self.running.push(
                Running {
                    label,
                    token,
                    stats: StatsId { index: self.registry.len() as usize },
                },
            ),
            registry: crate::stats::with_label(self.registry, label),
        }
    }

    /// After an event at the forwarder that `stats` stands for.
    pub open spec fn counting(self, stats: StatsId, event: crate::stats::StatsEvent) -> Managed {
        Managed { registry: crate::stats::counted(self.registry, stats, event), ..self }
    }

    /// After the forwarder `label` has been stopped.
    pub open spec fn without(self, label: Seq<char>) -> Managed {
        Managed {
            running: self.running.filter(|r: Running| r.label != label),
            registry: crate::stats::without_label(self.registry, label),
        }
    }
}

/// The forwarders of a list that are to be started when the labels `running` are in use: those
/// whose label is neither in use nor that of an earlier forwarder in the list.
pub open spec fn newcomers(
    running: Seq<Seq<char>>,
    configs: Seq<crate::config::Forwarder>,
) -> Seq<crate::config::Forwarder>
    decreases configs.len(),
{
    if configs.len() == 0 {
        Seq::empty()
    } else {
        let earlier = configs.drop_last();
        let label = configs.last().label();
        if running.contains(label) || desired(earlier, label) {
            newcomers(running, earlier)
        } else {
            newcomers(running, earlier).push(configs.last())
        }
    }
}

impl Managed {
    /// After the given forwarders have been started, one after the other.
    pub open spec fn with_all(self, list: Seq<Started>) -> Managed
        decreases list.len(),
    {
        if list.len() == 0 {
            self
        } else {
            self.with_all(list.drop_last()).with(list.last().config@.label(), list.last().token)
        }
    }
}

/// What the task of a forwarder that has just been started needs.
pub struct Started {
    pub config: ForwarderConfig,
    /// Tells the task to stop.
    pub token: CancellationToken,
    /// The counters of the forwarder.
    pub stats: StatsId,
}

/// A forwarder that has been stopped.
pub struct Stopped {
    pub label: String,
    pub token: CancelledToken,
}

/// Whether `list` are the forwarders `running`, stopped: each under its label, with its own token
/// cancelled.
pub open spec fn stopped_are(list: Seq<Stopped>, running: Seq<Running>) -> bool {
    &&& list.len() == running.len()
    &&& forall|i: int|
        0 <= i < list.len() ==> (#[trigger] list[i]).label@ == running[i].label
            && list[i].token.token() == running[i].token
}

/// What following a new list of forwarders changed.
pub struct Synced {
    pub stopped: Vec<Stopped>,
    pub started: Vec<Started>,
}

impl Managed {
    /// The forwarders that run and are not in the list.
    pub open spec fn undesired(self, configs: Seq<crate::config::Forwarder>) -> Seq<Running> {
        self.running.filter(|r: Running| !desired(configs, r.label))
    }

    /// After all forwarders that are not in the list have been stopped.
    pub open spec fn kept(self, configs: Seq<crate::config::Forwarder>) -> Managed {
        Managed {
            running: self.running.filter(|r: Running| desired(configs, r.label)),
            registry: self.registry.map_values(
                |e: crate::stats::Registered|
                    crate::stats::Registered {
                        listed: e.listed && !(self.runs(e.counters.label) && !desired(
                            configs,
                            e.counters.label,
                        )),
                        ..e
                    },
            ),
        }
    }
}

/// What the configurations of started forwarders say.
pub open spec fn started_configs(list: Seq<Started>) -> Seq<crate::config::Forwarder> {
    list.map_values(|s: Started| s.config@)
}

impl ForwarderManager {
    /// No two forwarders run under one label, none is stopped by another's token, and the
    /// counters that are listed are those of the forwarders that run. (That none of these tokens
    /// has been cancelled by the manager needs no clause: see [`Running`].)
    pub open spec fn wf(self) -> bool {
        &&& labels_distinct(self@.running)
        &&& tokens_distinct(self@.running)
        &&& in_step(self@)
    }

    /// A manager with nothing running.
    pub fn new() -> (r: Self)
        ensures
            r.wf(),
            r@.running.len() == 0,
            r@.registry.len() == 0,
    {
        let r = ForwarderManager { forwarders: Vec::new(), stats_registry: StatsRegistry::new() };
        proof {
            law_new_in_step(r@);
        }
        r
    }

    /// The registry of all counters.
    pub fn stats_registry(&self) -> (r: &StatsRegistry)
        ensures
            r@ == self@.registry,
    {
        &self.stats_registry
    }

    /// Counts a connection that opens at the forwarder that `stats` stands for.
    pub fn open_connection(&mut self, stats: StatsId) -> (r: ConnGuard)
        requires
            old(self).wf(),
        ensures
            final(self).wf(),
            r.stats() == stats,
            final(self)@ == old(self)@.counting(stats, crate::stats::StatsEvent::Opened),
    {
        let ghost start = self@;
        let r = ConnGuard::new(&mut self.stats_registry, stats);
        proof {
            law_counting_in_step(start, stats, crate::stats::StatsEvent::Opened);
        }
        r
    }

    /// Counts that a connection closes.
    pub fn close_connection(&mut self, guard: ConnGuard)
        requires
            old(self).wf(),
        ensures
            final(self).wf(),
            final(self)@ == old(self)@.counting(guard.stats(), crate::stats::StatsEvent::Closed),
    {
        let ghost start = self@;
        let ghost stats = guard.stats();
        guard.close(&mut self.stats_registry);
        proof {
            law_counting_in_step(start, stats, crate::stats::StatsEvent::Closed);
        }
    }

    /// Counts what a read from the client delivered, as [`CountingStream::note_read`] does.
    pub fn note_read<S>(
        &mut self,
        stream: &CountingStream<S>,
        before: usize,
        outcome: PollOutcome,
    )
        requires
            old(self).wf(),
        ensures
            final(self).wf(),
            final(self)@ == old(self)@.counting(
                stream.stats,
                crate::stats::StatsEvent::Sent(crate::stats::bytes_read(before, outcome)),
            ),
    {
        let ghost start = self@;
        stream.note_read(&mut self.stats_registry, before, outcome);
        proof {
            law_counting_in_step(
                start,
                stream.stats,
                crate::stats::StatsEvent::Sent(crate::stats::bytes_read(before, outcome)),
            );
        }
    }

    /// Counts what a write to the client took, as [`CountingStream::note_write`] does.
    pub fn note_write<S>(&mut self, stream: &CountingStream<S>, outcome: PollOutcome)
        requires
            old(self).wf(),
        ensures
            final(self).wf(),
            final(self)@ == old(self)@.counting(
                stream.stats,
                crate::stats::StatsEvent::Received(crate::stats::bytes_written(outcome)),
            ),
    {
        let ghost start = self@;
        stream.note_write(&mut self.stats_registry, outcome);
        proof {
            law_counting_in_step(
                start,
                stream.stats,
                crate::stats::StatsEvent::Received(crate::stats::bytes_written(outcome)),
            );
        }
    }

    /// Takes note of `n` bytes that a pump read, and counts them, as [`Pump::on_read`] does.
    pub fn note_pumped(&mut self, pump: &mut Pump, n: usize)
        requires
            old(self).wf(),
            old(pump).state.admits(crate::forwarder::PumpEvent::Read(n)),
        ensures
            final(self).wf(),
            *final(pump) == (Pump {
                state: old(pump).state.after(crate::forwarder::PumpEvent::Read(n)),
                ..*old(pump)
            }),
            final(self)@ == old(self)@.counting(
                old(pump).stats,
                old(pump).direction.counts(n as u64),
            ),
    {
        let ghost start = self@;
        let ghost stats = pump.stats;
        let ghost event = pump.direction.counts(n as u64);
        pump.on_read(n, &mut self.stats_registry);
        proof {
            law_counting_in_step(start, stats, event);
        }
    }

    /// Derives the rates of all forwarders that run anew, as [`StatsRegistry::sample_rates`] does.
    pub fn sample_rates<F: Fn(u64, u64, u64) -> u64>(&mut self, rate: &F)
        requires
            old(self).wf(),
            forall|prev: u64, cur: u64, ewma: u64| call_requires(*rate, (prev, cur, ewma)),
        ensures
            final(self).wf(),
            final(self)@.running == old(self)@.running,
            final(self)@.registry.len() == old(self)@.registry.len(),
            forall|i: int|
                0 <= i < old(self)@.registry.len() ==> crate::stats::sampled_entry(
                    *rate,
                    #[trigger] old(self)@.registry[i],
                    final(self)@.registry[i],
                ),
    {
        let ghost start = self@;
        self.stats_registry.sample_rates(rate);
        proof {
            assert forall|i: int| 0 <= i < start.registry.len() implies same_entry(
                #[trigger] start.registry[i],
                self@.registry[i],
            ) by {
                assert(crate::stats::sampled_entry(*rate, start.registry[i], self@.registry[i]));
            }
            lemma_same_entries_in_step(start, self@);
        }
    }

    /// Where the forwarder `label` stands.
    fn position(&self, label: &str) -> (r: Option<usize>)
        ensures
            match r {
                Some(i) => i < self.forwarders.len() && self@.running[i as int].label == label@,
                None => !self@.runs(label@),
            },
    {
        let wanted = label.to_owned();
        let mut i: usize = 0;
        while i < self.forwarders.len()
            invariant
                i <= self.forwarders.len(),
                wanted@ == label@,
                forall|j: int| 0 <= j < i ==> (#[trigger] self@.running[j]).label != label@,
            decreases self.forwarders.len() - i,
        {
            assert(self@.running[i as int] == self.forwarders@[i as int]@);
            if self.forwarders[i].label == wanted {
                return Some(i);
            }
            i = i + 1;
        }
        None
    }

    /// Starts one forwarder, unless one runs under its label already. The task gets the token to
    /// listen to; the right to cancel it stays with the manager, unused.
    pub fn start_one(&mut self, cfg: &ForwarderConfig) -> (r: Option<Started>)
        requires
            old(self).wf(),
        ensures
            final(self).wf(),
            match r {
                Some(s) => {
                    &&& !old(self)@.runs(cfg@.label())
                    &&& s.config == *cfg
                    &&& s.stats.index == old(self)@.registry.len()
                    &&& final(self)@ == old(self)@.with(cfg@.label(), s.token)
                },
                None => old(self)@.runs(cfg@.label()) && final(self)@ == old(self)@,
            },
    {
        let label = cfg.label();
        if self.position(label.as_str()).is_some() {
            return None;
        }
        let ghost start = self@;
        let ghost before = self.forwarders@;
        let stop = new_token(&self.forwarders);
        let stats = self.stats_registry.register(label.as_str());
        let token = stop.listener();
        self.forwarders.push(ForwarderHandle { label, stop, stats });
        proof {
            let after = start.with(cfg@.label(), token);
            assert(self@ =~= after);
            law_start_in_step(start, cfg@.label(), token);
            assert forall|i: int, j: int| 0 <= i < j < after.running.len() implies (
            #[trigger] after.running[i]).token != (#[trigger] after.running[j]).token by {
                if j < start.running.len() {
                    assert(start.running[i].token != start.running[j].token);
                } else {
                    assert(before[i]@.token != token);
                }
            }
        }
        Some(Started { config: cfg.clone(), token, stats })
    }

    /// Stops the forwarder `label`, if it runs: its token is cancelled and its counters are taken
    /// off the list. The rights to cancel all other tokens are left, unused.
    pub fn stop_one(&mut self, label: &str) -> (r: Option<CancelledToken>)
        requires
            old(self).wf(),
        ensures
            final(self).wf(),
            match r {
                Some(t) => {
                    &&& exists|i: int|
                        0 <= i < old(self)@.running.len() && (
                        #[trigger] old(self)@.running[i]).label == label@
                            && old(self)@.running[i].token == t.token()
                    &&& final(self)@ == old(self)@.without(label@)
                },
                None => !old(self)@.runs(label@) && final(self)@ == old(self)@,
            },
    {
        match self.position(label) {
            Some(i) => {
                let ghost start = self@;
                let handle = self.forwarders.remove(i);
                self.stats_registry.remove(label);
                proof {
                    lemma_filter_one(start.running, i as int, label@);
                    lemma_filter_distinct(start.running, |r: Running| r.label != label@);
                    assert(self@.running =~= start.running.remove(i as int));
                    assert(self@ =~= start.without(label@));
                    law_stop_in_step(start, label@);
                    assert(start.running[i as int].token == handle.stop.token());
                }
                Some(cancel_token(handle.stop))
            },
            None => None,
        }
    }

    /// Starts all forwarders of the list whose label is not in use.
    pub fn start_all(&mut self, configs: &[ForwarderConfig]) -> (r: Vec<Started>)
        requires
            old(self).wf(),
        ensures
            final(self).wf(),
            started_configs(r@) == newcomers(
                labels(old(self)@.running),
                crate::config::forwarders(configs@),
            ),
            forall|i: int|
                0 <= i < r@.len() ==> (#[trigger] r@[i]).stats.index == old(self)@.registry.len()
                    + i,
            final(self)@ == old(self)@.with_all(r@),
    {
        let ghost start = self@;
        let ghost all = crate::config::forwarders(configs@);
        let ghost used = labels(start.running);
        let mut out: Vec<Started> = Vec::new();
        let mut i: usize = 0;
        assert(all.take(0) =~= Seq::<crate::config::Forwarder>::empty());
        assert(started_configs(out@) =~= Seq::<crate::config::Forwarder>::empty());
        while i < configs.len()
            invariant
                i <= configs.len(),
                all == crate::config::forwarders(configs@),
                used == labels(start.running),
                self.wf(),
                started_configs(out@) == newcomers(used, all.take(i as int)),
                forall|j: int|
                    0 <= j < out@.len() ==> (#[trigger] out@[j]).stats.index
                        == start.registry.len() + j,
                self@ == start.with_all(out@),
            decreases configs.len() - i,
        {
            let ghost before = out@;
            let ghost next = all.take(i + 1);
            proof {
                assert(next.drop_last() =~= all.take(i as int));
                assert(next.last() == configs@[i as int]@);
                let label = next.last().label();
                lemma_with_all(start, before, label);
                lemma_newcomers(used, all.take(i as int), label);
                lemma_labels(start, label);
            }
            if let Some(s) = self.start_one(&configs[i]) {
                out.push(s);
                proof {
                    assert(out@.drop_last() =~= before);
                    assert(started_configs(out@) =~= started_configs(before).push(s.config@));
                }
            }
            i = i + 1;
        }
        assert(all.take(i as int) =~= all);
        out
    }

    /// Stops all forwarders that are not in the list.
    fn stop_undesired(&mut self, configs: &[ForwarderConfig]) -> (r: Vec<Stopped>)
        requires
            old(self).wf(),
        ensures
            final(self).wf(),
            stopped_are(r@, old(self)@.undesired(crate::config::forwarders(configs@))),
            final(self)@ == old(self)@.kept(crate::config::forwarders(configs@)),
    {
        let ghost start = self@;
        let ghost all = crate::config::forwarders(configs@);
        let ghost wanted = |r: Running| desired(all, r.label);
        let ghost unwanted = |r: Running| !desired(all, r.label);
        let mut out: Vec<Stopped> = Vec::new();
        let mut i: usize = 0;
        let ghost mut seen: int = 0;
        proof {
            reveal(Seq::filter);
            assert(start.running.take(0) =~= Seq::<Running>::empty());
            assert(start.running.skip(0) =~= start.running);
            assert(start.running.take(0).filter(wanted) + start.running.skip(0)
                =~= start.running);
            assert(self@.registry =~= start.registry.map_values(unlisting(start, all, 0)));
        }
        while i < self.forwarders.len()
            invariant
                all == crate::config::forwarders(configs@),
                wanted == (|r: Running| desired(all, r.label)),
                unwanted == (|r: Running| !desired(all, r.label)),
                labels_distinct(start.running),
                self.wf(),
                0 <= seen <= start.running.len(),
                i == start.running.take(seen).filter(wanted).len(),
                self.forwarders.len() - i == start.running.len() - seen,
                self@.running == start.running.take(seen).filter(wanted) + start.running.skip(seen),
                self@.registry == start.registry.map_values(unlisting(start, all, seen)),
                stopped_are(out@, start.running.take(seen).filter(unwanted)),
            decreases self.forwarders.len() - i,
        {
            let ghost before = self@;
            let ghost head = start.running.take(seen);
            let ghost next = start.running.take(seen + 1);
            let ghost entry = start.running[seen];
            proof {
                reveal(Seq::filter);
                assert(before.running[i as int] == self.forwarders@[i as int]@);
                assert(before.running[i as int] == start.running.skip(seen)[0]);
                assert(next.drop_last() =~= head);
                assert(next.last() == entry);
            }
            let label = self.forwarders[i].label.clone();
            if is_desired(configs, label.as_str()) {
                proof {
                    assert(next.filter(wanted) == head.filter(wanted).push(entry));
                    assert(next.filter(unwanted) == head.filter(unwanted));
                    assert(self@.running =~= next.filter(wanted) + start.running.skip(seen + 1));
                    lemma_unlisting_kept(start, all, seen);
                    seen = seen + 1;
                }
                i = i + 1;
            } else {
                proof {
                    assert(self@.running[i as int].label == label@);
                }
                if let Some(token) = self.stop_one(label.as_str()) {
                    proof {
                        assert(next.filter(wanted) == head.filter(wanted));
                        assert(next.filter(unwanted) == head.filter(unwanted).push(entry));
                        lemma_filter_one(before.running, i as int, label@);
                        assert(self@.running =~= next.filter(wanted) + start.running.skip(
                            seen + 1,
                        ));
                        lemma_unlisting_stopped(start, all, seen);
                        assert(self@.registry =~= start.registry.map_values(
                            unlisting(start, all, seen + 1),
                        ));
                        let k = choose|k: int|
                            0 <= k < before.running.len() && (
                            #[trigger] before.running[k]).label == label@
                                && before.running[k].token == token.token();
                        assert(k == i) by {
                            if k < i {
                                assert(before.running[k].label != before.running[i as int].label);
                            }
                            if i < k {
                                assert(before.running[i as int].label != before.running[k].label);
                            }
                        }
                        seen = seen + 1;
                    }
                    out.push(Stopped { label, token });
                }
            }
        }
        proof {
            assert(start.running.take(seen) =~= start.running);
            assert(start.running.filter(wanted) + start.running.skip(seen)
                =~= start.running.filter(wanted));
            assert(self@.running == start.kept(all).running);
            assert forall|k: int| 0 <= k < start.registry.len() implies self@.registry[k]
                == #[trigger] start.kept(all).registry[k] by {
                let label = start.registry[k].counters.label;
                if start.runs(label) {
                    let j = choose|j: int|
                        0 <= j < start.running.len() && (#[trigger] start.running[j]).label
                            == label;
                    assert(dropped_before(start, all, seen, label) || desired(all, label));
                }
            }
            assert(self@.registry =~= start.kept(all).registry);
            assert(start.running.filter(unwanted) == start.undesired(all));
        }
        out
    }

    /// Follows a new list of forwarders: stops those that are no longer in it and starts those
    /// that are new; the others are left alone.
    pub fn sync(&mut self, configs: &[ForwarderConfig]) -> (r: Synced)
        requires
            old(self).wf(),
        ensures
            final(self).wf(),
            stopped_are(r.stopped@, old(self)@.undesired(crate::config::forwarders(configs@))),
            started_configs(r.started@) == newcomers(
                labels(old(self)@.running),
                crate::config::forwarders(configs@),
            ),
            forall|i: int|
                0 <= i < r.started@.len() ==> (#[trigger] r.started@[i]).stats.index == old(
                    self,
                )@.registry.len() + i,
            final(self)@ == old(self)@.kept(crate::config::forwarders(configs@)).with_all(
                r.started@,
            ),
    {
        let ghost start = self@;
        let stopped = self.stop_undesired(configs);
        let started = self.start_all(configs);
        proof {
            let all = crate::config::forwarders(configs@);
            lemma_newcomers_kept(start, all, all.len() as int);
            assert(all.take(all.len() as int) =~= all);
        }
        Synced { stopped, started }
    }

    /// Stops all forwarders.
    pub fn shutdown_all(&mut self) -> (r: Vec<Stopped>)
        requires
            old(self).wf(),
        ensures
            final(self).wf(),
            stopped_are(r@, old(self)@.running),
            final(self)@ == old(self)@.kept(Seq::empty()),
            final(self)@.running.len() == 0,
    {
        let ghost start = self@;
        let none: Vec<ForwarderConfig> = Vec::new();
        let r = self.stop_undesired(none.as_slice());
        proof {
            let all = crate::config::forwarders(none@);
            assert(all =~= Seq::empty());
            lemma_filter_all(start.running, |r: Running| !desired(all, r.label));
            lemma_filter_distinct(start.running, |r: Running| desired(all, r.label));
            if self@.running.len() > 0 {
                assert(desired(all, self@.running[0].label));
            }
        }
        r
    }

    /// The labels of the forwarders that run, in the order in which they were started.
    pub fn running_labels(&self) -> (r: Vec<String>)
        ensures
            crate::text::texts(r@) == labels(self@.running),
    {
        let mut out: Vec<String> = Vec::new();
        let mut i: usize = 0;
        while i < self.forwarders.len()
            invariant
                i <= self.forwarders.len(),
                out@.len() == i,
                forall|j: int| 0 <= j < i ==> (#[trigger] out@[j])@ == self.forwarders@[j].label@,
            decreases self.forwarders.len() - i,
        {
            out.push(self.forwarders[i].label.clone());
            i = i + 1;
        }
        assert(crate::text::texts(out@) =~= labels(self@.running));
        out
    }
}

impl Default for ForwarderManager {
    fn default() -> (r: Self)
        ensures
            r.wf(),
            r@.running.len() == 0,
            r@.registry.len() == 0,
    {
        ForwarderManager::new()
    }
}

/// Whether some forwarder in the list has the given label.
fn is_desired(configs: &[ForwarderConfig], label: &str) -> (r: bool)
    ensures
        r == desired(crate::config::forwarders(configs@), label@),
{
    let ghost all = crate::config::forwarders(configs@);
    let wanted = label.to_owned();
    let mut i: usize = 0;
    while i < configs.len()
        invariant
            i <= configs.len(),
            all == crate::config::forwarders(configs@),
            wanted@ == label@,
            forall|j: int| 0 <= j < i ==> (#[trigger] all[j]).label() != label@,
        decreases configs.len() - i,
    {
        assert(all[i as int] == configs@[i as int]@);
        if configs[i].label() == wanted {
            return true;
        }
        i = i + 1;
    }
    false
}

/// Whether one of the first `n` forwarders has the given label and is not in the list.
spec fn dropped_before(
    m: Managed,
    configs: Seq<crate::config::Forwarder>,
    n: int,
    label: Seq<char>,
) -> bool {
    !desired(configs, label) && exists|i: int|
        0 <= i < n && (#[trigger] m.running[i]).label == label
}

/// Takes counters off the list where one of the first `n` forwarders has their label and is not
/// desired.
spec fn unlisting(m: Managed, configs: Seq<crate::config::Forwarder>, n: int) -> spec_fn(
    crate::stats::Registered,
) -> crate::stats::Registered {
    |e: crate::stats::Registered|
        crate::stats::Registered {
            listed: e.listed && !dropped_before(m, configs, n, e.counters.label),
            ..e
        }
}

proof fn lemma_unlisting_kept(m: Managed, configs: Seq<crate::config::Forwarder>, n: int)
    requires
        0 <= n < m.running.len(),
        desired(configs, m.running[n].label),
    ensures
        m.registry.map_values(unlisting(m, configs, n + 1)) == m.registry.map_values(
            unlisting(m, configs, n),
        ),
{
    assert forall|k: int| 0 <= k < m.registry.len() implies #[trigger] m.registry.map_values(
        unlisting(m, configs, n + 1),
    )[k] == m.registry.map_values(unlisting(m, configs, n))[k] by {
        let label = m.registry[k].counters.label;
        assert(dropped_before(m, configs, n + 1, label) == dropped_before(m, configs, n, label));
    }
    assert(m.registry.map_values(unlisting(m, configs, n + 1)) =~= m.registry.map_values(
        unlisting(m, configs, n),
    ));
}

proof fn lemma_unlisting_stopped(m: Managed, configs: Seq<crate::config::Forwarder>, n: int)
    requires
        0 <= n < m.running.len(),
        !desired(configs, m.running[n].label),
    ensures
        m.registry.map_values(unlisting(m, configs, n + 1)) == crate::stats::without_label(
            m.registry.map_values(unlisting(m, configs, n)),
            m.running[n].label,
        ),
{
    let gone = m.running[n].label;
    let left = m.registry.map_values(unlisting(m, configs, n + 1));
    let right = crate::stats::without_label(m.registry.map_values(unlisting(m, configs, n)), gone);
    assert forall|k: int| 0 <= k < m.registry.len() implies #[trigger] left[k] == right[k] by {
        let label = m.registry[k].counters.label;
        assert(dropped_before(m, configs, n + 1, label) == (dropped_before(m, configs, n, label)
            || label == gone)) by {
            if label == gone {
                assert(m.running[n].label == label);
            }
        }
    }
    assert(left =~= right);
}

/// Stopping what is not in the list changes nothing about what is to be started.
proof fn lemma_newcomers_kept(m: Managed, configs: Seq<crate::config::Forwarder>, n: int)
    requires
        0 <= n <= configs.len(),
    ensures
        newcomers(labels(m.kept(configs).running), configs.take(n)) == newcomers(
            labels(m.running),
            configs.take(n),
        ),
    decreases n,
{
    if n > 0 {
        lemma_newcomers_kept(m, configs, n - 1);
        let part = configs.take(n);
        assert(part.drop_last() =~= configs.take(n - 1));
        let label = part.last().label();
        assert(configs[n - 1].label() == label);
        lemma_labels(m, label);
        lemma_labels(m.kept(configs), label);
        lemma_kept_runs(m, configs, label);
    }
}

/// What runs after stopping what is not in the list.
proof fn lemma_kept_runs(m: Managed, configs: Seq<crate::config::Forwarder>, label: Seq<char>)
    ensures
        m.kept(configs).runs(label) <==> m.runs(label) && desired(configs, label),
{
    let keep = |r: Running| desired(configs, r.label);
    let kept = m.running.filter(keep);
    lemma_filter_distinct(m.running, keep);
    if m.runs(label) && desired(configs, label) {
        let i = choose|i: int| 0 <= i < m.running.len() && (#[trigger] m.running[i]).label == label;
        assert(keep(m.running[i]));
        let j = choose|j: int| 0 <= j < kept.len() && kept[j] == m.running[i];
        assert(kept[j].label == label);
        assert(m.kept(configs).running[j].label == label);
    }
    if m.kept(configs).runs(label) {
        let j = choose|j: int|
            0 <= j < m.kept(configs).running.len() && (
            #[trigger] m.kept(configs).running[j]).label == label;
        assert(keep(kept[j]) && m.running.contains(kept[j]));
        let i = choose|i: int| 0 <= i < m.running.len() && m.running[i] == kept[j];
        assert(m.running[i].label == label);
    }
}

/// Where labels are distinct, keeping all but one label drops one entry.
proof fn lemma_filter_one(s: Seq<Running>, i: int, label: Seq<char>)
    requires
        0 <= i < s.len(),
        s[i].label == label,
        forall|j: int, k: int|
            0 <= j < k < s.len() ==> (#[trigger] s[j]).label != (#[trigger] s[k]).label,
    ensures
        s.filter(|r: Running| r.label != label) == s.remove(i),
    decreases s.len(),
{
    reveal(Seq::filter);
    let keep = |r: Running| r.label != label;
    let front = s.drop_last();
    if i == s.len() - 1 {
        assert forall|j: int| 0 <= j < front.len() implies keep(#[trigger] front[j]) by {
            assert(s[j].label != s[i].label);
        }
        lemma_filter_all(front, keep);
        assert(s.remove(i) =~= front);
    } else {
        lemma_filter_one(front, i, label);
        assert(s[i].label != s[s.len() - 1].label);
        assert(s.remove(i) =~= front.remove(i).push(s.last()));
    }
}

/// Keeping entries that all qualify changes nothing.
proof fn lemma_filter_all(s: Seq<Running>, keep: spec_fn(Running) -> bool)
    requires
        forall|i: int| 0 <= i < s.len() ==> keep(#[trigger] s[i]),
    ensures
        s.filter(keep) == s,
    decreases s.len(),
{
    reveal(Seq::filter);
    if s.len() > 0 {
        let front = s.drop_last();
        assert forall|i: int| 0 <= i < front.len() implies keep(#[trigger] front[i]) by {
            assert(keep(s[i]));
        }
        lemma_filter_all(front, keep);
        assert(keep(s[s.len() - 1]));
        assert(front.push(s.last()) =~= s);
    }
}

/// What is kept qualifies and was there, and distinct labels stay distinct.
proof fn lemma_filter_distinct(s: Seq<Running>, keep: spec_fn(Running) -> bool)
    ensures
        forall|i: int|
            0 <= i < s.filter(keep).len() ==> keep(#[trigger] s.filter(keep)[i]) && s.contains(
                s.filter(keep)[i],
            ),
        forall|i: int| 0 <= i < s.len() && keep(#[trigger] s[i]) ==> s.filter(keep).contains(s[i]),
        labels_distinct(s) ==> labels_distinct(s.filter(keep)),
        tokens_distinct(s) ==> tokens_distinct(s.filter(keep)),
    decreases s.len(),
{
    reveal(Seq::filter);
    if s.len() > 0 {
        let front = s.drop_last();
        let kept = front.filter(keep);
        lemma_filter_distinct(front, keep);
        assert forall|i: int| 0 <= i < s.filter(keep).len() implies keep(
            #[trigger] s.filter(keep)[i],
        ) && s.contains(s.filter(keep)[i]) by {
            if i < kept.len() {
                assert(keep(kept[i]) && front.contains(kept[i]));
                let j = choose|j: int| 0 <= j < front.len() && front[j] == kept[i];
                assert(s[j] == kept[i]);
            } else {
                assert(s[s.len() - 1] == s.filter(keep)[i]);
            }
        }
        assert forall|i: int| 0 <= i < s.len() && keep(#[trigger] s[i]) implies s.filter(
            keep,
        ).contains(s[i]) by {
            if i < front.len() {
                assert(front[i] == s[i]);
                let j = choose|j: int| 0 <= j < kept.len() && kept[j] == s[i];
                assert(s.filter(keep)[j] == s[i]);
            } else {
                assert(s.filter(keep)[kept.len() as int] == s[i]);
            }
        }
        if labels_distinct(s) {
            assert forall|i: int, j: int| 0 <= i < j < front.len() implies (
            #[trigger] front[i]).label != (#[trigger] front[j]).label by {
                assert(s[i].label != s[j].label);
            }
            assert forall|i: int, j: int| 0 <= i < j < s.filter(keep).len() implies (
            #[trigger] s.filter(keep)[i]).label != (#[trigger] s.filter(keep)[j]).label by {
                if j < kept.len() {
                    assert(kept[i].label != kept[j].label);
                } else {
                    let k = choose|k: int| 0 <= k < front.len() && front[k] == kept[i];
                    assert(front.contains(kept[i]));
                    assert(s[k].label != s[s.len() - 1].label);
                }
            }
        }
        if tokens_distinct(s) {
            assert forall|i: int, j: int| 0 <= i < j < front.len() implies (
            #[trigger] front[i]).token != (#[trigger] front[j]).token by {
                assert(s[i].token != s[j].token);
            }
            assert forall|i: int, j: int| 0 <= i < j < s.filter(keep).len() implies (
            #[trigger] s.filter(keep)[i]).token != (#[trigger] s.filter(keep)[j]).token by {
                if j < kept.len() {
                    assert(kept[i].token != kept[j].token);
                } else {
                    let k = choose|k: int| 0 <= k < front.len() && front[k] == kept[i];
                    assert(front.contains(kept[i]));
                    assert(s[k].token != s[s.len() - 1].token);
                }
            }
        }
    }
}

/// The labels in use after starting forwarders, and how many counters there are.
proof fn lemma_with_all(m: Managed, list: Seq<Started>, label: Seq<char>)
    ensures
        m.with_all(list).runs(label) <==> m.runs(label) || desired(started_configs(list), label),
        m.with_all(list).registry.len() == m.registry.len() + list.len(),
        m.with_all(list).running.len() == m.running.len() + list.len(),
    decreases list.len(),
{
    if list.len() > 0 {
        let front = list.drop_last();
        let prior = m.with_all(front);
        let after = m.with_all(list);
        lemma_with_all(m, front, label);
        let configs = started_configs(list);
        assert(started_configs(front) =~= configs.drop_last());
        lemma_desired_last(configs, label);
        assert(after.running.drop_last() =~= prior.running);
        if prior.runs(label) {
            let i = choose|i: int|
                0 <= i < prior.running.len() && (#[trigger] prior.running[i]).label == label;
            assert(after.running[i].label == label);
        }
        if list.last().config@.label() == label {
            assert(after.running[prior.running.len() as int].label == label);
        }
        if after.runs(label) {
            let i = choose|i: int|
                0 <= i < after.running.len() && (#[trigger] after.running[i]).label == label;
            if i < prior.running.len() {
                assert(prior.running[i].label == label);
            }
        }
    } else {
        assert(started_configs(list) =~= Seq::<crate::config::Forwarder>::empty());
    }
}

/// A label is desired by a list if it is by its front or is that of its last entry.
proof fn lemma_desired_last(configs: Seq<crate::config::Forwarder>, label: Seq<char>)
    requires
        configs.len() > 0,
    ensures
        desired(configs, label) <==> desired(configs.drop_last(), label)
            || configs.last().label() == label,
{
    let front = configs.drop_last();
    if desired(front, label) {
        let i = choose|i: int| 0 <= i < front.len() && (#[trigger] front[i]).label() == label;
        assert(configs[i].label() == label);
    }
    if configs.last().label() == label {
        assert(configs[configs.len() - 1].label() == label);
    }
    if desired(configs, label) {
        let i = choose|i: int| 0 <= i < configs.len() && (#[trigger] configs[i]).label() == label;
        if i < front.len() {
            assert(front[i].label() == label);
        }
    }
}

/// The labels of the forwarders to start are the desired ones that are not in use.
proof fn lemma_newcomers(
    running: Seq<Seq<char>>,
    configs: Seq<crate::config::Forwarder>,
    label: Seq<char>,
)
    ensures
        desired(newcomers(running, configs), label) <==> desired(configs, label)
            && !running.contains(label),
    decreases configs.len(),
{
    if configs.len() > 0 {
        let earlier = configs.drop_last();
        lemma_newcomers(running, earlier, label);
        lemma_desired_last(configs, label);
        let last = configs.last().label();
        if !(running.contains(last) || desired(earlier, last)) {
            let all = newcomers(running, configs);
            lemma_desired_last(all, label);
            assert(all.drop_last() =~= newcomers(running, earlier));
        }
    }
}

/// The list of labels holds those that are in use.
proof fn lemma_labels(m: Managed, label: Seq<char>)
    ensures
        labels(m.running).contains(label) <==> m.runs(label),
{
    let all = labels(m.running);
    assert(all.len() == m.running.len());
    assert(forall|i: int| 0 <= i < all.len() ==> #[trigger] all[i] == m.running[i].label);
    if m.runs(label) {
        let i = choose|i: int|
            0 <= i < m.running.len() && (#[trigger] m.running[i]).label == label;
        assert(all[i] == label);
    }
    if all.contains(label) {
        let i = choose|i: int| 0 <= i < all.len() && all[i] == label;
        assert(m.running[i].label == label);
    }
}

/// The labels of the counters that are listed.
pub open spec fn listed_labels(m: Managed) -> Seq<Seq<char>> {
    crate::stats::listed(m.registry).map_values(|c: crate::stats::Counters| c.label)
}

/// Whether the counters that are listed are those of the forwarders that run, in the same order,
/// and each forwarder that runs counts under its own label.
pub open spec fn in_step(m: Managed) -> bool {
    &&& listed_labels(m) == labels(m.running)
    &&& forall|i: int| 0 <= i < m.running.len() ==> #[trigger] counts_for(m, m.running[i])
}

/// Whether the forwarder `r` has counters that are listed under its label.
pub open spec fn counts_for(m: Managed, r: Running) -> bool {
    &&& r.stats.index < m.registry.len()
    &&& m.registry[r.stats.index as int].listed
    &&& m.registry[r.stats.index as int].counters.label == r.label
}

/// The manager after it followed a list of forwarders and started `started`.
pub open spec fn synced(
    m: Managed,
    configs: Seq<crate::config::Forwarder>,
    started: Seq<Started>,
) -> Managed {
    m.kept(configs).with_all(started)
}

/// A manager with nothing running lists no counters.
pub proof fn law_new_in_step(m: Managed)
    requires
        m.running.len() == 0,
        m.registry.len() == 0,
    ensures
        in_step(m),
        labels_distinct(m.running),
        tokens_distinct(m.running),
{
    assert(crate::stats::listed(m.registry).map_values(|c: crate::stats::Counters| c.label)
        =~= labels(m.running));
}

/// Starting a forwarder keeps the listed counters in step with the forwarders that run.
pub proof fn law_start_in_step(m: Managed, label: Seq<char>, token: CancellationToken)
    requires
        in_step(m),
        m.registry.len() <= usize::MAX,
    ensures
        in_step(m.with(label, token)),
{
    let after = m.with(label, token);
    crate::stats::law_register_lists(m.registry, label);
    assert(crate::stats::listed(after.registry).map_values(|c: crate::stats::Counters| c.label)
        =~= labels(m.running).push(label));
    assert(labels(after.running) =~= labels(m.running).push(label));
    assert forall|i: int| 0 <= i < after.running.len() implies #[trigger] counts_for(
        after,
        after.running[i],
    ) by {
        if i < m.running.len() {
            assert(counts_for(m, m.running[i]));
        }
    }
}

/// Stopping a forwarder keeps the listed counters in step with the forwarders that run.
pub proof fn law_stop_in_step(m: Managed, label: Seq<char>)
    requires
        in_step(m),
    ensures
        in_step(m.without(label)),
{
    let after = m.without(label);
    let stays = |l: Seq<char>| l != label;
    let wanted = |r: Running| r.label != label;
    lemma_listed_where(m.registry, after.registry, stays);
    lemma_kept_in_step(m, after, stays, wanted);
}

/// Whether two entries of the registry are listed alike, under the same label.
spec fn same_entry(a: crate::stats::Registered, b: crate::stats::Registered) -> bool {
    a.listed == b.listed && a.counters.label == b.counters.label
}

/// Changes of counts and rates keep the listed counters in step.
proof fn lemma_same_entries_in_step(m: Managed, after: Managed)
    requires
        in_step(m),
        after.running == m.running,
        after.registry.len() == m.registry.len(),
        forall|i: int|
            0 <= i < m.registry.len() ==> same_entry(#[trigger] m.registry[i], after.registry[i]),
    ensures
        in_step(after),
{
    lemma_same_listed(m.registry, after.registry);
    assert forall|i: int| 0 <= i < after.running.len() implies #[trigger] counts_for(
        after,
        after.running[i],
    ) by {
        assert(counts_for(m, m.running[i]));
        assert(same_entry(
            m.registry[m.running[i].stats.index as int],
            after.registry[m.running[i].stats.index as int],
        ));
    }
}

proof fn lemma_same_listed(
    a: Seq<crate::stats::Registered>,
    b: Seq<crate::stats::Registered>,
)
    requires
        a.len() == b.len(),
        forall|i: int| 0 <= i < a.len() ==> same_entry(#[trigger] a[i], b[i]),
    ensures
        crate::stats::listed(a).map_values(|c: crate::stats::Counters| c.label)
            == crate::stats::listed(b).map_values(|c: crate::stats::Counters| c.label),
    decreases a.len(),
{
    let name = |c: crate::stats::Counters| c.label;
    if a.len() > 0 {
        let fa = a.drop_last();
        let fb = b.drop_last();
        assert forall|i: int| 0 <= i < fa.len() implies same_entry(#[trigger] fa[i], fb[i]) by {
            assert(same_entry(a[i], b[i]));
        }
        lemma_same_listed(fa, fb);
        let last = a[a.len() - 1];
        assert(same_entry(last, b.last()));
        if last.listed {
            assert(crate::stats::listed(a).map_values(name) =~= crate::stats::listed(
                fa,
            ).map_values(name).push(last.counters.label));
            assert(crate::stats::listed(b).map_values(name) =~= crate::stats::listed(
                fb,
            ).map_values(name).push(last.counters.label));
        }
    } else {
        assert(a =~= b);
    }
}

/// Counting keeps the listed counters in step with the forwarders that run.
pub proof fn law_counting_in_step(m: Managed, stats: StatsId, event: crate::stats::StatsEvent)
    requires
        in_step(m),
    ensures
        in_step(m.counting(stats, event)),
{
    lemma_same_entries_in_step(m, m.counting(stats, event));
}

/// Taking labels off the list and stopping their forwarders keeps the two in step.
proof fn lemma_kept_in_step(
    m: Managed,
    after: Managed,
    stays: spec_fn(Seq<char>) -> bool,
    wanted: spec_fn(Running) -> bool,
)
    requires
        in_step(m),
        after.running == m.running.filter(wanted),
        after.registry.len() == m.registry.len(),
        crate::stats::listed(after.registry) == crate::stats::listed(m.registry).filter(
            |c: crate::stats::Counters| stays(c.label),
        ),
        forall|i: int|
            0 <= i < m.registry.len() ==> (#[trigger] after.registry[i]).counters
                == m.registry[i].counters && after.registry[i].listed == (m.registry[i].listed
                && stays(m.registry[i].counters.label)),
        forall|i: int|
            0 <= i < m.running.len() ==> stays((#[trigger] m.running[i]).label) == wanted(
                m.running[i],
            ),
    ensures
        in_step(after),
{
    let all = crate::stats::listed(m.registry);
    let names = all.map_values(|c: crate::stats::Counters| c.label);
    assert(all.len() == m.running.len()) by {
        assert(names.len() == labels(m.running).len());
    }
    assert forall|i: int| 0 <= i < all.len() implies (#[trigger] all[i]).label
        == m.running[i].label && stays(all[i].label) == wanted(m.running[i]) by {
        assert(names[i] == labels(m.running)[i]);
    }
    lemma_parallel_filter(all, m.running, stays, wanted);
    lemma_filter_distinct(m.running, wanted);
    assert forall|i: int| 0 <= i < after.running.len() implies #[trigger] counts_for(
        after,
        after.running[i],
    ) by {
        let r = after.running[i];
        assert(m.running.filter(wanted)[i] == r);
        assert(wanted(r) && m.running.contains(r));
        let j = choose|j: int| 0 <= j < m.running.len() && m.running[j] == r;
        assert(counts_for(m, m.running[j]));
        assert(stays(m.running[j].label));
    }
}

/// Following a list of forwarders keeps the listed counters in step with the forwarders that run.
pub proof fn law_sync_in_step(
    m: Managed,
    configs: Seq<crate::config::Forwarder>,
    started: Seq<Started>,
)
    requires
        in_step(m),
        m.registry.len() + started.len() <= usize::MAX,
    ensures
        in_step(synced(m, configs, started)),
    decreases started.len(),
{
    if started.len() > 0 {
        let front = started.drop_last();
        law_sync_in_step(m, configs, front);
        lemma_with_all(m.kept(configs), front, Seq::empty());
        law_start_in_step(
            synced(m, configs, front),
            started.last().config@.label(),
            started.last().token,
        );
    } else {
        let kept = m.kept(configs);
        let stays = |l: Seq<char>| !(m.runs(l) && !desired(configs, l));
        let wanted = |r: Running| desired(configs, r.label);
        lemma_listed_where(m.registry, kept.registry, stays);
        assert forall|i: int| 0 <= i < m.running.len() implies stays(
            (#[trigger] m.running[i]).label,
        ) == wanted(m.running[i]) by {
            assert(m.runs(m.running[i].label));
        }
        lemma_kept_in_step(m, kept, stays, wanted);
    }
}

/// What is listed when some labels are taken off the list.
proof fn lemma_listed_where(
    all: Seq<crate::stats::Registered>,
    after: Seq<crate::stats::Registered>,
    stays: spec_fn(Seq<char>) -> bool,
)
    requires
        after.len() == all.len(),
        forall|i: int|
            0 <= i < all.len() ==> (#[trigger] after[i]).counters == all[i].counters
                && after[i].listed == (all[i].listed && stays(all[i].counters.label)),
    ensures
        crate::stats::listed(after) == crate::stats::listed(all).filter(
            |c: crate::stats::Counters| stays(c.label),
        ),
    decreases all.len(),
{
    reveal(Seq::filter);
    if all.len() > 0 {
        let front = all.drop_last();
        let rest = after.drop_last();
        assert forall|i: int| 0 <= i < front.len() implies (#[trigger] rest[i]).counters
            == front[i].counters && rest[i].listed == (front[i].listed && stays(
            front[i].counters.label,
        )) by {
            assert(after[i].counters == all[i].counters);
        }
        lemma_listed_where(front, rest, stays);
        let last = after[all.len() - 1];
        assert(last.counters == all.last().counters);
        if all.last().listed {
            assert(crate::stats::listed(all).drop_last() =~= crate::stats::listed(front));
        }
    }
}

/// Filters that agree on two lists with equal labels leave equal labels.
proof fn lemma_parallel_filter(
    a: Seq<crate::stats::Counters>,
    b: Seq<Running>,
    stays: spec_fn(Seq<char>) -> bool,
    wanted: spec_fn(Running) -> bool,
)
    requires
        a.len() == b.len(),
        forall|i: int|
            0 <= i < a.len() ==> (#[trigger] a[i]).label == b[i].label && stays(a[i].label)
                == wanted(b[i]),
    ensures
        a.filter(|c: crate::stats::Counters| stays(c.label)).map_values(
            |c: crate::stats::Counters| c.label,
        ) == labels(b.filter(wanted)),
    decreases a.len(),
{
    reveal(Seq::filter);
    let keep = |c: crate::stats::Counters| stays(c.label);
    let name = |c: crate::stats::Counters| c.label;
    if a.len() > 0 {
        let fa = a.drop_last();
        let fb = b.drop_last();
        assert forall|i: int| 0 <= i < fa.len() implies (#[trigger] fa[i]).label == fb[i].label
            && stays(fa[i].label) == wanted(fb[i]) by {
            assert(a[i].label == b[i].label);
        }
        lemma_parallel_filter(fa, fb, stays, wanted);
        let last = a[a.len() - 1];
        assert(last.label == b.last().label);
        if keep(a.last()) {
            assert(a.filter(keep).map_values(name) =~= fa.filter(keep).map_values(name).push(
                last.label,
            ));
            assert(labels(b.filter(wanted)) =~= labels(fb.filter(wanted)).push(last.label));
        }
    } else {
        assert(a.filter(keep).map_values(name) =~= labels(b.filter(wanted)));
    }
}

/// After following a list of forwarders, exactly the labels in the list run.
pub proof fn law_sync_runs_the_list(
    m: Managed,
    configs: Seq<crate::config::Forwarder>,
    started: Seq<Started>,
    label: Seq<char>,
)
    requires
        started_configs(started) == newcomers(labels(m.running), configs),
    ensures
        synced(m, configs, started).runs(label) <==> desired(configs, label),
{
    lemma_with_all(m.kept(configs), started, label);
    lemma_newcomers(labels(m.running), configs, label);
    lemma_labels(m, label);
    lemma_kept_runs(m, configs, label);
}

/// After following a list of forwarders, each label in the list runs once and is listed once,
/// even where the list repeats it, and no other label is listed.
pub proof fn law_sync_lists_the_list(
    m: Managed,
    configs: Seq<crate::config::Forwarder>,
    started: Seq<Started>,
)
    requires
        in_step(m),
        labels_distinct(m.running),
        started_configs(started) == newcomers(labels(m.running), configs),
        m.registry.len() + started.len() <= usize::MAX,
    ensures
        labels_distinct(synced(m, configs, started).running),
        listed_labels(synced(m, configs, started)) == labels(
            synced(m, configs, started).running,
        ),
        listed_labels(synced(m, configs, started)).no_duplicates(),
        forall|label: Seq<char>| #[trigger]
            listed_labels(synced(m, configs, started)).contains(label) <==> desired(
                configs,
                label,
            ),
{
    let after = synced(m, configs, started);
    law_sync_in_step(m, configs, started);
    lemma_filter_distinct(m.running, |r: Running| desired(configs, r.label));
    lemma_newcomers_kept(m, configs, configs.len() as int);
    assert(configs.take(configs.len() as int) =~= configs);
    lemma_newcomers_distinct(labels(m.kept(configs).running), configs);
    assert forall|i: int| 0 <= i < started.len() implies !m.kept(configs).runs(
        (#[trigger] started[i]).config@.label(),
    ) by {
        let label = started[i].config@.label();
        let fresh = newcomers(labels(m.kept(configs).running), configs);
        assert(fresh[i].label() == label);
        assert(desired(fresh, label));
        lemma_newcomers(labels(m.kept(configs).running), configs, label);
        lemma_labels(m.kept(configs), label);
    }
    assert forall|i: int, j: int| 0 <= i < j < started.len() implies (
    #[trigger] started[i]).config@.label() != (#[trigger] started[j]).config@.label() by {
        let fresh = started_configs(started);
        assert(fresh[i].label() != fresh[j].label());
    }
    lemma_with_all_distinct(m.kept(configs), started);
    let names = labels(after.running);
    assert forall|i: int, j: int| 0 <= i < names.len() && 0 <= j < names.len() && i
        != j implies names[i] != names[j] by {
        if i < j {
            assert(after.running[i].label != after.running[j].label);
        } else {
            assert(after.running[j].label != after.running[i].label);
        }
    }
    assert forall|label: Seq<char>| #[trigger] listed_labels(after).contains(label) <==> desired(
        configs,
        label,
    ) by {
        law_sync_runs_the_list(m, configs, started, label);
        lemma_labels(after, label);
    }
}

/// No two forwarders to start have one label.
proof fn lemma_newcomers_distinct(
    running: Seq<Seq<char>>,
    configs: Seq<crate::config::Forwarder>,
)
    ensures
        forall|i: int, j: int|
            0 <= i < j < newcomers(running, configs).len() ==> (
            #[trigger] newcomers(running, configs)[i]).label() != (
            #[trigger] newcomers(running, configs)[j]).label(),
    decreases configs.len(),
{
    if configs.len() > 0 {
        let earlier = configs.drop_last();
        let last = configs.last().label();
        lemma_newcomers_distinct(running, earlier);
        let front = newcomers(running, earlier);
        let all = newcomers(running, configs);
        if !(running.contains(last) || desired(earlier, last)) {
            lemma_newcomers(running, earlier, last);
            assert forall|i: int, j: int| 0 <= i < j < all.len() implies (
            #[trigger] all[i]).label() != (#[trigger] all[j]).label() by {
                assert(all[i] == front[i]);
                if j < front.len() {
                    assert(front[i].label() != front[j].label());
                } else if front[i].label() == last {
                    assert(desired(front, last));
                }
            }
        }
    }
}

/// Starting forwarders under new labels keeps labels distinct.
proof fn lemma_with_all_distinct(m: Managed, list: Seq<Started>)
    requires
        labels_distinct(m.running),
        forall|i: int|
            0 <= i < list.len() ==> !m.runs((#[trigger] list[i]).config@.label()),
        forall|i: int, j: int|
            0 <= i < j < list.len() ==> (#[trigger] list[i]).config@.label() != (
            #[trigger] list[j]).config@.label(),
    ensures
        labels_distinct(m.with_all(list).running),
    decreases list.len(),
{
    if list.len() > 0 {
        let front = list.drop_last();
        let label = list.last().config@.label();
        assert forall|i: int| 0 <= i < front.len() implies !m.runs(
            (#[trigger] front[i]).config@.label(),
        ) by {
            assert(!m.runs(list[i].config@.label()));
        }
        assert forall|i: int, j: int| 0 <= i < j < front.len() implies (
        #[trigger] front[i]).config@.label() != (#[trigger] front[j]).config@.label() by {
            assert(list[i].config@.label() != list[j].config@.label());
        }
        lemma_with_all_distinct(m, front);
        lemma_with_all(m, front, label);
        assert(!m.with_all(front).runs(label)) by {
            assert(!m.runs(list[list.len() - 1].config@.label()));
            if desired(started_configs(front), label) {
                let names = started_configs(front);
                let i = choose|i: int|
                    0 <= i < names.len() && (#[trigger] names[i]).label() == label;
                assert(list[i].config@.label() != list[list.len() - 1].config@.label());
            }
        }
        let prior = m.with_all(front).running;
        let after = m.with_all(list).running;
        assert forall|i: int, j: int| 0 <= i < j < after.len() implies (
        #[trigger] after[i]).label != (#[trigger] after[j]).label by {
            assert(after[i] == prior[i]);
            if j < prior.len() {
                assert(prior[i].label != prior[j].label);
            }
        }
    }
}

/// Following a list of forwarders leaves those that stay in it alone: they run on with the same
/// token and the same counters, and these stay listed.
pub proof fn law_sync_leaves_the_rest_alone(
    m: Managed,
    configs: Seq<crate::config::Forwarder>,
    started: Seq<Started>,
    i: int,
)
    requires
        0 <= i < m.running.len(),
        desired(configs, m.running[i].label),
        counts_for(m, m.running[i]),
    ensures
        synced(m, configs, started).running.contains(m.running[i]),
        synced(m, configs, started).registry[m.running[i].stats.index as int]
            == m.registry[m.running[i].stats.index as int],
{
    let keep = |r: Running| desired(configs, r.label);
    lemma_filter_distinct(m.running, keep);
    assert(keep(m.running[i]));
    let kept = m.kept(configs);
    assert(kept.running.contains(m.running[i]));
    let j = choose|j: int| 0 <= j < kept.running.len() && kept.running[j] == m.running[i];
    lemma_with_all_keeps(kept, started);
    assert(synced(m, configs, started).running[j] == m.running[i]);
}

/// Starting forwarders leaves what was there in place.
proof fn lemma_with_all_keeps(m: Managed, list: Seq<Started>)
    ensures
        m.with_all(list).running.len() >= m.running.len(),
        m.with_all(list).registry.len() >= m.registry.len(),
        forall|i: int|
            0 <= i < m.running.len() ==> #[trigger] m.with_all(list).running[i] == m.running[i],
        forall|i: int|
            0 <= i < m.registry.len() ==> #[trigger] m.with_all(list).registry[i]
                == m.registry[i],
    decreases list.len(),
{
    if list.len() > 0 {
        lemma_with_all_keeps(m, list.drop_last());
    }
}

/// No counters are lost when a list of forwarders is followed: connections of a forwarder that
/// was stopped go on counting where they did.
pub proof fn law_sync_keeps_counters(
    m: Managed,
    configs: Seq<crate::config::Forwarder>,
    started: Seq<Started>,
    i: int,
)
    requires
        0 <= i < m.registry.len(),
    ensures
        i < synced(m, configs, started).registry.len(),
        synced(m, configs, started).registry[i].counters == m.registry[i].counters,
{
    lemma_with_all_keeps(m.kept(configs), started);
}

/// Following the same list of forwarders again changes nothing: there is nothing to stop and
/// nothing to start.
pub proof fn law_sync_twice(
    m: Managed,
    configs: Seq<crate::config::Forwarder>,
    started: Seq<Started>,
)
    requires
        started_configs(started) == newcomers(labels(m.running), configs),
    ensures
        synced(m, configs, started).undesired(configs).len() == 0,
        newcomers(labels(synced(m, configs, started).running), configs).len() == 0,
        synced(m, configs, started).kept(configs) == synced(m, configs, started),
{
    let after = synced(m, configs, started);
    let unwanted = |r: Running| !desired(configs, r.label);
    let wanted = |r: Running| desired(configs, r.label);
    assert forall|i: int| 0 <= i < after.running.len() implies wanted(
        #[trigger] after.running[i],
    ) by {
        assert(after.runs(after.running[i].label));
        law_sync_runs_the_list(m, configs, started, after.running[i].label);
    }
    lemma_filter_distinct(after.running, unwanted);
    if after.undesired(configs).len() > 0 {
        let r = after.running.filter(unwanted)[0];
        assert(unwanted(r) && after.running.contains(r));
        let i = choose|i: int| 0 <= i < after.running.len() && after.running[i] == r;
        assert(wanted(after.running[i]));
    }
    let fresh = newcomers(labels(after.running), configs);
    if fresh.len() > 0 {
        let label = fresh[0].label();
        assert(desired(fresh, label));
        lemma_newcomers(labels(after.running), configs, label);
        law_sync_runs_the_list(m, configs, started, label);
        lemma_labels(after, label);
    }
    lemma_filter_all(after.running, wanted);
    assert forall|k: int| 0 <= k < after.registry.len() implies #[trigger] after.kept(
        configs,
    ).registry[k] == after.registry[k] by {
        law_sync_runs_the_list(m, configs, started, after.registry[k].counters.label);
    }
    assert(after.kept(configs) =~= after);
}

/// The tokens that are cancelled when a list is followed are none of those of the forwarders that
/// stay: these run on with tokens of their own, which the manager still holds the right to cancel.
pub proof fn law_stopping_spares_the_rest(
    m: Managed,
    configs: Seq<crate::config::Forwarder>,
    i: int,
    j: int,
)
    requires
        tokens_distinct(m.running),
        0 <= i < m.undesired(configs).len(),
        0 <= j < m.kept(configs).running.len(),
    ensures
        m.undesired(configs)[i].token != m.kept(configs).running[j].token,
{
    let gone = |r: Running| !desired(configs, r.label);
    let stays = |r: Running| desired(configs, r.label);
    lemma_filter_distinct(m.running, gone);
    lemma_filter_distinct(m.running, stays);
    let a = m.running.filter(gone)[i];
    let b = m.running.filter(stays)[j];
    assert(gone(a) && m.running.contains(a));
    assert(stays(b) && m.running.contains(b));
    let k = choose|k: int| 0 <= k < m.running.len() && m.running[k] == a;
    let l = choose|l: int| 0 <= l < m.running.len() && m.running[l] == b;
    assert(m.running[k].label != m.running[l].label);
    if k < l {
        assert(m.running[k].token != m.running[l].token);
    } else {
        assert(m.running[l].token != m.running[k].token);
    }
}

/// After a shutdown no counters are listed.
pub proof fn law_shutdown_lists_nothing(m: Managed)
    requires
        in_step(m),
        m.registry.len() <= usize::MAX,
    ensures
        crate::stats::listed(m.kept(Seq::empty()).registry).len() == 0,
        m.kept(Seq::empty()).running.len() == 0,
{
    let none = Seq::<crate::config::Forwarder>::empty();
    let after = m.kept(none);
    law_sync_in_step(m, none, Seq::empty());
    lemma_filter_distinct(m.running, |r: Running| desired(none, r.label));
    if after.running.len() > 0 {
        assert(desired(none, after.running[0].label));
    }
    assert(labels(after.running).len() == 0);
    assert(crate::stats::listed(after.registry).map_values(|c: crate::stats::Counters| c.label).len()
        == 0);
}

/// A list of forwarders asks for the labels that its entries have, and a manager runs those that
/// its forwarders have.
pub proof fn law_desired_and_running(
    m: Managed,
    configs: Seq<crate::config::Forwarder>,
    label: Seq<char>,
)
    ensures
        desired(configs, label) <==> exists|i: int|
            0 <= i < configs.len() && (#[trigger] configs[i]).label() == label,
        m.runs(label) <==> exists|i: int|
            0 <= i < m.running.len() && (#[trigger] m.running[i]).label == label,
        labels(m.running).len() == m.running.len(),
        forall|i: int| 0 <= i < m.running.len() ==> #[trigger] labels(m.running)[i]
            == m.running[i].label,
        labels_distinct(m.running) ==> (forall|i: int, j: int|
            0 <= i < j < m.running.len() ==> (#[trigger] m.running[i]).label != (
            #[trigger] m.running[j]).label),
        tokens_distinct(m.running) ==> (forall|i: int, j: int|
            0 <= i < j < m.running.len() ==> (#[trigger] m.running[i]).token != (
            #[trigger] m.running[j]).token),
{
}

/// A forwarder that is started runs last, under its label and token, with counters of its own that
/// stand at zero and are listed; all else stays.
pub proof fn law_what_starting_does(m: Managed, label: Seq<char>, token: CancellationToken, i: int)
    requires
        m.registry.len() <= usize::MAX,
    ensures
        ({
            let after = m.with(label, token);
            let n = m.running.len() as int;
            &&& after.running.len() == n + 1
            &&& after.running[n].label == label
            &&& after.running[n].token == token
            &&& after.running[n].stats.index == m.registry.len()
            &&& 0 <= i < n ==> after.running[i] == m.running[i]
            &&& after.registry.len() == m.registry.len() + 1
            &&& after.registry[m.registry.len() as int].listed
            &&& after.registry[m.registry.len() as int].counters.label == label
            &&& after.registry[m.registry.len() as int].counters.bytes_sent == 0
            &&& after.registry[m.registry.len() as int].counters.bytes_received == 0
            &&& after.registry[m.registry.len() as int].counters.active_connections == 0
            &&& 0 <= i < m.registry.len() ==> after.registry[i] == m.registry[i]
        }),
{
}

/// Stopping a forwarder takes it, and no other, out of those that run, and takes its counters, and
/// no others, off the list; no counters change.
pub proof fn law_what_stopping_does(m: Managed, label: Seq<char>, i: int)
    ensures
        m.without(label).running == m.running.filter(|r: Running| r.label != label),
        m.without(label).registry.len() == m.registry.len(),
        0 <= i < m.registry.len() ==> m.without(label).registry[i].counters
            == m.registry[i].counters && m.without(label).registry[i].listed == (
        m.registry[i].listed && m.registry[i].counters.label != label),
        !m.without(label).runs(label),
{
    let keep = |r: Running| r.label != label;
    lemma_filter_distinct(m.running, keep);
    if m.without(label).runs(label) {
        let k = choose|k: int|
            0 <= k < m.without(label).running.len() && (
            #[trigger] m.without(label).running[k]).label == label;
        assert(keep(m.running.filter(keep)[k]));
    }
}

/// Counting touches the counters of one forwarder, and nothing else of the manager.
pub proof fn law_what_counting_does(
    m: Managed,
    stats: StatsId,
    event: crate::stats::StatsEvent,
    i: int,
)
    ensures
        m.counting(stats, event).running == m.running,
        m.counting(stats, event).registry.len() == m.registry.len(),
        0 <= i < m.registry.len() ==> m.counting(stats, event).registry[i].listed
            == m.registry[i].listed && m.counting(stats, event).registry[i].counters == (if i
            == stats.index {
            m.registry[i].counters.after(event)
        } else {
            m.registry[i].counters
        }),
{
}

/// Of a list, those forwarders are to be started whose label is neither in use nor that of an
/// earlier entry: each new label once, as its first entry says.
pub proof fn law_newcomers(
    running: Seq<Seq<char>>,
    configs: Seq<crate::config::Forwarder>,
    c: crate::config::Forwarder,
)
    ensures
        newcomers(running, Seq::empty()) == Seq::<crate::config::Forwarder>::empty(),
        newcomers(running, configs.push(c)) == (if running.contains(c.label()) || (exists|i: int|
            0 <= i < configs.len() && (#[trigger] configs[i]).label() == c.label()) {
            newcomers(running, configs)
        } else {
            newcomers(running, configs).push(c)
        }),
{
    assert(configs.push(c).drop_last() =~= configs);
    assert(desired(configs, c.label()) <==> exists|i: int|
        0 <= i < configs.len() && (#[trigger] configs[i]).label() == c.label());
}

/// The labels of the forwarders to be started are those of the list that are not in use, each once.
pub proof fn law_newcomers_are_the_new_labels(
    running: Seq<Seq<char>>,
    configs: Seq<crate::config::Forwarder>,
    label: Seq<char>,
)
    ensures
        (exists|i: int|
            0 <= i < newcomers(running, configs).len() && (
            #[trigger] newcomers(running, configs)[i]).label() == label) <==> ((exists|i: int|
            0 <= i < configs.len() && (#[trigger] configs[i]).label() == label)
            && !running.contains(label)),
        forall|i: int, j: int|
            0 <= i < j < newcomers(running, configs).len() ==> (
            #[trigger] newcomers(running, configs)[i]).label() != (
            #[trigger] newcomers(running, configs)[j]).label(),
{
    lemma_newcomers(running, configs, label);
    lemma_newcomers_distinct(running, configs);
    assert(desired(newcomers(running, configs), label) <==> exists|i: int|
        0 <= i < newcomers(running, configs).len() && (
        #[trigger] newcomers(running, configs)[i]).label() == label);
    assert(desired(configs, label) <==> exists|i: int|
        0 <= i < configs.len() && (#[trigger] configs[i]).label() == label);
}

/// Forwarders that are started one after the other run behind those that ran, in that order, each
/// under the label of its configuration and with its own token, and each with new counters at zero.
pub proof fn law_what_starting_all_does(m: Managed, list: Seq<Started>, i: int)
    requires
        m.registry.len() + list.len() <= usize::MAX,
    ensures
        ({
            let after = m.with_all(list);
            &&& after.running.len() == m.running.len() + list.len()
            &&& after.registry.len() == m.registry.len() + list.len()
            &&& 0 <= i < m.running.len() ==> after.running[i] == m.running[i]
            &&& 0 <= i < m.registry.len() ==> after.registry[i] == m.registry[i]
            &&& 0 <= i < list.len() ==> {
                let r = after.running[m.running.len() + i];
                let e = after.registry[m.registry.len() + i];
                &&& r.label == list[i].config@.label()
                &&& r.token == list[i].token
                &&& r.stats.index == m.registry.len() + i
                &&& e.listed
                &&& e.counters == crate::stats::Counters::fresh(list[i].config@.label())
            }
        }),
    decreases list.len(),
{
    lemma_with_all_keeps(m, list);
    lemma_with_all(m, list, Seq::empty());
    if list.len() > 0 {
        let front = list.drop_last();
        law_what_starting_all_does(m, front, i);
        lemma_with_all(m, front, Seq::empty());
        if 0 <= i < front.len() {
            assert(front[i] == list[i]);
            assert(m.with_all(list).running[m.running.len() + i] == m.with_all(
                front,
            ).running[m.running.len() + i]);
            assert(m.with_all(list).registry[m.registry.len() + i] == m.with_all(
                front,
            ).registry[m.registry.len() + i]);
        }
    }
}

/// The configurations of started forwarders are those that they were started with, in order.
pub proof fn law_started_configs(list: Seq<Started>, i: int)
    requires
        0 <= i < list.len(),
    ensures
        started_configs(list).len() == list.len(),
        started_configs(list)[i] == list[i].config@,
{
}

/// Forwarders that were stopped are all of those given, each under its label and with its own token
/// cancelled.
pub proof fn law_stopped_are_all(list: Seq<Stopped>, running: Seq<Running>, i: int)
    requires
        stopped_are(list, running),
    ensures
        list.len() == running.len(),
        0 <= i < list.len() ==> list[i].label@ == running[i].label && list[i].token.token()
            == running[i].token,
{
}

/// Those that run and are not in the list are to be stopped, in order; those that are in it stay, in
/// order, and none is both. Their counters are taken off the list or stay listed accordingly, and
/// no counters change.
pub proof fn law_what_stays_and_what_goes(
    m: Managed,
    configs: Seq<crate::config::Forwarder>,
    i: int,
)
    ensures
        m.undesired(configs) == m.running.filter(
            |r: Running|
                !exists|k: int|
                    0 <= k < configs.len() && (#[trigger] configs[k]).label() == r.label,
        ),
        m.kept(configs).running == m.running.filter(
            |r: Running|
                exists|k: int|
                    0 <= k < configs.len() && (#[trigger] configs[k]).label() == r.label,
        ),
        m.undesired(configs).len() + m.kept(configs).running.len() == m.running.len(),
        m.kept(configs).registry.len() == m.registry.len(),
        0 <= i < m.registry.len() ==> m.kept(configs).registry[i].counters
            == m.registry[i].counters,
        0 <= i < m.registry.len() ==> m.kept(configs).registry[i].listed == (m.registry[i].listed
            && !(m.runs(m.registry[i].counters.label) && !exists|k: int|
            0 <= k < configs.len() && (#[trigger] configs[k]).label()
                == m.registry[i].counters.label)),
{
    let gone = |r: Running|
        !exists|k: int| 0 <= k < configs.len() && (#[trigger] configs[k]).label() == r.label;
    let stays = |r: Running|
        exists|k: int| 0 <= k < configs.len() && (#[trigger] configs[k]).label() == r.label;
    assert(gone =~= (|r: Running| !desired(configs, r.label)));
    assert(stays =~= (|r: Running| desired(configs, r.label)));
    lemma_filter_parts(m.running, |r: Running| desired(configs, r.label));
    assert((|r: Running| !desired(configs, r.label)) =~= (|r: Running|
        !(|r: Running| desired(configs, r.label))(r)));
}

proof fn lemma_filter_parts(s: Seq<Running>, keep: spec_fn(Running) -> bool)
    ensures
        s.filter(keep).len() + s.filter(|r: Running| !keep(r)).len() == s.len(),
    decreases s.len(),
{
    reveal(Seq::filter);
    if s.len() > 0 {
        lemma_filter_parts(s.drop_last(), keep);
    }
}

/// Counters in step with the forwarders that run: the labels listed are those that run, in order,
/// and each forwarder's own counters are listed under its label.
pub proof fn law_in_step(m: Managed, i: int)
    requires
        in_step(m),
    ensures
        crate::stats::listed(m.registry).len() == m.running.len(),
        0 <= i < m.running.len() ==> crate::stats::listed(m.registry)[i].label
            == m.running[i].label,
        0 <= i < m.running.len() ==> m.running[i].stats.index < m.registry.len()
            && m.registry[m.running[i].stats.index as int].listed
            && m.registry[m.running[i].stats.index as int].counters.label == m.running[i].label,
{
    assert(listed_labels(m).len() == crate::stats::listed(m.registry).len());
    assert(labels(m.running).len() == m.running.len());
    if 0 <= i < m.running.len() {
        assert(listed_labels(m)[i] == labels(m.running)[i]);
        assert(counts_for(m, m.running[i]));
    }
}

/// Following a list first stops what is not in it and then starts what is new.
pub proof fn law_synced(m: Managed, configs: Seq<crate::config::Forwarder>, started: Seq<Started>)
    ensures
        synced(m, configs, started) == m.kept(configs).with_all(started),
{
}

/// In every manager labels and tokens are used once, and the counters that are listed are those of
/// the forwarders that run.
pub proof fn law_every_manager(m: ForwarderManager, i: int, j: int)
    requires
        m.wf(),
        0 <= i < m@.running.len(),
        0 <= j < m@.running.len(),
        i != j,
    ensures
        m@.running[i].label != m@.running[j].label,
        m@.running[i].token != m@.running[j].token,
        m@.running[i].stats != m@.running[j].stats,
        crate::stats::listed(m@.registry).len() == m@.running.len(),
        crate::stats::listed(m@.registry)[i].label == m@.running[i].label,
{
    law_in_step(m@, i);
    law_in_step(m@, j);
    if i < j {
        assert(m@.running[i].label != m@.running[j].label);
        assert(m@.running[i].token != m@.running[j].token);
    } else {
        assert(m@.running[j].label != m@.running[i].label);
        assert(m@.running[j].token != m@.running[i].token);
    }
}

} // verus!
