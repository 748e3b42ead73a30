//! Traffic statistics: lifetime counters, derived rates, and the registry of all forwarders.
use vstd::prelude::*;

verus! {

/// Per-forwarder traffic counters.
///
/// `bytes_sent` and `bytes_received` accumulate for the whole life of the process and are never
/// reset. The current throughput is derived from them by the sampler and kept in
/// `rate_sent_bps` and `rate_recv_bps`.
#[derive(Debug)]
pub struct ForwarderStats {
    pub label: String,
    /// Lifetime bytes client to remote.
    pub bytes_sent: u64,
    /// Lifetime bytes remote to client.
    pub bytes_received: u64,
    pub active_connections: u64,
    /// Current send throughput (bytes per second), written only by the sampler.
    pub rate_sent_bps: u64,
    /// Current receive throughput (bytes per second), written only by the sampler.
    pub rate_recv_bps: u64,
    /// `bytes_sent` at the previous sample.
    pub last_sample_sent: u64,
    /// `bytes_received` at the previous sample.
    pub last_sample_recv: u64,
}

/// What [`ForwarderStats`] hold.
#[verifier::ext_equal]
pub struct Counters {
    pub label: Seq<char>,
    pub bytes_sent: u64,
    pub bytes_received: u64,
    pub active_connections: u64,
    pub rate_sent_bps: u64,
    pub rate_recv_bps: u64,
    pub last_sample_sent: u64,
    pub last_sample_recv: u64,
}

impl View for ForwarderStats {
    type V = Counters;

    open spec fn view(&self) -> Counters {
        Counters {
            label: self.label@,
            bytes_sent: self.bytes_sent,
            bytes_received: self.bytes_received,
            active_connections: self.active_connections,
            rate_sent_bps: self.rate_sent_bps,
            rate_recv_bps: self.rate_recv_bps,
            last_sample_sent: self.last_sample_sent,
            last_sample_recv: self.last_sample_recv,
        }
    }
}

/// The sum of two 64-bit counts, modulo 2^64.
pub open spec fn wrapped_sum(a: u64, b: u64) -> u64 {
    if a + b <= u64::MAX {
        (a + b) as u64
    } else {
        (a + b - 0x1_0000_0000_0000_0000) as u64
    }
}

/// Something that happens to the counters of a forwarder.
pub enum StatsEvent {
    /// So many bytes went from the client to the remote side.
    Sent(u64),
    /// So many bytes went from the remote side to the client.
    Received(u64),
    /// A connection opened.
    Opened,
    /// A connection closed.
    Closed,
    /// The sampler derived these send and receive rates.
    Sampled(u64, u64),
}

impl Counters {
    /// The counters of a forwarder that has just been registered.
    pub open spec fn fresh(label: Seq<char>) -> Counters {
        Counters {
            label,
            bytes_sent: 0,
            bytes_received: 0,
            active_connections: 0,
            rate_sent_bps: 0,
            rate_recv_bps: 0,
            last_sample_sent: 0,
            last_sample_recv: 0,
        }
    }

    /// The counters after an event.
    pub open spec fn after(self, event: StatsEvent) -> Counters {
        match event {
            StatsEvent::Sent(n) => Counters { bytes_sent: wrapped_sum(self.bytes_sent, n), ..self },
            StatsEvent::Received(n) => Counters {
                bytes_received: wrapped_sum(self.bytes_received, n),
                ..self
            },
            StatsEvent::Opened => Counters {
                active_connections: wrapped_sum(self.active_connections, 1),
                ..self
            },
            StatsEvent::Closed => Counters {
                active_connections: wrapped_sum(self.active_connections, u64::MAX),
                ..self
            },
            StatsEvent::Sampled(sent, recv) => Counters {
                rate_sent_bps: sent,
                rate_recv_bps: recv,
                last_sample_sent: self.bytes_sent,
                last_sample_recv: self.bytes_received,
                ..self
            },
        }
    }

    /// What is reported of the counters.
    pub open spec fn snapshot(self) -> Snapshot {
        Snapshot {
            label: self.label,
            bytes_sent: self.bytes_sent,
            bytes_received: self.bytes_received,
            active_connections: self.active_connections,
            rate_sent_bps: self.rate_sent_bps,
            rate_recv_bps: self.rate_recv_bps,
        }
    }
}

/// Immutable snapshot of a forwarder's counters at one instant.
#[derive(Debug)]
pub struct StatsSnapshot {
    pub label: String,
    pub bytes_sent: u64,
    pub bytes_received: u64,
    pub active_connections: u64,
    pub rate_sent_bps: u64,
    pub rate_recv_bps: u64,
}

/// What a [`StatsSnapshot`] holds.
#[verifier::ext_equal]
pub struct Snapshot {
    pub label: Seq<char>,
    pub bytes_sent: u64,
    pub bytes_received: u64,
    pub active_connections: u64,
    pub rate_sent_bps: u64,
    pub rate_recv_bps: u64,
}

impl View for StatsSnapshot {
    type V = Snapshot;

    open spec fn view(&self) -> Snapshot {
        Snapshot {
            label: self.label@,
            bytes_sent: self.bytes_sent,
            bytes_received: self.bytes_received,
            active_connections: self.active_connections,
            rate_sent_bps: self.rate_sent_bps,
            rate_recv_bps: self.rate_recv_bps,
        }
    }
}

impl Clone for StatsSnapshot {
    fn clone(&self) -> (r: Self)
        ensures
            r == *self,
    {
        StatsSnapshot {
            label: self.label.clone(),
            bytes_sent: self.bytes_sent,
            bytes_received: self.bytes_received,
            active_connections: self.active_connections,
            rate_sent_bps: self.rate_sent_bps,
            rate_recv_bps: self.rate_recv_bps,
        }
    }
}

/// What a list of [`StatsSnapshot`] holds.
pub open spec fn snapshots(list: Seq<StatsSnapshot>) -> Seq<Snapshot> {
    list.map_values(|s: StatsSnapshot| s@)
}

impl ForwarderStats {
    /// Counters of a forwarder that has carried nothing.
    pub fn new(label: String) -> (r: Self)
        ensures
            r@ == Counters::fresh(label@),
            r.label@ == label@,
            r.bytes_sent == 0 && r.bytes_received == 0 && r.active_connections == 0,
            r.rate_sent_bps == 0 && r.rate_recv_bps == 0,
            r.last_sample_sent == 0 && r.last_sample_recv == 0,
    {
        ForwarderStats {
            label,
            bytes_sent: 0,
            bytes_received: 0,
            active_connections: 0,
            rate_sent_bps: 0,
            rate_recv_bps: 0,
            last_sample_sent: 0,
            last_sample_recv: 0,
        }
    }

    /// The name of the forwarder.
    pub fn label(&self) -> (r: &str)
        ensures
            r@ == self@.label,
            r@ == self.label@,
    {
        self.label.as_str()
    }

    /// Counts `n` bytes from the client to the remote side.
    pub fn add_sent(&mut self, n: u64)
        ensures
            final(self)@ == old(self)@.after(StatsEvent::Sent(n)),
            final(self).bytes_sent == (old(self).bytes_sent + n) % 0x1_0000_0000_0000_0000,
            *final(self) == (ForwarderStats { bytes_sent: final(self).bytes_sent, ..*old(self) }),
    {
        self.bytes_sent = self.bytes_sent.wrapping_add(n);
    }

    /// Counts `n` bytes from the remote side to the client.
    pub fn add_received(&mut self, n: u64)
        ensures
            final(self)@ == old(self)@.after(StatsEvent::Received(n)),
            final(self).bytes_received == (old(self).bytes_received + n)
                % 0x1_0000_0000_0000_0000,
            *final(self) == (ForwarderStats {
                bytes_received: final(self).bytes_received,
                ..*old(self)
            }),
    {
        self.bytes_received = self.bytes_received.wrapping_add(n);
    }

    /// Counts a connection that opens.
    pub fn inc_connections(&mut self)
        ensures
            final(self)@ == old(self)@.after(StatsEvent::Opened),
            final(self).active_connections == (old(self).active_connections + 1)
                % 0x1_0000_0000_0000_0000,
            *final(self) == (ForwarderStats {
                active_connections: final(self).active_connections,
                ..*old(self)
            }),
    {
        self.active_connections = self.active_connections.wrapping_add(1);
    }

    /// Counts a connection that closes.
    pub fn dec_connections(&mut self)
        ensures
            final(self)@ == old(self)@.after(StatsEvent::Closed),
            final(self).active_connections == (old(self).active_connections - 1)
                % 0x1_0000_0000_0000_0000,
            *final(self) == (ForwarderStats {
                active_connections: final(self).active_connections,
                ..*old(self)
            }),
    {
        self.active_connections = self.active_connections.wrapping_sub(1);
    }

    /// Reads all counters; resets none.
    pub fn snapshot(&self) -> (r: StatsSnapshot)
        ensures
            r@ == self@.snapshot(),
            r.label@ == self.label@,
            r.bytes_sent == self.bytes_sent,
            r.bytes_received == self.bytes_received,
            r.active_connections == self.active_connections,
            r.rate_sent_bps == self.rate_sent_bps,
            r.rate_recv_bps == self.rate_recv_bps,
    {
        StatsSnapshot {
            label: self.label.clone(),
            bytes_sent: self.bytes_sent,
            bytes_received: self.bytes_received,
            active_connections: self.active_connections,
            rate_sent_bps: self.rate_sent_bps,
            rate_recv_bps: self.rate_recv_bps,
        }
    }

    /// Derives the rates anew. `rate` computes a rate from the count at the previous sample,
    /// the count now, and the rate so far; the counts now become those of the previous sample.
    pub fn update_rate<F: Fn(u64, u64, u64) -> u64>(&mut self, rate: &F)
        requires
            forall|prev: u64, cur: u64, ewma: u64| call_requires(*rate, (prev, cur, ewma)),
        ensures
            sampled(*rate, old(self)@, final(self)@),
            call_ensures(
                *rate,
                (old(self).last_sample_sent, old(self).bytes_sent, old(self).rate_sent_bps),
                final(self).rate_sent_bps,
            ),
            call_ensures(
                *rate,
                (old(self).last_sample_recv, old(self).bytes_received, old(self).rate_recv_bps),
                final(self).rate_recv_bps,
            ),
            *final(self) == (ForwarderStats {
                rate_sent_bps: final(self).rate_sent_bps,
                rate_recv_bps: final(self).rate_recv_bps,
                last_sample_sent: old(self).bytes_sent,
                last_sample_recv: old(self).bytes_received,
                ..*old(self)
            }),
    {
        let cur_sent: u64 = self.bytes_sent;
        let cur_recv: u64 = self.bytes_received;
        let new_sent: u64 = rate(self.last_sample_sent, cur_sent, self.rate_sent_bps);
        let new_recv: u64 = rate(self.last_sample_recv, cur_recv, self.rate_recv_bps);
        self.last_sample_sent = cur_sent;
        self.last_sample_recv = cur_recv;
        self.rate_sent_bps = new_sent;
        self.rate_recv_bps = new_recv;
    }
}

/// Whether `after` are the counters `before` with rates that `rate` computes from the counts at
/// the previous sample, the counts now and the rates so far.
pub open spec fn sampled<F: Fn(u64, u64, u64) -> u64>(
    rate: F,
    before: Counters,
    after: Counters,
) -> bool {
    &&& after == before.after(StatsEvent::Sampled(after.rate_sent_bps, after.rate_recv_bps))
    &&& call_ensures(
        rate,
        (before.last_sample_sent, before.bytes_sent, before.rate_sent_bps),
        after.rate_sent_bps,
    )
    &&& call_ensures(
        rate,
        (before.last_sample_recv, before.bytes_received, before.rate_recv_bps),
        after.rate_recv_bps,
    )
}

/// Whether sampling all listed forwarders may turn `before` into `after`.
pub open spec fn sampled_entry<F: Fn(u64, u64, u64) -> u64>(
    rate: F,
    before: Registered,
    after: Registered,
) -> bool {
    &&& after.listed == before.listed
    &&& before.listed ==> sampled(rate, before.counters, after.counters)
    &&& !before.listed ==> after == before
}

/// Which counters of a [`StatsRegistry`] belong to a forwarder.
#[derive(Clone, Copy, Debug, PartialEq, Eq, Structural)]
pub struct StatsId {
    pub index: usize,
}

/// Counters in the registry.
#[derive(Debug)]
struct Slot {
    stats: ForwarderStats,
    listed: bool,
}

/// Counters that were registered, and whether their forwarder still runs.
#[verifier::ext_equal]
pub struct Registered {
    pub counters: Counters,
    pub listed: bool,
}

impl View for Slot {
    type V = Registered;

    closed spec fn view(&self) -> Registered {
        Registered { counters: self.stats@, listed: self.listed }
    }
}

/// Registry of the counters of all forwarders, in the order of their registration.
///
/// Counters of a forwarder that was removed are no longer listed, but connections that are
/// still open go on counting there.
#[derive(Debug)]
pub struct StatsRegistry {
    slots: Vec<Slot>,
}

impl View for StatsRegistry {
    type V = Seq<Registered>;

    closed spec fn view(&self) -> Seq<Registered> {
        self.slots@.map_values(|s: Slot| s@)
    }
}

/// The counters that are listed, in order.
pub open spec fn listed(all: Seq<Registered>) -> Seq<Counters>
    decreases all.len(),
{
    if all.len() == 0 {
        Seq::empty()
    } else if all.last().listed {
        listed(all.drop_last()).push(all.last().counters)
    } else {
        listed(all.drop_last())
    }
}

/// What is reported of a list of counters.
pub open spec fn reported(list: Seq<Counters>) -> Seq<Snapshot> {
    list.map_values(|c: Counters| c.snapshot())
}

/// The registry after a forwarder was registered.
pub open spec fn with_label(all: Seq<Registered>, label: Seq<char>) -> Seq<Registered> {
    all.push(Registered { counters: Counters::fresh(label), listed: true })
}

/// The registry after the forwarder `label` was removed.
pub open spec fn without_label(all: Seq<Registered>, label: Seq<char>) -> Seq<Registered> {
    all.map_values(
        |r: Registered| Registered { listed: r.listed && r.counters.label != label, ..r },
    )
}

impl StatsRegistry {
    /// An empty registry.
    pub fn new() -> (r: Self)
        ensures
            r@ == Seq::<Registered>::empty(),
    {
        let r = StatsRegistry { slots: Vec::new() };
        assert(r@ =~= Seq::<Registered>::empty());
        r
    }

    /// Registers a forwarder and tells which counters are its own.
    pub fn register(&mut self, label: &str) -> (r: StatsId)
        ensures
            r.index == old(self)@.len(),
            final(self)@ == with_label(old(self)@, label@),
    {
        let index: usize = self.slots.len();
        self.slots.push(Slot { stats: ForwarderStats::new(label.to_owned()), listed: true });
        assert(self@ =~= with_label(old(self)@, label@));
        StatsId { index }
    }

    /// Snapshots of all listed forwarders, in the order of their registration.
    pub fn collect(&self) -> (r: Vec<StatsSnapshot>)
        ensures
            snapshots(r@) == reported(listed(self@)),
    {
        let mut out: Vec<StatsSnapshot> = Vec::new();
        let mut i: usize = 0;
        assert(self@.take(0) =~= Seq::<Registered>::empty());
        assert(snapshots(out@) =~= reported(Seq::<Counters>::empty()));
        while i < self.slots.len()
            invariant
                i <= self.slots.len(),
                snapshots(out@) == reported(listed(self@.take(i as int))),
            decreases self.slots.len() - i,
        {
            let ghost before = out@;
            proof {
                assert(self@.take(i + 1).drop_last() =~= self@.take(i as int));
                assert(self@.take(i + 1).last() == self.slots@[i as int]@);
            }
            if self.slots[i].listed {
                let s = self.slots[i].stats.snapshot();
                out.push(s);
                assert(snapshots(out@) =~= snapshots(before).push(s@));
                assert(reported(listed(self@.take(i + 1))) =~= reported(
                    listed(self@.take(i as int)),
                ).push(s@));
            }
            i = i + 1;
        }
        assert(self@.take(i as int) =~= self@);
        out
    }

    /// Derives the rates of all listed forwarders anew, as [`ForwarderStats::update_rate`] does.
    pub fn sample_rates<F: Fn(u64, u64, u64) -> u64>(&mut self, rate: &F)
        requires
            forall|prev: u64, cur: u64, ewma: u64| call_requires(*rate, (prev, cur, ewma)),
        ensures
            final(self)@.len() == old(self)@.len(),
            forall|i: int|
                0 <= i < old(self)@.len() ==> sampled_entry(
                    *rate,
                    #[trigger] old(self)@[i],
                    final(self)@[i],
                ),
    {
        let ghost start = self@;
        let mut i: usize = 0;
        while i < self.slots.len()
            invariant
                i <= self.slots.len(),
                self.slots.len() == start.len(),
                forall|prev: u64, cur: u64, ewma: u64| call_requires(*rate, (prev, cur, ewma)),
                forall|j: int|
                    0 <= j < i ==> sampled_entry(*rate, start[j], #[trigger] self.slots@[j]@),
                forall|j: int| i <= j < start.len() ==> start[j] == #[trigger] self.slots@[j]@,
            decreases self.slots.len() - i,
        {
            let ghost mid = self.slots@;
            if self.slots[i].listed {
                self.slots[i].stats.update_rate(rate);
            }
            assert(sampled_entry(*rate, mid[i as int]@, self.slots@[i as int]@));
            assert(forall|j: int| 0 <= j < mid.len() && j != i ==> self.slots@[j] == mid[j]);
            i = i + 1;
        }
        assert forall|j: int| 0 <= j < start.len() implies sampled_entry(
            *rate,
            #[trigger] start[j],
            self@[j],
        ) by {
            assert(self@[j] == self.slots@[j]@);
        }
    }

    /// Takes the forwarder `label` off the list.
    pub fn remove(&mut self, label: &str)
        ensures
            final(self)@ == without_label(old(self)@, label@),
    {
        let ghost start = self@;
        let wanted = label.to_owned();
        let mut i: usize = 0;
        while i < self.slots.len()
            invariant
                i <= self.slots.len(),
                self.slots.len() == start.len(),
                wanted@ == label@,
                forall|j: int|
                    0 <= j < i ==> #[trigger] self.slots@[j]@ == without_label(start, label@)[j],
                forall|j: int| i <= j < start.len() ==> start[j] == #[trigger] self.slots@[j]@,
            decreases self.slots.len() - i,
        {
            let ghost mid = self.slots@;
            if self.slots[i].stats.label == wanted {
                self.slots[i].listed = false;
            }
            assert(start[i as int] == mid[i as int]@);
            assert(self.slots@[i as int]@ =~= without_label(start, label@)[i as int]);
            assert(forall|j: int| 0 <= j < mid.len() && j != i ==> self.slots@[j] == mid[j]);
            i = i + 1;
        }
        assert(self@ =~= without_label(start, label@));
    }

    /// The counters that `id` stands for.
    pub fn stats_mut(&mut self, id: StatsId) -> (r: Option<&mut ForwarderStats>)
        ensures
            match r {
                Some(stats) => {
                    &&& id.index < old(self)@.len()
                    &&& stats@ == old(self)@[id.index as int].counters
                    &&& final(self)@ == old(self)@.update(
                        id.index as int,
                        Registered {
                            counters: final(stats)@,
                            listed: old(self)@[id.index as int].listed,
                        },
                    )
                },
                None => id.index >= old(self)@.len() && final(self)@ == old(self)@,
            },
    {
        if id.index < self.slots.len() {
            Some(&mut self.slots[id.index].stats)
        } else {
            None
        }
    }
}

impl Default for StatsRegistry {
    fn default() -> (r: Self)
        ensures
            r@ == Seq::<Registered>::empty(),
    {
        StatsRegistry::new()
    }
}

/// The registry after an event at the forwarder that `id` stands for.
pub open spec fn counted(all: Seq<Registered>, id: StatsId, event: StatsEvent) -> Seq<Registered> {
    if id.index < all.len() {
        let entry = all[id.index as int];
        all.update(
            id.index as int,
            Registered { counters: entry.counters.after(event), ..entry },
        )
    } else {
        all
    }
}

/// What polling a stream once gave.
#[derive(Clone, Copy, Debug, PartialEq, Eq, Structural)]
pub enum PollOutcome {
    /// Nothing yet.
    Pending,
    /// An error.
    Failed,
    /// Success; for a read the bytes that the buffer then holds, for a write the bytes taken.
    Done(usize),
}

/// The bytes that a read delivered into a buffer that held `before` bytes.
pub open spec fn bytes_read(before: usize, outcome: PollOutcome) -> u64 {
    match outcome {
        PollOutcome::Done(after) => if after > before {
            (after - before) as u64
        } else {
            0
        },
        _ => 0,
    }
}

/// The bytes that a write took.
pub open spec fn bytes_written(outcome: PollOutcome) -> u64 {
    match outcome {
        PollOutcome::Done(n) => n as u64,
        _ => 0,
    }
}

/// The client's side of a connection, whose bytes are counted each time that it is polled, so
/// that the counts are right even where the connection ends with an error.
#[derive(Debug)]
pub struct CountingStream<S> {
    pub inner: S,
    pub stats: StatsId,
}

impl<S> CountingStream<S> {
    /// Counts the bytes of `inner` for the forwarder that `stats` stands for.
    pub fn new(inner: S, stats: StatsId) -> (r: Self)
        ensures
            r.inner == inner,
            r.stats == stats,
    {
        CountingStream { inner, stats }
    }

    /// Counts what a read delivered into a buffer that held `before` bytes: bytes from the
    /// client, hence sent to the remote side.
    pub fn note_read(&self, registry: &mut StatsRegistry, before: usize, outcome: PollOutcome)
        ensures
            final(registry)@ == counted(
                old(registry)@,
                self.stats,
                StatsEvent::Sent(bytes_read(before, outcome)),
            ),
    {
        let ghost start = registry@;
        if let PollOutcome::Done(after) = outcome {
            let n: usize = after.saturating_sub(before);
            if n > 0 {
                if let Some(stats) = registry.stats_mut(self.stats) {
                    stats.add_sent(n as u64);
                }
            }
        }
        assert(registry@ =~= counted(
            start,
            self.stats,
            StatsEvent::Sent(bytes_read(before, outcome)),
        ));
    }

    /// Counts what a write took: bytes to the client, hence received from the remote side.
    pub fn note_write(&self, registry: &mut StatsRegistry, outcome: PollOutcome)
        ensures
            final(registry)@ == counted(
                old(registry)@,
                self.stats,
                StatsEvent::Received(bytes_written(outcome)),
            ),
    {
        let ghost start = registry@;
        if let PollOutcome::Done(n) = outcome {
            if n > 0 {
                if let Some(stats) = registry.stats_mut(self.stats) {
                    stats.add_received(n as u64);
                }
            }
        }
        assert(registry@ =~= counted(
            start,
            self.stats,
            StatsEvent::Received(bytes_written(outcome)),
        ));
    }
}

impl Counters {
    /// The counters after a run of events.
    pub open spec fn after_all(self, events: Seq<StatsEvent>) -> Counters
        decreases events.len(),
    {
        if events.len() == 0 {
            self
        } else {
            self.after_all(events.drop_last()).after(events.last())
        }
    }
}

/// The bytes sent in a run of events.
pub open spec fn total_sent(events: Seq<StatsEvent>) -> nat
    decreases events.len(),
{
    if events.len() == 0 {
        0
    } else {
        total_sent(events.drop_last()) + (match events.last() {
            StatsEvent::Sent(n) => n as nat,
            _ => 0,
        })
    }
}

/// The bytes received in a run of events.
pub open spec fn total_received(events: Seq<StatsEvent>) -> nat
    decreases events.len(),
{
    if events.len() == 0 {
        0
    } else {
        total_received(events.drop_last()) + (match events.last() {
            StatsEvent::Received(n) => n as nat,
            _ => 0,
        })
    }
}

/// The connections opened less those closed in a run of events.
pub open spec fn net_connections(events: Seq<StatsEvent>) -> int
    decreases events.len(),
{
    if events.len() == 0 {
        0
    } else {
        net_connections(events.drop_last()) + (match events.last() {
            StatsEvent::Opened => 1int,
            StatsEvent::Closed => -1int,
            _ => 0int,
        })
    }
}

/// The byte counters are lifetime totals: whatever happens in between, and however often they
/// are sampled or read, they are what they were plus all bytes counted since. (Totals beyond
/// 64 bits are left out: there the counters start over.)
pub proof fn law_totals_are_lifetime_sums(c: Counters, events: Seq<StatsEvent>)
    requires
        c.bytes_sent + total_sent(events) <= u64::MAX,
        c.bytes_received + total_received(events) <= u64::MAX,
    ensures
        c.after_all(events).bytes_sent == c.bytes_sent + total_sent(events),
        c.after_all(events).bytes_received == c.bytes_received + total_received(events),
        c.after_all(events).label == c.label,
    decreases events.len(),
{
    if events.len() > 0 {
        law_totals_are_lifetime_sums(c, events.drop_last());
    }
}

/// The byte counters never fall. (Totals beyond 64 bits are left out.)
pub proof fn law_totals_never_fall(c: Counters, event: StatsEvent)
    requires
        event matches StatsEvent::Sent(n) ==> c.bytes_sent + n <= u64::MAX,
        event matches StatsEvent::Received(n) ==> c.bytes_received + n <= u64::MAX,
    ensures
        c.after(event).bytes_sent >= c.bytes_sent,
        c.after(event).bytes_received >= c.bytes_received,
{
}

/// The count of active connections is that of the connections opened and not yet closed.
pub proof fn law_active_connections(c: Counters, events: Seq<StatsEvent>)
    requires
        forall|k: int|
            0 <= k <= events.len() ==> 0 <= c.active_connections + #[trigger] net_connections(
                events.take(k),
            ) <= u64::MAX,
    ensures
        c.after_all(events).active_connections == c.active_connections + net_connections(events),
    decreases events.len(),
{
    assert(events.take(events.len() as int) =~= events);
    assert(0 <= c.active_connections + net_connections(events) <= u64::MAX);
    if events.len() > 0 {
        let front = events.drop_last();
        assert forall|k: int| 0 <= k <= front.len() implies 0 <= c.active_connections
            + #[trigger] net_connections(front.take(k)) <= u64::MAX by {
            assert(front.take(k) =~= events.take(k));
            assert(0 <= c.active_connections + net_connections(events.take(k)) <= u64::MAX);
        }
        law_active_connections(c, front);
    }
}

/// The registry after a run of events at the forwarder that `id` stands for.
pub open spec fn counted_all(
    all: Seq<Registered>,
    id: StatsId,
    events: Seq<StatsEvent>,
) -> Seq<Registered>
    decreases events.len(),
{
    if events.len() == 0 {
        all
    } else {
        counted(counted_all(all, id, events.drop_last()), id, events.last())
    }
}

/// Events that are counted one after the other add up in the counters of their forwarder, which
/// stay listed or not as they were; all other counters stay as they were.
pub proof fn law_counting_adds_up(all: Seq<Registered>, id: StatsId, events: Seq<StatsEvent>)
    requires
        id.index < all.len(),
    ensures
        counted_all(all, id, events) == all.update(
            id.index as int,
            Registered {
                counters: all[id.index as int].counters.after_all(events),
                listed: all[id.index as int].listed,
            },
        ),
    decreases events.len(),
{
    if events.len() > 0 {
        law_counting_adds_up(all, id, events.drop_last());
    }
    assert(counted_all(all, id, events) =~= all.update(
        id.index as int,
        Registered {
            counters: all[id.index as int].counters.after_all(events),
            listed: all[id.index as int].listed,
        },
    ));
}

/// A connection that opens and closes leaves every counter as it was.
pub proof fn law_open_then_close(c: Counters)
    ensures
        c.after(StatsEvent::Opened).after(StatsEvent::Closed) == c,
{
}

/// Sampling changes the rates only: totals and connections stay, and a second sample with no
/// traffic in between sees equal counts.
pub proof fn law_sampling_keeps_totals(c: Counters, sent: u64, recv: u64)
    ensures
        ({
            let after = c.after(StatsEvent::Sampled(sent, recv));
            &&& after.bytes_sent == c.bytes_sent
            &&& after.bytes_received == c.bytes_received
            &&& after.active_connections == c.active_connections
            &&& after.last_sample_sent == after.bytes_sent
            &&& after.last_sample_recv == after.bytes_received
            &&& after.rate_sent_bps == sent
            &&& after.rate_recv_bps == recv
            &&& after.label == c.label
        }),
{
}

/// A forwarder that is registered is listed last, with counters at zero; those listed before
/// are listed as they were.
pub proof fn law_register_lists(all: Seq<Registered>, label: Seq<char>)
    ensures
        listed(with_label(all, label)) == listed(all).push(Counters::fresh(label)),
{
    assert(with_label(all, label).drop_last() =~= all);
}

/// Removing a forwarder takes its label off the list and leaves the others as they were, in
/// their order; no counters change.
pub proof fn law_remove_unlists(all: Seq<Registered>, label: Seq<char>)
    ensures
        listed(without_label(all, label)) == listed(all).filter(|c: Counters| c.label != label),
        without_label(all, label).len() == all.len(),
        forall|i: int|
            0 <= i < all.len() ==> (#[trigger] without_label(all, label)[i]).counters
                == all[i].counters,
    decreases all.len(),
{
    reveal(Seq::filter);
    if all.len() > 0 {
        law_remove_unlists(all.drop_last(), label);
        assert(without_label(all, label).drop_last() =~= without_label(all.drop_last(), label));
        if all.last().listed {
            assert(listed(all).drop_last() =~= listed(all.drop_last()));
        }
    }
}

/// The counters show each field as it is.
pub proof fn law_counters_show_the_fields(s: ForwarderStats)
    ensures
        s@.label == s.label@,
        s@.bytes_sent == s.bytes_sent,
        s@.bytes_received == s.bytes_received,
        s@.active_connections == s.active_connections,
        s@.rate_sent_bps == s.rate_sent_bps,
        s@.rate_recv_bps == s.rate_recv_bps,
        s@.last_sample_sent == s.last_sample_sent,
        s@.last_sample_recv == s.last_sample_recv,
{
}

/// A snapshot shows each figure of the counters it was taken of, under their label.
pub proof fn law_snapshot_shows_the_counters(c: Counters, s: StatsSnapshot)
    ensures
        c.snapshot().label == c.label,
        c.snapshot().bytes_sent == c.bytes_sent,
        c.snapshot().bytes_received == c.bytes_received,
        c.snapshot().active_connections == c.active_connections,
        c.snapshot().rate_sent_bps == c.rate_sent_bps,
        c.snapshot().rate_recv_bps == c.rate_recv_bps,
        s@.label == s.label@,
        s@.bytes_sent == s.bytes_sent,
        s@.bytes_received == s.bytes_received,
        s@.active_connections == s.active_connections,
        s@.rate_sent_bps == s.rate_sent_bps,
        s@.rate_recv_bps == s.rate_recv_bps,
{
}

/// Counters of a forwarder that was just registered are all at zero.
pub proof fn law_fresh_counters(label: Seq<char>)
    ensures
        Counters::fresh(label).label == label,
        Counters::fresh(label).bytes_sent == 0,
        Counters::fresh(label).bytes_received == 0,
        Counters::fresh(label).active_connections == 0,
        Counters::fresh(label).rate_sent_bps == 0,
        Counters::fresh(label).rate_recv_bps == 0,
        Counters::fresh(label).last_sample_sent == 0,
        Counters::fresh(label).last_sample_recv == 0,
{
}

/// Each event moves the one counter it is about by its own amount, modulo 2^64, and no other.
pub proof fn law_events_move_their_counter(c: Counters, n: u64)
    ensures
        c.after(StatsEvent::Sent(n)) == (Counters {
            bytes_sent: ((c.bytes_sent + n) % 0x1_0000_0000_0000_0000) as u64,
            ..c
        }),
        c.after(StatsEvent::Received(n)) == (Counters {
            bytes_received: ((c.bytes_received + n) % 0x1_0000_0000_0000_0000) as u64,
            ..c
        }),
        c.after(StatsEvent::Opened) == (Counters {
            active_connections: ((c.active_connections + 1) % 0x1_0000_0000_0000_0000) as u64,
            ..c
        }),
        c.after(StatsEvent::Closed) == (Counters {
            active_connections: ((c.active_connections - 1) % 0x1_0000_0000_0000_0000) as u64,
            ..c
        }),
{
}

/// Events that follow one another act one after the other.
pub proof fn law_events_in_turn(c: Counters, first: Seq<StatsEvent>, then: Seq<StatsEvent>)
    ensures
        c.after_all(first + then) == c.after_all(first).after_all(then),
        then.len() == 1 ==> c.after_all(then) == c.after(then[0]),
        c.after_all(Seq::empty()) == c,
    decreases then.len(),
{
    reveal_with_fuel(Counters::after_all, 2);
    if then.len() > 0 {
        law_events_in_turn(c, first, then.drop_last());
        assert((first + then).drop_last() =~= first + then.drop_last());
    } else {
        assert(first + then =~= first);
    }
}

/// Totals of a run of events: those of its parts; a single event counts its own amount in its own
/// total, and nothing in the others.
pub proof fn law_totals_of_runs(first: Seq<StatsEvent>, then: Seq<StatsEvent>, n: u64)
    ensures
        total_sent(first + then) == total_sent(first) + total_sent(then),
        total_received(first + then) == total_received(first) + total_received(then),
        net_connections(first + then) == net_connections(first) + net_connections(then),
        total_sent(seq![StatsEvent::Sent(n)]) == n,
        total_sent(seq![StatsEvent::Received(n)]) == 0,
        total_sent(seq![StatsEvent::Opened]) == 0,
        total_sent(seq![StatsEvent::Closed]) == 0,
        total_sent(seq![StatsEvent::Sampled(n, n)]) == 0,
        total_received(seq![StatsEvent::Received(n)]) == n,
        total_received(seq![StatsEvent::Sent(n)]) == 0,
        total_received(seq![StatsEvent::Opened]) == 0,
        total_received(seq![StatsEvent::Closed]) == 0,
        total_received(seq![StatsEvent::Sampled(n, n)]) == 0,
        net_connections(seq![StatsEvent::Opened]) == 1,
        net_connections(seq![StatsEvent::Closed]) == -1,
        net_connections(seq![StatsEvent::Sent(n)]) == 0,
        net_connections(seq![StatsEvent::Received(n)]) == 0,
        net_connections(seq![StatsEvent::Sampled(n, n)]) == 0,
    decreases then.len(),
{
    reveal_with_fuel(total_sent, 2);
    reveal_with_fuel(total_received, 2);
    reveal_with_fuel(net_connections, 2);
    if then.len() > 0 {
        law_totals_of_runs(first, then.drop_last(), n);
        assert((first + then).drop_last() =~= first + then.drop_last());
    } else {
        assert(first + then =~= first);
    }
}

/// A sample hands the rate function, for each direction, the count at the previous sample, the
/// count now and the rate so far; it stores the results and the counts now, and changes nothing
/// else.
pub proof fn law_what_a_sample_does<F: Fn(u64, u64, u64) -> u64>(
    rate: F,
    before: Counters,
    after: Counters,
)
    requires
        sampled(rate, before, after),
    ensures
        call_ensures(
            rate,
            (before.last_sample_sent, before.bytes_sent, before.rate_sent_bps),
            after.rate_sent_bps,
        ),
        call_ensures(
            rate,
            (before.last_sample_recv, before.bytes_received, before.rate_recv_bps),
            after.rate_recv_bps,
        ),
        after.last_sample_sent == before.bytes_sent,
        after.last_sample_recv == before.bytes_received,
        after.bytes_sent == before.bytes_sent,
        after.bytes_received == before.bytes_received,
        after.active_connections == before.active_connections,
        after.label == before.label,
{
}

/// Whether no sample is among the events.
spec fn no_sample(events: Seq<StatsEvent>) -> bool {
    forall|i: int| 0 <= i < events.len() ==> !(#[trigger] events[i] is Sampled)
}

/// Of two samples with traffic in between, the second hands the rate function the counts of the
/// first one as the previous counts, the counts now, and the rates that the first one gave. With
/// no traffic in between the two counts are equal, so that an idle link is seen as idle.
pub proof fn law_the_next_sample_starts_at_the_last<F: Fn(u64, u64, u64) -> u64>(
    rate: F,
    first: Counters,
    sampled_first: Counters,
    events: Seq<StatsEvent>,
    sampled_next: Counters,
)
    requires
        sampled(rate, first, sampled_first),
        forall|i: int| 0 <= i < events.len() ==> !(#[trigger] events[i] is Sampled),
        sampled(rate, sampled_first.after_all(events), sampled_next),
    ensures
        ({
            let now = sampled_first.after_all(events);
            &&& call_ensures(
                rate,
                (first.bytes_sent, now.bytes_sent, sampled_first.rate_sent_bps),
                sampled_next.rate_sent_bps,
            )
            &&& call_ensures(
                rate,
                (first.bytes_received, now.bytes_received, sampled_first.rate_recv_bps),
                sampled_next.rate_recv_bps,
            )
            &&& total_sent(events) == 0 ==> now.bytes_sent == first.bytes_sent
            &&& total_received(events) == 0 ==> now.bytes_received == first.bytes_received
        }),
{
    lemma_traffic_keeps_samples(sampled_first, events);
    if total_sent(events) == 0 || total_received(events) == 0 {
        lemma_idle(sampled_first, events);
    }
}

proof fn lemma_traffic_keeps_samples(c: Counters, events: Seq<StatsEvent>)
    requires
        no_sample(events),
    ensures
        c.after_all(events).last_sample_sent == c.last_sample_sent,
        c.after_all(events).last_sample_recv == c.last_sample_recv,
        c.after_all(events).rate_sent_bps == c.rate_sent_bps,
        c.after_all(events).rate_recv_bps == c.rate_recv_bps,
    decreases events.len(),
{
    if events.len() > 0 {
        assert forall|i: int| 0 <= i < events.drop_last().len() implies !(
        #[trigger] events.drop_last()[i] is Sampled) by {
            assert(!(events[i] is Sampled));
        }
        lemma_traffic_keeps_samples(c, events.drop_last());
        assert(!(events[events.len() - 1] is Sampled));
    }
}

proof fn lemma_idle(c: Counters, events: Seq<StatsEvent>)
    ensures
        total_sent(events) == 0 ==> c.after_all(events).bytes_sent == c.bytes_sent,
        total_received(events) == 0 ==> c.after_all(events).bytes_received == c.bytes_received,
    decreases events.len(),
{
    if events.len() > 0 {
        lemma_idle(c, events.drop_last());
    }
}

/// Sampling the registry samples each listed forwarder and leaves the others alone.
pub proof fn law_what_sampling_all_does<F: Fn(u64, u64, u64) -> u64>(
    rate: F,
    before: Registered,
    after: Registered,
)
    requires
        sampled_entry(rate, before, after),
    ensures
        after.listed == before.listed,
        after.counters.label == before.counters.label,
        after.counters.bytes_sent == before.counters.bytes_sent,
        after.counters.bytes_received == before.counters.bytes_received,
        after.counters.active_connections == before.counters.active_connections,
        !before.listed ==> after.counters == before.counters,
        before.listed ==> sampled(rate, before.counters, after.counters),
{
}

/// What is listed are the counters marked so, in the order of their registration.
pub proof fn law_listed(all: Seq<Registered>)
    ensures
        listed(all) == all.filter(|r: Registered| r.listed).map_values(
            |r: Registered| r.counters,
        ),
    decreases all.len(),
{
    reveal(Seq::filter);
    let mark = |r: Registered| r.listed;
    let show = |r: Registered| r.counters;
    if all.len() > 0 {
        law_listed(all.drop_last());
        if all.last().listed {
            assert(all.filter(mark).map_values(show) =~= all.drop_last().filter(mark).map_values(
                show,
            ).push(all.last().counters));
        }
    } else {
        assert(all.filter(mark).map_values(show) =~= listed(all));
    }
}

/// What is reported are snapshots of all the counters, in their order.
pub proof fn law_reported(list: Seq<Counters>, snaps: Seq<StatsSnapshot>, i: int)
    requires
        snapshots(snaps) == reported(list),
    ensures
        snaps.len() == list.len(),
        0 <= i < snaps.len() ==> snaps[i].label@ == list[i].label && snaps[i].bytes_sent
            == list[i].bytes_sent && snaps[i].bytes_received == list[i].bytes_received
            && snaps[i].active_connections == list[i].active_connections
            && snaps[i].rate_sent_bps == list[i].rate_sent_bps && snaps[i].rate_recv_bps
            == list[i].rate_recv_bps,
{
    assert(snapshots(snaps).len() == snaps.len());
    assert(reported(list).len() == list.len());
    if 0 <= i < snaps.len() {
        assert(snapshots(snaps)[i] == snaps[i]@);
        assert(reported(list)[i] == list[i].snapshot());
    }
}

/// Registering adds one entry at the end, listed, with counters at zero; removing marks the entries
/// of that label, and no others, as not listed.
pub proof fn law_register_and_remove(all: Seq<Registered>, label: Seq<char>, i: int)
    ensures
        with_label(all, label).len() == all.len() + 1,
        with_label(all, label)[all.len() as int].listed,
        with_label(all, label)[all.len() as int].counters == Counters::fresh(label),
        0 <= i < all.len() ==> with_label(all, label)[i] == all[i],
        without_label(all, label).len() == all.len(),
        0 <= i < all.len() ==> without_label(all, label)[i].counters == all[i].counters,
        0 <= i < all.len() ==> without_label(all, label)[i].listed == (all[i].listed
            && all[i].counters.label != label),
{
}

/// An event is counted at its own forwarder alone.
pub proof fn law_counted_at_one_forwarder(
    all: Seq<Registered>,
    id: StatsId,
    event: StatsEvent,
    i: int,
)
    requires
        0 <= i < all.len(),
    ensures
        counted(all, id, event).len() == all.len(),
        counted(all, id, event)[i].listed == all[i].listed,
        counted(all, id, event)[i].counters == (if i == id.index {
            all[i].counters.after(event)
        } else {
            all[i].counters
        }),
{
}

/// A read counts the bytes by which it filled the buffer up, a write those that were taken, and
/// neither counts anything while it waits or when it fails.
pub proof fn law_bytes_of_a_poll(before: usize, n: usize)
    ensures
        before <= n ==> before + bytes_read(before, PollOutcome::Done(n)) == n,
        before >= n ==> bytes_read(before, PollOutcome::Done(n)) == 0,
        bytes_read(before, PollOutcome::Pending) == 0,
        bytes_read(before, PollOutcome::Failed) == 0,
        bytes_written(PollOutcome::Done(n)) == n,
        bytes_written(PollOutcome::Pending) == 0,
        bytes_written(PollOutcome::Failed) == 0,
{
}

} // verus!
