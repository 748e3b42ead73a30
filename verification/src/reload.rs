//! Hot reload: which file events count, and what a changed configuration file changes.
use vstd::prelude::*;

use crate::manager::{ForwarderManager, Synced};
use crate::settings::RuntimeKnobs;
use crate::sources::{load_settings_from_file, ConfigRead};

verus! {

/// Events within this many nanoseconds of the last reload are ignored.
pub const DEBOUNCE_NANOS: u128 = 1_000_000_000;

/// Milliseconds between an event and the reload, in which the file is written to its end.
pub const SETTLE_MILLIS: u64 = 200;

/// What a file event says.
#[derive(Clone, Copy, Debug, PartialEq, Eq, Structural)]
pub enum ChangeKind {
    /// Something unknown.
    Any,
    /// The file was looked at.
    Access,
    /// The file came into being.
    Create,
    /// The file was changed.
    Modify,
    /// The file went away.
    Remove,
    /// Something else.
    Other,
}

impl ChangeKind {
    /// Whether the contents of the file may have changed.
    pub open spec fn relevant(self) -> bool {
        self is Create || self is Modify || self is Remove
    }

    /// Whether the contents of the file may have changed.
    pub fn is_relevant(self) -> (r: bool)
        ensures
            r == self.relevant(),
    {
        match self {
            ChangeKind::Create => true,
            ChangeKind::Modify => true,
            ChangeKind::Remove => true,
            _ => false,
        }
    }
}

/// Decides which file events lead to a reload. Times are nanoseconds on a clock that never goes
/// back.
#[derive(Debug)]
pub struct ConfigWatcher {
    last_reload: u128,
}

/// Whether an event at `now` comes too soon after a reload at `last`.
pub open spec fn too_soon(last: u128, now: u128) -> bool {
    now < last + DEBOUNCE_NANOS
}

impl ConfigWatcher {
    /// When the last reload began, or else the watch.
    pub closed spec fn last_reload(self) -> u128 {
        self.last_reload
    }

    /// A watcher that begins to watch now.
    pub fn new(now: u128) -> (r: Self)
        ensures
            r.last_reload() == now,
    {
        ConfigWatcher { last_reload: now }
    }

    /// Takes note of an event; tells whether the configuration is to be loaded again.
    /// `path_matches` says whether the event is about the configuration file.
    pub fn on_event(&mut self, now: u128, kind: ChangeKind, path_matches: bool) -> (r: bool)
        ensures
            r == (!too_soon(old(self).last_reload(), now) && kind.relevant() && path_matches),
            r <==> path_matches && (kind is Create || kind is Modify || kind is Remove) && now
                - old(self).last_reload() >= 1_000_000_000,
            final(self).last_reload() == (if r {
                now
            } else {
                old(self).last_reload()
            }),
    {
        if now < self.last_reload || now - self.last_reload < DEBOUNCE_NANOS {
            return false;
        }
        if !kind.is_relevant() || !path_matches {
            return false;
        }
        self.last_reload = now;
        true
    }
}

/// A file event.
pub struct FileEvent {
    pub now: u128,
    pub kind: ChangeKind,
    pub path_matches: bool,
}

/// The times of the reloads that a run of events leads to, when the last reload was at `last`.
pub open spec fn reloads(last: u128, events: Seq<FileEvent>) -> Seq<u128>
    decreases events.len(),
{
    if events.len() == 0 {
        Seq::empty()
    } else {
        let before = reloads(last, events.drop_last());
        let e = events.last();
        let latest = if before.len() == 0 {
            last
        } else {
            before.last()
        };
        if !too_soon(latest, e.now) && e.kind.relevant() && e.path_matches {
            before.push(e.now)
        } else {
            before
        }
    }
}

/// However many events there are, a second passes from one reload to the next, and before the
/// first one.
pub proof fn law_reloads_are_apart(last: u128, events: Seq<FileEvent>)
    ensures
        reloads(last, events).len() > 0 ==> reloads(last, events)[0] >= last + DEBOUNCE_NANOS,
        forall|i: int, j: int|
            0 <= i < j < reloads(last, events).len() ==> #[trigger] reloads(last, events)[j]
                >= #[trigger] reloads(last, events)[i] + DEBOUNCE_NANOS,
    decreases events.len(),
{
    if events.len() > 0 {
        let front = events.drop_last();
        let before = reloads(last, front);
        law_reloads_are_apart(last, front);
        let all = reloads(last, events);
        assert forall|i: int, j: int| 0 <= i < j < all.len() implies #[trigger] all[j]
            >= #[trigger] all[i] + DEBOUNCE_NANOS by {
            if j < before.len() {
                assert(before[j] >= before[i] + DEBOUNCE_NANOS);
            } else if i < before.len() - 1 {
                assert(before[before.len() - 1] >= before[i] + DEBOUNCE_NANOS);
            }
        }
    }
}

/// Applies a configuration file that was read again: new connections use its data-plane knobs,
/// and its forwarders are followed. A file that gives no configuration changes nothing.
pub fn apply_reload<E>(
    manager: &mut ForwarderManager,
    knobs: &mut RuntimeKnobs,
    read: ConfigRead<E>,
) -> (r: Result<Synced, E>)
    requires
        old(manager).wf(),
    ensures
        final(manager).wf(),
        match read {
            ConfigRead::Unreadable(e) => {
                &&& r == Err::<Synced, E>(e)
                &&& final(manager)@ == old(manager)@
                &&& final(knobs)@ == old(knobs)@
            },
            ConfigRead::Unparsable(e) => {
                &&& r == Err::<Synced, E>(e)
                &&& final(manager)@ == old(manager)@
                &&& final(knobs)@ == old(knobs)@
            },
            ConfigRead::Parsed(file) => {
                let configs = crate::config::forwarders(file.forwarders@);
                &&& r is Ok
                &&& final(knobs)@ == crate::settings::knobs_of(file.settings@)
                &&& crate::manager::stopped_are(
                    r->Ok_0.stopped@,
                    old(manager)@.undesired(configs),
                )
                &&& crate::manager::started_configs(r->Ok_0.started@)
                    == crate::manager::newcomers(
                    crate::manager::labels(old(manager)@.running),
                    configs,
                )
                &&& forall|i: int|
                    0 <= i < r->Ok_0.started@.len() ==> (
                    #[trigger] r->Ok_0.started@[i]).stats.index == old(manager)@.registry.len() + i
                &&& final(manager)@ == crate::manager::synced(
                    old(manager)@,
                    configs,
                    r->Ok_0.started@,
                )
            },
        },
{
    let settings = load_settings_from_file(&read);
    match read {
        ConfigRead::Unreadable(e) => Err(e),
        ConfigRead::Unparsable(e) => Err(e),
        ConfigRead::Parsed(file) => {
            knobs.update(&settings);
            Ok(manager.sync(file.forwarders.as_slice()))
        },
    }
}

/// Only what comes within a second of the last reload, or before it, comes too soon: whatever
/// comes a second later or at any time after that does not.
pub proof fn law_too_soon(last: u128, now: u128)
    ensures
        too_soon(last, now) <==> now - last < 1_000_000_000,
        DEBOUNCE_NANOS == 1_000_000_000,
        SETTLE_MILLIS == 200,
{
}

/// Events that create, change or remove the file count, and no others.
pub proof fn law_relevant(kind: ChangeKind)
    ensures
        kind.relevant() <==> kind == ChangeKind::Create || kind == ChangeKind::Modify || kind
            == ChangeKind::Remove,
{
}

/// Every event about the file that creates, changes or removes it, and comes a second or more after
/// the last reload (or the start of the watch), leads to a reload at its time, however late it
/// comes and whatever came before; any other event leads to none.
pub proof fn law_due_events_lead_to_reloads(last: u128, before: Seq<FileEvent>, e: FileEvent)
    ensures
        ({
            let so_far = reloads(last, before);
            let latest = if so_far.len() == 0 {
                last
            } else {
                so_far[so_far.len() - 1]
            };
            let due = e.path_matches && (e.kind is Create || e.kind is Modify || e.kind is Remove)
                && e.now - latest >= 1_000_000_000;
            &&& due ==> reloads(last, before.push(e)) == so_far.push(e.now)
            &&& !due ==> reloads(last, before.push(e)) == so_far
        }),
        reloads(last, Seq::empty()) == Seq::<u128>::empty(),
{
    assert(before.push(e).drop_last() =~= before);
}

/// A change of the file begins a reload itself, or comes less than a second after one began (or
/// after the start of the watch).
pub proof fn law_a_change_is_close_to_a_reload(last: u128, events: Seq<FileEvent>)
    requires
        events.len() > 0,
        events.last().path_matches,
        events.last().kind is Create || events.last().kind is Modify || events.last().kind
            is Remove,
    ensures
        reloads(last, events).len() == 0 ==> events.last().now - last < 1_000_000_000,
        reloads(last, events).len() > 0 ==> events.last().now - reloads(last, events)[reloads(
            last,
            events,
        ).len() - 1] < 1_000_000_000,
{
    let front = events.drop_last();
    assert(front.push(events.last()) =~= events);
    law_due_events_lead_to_reloads(last, front, events.last());
}

} // verus!
