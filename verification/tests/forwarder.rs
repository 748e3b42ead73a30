use std::cell::RefCell;
use std::rc::Rc;

use rfw::forwarder::{
    data_path, Attempt, ConnGuard, DataPath, DialStep, Dialer, Direction, ListenAction,
    ListenEvent, ListenLoop, Lookup, Pump, PumpStep,
};
use rfw::settings::{RuntimeKnobs, Settings};
use rfw::stats::{CountingStream, PollOutcome, StatsId, StatsRegistry};

/// A connection that closes its guard when it is dropped, beside others at the same counters.
struct Open {
    registry: Rc<RefCell<StatsRegistry>>,
    guard: Option<ConnGuard>,
}

impl Open {
    fn new(registry: &Rc<RefCell<StatsRegistry>>, stats: StatsId) -> Self {
        let guard = ConnGuard::new(&mut registry.borrow_mut(), stats);
        Open {
            registry: registry.clone(),
            guard: Some(guard),
        }
    }
}

impl Drop for Open {
    fn drop(&mut self) {
        if let Some(guard) = self.guard.take() {
            guard.close(&mut self.registry.borrow_mut());
        }
    }
}

fn active(registry: &Rc<RefCell<StatsRegistry>>) -> u64 {
    registry.borrow().collect()[0].active_connections
}

#[test]
fn conn_guard_decrements_on_drop() {
    let registry = Rc::new(RefCell::new(StatsRegistry::new()));
    let id = registry.borrow_mut().register("t");
    {
        let _g = Open::new(&registry, id);
        assert_eq!(active(&registry), 1);
    }
    assert_eq!(active(&registry), 0);
}

#[test]
fn guards_overlap_in_any_order() {
    let registry = Rc::new(RefCell::new(StatsRegistry::new()));
    let id = registry.borrow_mut().register("t");
    registry.borrow_mut().stats_mut(id).unwrap().add_sent(7);
    let a = Open::new(&registry, id);
    let b = Open::new(&registry, id);
    assert_eq!(active(&registry), 2);
    drop(a);
    assert_eq!(active(&registry), 1);
    let c = Open::new(&registry, id);
    let d = Open::new(&registry, id);
    assert_eq!(active(&registry), 3);
    registry.borrow_mut().stats_mut(id).unwrap().add_received(9);
    drop(c);
    drop(b);
    assert_eq!(active(&registry), 1);
    drop(d);
    assert_eq!(active(&registry), 0);
    assert_eq!(registry.borrow().collect()[0].bytes_sent, 7);
    assert_eq!(registry.borrow().collect()[0].bytes_received, 9);
    // Counters that do not exist are counted nowhere.
    let nowhere = Open::new(&registry, StatsId { index: 5 });
    assert_eq!(active(&registry), 0);
    drop(nowhere);
    assert_eq!(active(&registry), 0);
}

#[test]
fn a_forwarder_binds_with_retries_and_then_accepts() {
    let mut settings = Settings::default();
    let mut knobs = RuntimeKnobs::from_settings(&settings);
    let mut listen = ListenLoop::new();
    assert_eq!(listen.action(), ListenAction::Bind);
    assert_eq!(listen.on_event(ListenEvent::BindFailed, &knobs), None);
    assert_eq!(listen.action(), ListenAction::Wait(5));
    assert_eq!(listen.on_event(ListenEvent::Waited, &knobs), None);
    assert_eq!(listen.action(), ListenAction::Bind);
    assert_eq!(listen.on_event(ListenEvent::Bound, &knobs), None);
    assert_eq!(listen.action(), ListenAction::Accept);

    let first = listen.on_event(ListenEvent::Accepted, &knobs).unwrap();
    assert_eq!(first.buffer_bytes, 65536);
    assert_eq!(listen.action(), ListenAction::Accept);
    settings.buffer_bytes = 1024;
    settings.use_splice = true;
    knobs.update(&settings);
    let second = listen.on_event(ListenEvent::Accepted, &knobs).unwrap();
    assert_eq!(second.buffer_bytes, 1024);
    assert!(second.use_splice);
    assert_eq!(first.buffer_bytes, 65536);
    assert!(!first.use_splice);

    assert_eq!(listen.on_event(ListenEvent::AcceptFailed, &knobs), None);
    assert_eq!(listen.action(), ListenAction::Wait(1));
    assert_eq!(listen.on_event(ListenEvent::Waited, &knobs), None);
    assert_eq!(listen.action(), ListenAction::Accept);
}

#[test]
fn a_cancelled_forwarder_stops_for_good() {
    let knobs = RuntimeKnobs::from_settings(&Settings::default());
    let ways: [&[ListenEvent]; 4] = [
        &[],
        &[ListenEvent::BindFailed],
        &[ListenEvent::Bound],
        &[ListenEvent::Bound, ListenEvent::AcceptFailed],
    ];
    for way in ways {
        let mut listen = ListenLoop::new();
        for event in way {
            listen.on_event(*event, &knobs);
        }
        assert_ne!(listen.action(), ListenAction::Stop);
        listen.on_event(ListenEvent::Cancelled, &knobs);
        assert_eq!(listen.action(), ListenAction::Stop);
        assert_eq!(listen.on_event(ListenEvent::Accepted, &knobs), None);
        listen.on_event(ListenEvent::Waited, &knobs);
        assert_eq!(listen.action(), ListenAction::Stop);
    }
}

fn found(addrs: &[&str]) -> Lookup {
    Lookup::Found(addrs.iter().map(|a| a.to_string()).collect())
}

fn give_up(step: DialStep) -> String {
    match step {
        DialStep::GiveUp(text) => text,
        _ => panic!("nothing is left to try"),
    }
}

#[test]
fn the_first_address_that_accepts_is_used() {
    let mut dialer = Dialer::start("h", found(&["1.1.1.1:80", "2.2.2.2:80", "3.3.3.3:80"])).unwrap();
    assert!(matches!(dialer.step(), DialStep::Connect(0)));
    dialer.on_attempt(Attempt::Failed("refused".to_string()));
    assert!(matches!(dialer.step(), DialStep::Connect(1)));
    dialer.on_attempt(Attempt::Connected);
    assert!(matches!(dialer.step(), DialStep::Connected(1)));
    dialer.on_attempt(Attempt::TimedOut);
    assert!(matches!(dialer.step(), DialStep::Connected(1)));
}

#[test]
fn the_last_error_is_reported_when_no_address_accepts() {
    let mut dialer = Dialer::start("h", found(&["1.1.1.1:80", "[::1]:80"])).unwrap();
    dialer.on_attempt(Attempt::TimedOut);
    dialer.on_attempt(Attempt::Failed("refused".to_string()));
    assert_eq!(give_up(dialer.step()), "connect [::1]:80: refused");

    let mut dialer = Dialer::start("h", found(&["1.1.1.1:80", "2.2.2.2:80"])).unwrap();
    dialer.on_attempt(Attempt::Failed("refused".to_string()));
    dialer.on_attempt(Attempt::TimedOut);
    assert_eq!(give_up(dialer.step()), "connect timeout to 2.2.2.2:80");

    let dialer = Dialer::start("host.example", found(&[])).unwrap();
    assert_eq!(give_up(dialer.step()), "No DNS records for host.example");
}

#[test]
fn a_host_that_is_not_resolved_is_an_error() {
    assert_eq!(
        Dialer::start("host.example", Lookup::TimedOut).unwrap_err(),
        "DNS lookup timeout for host.example"
    );
    assert_eq!(
        Dialer::start("h", Lookup::Failed("no such host".to_string())).unwrap_err(),
        "no such host"
    );
}

#[test]
fn splice_is_for_linux_only() {
    let mut settings = Settings::default();
    settings.buffer_bytes = 777;
    let plain = RuntimeKnobs::from_settings(&settings).snapshot();
    settings.use_splice = true;
    let splice = RuntimeKnobs::from_settings(&settings).snapshot();
    assert_eq!(data_path(plain, true), DataPath::Copy(777));
    assert_eq!(data_path(plain, false), DataPath::Copy(777));
    assert_eq!(data_path(splice, true), DataPath::Splice(777));
    assert_eq!(data_path(splice, false), DataPath::Copy(777));
}

#[test]
fn a_pump_writes_all_that_it_read_before_it_reads_more() {
    let mut registry = StatsRegistry::new();
    let id = registry.register("t");
    let mut pump = Pump::new(Direction::ClientToRemote, id, 64);
    assert_eq!(pump.step(), PumpStep::Read(64));
    pump.on_read(50, &mut registry);
    assert_eq!(pump.step(), PumpStep::Write(50));
    pump.on_write(20);
    assert_eq!(pump.step(), PumpStep::Write(30));
    pump.on_write(30);
    assert_eq!(pump.step(), PumpStep::Read(64));
    pump.on_read(64, &mut registry);
    pump.on_write(0); // the destination takes no more
    assert_eq!(pump.step(), PumpStep::Read(64));
    pump.on_read(0, &mut registry);
    assert_eq!(pump.step(), PumpStep::HalfClose);
    assert_eq!(registry.collect()[0].bytes_sent, 114);
    assert_eq!(registry.collect()[0].bytes_received, 0);

    let mut back = Pump::new(Direction::RemoteToClient, id, 0);
    assert_eq!(back.step(), PumpStep::Read(1));
    back.on_read(1, &mut registry);
    assert_eq!(registry.collect()[0].bytes_received, 1);
    assert_eq!(registry.collect()[0].bytes_sent, 114);
}

#[test]
fn both_data_paths_count_the_same() {
    let mut registry = StatsRegistry::new();
    let copied = registry.register("copy");
    let spliced = registry.register("splice");
    let stream = CountingStream::new((), copied);
    let mut there = Pump::new(Direction::ClientToRemote, spliced, 16);
    let mut back = Pump::new(Direction::RemoteToClient, spliced, 16);
    for n in [1, 16, 9] {
        stream.note_read(&mut registry, 0, PollOutcome::Done(n));
        stream.note_write(&mut registry, PollOutcome::Done(n + 1));
        there.on_read(n, &mut registry);
        there.on_write(n);
        back.on_read(n + 1, &mut registry);
        back.on_write(n + 1);
    }
    let snaps = registry.collect();
    assert_eq!(snaps[0].bytes_sent, 26);
    assert_eq!(snaps[1].bytes_sent, 26);
    assert_eq!(snaps[0].bytes_received, 29);
    assert_eq!(snaps[1].bytes_received, 29);
}
