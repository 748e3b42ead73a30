use rfw::config::ForwarderConfig;
use rfw::forwarder::{Direction, Pump, PumpStep};
use rfw::manager::{ForwarderManager, Started, Stopped};
use rfw::reload::{apply_reload, ChangeKind, ConfigWatcher};
use rfw::settings::{RuntimeKnobs, Settings};
use rfw::sources::{ConfigFile, ConfigRead};
use rfw::stats::{CountingStream, PollOutcome};

fn forwarder(name: &str) -> ForwarderConfig {
    ForwarderConfig {
        local_host: name.to_string(),
        local_port: 1,
        remote_host: "r".to_string(),
        remote_port: 2,
    }
}

fn forwarders(names: &[&str]) -> Vec<ForwarderConfig> {
    names.iter().map(|n| forwarder(n)).collect()
}

fn label(name: &str) -> String {
    format!("{name}:1->r:2")
}

fn labels(names: &[&str]) -> Vec<String> {
    names.iter().map(|n| label(n)).collect()
}

fn started(list: &[Started]) -> Vec<String> {
    list.iter().map(|s| s.config.label()).collect()
}

fn stopped(list: &[Stopped]) -> Vec<String> {
    list.iter().map(|s| s.label.clone()).collect()
}

fn listed(manager: &ForwarderManager) -> Vec<String> {
    manager
        .stats_registry()
        .collect()
        .into_iter()
        .map(|s| s.label)
        .collect()
}

#[test]
fn each_label_runs_once() {
    let mut manager = ForwarderManager::default();
    assert!(manager.running_labels().is_empty());
    let first = manager.start_one(&forwarder("a")).unwrap();
    assert!(manager.start_one(&forwarder("a")).is_none());
    let second = manager.start_one(&forwarder("b")).unwrap();
    assert_eq!(manager.running_labels(), labels(&["a", "b"]));
    assert_eq!(listed(&manager), labels(&["a", "b"]));
    assert_ne!(first.stats, second.stats);
    assert!(!first.token.is_cancelled());
    assert!(!second.token.is_cancelled());
}

#[test]
fn stopping_cancels_the_token_that_was_handed_out() {
    let mut manager = ForwarderManager::new();
    let all = manager.start_all(&forwarders(&["a", "b", "a"]));
    assert_eq!(started(&all), labels(&["a", "b"]));
    let cancelled = manager.stop_one(&label("a")).unwrap();
    assert!(cancelled.handle().is_cancelled());
    assert!(all[0].token.is_cancelled());
    assert!(!all[1].token.is_cancelled());
    assert!(manager.stop_one(&label("a")).is_none());
    assert!(manager.stop_one("nobody").is_none());
    assert_eq!(manager.running_labels(), labels(&["b"]));
    assert_eq!(listed(&manager), labels(&["b"]));
}

#[test]
fn sync_follows_the_list() {
    let mut manager = ForwarderManager::new();
    let before = manager.start_all(&forwarders(&["a", "b", "c"]));
    manager.note_read(&CountingStream::new((), before[1].stats), 0, PollOutcome::Done(10));

    let change = manager.sync(&forwarders(&["d", "b", "d", "e"]));
    assert_eq!(stopped(&change.stopped), labels(&["a", "c"]));
    assert_eq!(started(&change.started), labels(&["d", "e"]));
    assert_eq!(manager.running_labels(), labels(&["b", "d", "e"]));
    assert_eq!(listed(&manager), labels(&["b", "d", "e"]));
    assert!(before[0].token.is_cancelled());
    assert!(!before[1].token.is_cancelled());
    assert!(before[2].token.is_cancelled());
    assert!(change.stopped[1].token.handle().is_cancelled());

    // What stayed goes on with its counters.
    assert_eq!(manager.stats_registry().collect()[0].bytes_sent, 10);

    // A connection of a stopped forwarder may still count, and is listed nowhere.
    manager.note_read(&CountingStream::new((), before[0].stats), 0, PollOutcome::Done(1));
    assert_eq!(listed(&manager), labels(&["b", "d", "e"]));
    assert!(manager.stats_registry().collect()[1..].iter().all(|s| s.bytes_sent == 0));

    let again = manager.sync(&forwarders(&["d", "b", "d", "e"]));
    assert!(again.stopped.is_empty());
    assert!(again.started.is_empty());
    assert_eq!(manager.running_labels(), labels(&["b", "d", "e"]));

    let back = manager.sync(&forwarders(&["a", "b"]));
    assert_eq!(stopped(&back.stopped), labels(&["d", "e"]));
    assert_eq!(started(&back.started), labels(&["a"]));
    assert_ne!(back.started[0].stats, before[0].stats);
    assert!(!back.started[0].token.is_cancelled());
    assert_eq!(manager.stats_registry().collect()[1].bytes_sent, 0);
}

#[test]
fn shutdown_stops_everything() {
    let mut manager = ForwarderManager::new();
    let all = manager.start_all(&forwarders(&["a", "b"]));
    assert_eq!(stopped(&manager.shutdown_all()), labels(&["a", "b"]));
    assert!(all.iter().all(|s| s.token.is_cancelled()));
    assert!(manager.running_labels().is_empty());
    assert!(manager.stats_registry().collect().is_empty());
    assert!(manager.shutdown_all().is_empty());
}

#[test]
fn a_reload_applies_forwarders_and_knobs() {
    let mut manager = ForwarderManager::new();
    let mut knobs = RuntimeKnobs::from_settings(&Settings::default());
    manager.start_all(&forwarders(&["a"]));
    let mut settings = Settings::default();
    settings.buffer_bytes = 1024;
    settings.socket_buffer_bytes = Some(2048);
    settings.use_splice = true;
    let file: ConfigRead<String> = ConfigRead::Parsed(ConfigFile {
        forwarders: forwarders(&["b"]),
        settings,
    });
    let change = apply_reload(&mut manager, &mut knobs, file).unwrap();
    assert_eq!(stopped(&change.stopped), labels(&["a"]));
    assert_eq!(started(&change.started), labels(&["b"]));
    assert_eq!(knobs.buffer_bytes(), 1024);
    assert_eq!(knobs.socket_buffer_bytes(), Some(2048));
    assert!(knobs.use_splice());
}

#[test]
fn a_failed_reload_changes_nothing() {
    let mut manager = ForwarderManager::new();
    let mut knobs = RuntimeKnobs::from_settings(&Settings::default());
    let all = manager.start_all(&forwarders(&["a"]));
    knobs.update(&Settings {
        buffer_bytes: 9,
        ..Settings::default()
    });
    let unreadable = ConfigRead::Unreadable("gone".to_string());
    assert_eq!(
        apply_reload(&mut manager, &mut knobs, unreadable).err().unwrap(),
        "gone"
    );
    let unparsable = ConfigRead::Unparsable("odd".to_string());
    assert_eq!(
        apply_reload(&mut manager, &mut knobs, unparsable).err().unwrap(),
        "odd"
    );
    assert_eq!(manager.running_labels(), labels(&["a"]));
    assert!(!all[0].token.is_cancelled());
    assert_eq!(knobs.buffer_bytes(), 9);
}

#[test]
fn reloads_are_a_second_apart() {
    let second = 1_000_000_000_u128;
    let mut watcher = ConfigWatcher::new(5);
    assert!(!watcher.on_event(5 + second - 1, ChangeKind::Modify, true));
    assert!(!watcher.on_event(5 + second, ChangeKind::Modify, false));
    assert!(watcher.on_event(5 + second, ChangeKind::Modify, true));
    assert!(!watcher.on_event(5 + second, ChangeKind::Modify, true));
    assert!(!watcher.on_event(4 + 2 * second, ChangeKind::Create, true));
    assert!(watcher.on_event(5 + 2 * second, ChangeKind::Create, true));
    assert!(watcher.on_event(9 * second, ChangeKind::Remove, true));
    for kind in [ChangeKind::Any, ChangeKind::Access, ChangeKind::Other] {
        assert!(!watcher.on_event(20 * second, kind, true));
    }
    assert!(!watcher.on_event(3, ChangeKind::Modify, true));
}

#[test]
fn traffic_is_counted_for_the_forwarder_it_belongs_to() {
    let mut manager = ForwarderManager::new();
    let all = manager.start_all(&forwarders(&["a", "b"]));
    let one = manager.open_connection(all[1].stats);
    let two = manager.open_connection(all[1].stats);
    let stream = CountingStream::new((), all[1].stats);
    manager.note_read(&stream, 3, PollOutcome::Done(13));
    manager.note_write(&stream, PollOutcome::Done(4));
    manager.note_write(&stream, PollOutcome::Pending);
    let mut pump = Pump::new(Direction::RemoteToClient, all[1].stats, 8);
    manager.note_pumped(&mut pump, 6);
    assert_eq!(pump.step(), PumpStep::Write(6));
    manager.close_connection(one);
    manager.sample_rates(&|prev: u64, cur: u64, rate: u64| cur - prev + rate);
    let snaps = manager.stats_registry().collect();
    assert_eq!(snaps[0].bytes_sent, 0);
    assert_eq!(snaps[0].active_connections, 0);
    assert_eq!(snaps[1].bytes_sent, 10);
    assert_eq!(snaps[1].bytes_received, 10);
    assert_eq!(snaps[1].active_connections, 1);
    assert_eq!(snaps[1].rate_sent_bps, 10);
    assert_eq!(snaps[1].rate_recv_bps, 10);
    manager.close_connection(two);
    assert_eq!(manager.stats_registry().collect()[1].active_connections, 0);
    assert_eq!(listed(&manager), labels(&["a", "b"]));
}
