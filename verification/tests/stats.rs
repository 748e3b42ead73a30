use rfw::bytes::format_bytes;
use rfw::report::{report_totals, traffic_report};
use rfw::stats::{
    CountingStream, ForwarderStats, PollOutcome, StatsId, StatsRegistry, StatsSnapshot,
};
use tokio::io::{AsyncReadExt, AsyncWriteExt};

fn snap(registry: &StatsRegistry, i: usize) -> StatsSnapshot {
    registry.collect()[i].clone()
}

fn labels(registry: &StatsRegistry) -> Vec<String> {
    registry.collect().into_iter().map(|s| s.label).collect()
}

/// Smoothed rate over one second.
fn rate(prev: u64, cur: u64, ewma: u64) -> u64 {
    (0.3 * cur.saturating_sub(prev) as f64 + (1.0 - 0.3) * ewma as f64).round() as u64
}

#[test]
fn counting_stream_accumulates_cumulatively() {
    let runtime = tokio::runtime::Builder::new_current_thread()
        .build()
        .unwrap();
    runtime.block_on(async {
        let mut registry = StatsRegistry::new();
        let id = registry.register("test");
        registry.stats_mut(id).unwrap().inc_connections();

        let (mut peer, inner) = tokio::io::duplex(64);
        let mut counting = CountingStream::new(inner, id);

        peer.write_all(b"ping").await.unwrap();

        let mut inbound = [0_u8; 4];
        let n = counting.inner.read(&mut inbound).await.unwrap();
        counting.note_read(&mut registry, 0, PollOutcome::Done(n));
        assert_eq!(&inbound, b"ping");

        assert_eq!(snap(&registry, 0).bytes_sent, 4);
        assert_eq!(snap(&registry, 0).bytes_received, 0);
        assert_eq!(snap(&registry, 0).active_connections, 1);

        let n = counting.inner.write(b"pong").await.unwrap();
        counting.note_write(&mut registry, PollOutcome::Done(n));

        let mut outbound = [0_u8; 4];
        peer.read_exact(&mut outbound).await.unwrap();
        assert_eq!(&outbound, b"pong");

        assert_eq!(snap(&registry, 0).bytes_sent, 4);
        assert_eq!(snap(&registry, 0).bytes_received, 4);
        assert_eq!(snap(&registry, 0).active_connections, 1);
    });
}

#[test]
fn only_delivered_bytes_are_counted() {
    let mut registry = StatsRegistry::new();
    let id = registry.register("t");
    let counting = CountingStream::new((), id);
    counting.note_read(&mut registry, 10, PollOutcome::Done(25));
    counting.note_read(&mut registry, 25, PollOutcome::Pending);
    counting.note_read(&mut registry, 25, PollOutcome::Failed);
    counting.note_read(&mut registry, 25, PollOutcome::Done(25));
    counting.note_read(&mut registry, 25, PollOutcome::Done(20));
    counting.note_write(&mut registry, PollOutcome::Done(7));
    counting.note_write(&mut registry, PollOutcome::Done(0));
    counting.note_write(&mut registry, PollOutcome::Pending);
    counting.note_write(&mut registry, PollOutcome::Failed);
    assert_eq!(snap(&registry, 0).bytes_sent, 15);
    assert_eq!(snap(&registry, 0).bytes_received, 7);
    let elsewhere = CountingStream::new((), StatsId { index: 9 });
    elsewhere.note_read(&mut registry, 0, PollOutcome::Done(5));
    elsewhere.note_write(&mut registry, PollOutcome::Done(5));
    assert_eq!(snap(&registry, 0).bytes_sent, 15);
    assert_eq!(snap(&registry, 0).bytes_received, 7);
}

#[test]
fn stats_counters_are_cumulative_not_reset() {
    let mut stats = ForwarderStats::new("t".to_string());
    stats.add_sent(100);
    assert_eq!(stats.snapshot().bytes_sent, 100);
    stats.add_sent(50);
    assert_eq!(stats.snapshot().bytes_sent, 150);
    assert_eq!(stats.snapshot().bytes_sent, 150);
    stats.add_received(3);
    assert_eq!(stats.snapshot().bytes_received, 3);
    assert_eq!(stats.label(), "t");
}

#[test]
fn counters_wrap_as_64_bit_numbers() {
    let mut stats = ForwarderStats::new("t".to_string());
    stats.add_sent(u64::MAX);
    stats.add_sent(2);
    assert_eq!(stats.bytes_sent, 1);
    stats.add_received(u64::MAX);
    stats.add_received(1);
    assert_eq!(stats.bytes_received, 0);
    stats.dec_connections();
    assert_eq!(stats.active_connections, u64::MAX);
    stats.inc_connections();
    assert_eq!(stats.active_connections, 0);
}

#[test]
fn update_rate_writes_gauges() {
    let mut stats = ForwarderStats::new("t".to_string());
    stats.add_sent(2000);
    stats.update_rate(&rate);
    // 0.3 * 2000 = 600.
    assert_eq!(stats.snapshot().rate_sent_bps, 600);
    // No further traffic -> decays.
    stats.update_rate(&rate);
    assert_eq!(stats.snapshot().rate_sent_bps, 420); // 0.7 * 600
    assert_eq!(stats.snapshot().bytes_sent, 2000);
    assert_eq!(stats.snapshot().rate_recv_bps, 0);
}

#[test]
fn the_registry_lists_what_is_registered_and_not_removed() {
    let mut registry = StatsRegistry::default();
    assert!(registry.collect().is_empty());
    let a = registry.register("a");
    let b = registry.register("b");
    let c = registry.register("c");
    assert_eq!(labels(&registry), ["a", "b", "c"]);
    registry.stats_mut(a).unwrap().add_sent(1);
    registry.stats_mut(b).unwrap().add_sent(2);
    registry.stats_mut(c).unwrap().add_sent(3);
    registry.remove("b");
    registry.remove("nobody");
    assert_eq!(labels(&registry), ["a", "c"]);
    // A connection that is still open goes on counting.
    registry.stats_mut(b).unwrap().add_sent(40);
    assert_eq!(registry.stats_mut(b).unwrap().bytes_sent, 42);
    // Under the same label a forwarder starts at zero.
    let again = registry.register("b");
    assert_ne!(again, b);
    assert_eq!(labels(&registry), ["a", "c", "b"]);
    let sent: Vec<u64> = registry.collect().iter().map(|s| s.bytes_sent).collect();
    assert_eq!(sent, [1, 3, 0]);
    assert!(registry.stats_mut(StatsId { index: 4 }).is_none());
}

#[test]
fn rates_are_sampled_for_listed_forwarders() {
    let mut registry = StatsRegistry::new();
    let a = registry.register("a");
    let b = registry.register("b");
    registry.stats_mut(a).unwrap().add_sent(1000);
    registry.stats_mut(b).unwrap().add_sent(1000);
    registry.stats_mut(a).unwrap().add_received(500);
    registry.remove("b");
    registry.sample_rates(&rate);
    assert_eq!(snap(&registry, 0).rate_sent_bps, 300);
    assert_eq!(snap(&registry, 0).rate_recv_bps, 150);
    assert_eq!(registry.stats_mut(b).unwrap().rate_sent_bps, 0);
    assert_eq!(snap(&registry, 0).bytes_sent, 1000);
    registry.sample_rates(&rate);
    assert_eq!(snap(&registry, 0).rate_sent_bps, 210);
}

#[test]
fn format_bytes_edges() {
    assert_eq!(format_bytes(0), "0 B");
    assert_eq!(format_bytes(1023), "1023 B");
    assert_eq!(format_bytes(1024), "1.000 KB");
    assert_eq!(format_bytes(1024 * 1024), "1.000 MB");
    assert_eq!(format_bytes(1024_u64.pow(4)), "1.000 TB");
}

/// The same by floating-point division.
fn divided(n: u64) -> String {
    let units = ["B", "KB", "MB", "GB", "TB"];
    let mut size = n as f64;
    let mut unit = 0;
    while size >= 1024.0 && unit < units.len() - 1 {
        size /= 1024.0;
        unit += 1;
    }
    if unit == 0 {
        format!("{} B", n)
    } else {
        format!("{:.3} {}", size, units[unit])
    }
}

#[test]
fn format_bytes_is_floating_point_division() {
    for n in 0..200_000 {
        assert_eq!(format_bytes(n), divided(n));
    }
    for shift in 0..64 {
        let power = 1_u64 << shift;
        for offset in 0..300 {
            for n in [power.wrapping_add(offset), power.wrapping_sub(offset)] {
                assert_eq!(format_bytes(n), divided(n));
            }
        }
    }
    let mut n: u64 = 1;
    for _ in 0..100_000 {
        n = n.wrapping_mul(6364136223846793005).wrapping_add(1442695040888963407);
        assert_eq!(format_bytes(n), divided(n));
        assert_eq!(format_bytes(n >> 20), divided(n >> 20));
        assert_eq!(format_bytes(n >> 40), divided(n >> 40));
    }
    // Halfway between two figures.
    assert_eq!(format_bytes(1088), "1.062 KB");
    assert_eq!(format_bytes(1216), "1.188 KB");
    assert_eq!(format_bytes(u64::MAX), "16777216.000 TB");
}

fn traffic(label: &str, sent: u64, recv: u64, active: u64, tx: u64, rx: u64) -> StatsSnapshot {
    StatsSnapshot {
        label: label.to_string(),
        bytes_sent: sent,
        bytes_received: recv,
        active_connections: active,
        rate_sent_bps: tx,
        rate_recv_bps: rx,
    }
}

#[test]
fn the_report_shows_forwarders_in_use_and_the_total() {
    let long = "a-host-with-quite-a-long-name.example.com:65535->b:1";
    let snaps = vec![
        traffic("127.0.0.1:8080->172.16.0.5:80", 1321205760, 4896202752, 3, 12897484, 47815065),
        traffic("idle:1->x:2", 0, 0, 0, 7, 7),
        traffic(long, 0, 5, 0, 0, 0),
        traffic("ünï:1->x:2", 0, 0, 1, 0, 0),
    ];
    let line = |s: &StatsSnapshot| {
        format!(
            "  {:<45} sent={:>10}  recv={:>10}  tx={:>10}/s  rx={:>10}/s  active={}",
            s.label,
            format_bytes(s.bytes_sent),
            format_bytes(s.bytes_received),
            format_bytes(s.rate_sent_bps),
            format_bytes(s.rate_recv_bps),
            s.active_connections
        )
    };
    assert_eq!(
        traffic_report(&snaps),
        vec![
            "─── Traffic Report ──────────────────────────────────".to_string(),
            line(&snaps[0]),
            line(&snaps[2]),
            line(&snaps[3]),
            format!(
                "  TOTAL (all forwarders, lifetime)    sent={:>10}  recv={:>10}",
                "1.230 GB", "4.560 GB"
            ),
            "──────────────────────────────────────────────────────".to_string(),
        ]
    );
    assert_eq!(traffic_report(&[]).len(), 3);
}

#[test]
fn report_totals_are_sums_that_fit() {
    let big = vec![traffic("a", u64::MAX, 1, 0, 0, 0), traffic("b", 0, 2, 0, 0, 0)];
    assert_eq!(report_totals(&big), Some((u64::MAX, 3)));
    let over = vec![traffic("a", u64::MAX, 1, 0, 0, 0), traffic("b", 1, 2, 0, 0, 0)];
    assert_eq!(report_totals(&over), None);
    assert_eq!(report_totals(&[]), Some((0, 0)));
}
