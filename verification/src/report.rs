//! The periodic traffic report.
use vstd::prelude::*;

use crate::bytes::format_bytes;
use crate::stats::StatsSnapshot;
use crate::text::{push_decimal, push_left_aligned, push_right_aligned};

verus! {

/// `s`, preceded by spaces up to `width` characters.
pub open spec fn right_aligned(s: Seq<char>, width: nat) -> Seq<char> {
    crate::text::padding(s.len(), width) + s
}

/// A number of bytes in a column.
pub open spec fn bytes_column(n: u64) -> Seq<char> {
    right_aligned(crate::bytes::bytes_text(n as nat), 10)
}

/// The line of one forwarder.
pub open spec fn entry_line(s: crate::stats::Snapshot) -> Seq<char> {
    "  "@ + s.label + crate::text::padding(s.label.len(), 45) + " sent="@ + bytes_column(
        s.bytes_sent,
    ) + "  recv="@ + bytes_column(s.bytes_received) + "  tx="@ + bytes_column(s.rate_sent_bps)
        + "/s  rx="@ + bytes_column(s.rate_recv_bps) + "/s  active="@ + crate::text::decimal(
        s.active_connections as nat,
    )
}

/// The line of all forwarders together.
pub open spec fn total_line(sent: u64, recv: u64) -> Seq<char> {
    "  TOTAL (all forwarders, lifetime)    sent="@ + bytes_column(sent) + "  recv="@
        + bytes_column(recv)
}

/// Whether a forwarder has a line of its own: it has carried something, or is in use.
pub open spec fn shown(s: crate::stats::Snapshot) -> bool {
    s.bytes_sent > 0 || s.bytes_received > 0 || s.active_connections > 0
}

/// The lines of the forwarders that are shown, in order.
pub open spec fn entry_lines(snaps: Seq<crate::stats::Snapshot>) -> Seq<Seq<char>> {
    snaps.filter(|s: crate::stats::Snapshot| shown(s)).map_values(
        |s: crate::stats::Snapshot| entry_line(s),
    )
}

/// The bytes that all forwarders have sent.
pub open spec fn sum_sent(snaps: Seq<crate::stats::Snapshot>) -> nat
    decreases snaps.len(),
{
    if snaps.len() == 0 {
        0
    } else {
        sum_sent(snaps.drop_last()) + snaps.last().bytes_sent as nat
    }
}

/// The bytes that all forwarders have received.
pub open spec fn sum_received(snaps: Seq<crate::stats::Snapshot>) -> nat
    decreases snaps.len(),
{
    if snaps.len() == 0 {
        0
    } else {
        sum_received(snaps.drop_last()) + snaps.last().bytes_received as nat
    }
}

/// The lines of a report.
pub open spec fn report_lines(snaps: Seq<crate::stats::Snapshot>) -> Seq<Seq<char>> {
    seq!["─── Traffic Report ──────────────────────────────────"@]
        + entry_lines(snaps) + seq![
        total_line(sum_sent(snaps) as u64, sum_received(snaps) as u64),
        "──────────────────────────────────────────────────────"@,
    ]
}

/// Whether the totals of a report fit in 64 bits.
pub open spec fn totals_fit(snaps: Seq<crate::stats::Snapshot>) -> bool {
    sum_sent(snaps) <= u64::MAX && sum_received(snaps) <= u64::MAX
}

proof fn lemma_sums_grow(snaps: Seq<crate::stats::Snapshot>, k: int)
    requires
        0 <= k <= snaps.len(),
    ensures
        sum_sent(snaps.take(k)) <= sum_sent(snaps),
        sum_received(snaps.take(k)) <= sum_received(snaps),
    decreases snaps.len() - k,
{
    if k < snaps.len() {
        assert(snaps.take(k + 1).drop_last() =~= snaps.take(k));
        lemma_sums_grow(snaps, k + 1);
    } else {
        assert(snaps.take(k) =~= snaps);
    }
}

/// The bytes that all forwarders have sent and received; `None` where either number does not fit
/// in 64 bits.
pub fn report_totals(snaps: &[StatsSnapshot]) -> (r: Option<(u64, u64)>)
    ensures
        match r {
            Some((sent, recv)) => {
                &&& sent == sum_sent(crate::stats::snapshots(snaps@))
                &&& recv == sum_received(crate::stats::snapshots(snaps@))
            },
            None => !totals_fit(crate::stats::snapshots(snaps@)),
        },
{
    let ghost all = crate::stats::snapshots(snaps@);
    let mut sent: u64 = 0;
    let mut recv: u64 = 0;
    let mut i: usize = 0;
    assert(all.take(0) =~= Seq::<crate::stats::Snapshot>::empty());
    while i < snaps.len()
        invariant
            i <= snaps.len(),
            all == crate::stats::snapshots(snaps@),
            sent == sum_sent(all.take(i as int)),
            recv == sum_received(all.take(i as int)),
        decreases snaps.len() - i,
    {
        proof {
            assert(all.take(i + 1).drop_last() =~= all.take(i as int));
            assert(all.take(i + 1).last() == snaps@[i as int]@);
            lemma_sums_grow(all, i + 1);
        }
        match (sent.checked_add(snaps[i].bytes_sent), recv.checked_add(snaps[i].bytes_received)) {
            (Some(s), Some(r)) => {
                sent = s;
                recv = r;
            },
            _ => {
                return None;
            },
        }
        i = i + 1;
    }
    assert(all.take(i as int) =~= all);
    Some((sent, recv))
}

fn push_bytes_column(out: &mut String, n: u64)
    ensures
        final(out)@ == old(out)@ + bytes_column(n),
{
    let ghost start = out@;
    push_right_aligned(out, format_bytes(n).as_str(), 10);
    assert(out@ =~= start + bytes_column(n));
}

fn render_entry(s: &StatsSnapshot) -> (r: String)
    ensures
        r@ == entry_line(s@),
{
    let mut out = String::from_str("  ");
    push_left_aligned(&mut out, s.label.as_str(), 45);
    out.append(" sent=");
    push_bytes_column(&mut out, s.bytes_sent);
    out.append("  recv=");
    push_bytes_column(&mut out, s.bytes_received);
    out.append("  tx=");
    push_bytes_column(&mut out, s.rate_sent_bps);
    out.append("/s  rx=");
    push_bytes_column(&mut out, s.rate_recv_bps);
    out.append("/s  active=");
    push_decimal(&mut out, s.active_connections);
    out
}

fn render_total(sent: u64, recv: u64) -> (r: String)
    ensures
        r@ == total_line(sent, recv),
{
    let mut out = String::from_str("  TOTAL (all forwarders, lifetime)    sent=");
    push_bytes_column(&mut out, sent);
    out.append("  recv=");
    push_bytes_column(&mut out, recv);
    out
}

/// The lines of a traffic report: lifetime totals and current throughput of each forwarder that
/// has carried something or is in use, and the totals of all.
pub fn traffic_report(snaps: &[StatsSnapshot]) -> (r: Vec<String>)
    requires
        totals_fit(crate::stats::snapshots(snaps@)),
    ensures
        crate::text::texts(r@) == report_lines(crate::stats::snapshots(snaps@)),
{
    let ghost all = crate::stats::snapshots(snaps@);
    let ghost head = seq!["─── Traffic Report ──────────────────────────────────"@];
    let mut sent: u64 = 0;
    let mut recv: u64 = 0;
    if let Some((s, r)) = report_totals(snaps) {
        sent = s;
        recv = r;
    }
    let mut out: Vec<String> = Vec::new();
    out.push(String::from_str("─── Traffic Report ──────────────────────────────────"));
    let mut i: usize = 0;
    proof {
        reveal(Seq::filter);
        assert(all.take(0) =~= Seq::<crate::stats::Snapshot>::empty());
        assert(crate::text::texts(out@) =~= head + entry_lines(all.take(0)));
    }
    while i < snaps.len()
        invariant
            i <= snaps.len(),
            all == crate::stats::snapshots(snaps@),
            crate::text::texts(out@) == head + entry_lines(all.take(i as int)),
        decreases snaps.len() - i,
    {
        let ghost before = out@;
        let s = &snaps[i];
        let ghost next = all.take(i + 1);
        proof {
            reveal(Seq::filter);
            assert(next.drop_last() =~= all.take(i as int));
            assert(next.last() == s@);
        }
        if s.bytes_sent > 0 || s.bytes_received > 0 || s.active_connections > 0 {
            out.push(render_entry(s));
            assert(entry_lines(next) =~= entry_lines(all.take(i as int)).push(entry_line(s@)));
            assert(crate::text::texts(out@) =~= crate::text::texts(before).push(entry_line(s@)));
        }
        i = i + 1;
    }
    assert(all.take(i as int) =~= all);
    out.push(render_total(sent, recv));
    out.push(String::from_str("──────────────────────────────────────────────────────"));
    assert(crate::text::texts(out@) =~= report_lines(all));
    out
}

/// A number of bytes stands to the right of a column of ten characters.
pub proof fn law_bytes_column(n: u64)
    ensures
        ({
            let text = crate::bytes::bytes_text(n as nat);
            &&& bytes_column(n).len() == (if text.len() < 10 {
                10
            } else {
                text.len()
            })
            &&& bytes_column(n) == crate::text::padding(text.len(), 10) + text
        }),
{
    crate::text::law_padding(crate::bytes::bytes_text(n as nat).len(), 10);
}

/// The line of a forwarder shows its label in a column of 45 characters, and its own five figures:
/// bytes sent and received, the rates of both, and the connections.
pub proof fn law_entry_line(s: crate::stats::Snapshot)
    ensures
        entry_line(s) == "  "@ + s.label + crate::text::padding(s.label.len(), 45) + " sent="@
            + bytes_column(s.bytes_sent) + "  recv="@ + bytes_column(s.bytes_received) + "  tx="@
            + bytes_column(s.rate_sent_bps) + "/s  rx="@ + bytes_column(s.rate_recv_bps)
            + "/s  active="@ + crate::text::decimal(s.active_connections as nat),
{
}

/// The total of several forwarders is the sum over any two parts of the list; that of one is its
/// own count.
pub proof fn law_totals_add_up(
    first: Seq<crate::stats::Snapshot>,
    then: Seq<crate::stats::Snapshot>,
    s: crate::stats::Snapshot,
)
    ensures
        sum_sent(first + then) == sum_sent(first) + sum_sent(then),
        sum_received(first + then) == sum_received(first) + sum_received(then),
        sum_sent(seq![s]) == s.bytes_sent,
        sum_received(seq![s]) == s.bytes_received,
    decreases then.len(),
{
    reveal_with_fuel(sum_sent, 2);
    reveal_with_fuel(sum_received, 2);
    if then.len() > 0 {
        law_totals_add_up(first, then.drop_last(), s);
        assert((first + then).drop_last() =~= first + then.drop_last());
    } else {
        assert(first + then =~= first);
    }
}

/// A report has a first line, one line for each forwarder that has carried bytes or has open
/// connections, in order, the totals, and a last line.
pub proof fn law_report_lines(snaps: Seq<crate::stats::Snapshot>, k: int)
    ensures
        ({
            let used = snaps.filter(
                |s: crate::stats::Snapshot|
                    s.bytes_sent > 0 || s.bytes_received > 0 || s.active_connections > 0,
            );
            let lines = report_lines(snaps);
            &&& lines.len() == used.len() + 3
            &&& lines[0] == "─── Traffic Report ──────────────────────────────────"@
            &&& 0 <= k < used.len() ==> lines[k + 1] == entry_line(used[k])
            &&& totals_fit(snaps) ==> lines[used.len() as int + 1]
                == "  TOTAL (all forwarders, lifetime)    sent="@ + bytes_column(
                sum_sent(snaps) as u64,
            ) + "  recv="@ + bytes_column(sum_received(snaps) as u64)
            &&& lines[used.len() as int + 2]
                == "──────────────────────────────────────────────────────"@
        }),
{
    let used = |s: crate::stats::Snapshot|
        s.bytes_sent > 0 || s.bytes_received > 0 || s.active_connections > 0;
    assert(used =~= (|s: crate::stats::Snapshot| shown(s)));
}

/// Totals fit if and only if both sums are below 2^64.
pub proof fn law_totals_fit(snaps: Seq<crate::stats::Snapshot>)
    ensures
        totals_fit(snaps) <==> sum_sent(snaps) < 0x1_0000_0000_0000_0000 && sum_received(snaps)
            < 0x1_0000_0000_0000_0000,
{
}

} // verus!
