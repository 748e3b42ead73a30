//! The read-only HTTP endpoint: requests, routes, Prometheus text and JSON.
use vstd::prelude::*;

use crate::stats::{StatsRegistry, StatsSnapshot};
use crate::text::{first_line_words, push_decimal};

verus! {

/// Cap on the request bytes that are read before giving up (headers only; GET has no body).
pub const MAX_REQUEST_BYTES: usize = 8192;

/// Whether `bytes` hold the blank line that ends a request head.
pub open spec fn has_blank_line(bytes: Seq<u8>) -> bool {
    exists|i: int| 0 <= i && i + 4 <= bytes.len() && #[trigger] ends_head_at(bytes, i)
}

/// Whether the blank line that ends a request head stands at `i`.
pub open spec fn ends_head_at(bytes: Seq<u8>, i: int) -> bool {
    bytes[i] == 13 && bytes[i + 1] == 10 && bytes[i + 2] == 13 && bytes[i + 3] == 10
}

fn holds_blank_line(bytes: &Vec<u8>) -> (r: bool)
    ensures
        r == has_blank_line(bytes@),
{
    let mut i: usize = 0;
    while i < bytes.len() && bytes.len() - i >= 4
        invariant
            i <= bytes.len(),
            forall|j: int| 0 <= j < i ==> !#[trigger] ends_head_at(bytes@, j),
        decreases bytes.len() - i,
    {
        if bytes[i] == 13 && bytes[i + 1] == 10 && bytes[i + 2] == 13 && bytes[i + 3] == 10 {
            assert(ends_head_at(bytes@, i as int));
            return true;
        }
        i = i + 1;
    }
    false
}

/// Adds what was read to the request head; tells whether the head is done: nothing more came,
/// the blank line is there, or the cap is reached.
pub fn absorb(head: &mut Vec<u8>, chunk: &[u8]) -> (done: bool)
    ensures
        final(head)@ == old(head)@ + chunk@,
        done == (chunk@.len() == 0 || has_blank_line(final(head)@) || final(head)@.len()
            >= MAX_REQUEST_BYTES),
{
    let ghost start = head@;
    let mut i: usize = 0;
    while i < chunk.len()
        invariant
            i <= chunk.len(),
            head@ == start + chunk@.take(i as int),
        decreases chunk.len() - i,
    {
        head.push(chunk[i]);
        i = i + 1;
        assert(head@ =~= start + chunk@.take(i as int));
    }
    assert(chunk@.take(i as int) =~= chunk@);
    chunk.len() == 0 || holds_blank_line(head) || head.len() >= MAX_REQUEST_BYTES
}

/// The text that `String::from_utf8_lossy` makes of bytes.
pub uninterp spec fn lossy_text(bytes: Seq<u8>) -> Seq<char>;

/// Decodes bytes with `String::from_utf8_lossy`: the result depends on the bytes alone, and is
/// their decoding where they are valid UTF-8. Where they are not, which replacement characters
/// come out is left unsaid.
#[verifier::external_body]
fn decode_lossy(bytes: &[u8]) -> (r: String)
    ensures
        r@ == lossy_text(bytes@),
        vstd::utf8::valid_utf8(bytes@) ==> r@ == vstd::utf8::decode_utf8(bytes@),
{
    String::from_utf8_lossy(bytes).into_owned()
}

/// The target of a request: the second word of the first line, where the first is `GET`.
pub open spec fn request_target(head: Seq<char>) -> Option<Seq<char>> {
    let line = crate::text::words(crate::text::first_line(head));
    if line.len() >= 2 && line[0] == "GET"@ {
        Some(line[1])
    } else {
        None
    }
}

/// Extracts the request target from an HTTP request head (`GET /path HTTP/1.1`).
/// Gives `None` for other methods and for a malformed request line.
pub fn parse_request_target(head: &str) -> (r: Option<String>)
    ensures
        crate::settings::optional_text(r) == request_target(head@),
{
    let line = first_line_words(head);
    let get = String::from_str("GET");
    assert(crate::text::texts(line@).len() == line@.len());
    assert(forall|i: int|
        0 <= i < line@.len() ==> #[trigger] line@[i]@ == crate::text::texts(line@)[i]);
    if line.len() < 2 {
        return None;
    }
    if line[0] == get {
        Some(line[1].clone())
    } else {
        None
    }
}

/// A complete HTTP response.
pub open spec fn response(status: Seq<char>, content_type: Seq<char>, body: Seq<char>) -> Seq<
    char,
> {
    "HTTP/1.1 "@ + status + "\r\nContent-Type: "@ + content_type + "\r\nContent-Length: "@
        + crate::text::decimal(vstd::utf8::encode_utf8(body).len())
        + "\r\nConnection: close\r\n\r\n"@ + body
}

/// Builds a complete HTTP response; the content length is that of the body in bytes.
pub fn http_response(status: &str, content_type: &str, body: &str) -> (r: String)
    ensures
        r@ == response(status@, content_type@, body@),
{
    let mut out = String::from_str("HTTP/1.1 ");
    out.append(status);
    out.append("\r\nContent-Type: ");
    out.append(content_type);
    out.append("\r\nContent-Length: ");
    let length: usize = body.as_bytes().len();
    push_decimal(&mut out, length as u64);
    out.append("\r\nConnection: close\r\n\r\n");
    out.append(body);
    out
}

/// `c` as it stands in a quoted label.
pub open spec fn escaped_char(c: char) -> Seq<char> {
    if c == '\\' {
        seq!['\\', '\\']
    } else if c == '"' {
        seq!['\\', '"']
    } else {
        seq![c]
    }
}

/// `label` with a backslash before each backslash and each quote.
pub open spec fn escaped(label: Seq<char>) -> Seq<char>
    decreases label.len(),
{
    if label.len() == 0 {
        Seq::empty()
    } else {
        escaped(label.drop_last()) + escaped_char(label.last())
    }
}

/// Escapes a label for a Prometheus or JSON string.
pub fn escape(label: &str) -> (r: String)
    ensures
        r@ == escaped(label@),
{
    let mut out = String::new();
    assert(label@.take(0) =~= Seq::<char>::empty());
    for c in it: label.chars()
        invariant
            it.seq() == label@,
            out@ == escaped(label@.take(it.index() as int)),
    {
        let ghost before = out@;
        proof {
            assert(label@.take(it.index() + 1).drop_last() =~= label@.take(it.index() as int));
            assert(label@.take(it.index() + 1).last() == c);
        }
        if c == '\\' || c == '"' {
            out.push('\\');
        }
        out.push(c);
        assert(out@ =~= before + escaped_char(c));
    }
    assert(label@.take(label@.len() as int) =~= label@);
    out
}

/// A figure that is exposed for each forwarder.
#[derive(Clone, Copy, Debug, PartialEq, Eq, Structural)]
pub enum Metric {
    BytesSent,
    BytesReceived,
    SentRate,
    ReceivedRate,
    ActiveConnections,
}

impl Metric {
    /// The figure of one forwarder.
    pub open spec fn of(self, s: crate::stats::Snapshot) -> u64 {
        match self {
            Metric::BytesSent => s.bytes_sent,
            Metric::BytesReceived => s.bytes_received,
            Metric::SentRate => s.rate_sent_bps,
            Metric::ReceivedRate => s.rate_recv_bps,
            Metric::ActiveConnections => s.active_connections,
        }
    }

    fn value(self, s: &StatsSnapshot) -> (r: u64)
        ensures
            r == self.of(s@),
    {
        match self {
            Metric::BytesSent => s.bytes_sent,
            Metric::BytesReceived => s.bytes_received,
            Metric::SentRate => s.rate_sent_bps,
            Metric::ReceivedRate => s.rate_recv_bps,
            Metric::ActiveConnections => s.active_connections,
        }
    }
}

/// One line of a metric family.
pub open spec fn sample_line(name: Seq<char>, label: Seq<char>, value: u64) -> Seq<char> {
    name + "{label=\""@ + escaped(label) + "\"} "@ + crate::text::decimal(value as nat) + "\n"@
}

/// The lines of a metric family, one for each forwarder.
pub open spec fn sample_lines(
    name: Seq<char>,
    snaps: Seq<crate::stats::Snapshot>,
    metric: Metric,
) -> Seq<char>
    decreases snaps.len(),
{
    if snaps.len() == 0 {
        Seq::empty()
    } else {
        sample_lines(name, snaps.drop_last(), metric) + sample_line(
            name,
            snaps.last().label,
            metric.of(snaps.last()),
        )
    }
}

/// A metric family: its description, its type and its lines.
pub open spec fn family(
    name: Seq<char>,
    help: Seq<char>,
    kind: Seq<char>,
    snaps: Seq<crate::stats::Snapshot>,
    metric: Metric,
) -> Seq<char> {
    "# HELP "@ + name + " "@ + help + "\n# TYPE "@ + name + " "@ + kind + "\n"@ + sample_lines(
        name,
        snaps,
        metric,
    )
}

/// Appends one metric family (HELP and TYPE, and one line per forwarder).
fn push_metric(
    out: &mut String,
    name: &str,
    help: &str,
    kind: &str,
    snaps: &[StatsSnapshot],
    metric: Metric,
)
    ensures
        final(out)@ == old(out)@ + family(
            name@,
            help@,
            kind@,
            crate::stats::snapshots(snaps@),
            metric,
        ),
{
    let ghost start = out@;
    let ghost all = crate::stats::snapshots(snaps@);
    out.append("# HELP ");
    out.append(name);
    out.append(" ");
    out.append(help);
    out.append("\n# TYPE ");
    out.append(name);
    out.append(" ");
    out.append(kind);
    out.append("\n");
    let ghost head = out@;
    let mut i: usize = 0;
    assert(all.take(0) =~= Seq::<crate::stats::Snapshot>::empty());
    assert(head =~= head + sample_lines(name@, all.take(0), metric));
    while i < snaps.len()
        invariant
            i <= snaps.len(),
            all == crate::stats::snapshots(snaps@),
            out@ == head + sample_lines(name@, all.take(i as int), metric),
        decreases snaps.len() - i,
    {
        let ghost before = out@;
        let s = &snaps[i];
        proof {
            assert(all.take(i + 1).drop_last() =~= all.take(i as int));
            assert(all.take(i + 1).last() == s@);
        }
        out.append(name);
        out.append("{label=\"");
        out.append(escape(s.label.as_str()).as_str());
        out.append("\"} ");
        push_decimal(out, metric.value(s));
        out.append("\n");
        assert(out@ =~= before + sample_line(name@, s@.label, metric.of(s@)));
        assert(out@ =~= head + sample_lines(name@, all.take(i + 1), metric));
        i = i + 1;
    }
    assert(all.take(i as int) =~= all);
    assert(out@ =~= start + family(name@, help@, kind@, all, metric));
}

/// The snapshots in the Prometheus text exposition format.
pub open spec fn prometheus(snaps: Seq<crate::stats::Snapshot>) -> Seq<char> {
    family(
        "rfw_bytes_sent_total"@,
        "Lifetime bytes forwarded client->remote."@,
        "counter"@,
        snaps,
        Metric::BytesSent,
    ) + family(
        "rfw_bytes_received_total"@,
        "Lifetime bytes forwarded remote->client."@,
        "counter"@,
        snaps,
        Metric::BytesReceived,
    ) + family(
        "rfw_bytes_sent_rate_bps"@,
        "Current send throughput (bytes/sec)."@,
        "gauge"@,
        snaps,
        Metric::SentRate,
    ) + family(
        "rfw_bytes_received_rate_bps"@,
        "Current receive throughput (bytes/sec)."@,
        "gauge"@,
        snaps,
        Metric::ReceivedRate,
    ) + family(
        "rfw_active_connections"@,
        "Currently active connections."@,
        "gauge"@,
        snaps,
        Metric::ActiveConnections,
    )
}

/// Renders snapshots in the Prometheus text exposition format.
pub fn render_prometheus(snaps: &[StatsSnapshot]) -> (r: String)
    ensures
        r@ == prometheus(crate::stats::snapshots(snaps@)),
{
    let mut out = String::new();
    push_metric(
        &mut out,
        "rfw_bytes_sent_total",
        "Lifetime bytes forwarded client->remote.",
        "counter",
        snaps,
        Metric::BytesSent,
    );
    push_metric(
        &mut out,
        "rfw_bytes_received_total",
        "Lifetime bytes forwarded remote->client.",
        "counter",
        snaps,
        Metric::BytesReceived,
    );
    push_metric(
        &mut out,
        "rfw_bytes_sent_rate_bps",
        "Current send throughput (bytes/sec).",
        "gauge",
        snaps,
        Metric::SentRate,
    );
    push_metric(
        &mut out,
        "rfw_bytes_received_rate_bps",
        "Current receive throughput (bytes/sec).",
        "gauge",
        snaps,
        Metric::ReceivedRate,
    );
    push_metric(
        &mut out,
        "rfw_active_connections",
        "Currently active connections.",
        "gauge",
        snaps,
        Metric::ActiveConnections,
    );
    assert(out@ =~= prometheus(crate::stats::snapshots(snaps@)));
    out
}

/// One snapshot as a JSON object.
pub open spec fn json_object(s: crate::stats::Snapshot) -> Seq<char> {
    "{\"label\":\""@ + escaped(s.label) + "\",\"bytes_sent\":"@ + crate::text::decimal(
        s.bytes_sent as nat,
    ) + ",\"bytes_received\":"@ + crate::text::decimal(s.bytes_received as nat)
        + ",\"active_connections\":"@ + crate::text::decimal(s.active_connections as nat)
        + ",\"rate_sent_bps\":"@ + crate::text::decimal(s.rate_sent_bps as nat)
        + ",\"rate_recv_bps\":"@ + crate::text::decimal(s.rate_recv_bps as nat) + "}"@
}

/// The snapshots as JSON objects with commas between them.
pub open spec fn json_objects(snaps: Seq<crate::stats::Snapshot>) -> Seq<char>
    decreases snaps.len(),
{
    if snaps.len() == 0 {
        Seq::empty()
    } else if snaps.len() == 1 {
        json_object(snaps[0])
    } else {
        json_objects(snaps.drop_last()).push(',') + json_object(snaps.last())
    }
}

/// The snapshots as a JSON array.
pub open spec fn json(snaps: Seq<crate::stats::Snapshot>) -> Seq<char> {
    seq!['['] + json_objects(snaps) + seq![']']
}

fn push_json_object(out: &mut String, s: &StatsSnapshot)
    ensures
        final(out)@ == old(out)@ + json_object(s@),
{
    let ghost start = out@;
    out.append("{\"label\":\"");
    out.append(escape(s.label.as_str()).as_str());
    out.append("\",\"bytes_sent\":");
    push_decimal(out, s.bytes_sent);
    out.append(",\"bytes_received\":");
    push_decimal(out, s.bytes_received);
    out.append(",\"active_connections\":");
    push_decimal(out, s.active_connections);
    out.append(",\"rate_sent_bps\":");
    push_decimal(out, s.rate_sent_bps);
    out.append(",\"rate_recv_bps\":");
    push_decimal(out, s.rate_recv_bps);
    out.append("}");
    assert(out@ =~= start + json_object(s@));
}

/// Renders snapshots as a JSON array.
pub fn render_json(snaps: &[StatsSnapshot]) -> (r: String)
    ensures
        r@ == json(crate::stats::snapshots(snaps@)),
{
    let ghost all = crate::stats::snapshots(snaps@);
    let mut out = String::new();
    out.push('[');
    let mut i: usize = 0;
    assert(all.take(0) =~= Seq::<crate::stats::Snapshot>::empty());
    assert(out@ =~= seq!['['] + json_objects(all.take(0)));
    while i < snaps.len()
        invariant
            i <= snaps.len(),
            all == crate::stats::snapshots(snaps@),
            out@ == seq!['['] + json_objects(all.take(i as int)),
        decreases snaps.len() - i,
    {
        proof {
            assert(all.take(i + 1).drop_last() =~= all.take(i as int));
            assert(all.take(i + 1).last() == snaps@[i as int]@);
        }
        if i > 0 {
            out.push(',');
        }
        push_json_object(&mut out, &snaps[i]);
        assert(out@ =~= seq!['['] + json_objects(all.take(i + 1)));
        i = i + 1;
    }
    assert(all.take(i as int) =~= all);
    out.push(']');
    assert(out@ =~= json(all));
    out
}

/// The response to a request for `target`.
pub open spec fn routed(
    target: Option<Seq<char>>,
    snaps: Seq<crate::stats::Snapshot>,
) -> Seq<char> {
    if target == Some("/metrics"@) {
        response("200 OK"@, "text/plain; version=0.0.4"@, prometheus(snaps))
    } else if target == Some("/stats"@) {
        response("200 OK"@, "application/json"@, json(snaps))
    } else if target == Some("/"@) {
        response("200 OK"@, "text/plain"@, "rfw ok\n"@)
    } else {
        response("404 Not Found"@, "text/plain"@, "not found\n"@)
    }
}

/// Answers the request with the given head.
pub fn respond(head: &str, registry: &StatsRegistry) -> (r: String)
    ensures
        r@ == routed(
            request_target(head@),
            crate::stats::reported(crate::stats::listed(registry@)),
        ),
{
    if let Some(target) = parse_request_target(head) {
        if target == String::from_str("/metrics") {
            let body = render_prometheus(registry.collect().as_slice());
            return http_response("200 OK", "text/plain; version=0.0.4", body.as_str());
        }
        if target == String::from_str("/stats") {
            let body = render_json(registry.collect().as_slice());
            return http_response("200 OK", "application/json", body.as_str());
        }
        if target == String::from_str("/") {
            return http_response("200 OK", "text/plain", "rfw ok\n");
        }
    }
    http_response("404 Not Found", "text/plain", "not found\n")
}

/// Answers the request whose head was read as the given bytes.
pub fn handle_request(head: &[u8], registry: &StatsRegistry) -> (r: String)
    ensures
        r@ == routed(
            request_target(lossy_text(head@)),
            crate::stats::reported(crate::stats::listed(registry@)),
        ),
        vstd::utf8::valid_utf8(head@) ==> r@ == routed(
            request_target(vstd::utf8::decode_utf8(head@)),
            crate::stats::reported(crate::stats::listed(registry@)),
        ),
{
    respond(decode_lossy(head).as_str(), registry)
}

/// Reads a quoted text whose opening quote has been read: what stands before the closing quote,
/// with each backslash taken away that stands before another character, and what follows.
pub open spec fn quoted(s: Seq<char>) -> Option<(Seq<char>, Seq<char>)>
    decreases s.len(),
{
    if s.len() == 0 {
        None
    } else if s[0] == '"' {
        Some((Seq::empty(), s.skip(1)))
    } else if s[0] == '\\' {
        if s.len() == 1 {
            None
        } else {
            match quoted(s.skip(2)) {
                Some((text, rest)) => Some((seq![s[1]] + text, rest)),
                None => None,
            }
        }
    } else {
        match quoted(s.skip(1)) {
            Some((text, rest)) => Some((seq![s[0]] + text, rest)),
            None => None,
        }
    }
}

proof fn lemma_escaped_front(label: Seq<char>)
    requires
        label.len() > 0,
    ensures
        escaped(label) == escaped_char(label[0]) + escaped(label.skip(1)),
    decreases label.len(),
{
    if label.len() == 1 {
        assert(label.drop_last() =~= Seq::<char>::empty());
        assert(label.skip(1) =~= Seq::<char>::empty());
        assert(escaped(label) =~= escaped_char(label[0]) + escaped(label.skip(1)));
    } else {
        let front = label.drop_last();
        let tail = label.skip(1);
        lemma_escaped_front(front);
        assert(tail.drop_last() =~= front.skip(1));
        assert(tail.last() == label.last());
        assert(escaped(label) =~= escaped_char(label[0]) + escaped(tail));
    }
}

/// A label that is escaped and put in quotes reads back as that label, and the quote behind it
/// is the one that ends it.
pub proof fn law_escaped_label_reads_back(label: Seq<char>, rest: Seq<char>)
    ensures
        quoted(escaped(label) + seq!['"'] + rest) == Some((label, rest)),
    decreases label.len(),
{
    let text = escaped(label) + seq!['"'] + rest;
    if label.len() == 0 {
        assert(text.skip(1) =~= rest);
        assert(label =~= Seq::<char>::empty());
    } else {
        let tail = label.skip(1);
        let shorter = escaped(tail) + seq!['"'] + rest;
        lemma_escaped_front(label);
        law_escaped_label_reads_back(tail, rest);
        assert(text =~= escaped_char(label[0]) + shorter);
        assert(text.skip(escaped_char(label[0]).len() as int) =~= shorter);
        assert(seq![label[0]] + tail =~= label);
    }
}

/// No two labels look the same when they are escaped.
pub proof fn law_escape_injective(a: Seq<char>, b: Seq<char>)
    requires
        escaped(a) == escaped(b),
    ensures
        a == b,
{
    law_escaped_label_reads_back(a, Seq::empty());
    law_escaped_label_reads_back(b, Seq::empty());
}

/// Whether `part` stands somewhere in `whole`.
pub open spec fn stands_in(part: Seq<char>, whole: Seq<char>) -> bool {
    exists|before: Seq<char>, behind: Seq<char>| whole == #[trigger] (before + part + behind)
}

/// Every forwarder has its line in each metric family.
pub proof fn law_every_forwarder_has_a_line(
    name: Seq<char>,
    snaps: Seq<crate::stats::Snapshot>,
    metric: Metric,
    i: int,
)
    requires
        0 <= i < snaps.len(),
    ensures
        stands_in(
            sample_line(name, snaps[i].label, metric.of(snaps[i])),
            sample_lines(name, snaps, metric),
        ),
    decreases snaps.len(),
{
    let line = sample_line(name, snaps[i].label, metric.of(snaps[i]));
    let front = sample_lines(name, snaps.drop_last(), metric);
    let whole = sample_lines(name, snaps, metric);
    if i == snaps.len() - 1 {
        assert(whole =~= front + line + Seq::<char>::empty());
    } else {
        law_every_forwarder_has_a_line(name, snaps.drop_last(), metric, i);
        let (before, behind) = choose|before: Seq<char>, behind: Seq<char>|
            front == #[trigger] (before + line + behind);
        let last = sample_line(name, snaps.last().label, metric.of(snaps.last()));
        assert(whole =~= before + line + (behind + last));
    }
}

/// A request for anything but the three known targets, or by another method than GET, is
/// answered with 404, whatever the counters are.
pub proof fn law_unknown_is_not_found(head: Seq<char>, snaps: Seq<crate::stats::Snapshot>)
    requires
        request_target(head) != Some("/metrics"@),
        request_target(head) != Some("/stats"@),
        request_target(head) != Some("/"@),
    ensures
        routed(request_target(head), snaps) == response(
            "404 Not Found"@,
            "text/plain"@,
            "not found\n"@,
        ),
{
}

/// Only a request whose first word is `GET` has a target.
pub proof fn law_only_get_has_a_target(head: Seq<char>)
    requires
        request_target(head) is Some,
    ensures
        crate::text::words(crate::text::first_line(head))[0] == "GET"@,
{
}

/// A request head that holds its blank line is done, whatever is read beyond it.
pub proof fn law_head_stays_done(head: Seq<u8>, more: Seq<u8>)
    requires
        has_blank_line(head),
    ensures
        has_blank_line(head + more),
{
    let i = choose|i: int| 0 <= i && i + 4 <= head.len() && #[trigger] ends_head_at(head, i);
    assert(ends_head_at(head + more, i));
}

/// A request head is done where carriage return, line feed, carriage return and line feed follow
/// one another, and nowhere else; or at 8192 bytes.
pub proof fn law_blank_line(bytes: Seq<u8>)
    ensures
        has_blank_line(bytes) <==> exists|k: int|
            0 <= k && k + 4 <= bytes.len() && #[trigger] bytes.subrange(k, k + 4) == seq![
                13u8,
                10u8,
                13u8,
                10u8,
            ],
        MAX_REQUEST_BYTES == 8192,
{
    let end = seq![13u8, 10u8, 13u8, 10u8];
    if has_blank_line(bytes) {
        let k = choose|k: int| 0 <= k && k + 4 <= bytes.len() && #[trigger] ends_head_at(bytes, k);
        assert(bytes.subrange(k, k + 4) =~= end);
    }
    if exists|k: int|
        0 <= k && k + 4 <= bytes.len() && #[trigger] bytes.subrange(k, k + 4) == end {
        let k = choose|k: int|
            0 <= k && k + 4 <= bytes.len() && #[trigger] bytes.subrange(k, k + 4) == end;
        let part = bytes.subrange(k, k + 4);
        assert(part[0] == bytes[k] && part[1] == bytes[k + 1] && part[2] == bytes[k + 2]
            && part[3] == bytes[k + 3]);
        assert(ends_head_at(bytes, k));
    }
}

/// The target of `GET`, a space, a word and another space is that word, whatever follows.
pub proof fn law_get_target(target: Seq<char>, rest: Seq<char>)
    requires
        target.len() > 0,
        forall|i: int| 0 <= i < target.len() ==> !crate::text::is_space(#[trigger] target[i]),
    ensures
        request_target("GET"@ + seq![' '] + target + seq![' '] + rest) == Some(target),
{
    reveal_strlit("GET");
    let get = "GET"@;
    let head = get + seq![' '] + target + seq![' '] + rest;
    let tail = crate::text::first_line(rest);
    let line = get.push(' ') + (target.push(' ') + tail);
    lemma_first_line_of(get + seq![' '] + target + seq![' '], rest);
    assert(crate::text::first_line(head) =~= line);
    crate::text::law_words_at(get, ' ', target.push(' ') + tail);
    crate::text::law_words_at(target, ' ', tail);
    crate::text::law_one_word(get);
    crate::text::law_one_word(target);
    assert(crate::text::words(line) =~= seq![get, target] + crate::text::words(tail));
    assert(crate::text::words(line)[0] == get);
    assert(crate::text::words(line)[1] == target);
}

/// Text without a line feed in front of another belongs to its first line.
proof fn lemma_first_line_of(front: Seq<char>, rest: Seq<char>)
    requires
        forall|i: int| 0 <= i < front.len() ==> #[trigger] front[i] != '\n',
    ensures
        crate::text::first_line(front + rest) == front + crate::text::first_line(rest),
    decreases front.len(),
{
    let whole = front + rest;
    if front.len() > 0 {
        let tail = front.drop_first();
        assert forall|i: int| 0 <= i < tail.len() implies #[trigger] tail[i] != '\n' by {
            assert(front[i + 1] != '\n');
        }
        lemma_first_line_of(tail, rest);
        assert(whole.drop_first() =~= tail + rest);
        assert(front[0] != '\n');
        assert(seq![front[0]] + (tail + crate::text::first_line(rest)) =~= front
            + crate::text::first_line(rest));
    } else {
        assert(whole =~= rest);
        assert(front + crate::text::first_line(rest) =~= crate::text::first_line(rest));
    }
}

/// A request has a target just when its first line has two words, of which the first is `GET`;
/// the target is the second.
pub proof fn law_request_target(head: Seq<char>)
    ensures
        ({
            let line = crate::text::words(crate::text::first_line(head));
            &&& line.len() < 2 ==> request_target(head) is None
            &&& line.len() >= 1 && line[0] != "GET"@ ==> request_target(head) is None
            &&& line.len() >= 2 && line[0] == "GET"@ ==> request_target(head) == Some(line[1])
        }),
{
}

/// A response is its status, its headers, of which the length is that of the body in bytes, a
/// blank line and the body.
pub proof fn law_response(status: Seq<char>, content_type: Seq<char>, body: Seq<char>)
    ensures
        response(status, content_type, body) == "HTTP/1.1 "@ + status + "\r\nContent-Type: "@
            + content_type + "\r\nContent-Length: "@ + crate::text::decimal(
            vstd::utf8::encode_utf8(body).len(),
        ) + "\r\nConnection: close\r\n\r\n"@ + body,
{
}

/// Escaping goes character by character: a backslash and a quote get a backslash before them, and
/// everything else stays.
pub proof fn law_escape_by_character(first: Seq<char>, then: Seq<char>, c: char)
    ensures
        escaped(first + then) == escaped(first) + escaped(then),
        escaped(seq!['\\']) == seq!['\\', '\\'],
        escaped(seq!['"']) == seq!['\\', '"'],
        c != '\\' && c != '"' ==> escaped(seq![c]) == seq![c],
        escaped(Seq::empty()) == Seq::<char>::empty(),
    decreases then.len(),
{
    reveal_with_fuel(escaped, 2);
    assert(seq!['\\'].drop_last() =~= Seq::<char>::empty());
    assert(seq!['"'].drop_last() =~= Seq::<char>::empty());
    assert(seq![c].drop_last() =~= Seq::<char>::empty());
    assert(escaped(seq!['\\']) =~= seq!['\\', '\\']);
    assert(escaped(seq!['"']) =~= seq!['\\', '"']);
    assert(c != '\\' && c != '"' ==> escaped(seq![c]) =~= seq![c]);
    if then.len() > 0 {
        law_escape_by_character(first, then.drop_last(), c);
        assert((first + then).drop_last() =~= first + then.drop_last());
        assert(escaped(first + then) =~= escaped(first) + escaped(then));
    } else {
        assert(first + then =~= first);
        assert(escaped(first) + escaped(then) =~= escaped(first));
    }
}

/// Each metric is the figure that it is named after.
pub proof fn law_metrics_are_their_figures(s: crate::stats::Snapshot)
    ensures
        Metric::BytesSent.of(s) == s.bytes_sent,
        Metric::BytesReceived.of(s) == s.bytes_received,
        Metric::SentRate.of(s) == s.rate_sent_bps,
        Metric::ReceivedRate.of(s) == s.rate_recv_bps,
        Metric::ActiveConnections.of(s) == s.active_connections,
{
}

/// A family has one line for each forwarder, in order, with that forwarder's label and figure.
pub proof fn law_family_lines(
    name: Seq<char>,
    first: Seq<crate::stats::Snapshot>,
    then: Seq<crate::stats::Snapshot>,
    s: crate::stats::Snapshot,
    metric: Metric,
)
    ensures
        sample_lines(name, first + then, metric) == sample_lines(name, first, metric)
            + sample_lines(name, then, metric),
        sample_lines(name, seq![s], metric) == name + "{label=\""@ + escaped(s.label) + "\"} "@
            + crate::text::decimal(metric.of(s) as nat) + "\n"@,
        sample_lines(name, Seq::empty(), metric) == Seq::<char>::empty(),
    decreases then.len(),
{
    reveal_with_fuel(sample_lines, 2);
    assert(seq![s].drop_last() =~= Seq::<crate::stats::Snapshot>::empty());
    let line = name + "{label=\""@ + escaped(s.label) + "\"} "@ + crate::text::decimal(
        metric.of(s) as nat,
    ) + "\n"@;
    assert(sample_lines(name, seq![s], metric) =~= line);
    if then.len() > 0 {
        law_family_lines(name, first, then.drop_last(), s, metric);
        assert((first + then).drop_last() =~= first + then.drop_last());
        assert(sample_lines(name, first + then, metric) =~= sample_lines(name, first, metric)
            + sample_lines(name, then, metric));
    } else {
        assert(first + then =~= first);
        assert(sample_lines(name, first, metric) + sample_lines(name, then, metric)
            =~= sample_lines(name, first, metric));
    }
}

/// The text for Prometheus holds five families: the lifetime totals as counters, the rates and the
/// connections as gauges, each with the figures of its own metric.
pub proof fn law_prometheus_families(snaps: Seq<crate::stats::Snapshot>)
    ensures
        prometheus(snaps)
            == "# HELP "@ + "rfw_bytes_sent_total"@ + " "@
            + "Lifetime bytes forwarded client->remote."@ + "\n# TYPE "@
            + "rfw_bytes_sent_total"@ + " "@ + "counter"@ + "\n"@ + sample_lines(
            "rfw_bytes_sent_total"@,
            snaps,
            Metric::BytesSent,
        ) + ("# HELP "@ + "rfw_bytes_received_total"@ + " "@
            + "Lifetime bytes forwarded remote->client."@ + "\n# TYPE "@
            + "rfw_bytes_received_total"@ + " "@ + "counter"@ + "\n"@ + sample_lines(
            "rfw_bytes_received_total"@,
            snaps,
            Metric::BytesReceived,
        )) + ("# HELP "@ + "rfw_bytes_sent_rate_bps"@ + " "@
            + "Current send throughput (bytes/sec)."@ + "\n# TYPE "@
            + "rfw_bytes_sent_rate_bps"@ + " "@ + "gauge"@ + "\n"@ + sample_lines(
            "rfw_bytes_sent_rate_bps"@,
            snaps,
            Metric::SentRate,
        )) + ("# HELP "@ + "rfw_bytes_received_rate_bps"@ + " "@
            + "Current receive throughput (bytes/sec)."@ + "\n# TYPE "@
            + "rfw_bytes_received_rate_bps"@ + " "@ + "gauge"@ + "\n"@ + sample_lines(
            "rfw_bytes_received_rate_bps"@,
            snaps,
            Metric::ReceivedRate,
        )) + ("# HELP "@ + "rfw_active_connections"@ + " "@
            + "Currently active connections."@ + "\n# TYPE "@ + "rfw_active_connections"@ + " "@
            + "gauge"@ + "\n"@ + sample_lines(
            "rfw_active_connections"@,
            snaps,
            Metric::ActiveConnections,
        )),
{
}

/// The JSON object of a forwarder holds its label and its own five figures, each under its name.
pub proof fn law_json_object(s: crate::stats::Snapshot)
    ensures
        json_object(s) == "{\"label\":\""@ + escaped(s.label) + "\",\"bytes_sent\":"@
            + crate::text::decimal(s.bytes_sent as nat) + ",\"bytes_received\":"@
            + crate::text::decimal(s.bytes_received as nat) + ",\"active_connections\":"@
            + crate::text::decimal(s.active_connections as nat) + ",\"rate_sent_bps\":"@
            + crate::text::decimal(s.rate_sent_bps as nat) + ",\"rate_recv_bps\":"@
            + crate::text::decimal(s.rate_recv_bps as nat) + "}"@,
{
}

/// The JSON array holds the object of each forwarder, in order, with one comma between neighbours:
/// the text of a list is that of any front part, a comma, and that of the rest.
pub proof fn law_json_array(
    first: Seq<crate::stats::Snapshot>,
    then: Seq<crate::stats::Snapshot>,
    s: crate::stats::Snapshot,
)
    ensures
        first.len() > 0 && then.len() > 0 ==> json_objects(first + then) == json_objects(first)
            + seq![','] + json_objects(then),
        json_objects(seq![s]) == json_object(s),
        json_objects(Seq::empty()) == Seq::<char>::empty(),
        json(first) == seq!['['] + json_objects(first) + seq![']'],
    decreases then.len(),
{
    if first.len() > 0 && then.len() > 0 {
        let front = then.drop_last();
        let whole = first + then;
        assert(whole.drop_last() =~= first + front);
        assert(whole.last() == then.last());
        if then.len() == 1 {
            assert(first + front =~= first);
            assert(then =~= seq![then.last()]);
        } else {
            law_json_array(first, front, s);
        }
        assert(json_objects(whole) =~= json_objects(first) + seq![','] + json_objects(then));
    }
}

/// Every forwarder's object stands in the JSON text, between what comes before it and what comes
/// behind it in the list.
pub proof fn law_every_forwarder_has_an_object(snaps: Seq<crate::stats::Snapshot>, i: int)
    requires
        0 <= i < snaps.len(),
    ensures
        json(snaps) == seq!['['] + (if i == 0 {
            Seq::empty()
        } else {
            json_objects(snaps.take(i)) + seq![',']
        }) + json_object(snaps[i]) + (if i == snaps.len() - 1 {
            Seq::empty()
        } else {
            seq![','] + json_objects(snaps.skip(i + 1))
        }) + seq![']'],
        stands_in(json_object(snaps[i]), json(snaps)),
{
    let one = seq![snaps[i]];
    let before = snaps.take(i);
    let behind = snaps.skip(i + 1);
    law_json_array(before, one, snaps[i]);
    law_json_array(before + one, behind, snaps[i]);
    law_json_array(snaps, behind, snaps[i]);
    assert(before + one + behind =~= snaps);
    if i == 0 {
        assert(before + one =~= one);
    }
    if i == snaps.len() - 1 {
        assert(before + one =~= snaps);
    }
    let left = seq!['['] + (if i == 0 {
        Seq::empty()
    } else {
        json_objects(before) + seq![',']
    });
    let right = (if i == snaps.len() - 1 {
        Seq::empty()
    } else {
        seq![','] + json_objects(behind)
    }) + seq![']'];
    assert(json(snaps) =~= left + json_object(snaps[i]) + right);
    assert(left + json_object(snaps[i]) + right =~= seq!['['] + (if i == 0 {
        Seq::empty()
    } else {
        json_objects(snaps.take(i)) + seq![',']
    }) + json_object(snaps[i]) + (if i == snaps.len() - 1 {
        Seq::empty()
    } else {
        seq![','] + json_objects(snaps.skip(i + 1))
    }) + seq![']']);
}

/// Three targets are served, each with its own content; all else is not found.
pub proof fn law_routes(target: Option<Seq<char>>, snaps: Seq<crate::stats::Snapshot>)
    ensures
        target == Some("/metrics"@) ==> routed(target, snaps) == response(
            "200 OK"@,
            "text/plain; version=0.0.4"@,
            prometheus(snaps),
        ),
        target == Some("/stats"@) ==> routed(target, snaps) == response(
            "200 OK"@,
            "application/json"@,
            json(snaps),
        ),
        target == Some("/"@) ==> routed(target, snaps) == response(
            "200 OK"@,
            "text/plain"@,
            "rfw ok\n"@,
        ),
        target != Some("/metrics"@) && target != Some("/stats"@) && target != Some("/"@)
            ==> routed(target, snaps) == response(
            "404 Not Found"@,
            "text/plain"@,
            "not found\n"@,
        ),
{
    reveal_strlit("/metrics");
    reveal_strlit("/stats");
    reveal_strlit("/");
    assert("/metrics"@.len() == 8);
    assert("/stats"@.len() == 6);
    assert("/"@.len() == 1);
}

} // verus!
