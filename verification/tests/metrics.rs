use rfw::metrics::{
    absorb, escape, handle_request, http_response, parse_request_target, render_json,
    render_prometheus, respond, MAX_REQUEST_BYTES,
};
use rfw::stats::{StatsRegistry, StatsSnapshot};

fn snap() -> StatsSnapshot {
    StatsSnapshot {
        label: "a:1->b:2".to_string(),
        bytes_sent: 100,
        bytes_received: 200,
        active_connections: 1,
        rate_sent_bps: 10,
        rate_recv_bps: 20,
    }
}

fn registry() -> StatsRegistry {
    let mut registry = StatsRegistry::new();
    let id = registry.register("a:1->b:2");
    let stats = registry.stats_mut(id).unwrap();
    stats.add_sent(100);
    stats.add_received(200);
    stats.inc_connections();
    registry
}

#[test]
fn parse_get_target() {
    assert_eq!(
        parse_request_target("GET /metrics HTTP/1.1\r\nHost: x\r\n\r\n").as_deref(),
        Some("/metrics")
    );
    assert_eq!(parse_request_target("GET / HTTP/1.1").as_deref(), Some("/"));
    assert_eq!(parse_request_target("POST /x HTTP/1.1"), None);
    assert_eq!(parse_request_target(""), None);
}

#[test]
fn the_target_is_the_second_word_of_the_first_line() {
    for head in [
        "GET",
        "GET ",
        "  GET\t/a\u{3000}HTTP/1.1",
        "GET\n/a",
        "\nGET /a",
        "\r\nGET /a",
        "get /a",
        "GETX /a",
        "GET /a\rb",
        "GET /a\u{a0}b c",
        "GET /ä\u{200b} x",
        " \t ",
    ] {
        let expected = head.lines().next().and_then(|line| {
            let mut parts = line.split_whitespace();
            if parts.next()? != "GET" {
                return None;
            }
            parts.next().map(|s| s.to_string())
        });
        assert_eq!(parse_request_target(head), expected, "{head:?}");
    }
}

#[test]
fn white_space_is_unicode_white_space() {
    for n in 0..=0x10ffff_u32 {
        if let Some(c) = char::from_u32(n) {
            assert_eq!(rfw::text::is_space_char(c), c.is_whitespace());
        }
    }
}

#[test]
fn prometheus_has_cumulative() {
    let out = render_prometheus(&[snap()]);
    assert!(out.contains("# TYPE rfw_bytes_sent_total counter"));
    assert!(out.contains("rfw_bytes_sent_total{label=\"a:1->b:2\"} 100"));
    assert!(out.contains("rfw_bytes_received_total{label=\"a:1->b:2\"} 200"));
    assert!(out.contains("rfw_active_connections{label=\"a:1->b:2\"} 1"));
}

#[test]
fn prometheus_text_in_full() {
    let mut second = snap();
    second.label = "q\"\\".to_string();
    second.bytes_sent = 18446744073709551615;
    let out = render_prometheus(&[snap(), second]);
    let expected = "# HELP rfw_bytes_sent_total Lifetime bytes forwarded client->remote.\n\
                    # TYPE rfw_bytes_sent_total counter\n\
                    rfw_bytes_sent_total{label=\"a:1->b:2\"} 100\n\
                    rfw_bytes_sent_total{label=\"q\\\"\\\\\"} 18446744073709551615\n\
                    # HELP rfw_bytes_received_total Lifetime bytes forwarded remote->client.\n\
                    # TYPE rfw_bytes_received_total counter\n\
                    rfw_bytes_received_total{label=\"a:1->b:2\"} 200\n\
                    rfw_bytes_received_total{label=\"q\\\"\\\\\"} 200\n\
                    # HELP rfw_bytes_sent_rate_bps Current send throughput (bytes/sec).\n\
                    # TYPE rfw_bytes_sent_rate_bps gauge\n\
                    rfw_bytes_sent_rate_bps{label=\"a:1->b:2\"} 10\n\
                    rfw_bytes_sent_rate_bps{label=\"q\\\"\\\\\"} 10\n\
                    # HELP rfw_bytes_received_rate_bps Current receive throughput (bytes/sec).\n\
                    # TYPE rfw_bytes_received_rate_bps gauge\n\
                    rfw_bytes_received_rate_bps{label=\"a:1->b:2\"} 20\n\
                    rfw_bytes_received_rate_bps{label=\"q\\\"\\\\\"} 20\n\
                    # HELP rfw_active_connections Currently active connections.\n\
                    # TYPE rfw_active_connections gauge\n\
                    rfw_active_connections{label=\"a:1->b:2\"} 1\n\
                    rfw_active_connections{label=\"q\\\"\\\\\"} 1\n";
    assert_eq!(out, expected);
}

#[test]
fn json_has_fields() {
    let out = render_json(&[snap()]);
    assert!(out.starts_with('[') && out.ends_with(']'));
    assert!(out.contains("\"bytes_sent\":100"));
    assert!(out.contains("\"bytes_received\":200"));
    assert!(out.contains("\"rate_recv_bps\":20"));
}

#[test]
fn json_text_in_full() {
    assert_eq!(render_json(&[]), "[]");
    let one = "{\"label\":\"a:1->b:2\",\"bytes_sent\":100,\"bytes_received\":200,\
               \"active_connections\":1,\"rate_sent_bps\":10,\"rate_recv_bps\":20}";
    assert_eq!(render_json(&[snap()]), format!("[{one}]"));
    assert_eq!(
        render_json(&[snap(), snap(), snap()]),
        format!("[{one},{one},{one}]")
    );
}

#[test]
fn labels_are_escaped() {
    for label in ["", "plain", "\"", "\\", "\\\"", "a\"b\\c\\\\d\"\"", "ü\n"] {
        let expected = label.replace('\\', "\\\\").replace('"', "\\\"");
        assert_eq!(escape(label), expected);
    }
}

#[test]
fn responses_tell_the_length_of_the_body_in_bytes() {
    assert_eq!(
        http_response("200 OK", "text/plain", "rfw ok\n"),
        "HTTP/1.1 200 OK\r\nContent-Type: text/plain\r\nContent-Length: 7\r\n\
         Connection: close\r\n\r\nrfw ok\n"
    );
    assert!(http_response("200 OK", "x", "äöü→").contains("Content-Length: 9\r\n"));
    assert!(http_response("200 OK", "x", "").contains("Content-Length: 0\r\n"));
}

#[test]
fn routes() {
    let registry = registry();
    let snaps = registry.collect();
    assert_eq!(
        respond("GET /metrics HTTP/1.1\r\n\r\n", &registry),
        http_response("200 OK", "text/plain; version=0.0.4", &render_prometheus(&snaps))
    );
    assert_eq!(
        respond("GET /stats HTTP/1.1\r\n\r\n", &registry),
        http_response("200 OK", "application/json", &render_json(&snaps))
    );
    assert_eq!(
        respond("GET / HTTP/1.1\r\n\r\n", &registry),
        http_response("200 OK", "text/plain", "rfw ok\n")
    );
    let not_found = http_response("404 Not Found", "text/plain", "not found\n");
    for head in ["GET /x", "GET /metrics/", "GET /stats?a", "POST /metrics", "GET", ""] {
        assert_eq!(respond(head, &registry), not_found);
    }
}

#[test]
fn requests_are_decoded_leniently() {
    let registry = registry();
    assert_eq!(
        handle_request(b"GET /stats HTTP/1.1\r\n\r\n", &registry),
        respond("GET /stats", &registry)
    );
    assert_eq!(
        handle_request(b"GET /stats \xff\xfe\r\n\r\n", &registry),
        respond("GET /stats", &registry)
    );
    let not_found = respond("", &registry);
    assert_eq!(handle_request(b"\xffGET /stats", &registry), not_found);
    assert_eq!(handle_request(b"GET\xff /stats", &registry), not_found);
    assert_eq!(handle_request(b"GET /stats\xff", &registry), not_found);
    // U+00A0 in UTF-8 separates words; its bytes taken one by one would not.
    assert_eq!(
        handle_request(b"GET\xc2\xa0/stats", &registry),
        respond("GET /stats", &registry)
    );
}

#[test]
fn a_head_is_read_up_to_the_blank_line() {
    let mut head = Vec::new();
    assert!(!absorb(&mut head, b"GET / HTTP/1.1\r\nHost: x\r"));
    assert!(!absorb(&mut head, b"\n"));
    assert!(absorb(&mut head, b"\r\nrest"));
    assert_eq!(head, b"GET / HTTP/1.1\r\nHost: x\r\n\r\nrest");

    let mut head = Vec::new();
    assert!(absorb(&mut head, b""));
    let mut head = b"GET".to_vec();
    assert!(absorb(&mut head, b""));
    assert_eq!(head, b"GET");

    let mut head = Vec::new();
    assert!(!absorb(&mut head, &vec![b'x'; MAX_REQUEST_BYTES - 1]));
    assert!(absorb(&mut head, b"x"));
}
