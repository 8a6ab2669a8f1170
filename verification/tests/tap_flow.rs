//! End-to-end flows: subscribe, engage, emit, observe.

use tap_core::event::{Eos, TapEvent};
use tap_core::matching::{Inspection, MatchSpec, RequestMeta};
use tap_core::registry::Registry;
use tap_core::server::{ObserveRequest, ResponseStream, Server};
use tap_core::service::{Layer, Stack};
use tap_core::subs::{PollOutcome, SubTable};

fn inspection() -> Inspection {
    Inspection {
        outbound: false,
        source: Some("10.0.0.1:4143".to_string()),
        source_tls: "disabled".to_string(),
        destination: Some("10.0.0.2:8080".to_string()),
        destination_tls: "disabled".to_string(),
        destination_labels: Some(vec![("app".to_string(), "web".to_string())]),
    }
}

fn request(path: &str) -> RequestMeta {
    RequestMeta {
        method: "GET".to_string(),
        scheme: Some("http".to_string()),
        authority: "web.example".to_string(),
        path: path.to_string(),
    }
}

fn subscribe(
    server: &mut Server,
    table: &mut SubTable,
    registry: &mut Registry,
    limit: u32,
    spec: MatchSpec,
) -> ResponseStream {
    server
        .observe(
            table,
            registry,
            ObserveRequest { limit, match_spec: Some(spec) },
        )
        .ok()
        .expect("valid subscribe request")
}

fn drain(stream: &mut ResponseStream, table: &mut SubTable) -> (Vec<TapEvent>, bool) {
    let mut events = Vec::new();
    loop {
        match stream.poll(table) {
            PollOutcome::Event(e) => events.push(e),
            PollOutcome::Pending => return (events, false),
            PollOutcome::End => return (events, true),
        }
    }
}

#[test]
fn exchange_emits_open_response_and_end() {
    let mut table = SubTable::new();
    let mut registry = Registry::new();
    let mut server = Server::new();
    let layer = Layer::new();
    let stack: Stack = layer.bind();
    let mut svc = stack.make(inspection());

    let mut stream = subscribe(&mut server, &mut table, &mut registry, 5, MatchSpec::All);
    svc.poll_ready(&mut table, &mut registry);

    let (_req_body, exchange) = svc.call(&mut table, &request("/a"), 100);
    assert_eq!(exchange.n_taps(), 1);

    let mut body = exchange.respond(&mut table, 200, 150);
    body.data(&mut table, 5, false, 160);
    body.eos(&mut table, 400);

    let (events, _) = drain(&mut stream, &mut table);
    assert_eq!(events.len(), 3);
    match &events[0] {
        TapEvent::RequestOpen { id, method, path, authority, .. } => {
            assert_eq!(id.stream, 0);
            assert_eq!(method, "GET");
            assert_eq!(path, "/a");
            assert_eq!(authority, "web.example");
        }
        _ => panic!("first event must be RequestOpen"),
    }
    match &events[1] {
        TapEvent::ResponseOpen { id, since_request_init, http_status, .. } => {
            assert_eq!(id.stream, 0);
            assert_eq!(*since_request_init, 50);
            assert_eq!(*http_status, 200);
        }
        _ => panic!("second event must be ResponseOpen"),
    }
    match &events[2] {
        TapEvent::ResponseEnd {
            id,
            since_request_init,
            since_response_init,
            response_bytes,
            eos,
            ..
        } => {
            assert_eq!(id.stream, 0);
            assert_eq!(*since_request_init, 300);
            assert_eq!(*since_response_init, Some(250));
            assert_eq!(*response_bytes, 5);
            assert_eq!(*eos, Eos::CleanEnd);
        }
        _ => panic!("third event must be ResponseEnd"),
    }
}

#[test]
fn body_byte_count_sums_three_frames() {
    let mut table = SubTable::new();
    let mut registry = Registry::new();
    let mut server = Server::new();
    let mut svc = Layer::new().bind().make(inspection());

    let mut stream = subscribe(&mut server, &mut table, &mut registry, 5, MatchSpec::All);
    svc.poll_ready(&mut table, &mut registry);

    let (_rb, exchange) = svc.call(&mut table, &request("/sum"), 0);
    let mut body = exchange.respond(&mut table, 200, 1);
    body.data(&mut table, 3, false, 1);
    body.data(&mut table, 11, false, 1);
    // The third frame's poll also reports end-of-stream: the terminal
    // event follows immediately.
    body.data(&mut table, 9, true, 2);

    let (events, _) = drain(&mut stream, &mut table);
    assert_eq!(events.len(), 3);
    match &events[2] {
        TapEvent::ResponseEnd { response_bytes, eos, .. } => {
            assert_eq!(*response_bytes, 3 + 11 + 9);
            assert_eq!(*eos, Eos::CleanEnd);
        }
        _ => panic!("expected a terminal event"),
    }
}

#[test]
fn limit_one_admits_exactly_one_of_two_requests() {
    let mut table = SubTable::new();
    let mut registry = Registry::new();
    let mut server = Server::new();
    let mut svc = Layer::new().bind().make(inspection());

    let mut stream = subscribe(&mut server, &mut table, &mut registry, 1, MatchSpec::All);
    svc.poll_ready(&mut table, &mut registry);

    let (_rb1, ex1) = svc.call(&mut table, &request("/one"), 10);
    let (_rb2, ex2) = svc.call(&mut table, &request("/two"), 11);
    assert_eq!(ex1.n_taps() + ex2.n_taps(), 1);
    assert_eq!(ex1.n_taps(), 1);

    let mut body1 = ex1.respond(&mut table, 200, 20);
    body1.eos(&mut table, 30);
    let mut body2 = ex2.respond(&mut table, 200, 21);
    body2.eos(&mut table, 31);

    // The next readiness step prunes the exhausted handle, releasing its
    // producer end, so the stream ends after its single exchange.
    svc.poll_ready(&mut table, &mut registry);

    let (events, ended) = drain(&mut stream, &mut table);
    assert_eq!(events.len(), 3);
    assert!(matches!(events[0], TapEvent::RequestOpen { .. }));
    assert!(matches!(events[1], TapEvent::ResponseOpen { .. }));
    assert!(matches!(events[2], TapEvent::ResponseEnd { .. }));
    assert!(ended);
}

#[test]
fn dropped_stream_is_pruned_and_engages_nothing() {
    let mut table = SubTable::new();
    let mut registry = Registry::new();
    let mut server = Server::new();
    let mut svc = Layer::new().bind().make(inspection());

    let stream = subscribe(&mut server, &mut table, &mut registry, 10, MatchSpec::All);
    svc.poll_ready(&mut table, &mut registry);
    assert_eq!(svc.n_active(), 1);

    stream.disconnect(&mut table);
    svc.poll_ready(&mut table, &mut registry);
    assert_eq!(svc.n_active(), 0);

    let (_rb, exchange) = svc.call(&mut table, &request("/after"), 5);
    assert_eq!(exchange.n_taps(), 0);
}

#[test]
fn inner_failure_emits_protocol_error_terminal() {
    let mut table = SubTable::new();
    let mut registry = Registry::new();
    let mut server = Server::new();
    let mut svc = Layer::new().bind().make(inspection());

    let mut stream = subscribe(&mut server, &mut table, &mut registry, 3, MatchSpec::All);
    svc.poll_ready(&mut table, &mut registry);

    let (_rb, exchange) = svc.call(&mut table, &request("/boom"), 7);
    assert_eq!(exchange.n_taps(), 1);
    exchange.fail(&mut table, 2, 9);

    let (events, _) = drain(&mut stream, &mut table);
    assert_eq!(events.len(), 2);
    match &events[1] {
        TapEvent::ResponseEnd { since_response_init, response_bytes, eos, .. } => {
            assert_eq!(*since_response_init, None);
            assert_eq!(*response_bytes, 0);
            assert_eq!(*eos, Eos::ProtocolError(2));
        }
        _ => panic!("expected a terminal event"),
    }
}

#[test]
fn abandoned_body_emits_cancellation_terminal() {
    let mut table = SubTable::new();
    let mut registry = Registry::new();
    let mut server = Server::new();
    let mut svc = Layer::new().bind().make(inspection());

    let mut stream = subscribe(&mut server, &mut table, &mut registry, 3, MatchSpec::All);
    svc.poll_ready(&mut table, &mut registry);

    let (_rb, exchange) = svc.call(&mut table, &request("/gone"), 7);
    let mut body = exchange.respond(&mut table, 200, 8);
    body.data(&mut table, 4, false, 9);
    body.cancel(&mut table, 12);

    let (events, _) = drain(&mut stream, &mut table);
    assert_eq!(events.len(), 3);
    match &events[2] {
        TapEvent::ResponseEnd { response_bytes, eos, .. } => {
            assert_eq!(*response_bytes, 4);
            assert_eq!(*eos, Eos::Cancelled);
        }
        _ => panic!("expected a terminal event"),
    }
}

#[test]
fn filter_engages_only_matching_requests() {
    let mut table = SubTable::new();
    let mut registry = Registry::new();
    let mut server = Server::new();
    let mut svc = Layer::new().bind().make(inspection());

    let _stream = subscribe(
        &mut server,
        &mut table,
        &mut registry,
        5,
        MatchSpec::Path("/wanted".to_string()),
    );
    svc.poll_ready(&mut table, &mut registry);

    let (_r1, ex1) = svc.call(&mut table, &request("/other"), 1);
    assert_eq!(ex1.n_taps(), 0);
    let (_r2, ex2) = svc.call(&mut table, &request("/wanted"), 2);
    assert_eq!(ex2.n_taps(), 1);
    ex2.fail(&mut table, 0, 3);
}

#[test]
fn interleaved_exchanges_keep_per_stream_order() {
    let mut table = SubTable::new();
    let mut registry = Registry::new();
    let mut server = Server::new();
    let mut svc = Layer::new().bind().make(inspection());

    let mut stream = subscribe(&mut server, &mut table, &mut registry, 4, MatchSpec::All);
    svc.poll_ready(&mut table, &mut registry);

    // Two concurrent exchanges of one subscription, their events
    // interleaving freely in the shared sink.
    let (_ra, ex_a) = svc.call(&mut table, &request("/a"), 1);
    let (_rb, ex_b) = svc.call(&mut table, &request("/b"), 2);
    let mut body_a = ex_a.respond(&mut table, 200, 3);
    let mut body_b = ex_b.respond(&mut table, 500, 4);
    body_b.fail(&mut table, 7, 5);
    body_a.eos(&mut table, 6);

    let (events, _) = drain(&mut stream, &mut table);
    assert_eq!(events.len(), 6);
    for stream_id in [0u64, 1u64] {
        let kinds: Vec<u8> = events
            .iter()
            .filter(|e| {
                (match e {
                    TapEvent::RequestOpen { id, .. } => id.stream,
                    TapEvent::ResponseOpen { id, .. } => id.stream,
                    TapEvent::ResponseEnd { id, .. } => id.stream,
                }) == stream_id
            })
            .map(|e| match e {
                TapEvent::RequestOpen { .. } => 0u8,
                TapEvent::ResponseOpen { .. } => 1u8,
                TapEvent::ResponseEnd { .. } => 2u8,
            })
            .collect();
        assert_eq!(kinds, vec![0u8, 1u8, 2u8]);
    }
}

#[test]
fn two_subscriptions_both_observe_one_request() {
    let mut table = SubTable::new();
    let mut registry = Registry::new();
    let mut server = Server::new();
    let mut svc = Layer::new().bind().make(inspection());

    let mut s1 = subscribe(&mut server, &mut table, &mut registry, 5, MatchSpec::All);
    let mut s2 = subscribe(&mut server, &mut table, &mut registry, 5, MatchSpec::All);
    svc.poll_ready(&mut table, &mut registry);
    assert_eq!(svc.n_active(), 2);

    let (_rb, exchange) = svc.call(&mut table, &request("/both"), 4);
    assert_eq!(exchange.n_taps(), 2);
    let mut body = exchange.respond(&mut table, 404, 5);
    body.eos(&mut table, 6);

    let (e1, _) = drain(&mut s1, &mut table);
    let (e2, _) = drain(&mut s2, &mut table);
    assert_eq!(e1.len(), 3);
    assert_eq!(e2.len(), 3);
    match (&e1[0], &e2[0]) {
        (TapEvent::RequestOpen { id: a, .. }, TapEvent::RequestOpen { id: b, .. }) => {
            assert_ne!(a.base, b.base);
        }
        _ => panic!("both streams must start with RequestOpen"),
    }
}
