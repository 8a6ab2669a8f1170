//! Subscription validation, budget accounting, the bounded sink, filters,
//! and the small composition stages.

use tap_core::event::{elapsed, EndpointMeta, EventMeta, StreamId, TapEvent};
use tap_core::insert_target;
use tap_core::matching::{Inspection, InvalidMatch, Match, MatchSpec, RequestMeta};
use tap_core::optional::{Either, Optional};
use tap_core::registry::Registry;
use tap_core::server::{ObserveRequest, Server, TapError};
use tap_core::subs::{PollOutcome, SubTable};

fn inspection() -> Inspection {
    Inspection {
        outbound: true,
        source: None,
        source_tls: "no_identity".to_string(),
        destination: Some("10.1.1.1:80".to_string()),
        destination_tls: "disabled".to_string(),
        destination_labels: None,
    }
}

fn request(path: &str) -> RequestMeta {
    RequestMeta {
        method: "POST".to_string(),
        scheme: None,
        authority: "svc.local".to_string(),
        path: path.to_string(),
    }
}

fn meta() -> EventMeta {
    EventMeta {
        outbound: true,
        source: None,
        source_meta: EndpointMeta { labels: Vec::new() },
        destination: None,
        destination_meta: None,
    }
}

fn req_open(base: u32, stream: u64) -> TapEvent {
    TapEvent::RequestOpen {
        id: StreamId { base, stream },
        meta: meta(),
        method: "GET".to_string(),
        scheme: None,
        authority: String::new(),
        path: "/".to_string(),
    }
}

#[test]
fn zero_limit_is_rejected_and_registers_nothing() {
    let mut table = SubTable::new();
    let mut registry = Registry::new();
    let mut server = Server::new();
    let r = server.observe(
        &mut table,
        &mut registry,
        ObserveRequest { limit: 0, match_spec: Some(MatchSpec::All) },
    );
    match r {
        Err(TapError::InvalidArgument(m)) => assert_eq!(m, "limit must be positive"),
        Ok(_) => panic!("a zero limit must be rejected"),
    }
    assert_eq!(table.n_subs(), 0);
    assert_eq!(registry.drain().len(), 0);
}

#[test]
fn unbounded_sentinel_limit_is_rejected() {
    let mut table = SubTable::new();
    let mut registry = Registry::new();
    let mut server = Server::new();
    let r = server.observe(
        &mut table,
        &mut registry,
        ObserveRequest { limit: u32::MAX, match_spec: Some(MatchSpec::All) },
    );
    match r {
        Err(TapError::InvalidArgument(m)) => assert_eq!(m, "limit is too large"),
        Ok(_) => panic!("the unbounded sentinel must be rejected"),
    }
    assert_eq!(table.n_subs(), 0);
}

#[test]
fn missing_match_is_rejected() {
    let mut table = SubTable::new();
    let mut registry = Registry::new();
    let mut server = Server::new();
    let r = server.observe(
        &mut table,
        &mut registry,
        ObserveRequest { limit: 4, match_spec: None },
    );
    match r {
        Err(TapError::InvalidArgument(m)) => assert_eq!(m, "no match specified"),
        Ok(_) => panic!("a missing match must be rejected"),
    }
    assert_eq!(table.n_subs(), 0);
}

#[test]
fn ill_formed_match_is_rejected() {
    let mut table = SubTable::new();
    let mut registry = Registry::new();
    let mut server = Server::new();
    let r = server.observe(
        &mut table,
        &mut registry,
        ObserveRequest { limit: 4, match_spec: Some(MatchSpec::AnyPath(Vec::new())) },
    );
    match r {
        Err(TapError::InvalidArgument(m)) => assert_eq!(m, "empty match list"),
        Ok(_) => panic!("an empty alternative list must be rejected"),
    }
    assert_eq!(table.n_subs(), 0);
    assert!(matches!(
        Match::try_new(MatchSpec::AnyPath(Vec::new())),
        Err(InvalidMatch::Empty)
    ));
}

#[test]
fn admissions_stop_at_the_budget() {
    let mut table = SubTable::new();
    let sub = table.add_subscription(1, Match::All, 3, 40);
    let mut successes = 0;
    let mut streams = Vec::new();
    for _ in 0..5 {
        if let Some(st) = table.try_admit(sub) {
            successes += 1;
            streams.push(st);
        }
    }
    assert_eq!(successes, 3);
    assert_eq!(streams, vec![0, 1, 2]);
    assert!(table.try_admit(sub).is_none());
}

#[test]
fn full_sink_drops_overflow_without_blocking() {
    let mut table = SubTable::new();
    let sub = table.add_subscription(9, Match::All, 5, 2);
    for _ in 0..3 {
        table.try_admit(sub);
    }
    assert!(table.enqueue(sub, req_open(9, 0)));
    assert!(table.enqueue(sub, req_open(9, 1)));
    // The sink holds two events; the third is dropped, and the call
    // returns at once rather than waiting for the consumer.
    assert!(!table.enqueue(sub, req_open(9, 2)));

    let mut seen = 0;
    while let PollOutcome::Event(_) = table.poll(sub) {
        seen += 1;
    }
    assert_eq!(seen, 2);
}

#[test]
fn sink_for_dead_consumer_drops_events() {
    let mut table = SubTable::new();
    let sub = table.add_subscription(2, Match::All, 5, 40);
    table.try_admit(sub);
    table.drop_consumer(sub);
    assert!(!table.enqueue(sub, req_open(2, 0)));
}

#[test]
fn path_filters_match_exactly() {
    let insp = inspection();
    let all = Match::try_new(MatchSpec::All).ok().unwrap();
    assert!(all.matches(&request("/x"), &insp));

    let path = Match::try_new(MatchSpec::Path("/a".to_string())).ok().unwrap();
    assert!(path.matches(&request("/a"), &insp));
    assert!(!path.matches(&request("/b"), &insp));

    let any = Match::try_new(MatchSpec::AnyPath(vec!["/a".to_string(), "/b".to_string()]))
        .ok()
        .unwrap();
    assert!(any.matches(&request("/b"), &insp));
    assert!(!any.matches(&request("/c"), &insp));

    let dst = Match::try_new(MatchSpec::Destination("10.1.1.1:80".to_string())).ok().unwrap();
    assert!(dst.matches(&request("/a"), &insp));
    let other = Match::try_new(MatchSpec::Destination("10.9.9.9:80".to_string())).ok().unwrap();
    assert!(!other.matches(&request("/a"), &insp));
}

#[test]
fn elapsed_clamps_at_zero() {
    assert_eq!(elapsed(10, 4), 6);
    assert_eq!(elapsed(4, 10), 0);
    assert_eq!(elapsed(7, 7), 0);
}

#[test]
fn optional_stage_binds_through_or_wraps() {
    let absent: Optional<u32> = Optional::none();
    match absent.bind(41u8) {
        Either::A(n) => assert_eq!(n, 41),
        Either::B(_) => panic!("an absent stage must hand the next stage through"),
    }

    let present = Optional::some(7u32);
    match present.bind(41u8) {
        Either::B((layer, next)) => {
            assert_eq!(layer, 7);
            assert_eq!(next, 41);
        }
        Either::A(_) => panic!("a present stage must bind its layer"),
    }

    let when_off: Optional<u32> = Optional::when(false, || 5);
    assert!(matches!(when_off.bind(1u8), Either::A(1)));
    let when_on: Optional<u32> = Optional::when(true, || 5);
    assert!(matches!(when_on.bind(1u8), Either::B((5, 1))));

    let from_some: Optional<u32> = Optional::from(Some(3));
    assert!(matches!(from_some.bind(0u8), Either::B((3, 0))));
}

#[test]
fn insert_target_service_keeps_its_target() {
    let layer = insert_target::Layer::new();
    let make = layer.bind("next-stage");
    let service = make.make("endpoint-a".to_string(), 99u64);
    assert_eq!(service.target().as_str(), "endpoint-a");
}

#[test]
fn byte_count_saturates_instead_of_overflowing() {
    let mut table = SubTable::new();
    let mut registry = Registry::new();
    let mut server = Server::new();
    let mut svc = tap_core::service::Layer::new().bind().make(inspection());
    let mut stream = server
        .observe(
            &mut table,
            &mut registry,
            ObserveRequest { limit: 2, match_spec: Some(MatchSpec::All) },
        )
        .ok()
        .expect("valid request");
    svc.poll_ready(&mut table, &mut registry);
    let (_rb, ex) = svc.call(&mut table, &request("/big"), 0);
    let mut body = ex.respond(&mut table, 200, 0);
    for _ in 0..3 {
        body.data(&mut table, usize::MAX, false, 0);
    }
    body.eos(&mut table, 0);
    let mut last = None;
    while let PollOutcome::Event(e) = stream.poll(&mut table) {
        last = Some(e);
    }
    match last {
        Some(TapEvent::ResponseEnd { response_bytes, .. }) => {
            assert_eq!(response_bytes, u64::MAX);
        }
        _ => panic!("expected a terminal event"),
    }
}

#[test]
fn request_open_carries_inspection_metadata() {
    let mut table = SubTable::new();
    let mut registry = Registry::new();
    let mut server = Server::new();
    let insp = Inspection {
        outbound: false,
        source: Some("192.0.2.1:555".to_string()),
        source_tls: "disabled".to_string(),
        destination: Some("192.0.2.9:80".to_string()),
        destination_tls: "no_identity".to_string(),
        destination_labels: Some(vec![("deployment".to_string(), "api".to_string())]),
    };
    let mut svc = tap_core::service::Layer::new().bind().make(insp);
    let mut stream = server
        .observe(
            &mut table,
            &mut registry,
            ObserveRequest { limit: 2, match_spec: Some(MatchSpec::All) },
        )
        .ok()
        .expect("valid request");
    svc.poll_ready(&mut table, &mut registry);
    let (_rb, ex) = svc.call(&mut table, &request("/meta"), 0);
    ex.fail(&mut table, 0, 0);
    match stream.poll(&mut table) {
        PollOutcome::Event(TapEvent::RequestOpen { meta, .. }) => {
            assert!(!meta.outbound);
            assert_eq!(meta.source.as_deref(), Some("192.0.2.1:555"));
            assert_eq!(meta.source_meta.labels.len(), 1);
            assert_eq!(meta.source_meta.labels[0].0, "tls");
            assert_eq!(meta.source_meta.labels[0].1, "disabled");
            assert_eq!(meta.destination.as_deref(), Some("192.0.2.9:80"));
            let dm = meta.destination_meta.expect("destination labels were present");
            assert_eq!(dm.labels.len(), 2);
            assert_eq!(dm.labels[0].0, "deployment");
            assert_eq!(dm.labels[0].1, "api");
            assert_eq!(dm.labels[1].0, "tls");
            assert_eq!(dm.labels[1].1, "no_identity");
        }
        _ => panic!("expected the exchange's RequestOpen"),
    }
}

#[test]
fn base_ids_are_distinct_per_subscription() {
    let mut table = SubTable::new();
    let mut registry = Registry::new();
    let mut server = Server::new();
    let a = server
        .observe(
            &mut table,
            &mut registry,
            ObserveRequest { limit: 2, match_spec: Some(MatchSpec::All) },
        )
        .ok()
        .expect("valid request");
    let b = server
        .observe(
            &mut table,
            &mut registry,
            ObserveRequest { limit: 2, match_spec: Some(MatchSpec::All) },
        )
        .ok()
        .expect("valid request");
    assert_eq!(table.n_subs(), 2);
    assert_eq!(table.base_id_of(0), 0);
    assert_eq!(table.base_id_of(1), 1);
    a.disconnect(&mut table);
    b.disconnect(&mut table);
}
