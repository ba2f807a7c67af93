use std::collections::VecDeque;
use std::hash::Hash;
use std::hash::Hasher;

use lib::net::channel::Delivery;
use lib::net::dns::DNSClient;
use lib::net::dns::DNSRequest;
use lib::net::dns::DNSResolver;
use lib::net::dns::DNSResponse;
use lib::net::channel::Received;
use lib::net::dns::DrainStep;
use lib::net::dns::Resolution;
use lib::net::dns::ResolverAction;
use lib::net::dns::ResolverEvent;
use lib::net::dns::IDLE_SLEEP_MS;
use lib::net::dns::resolver_next;
use lib::net::dns::SocketAddress;
use lib::net::Error;

const T0: u128 = 1_600_000_000_000;

fn v4(a: u8, b: u8, c: u8, d: u8, port: u16) -> SocketAddress {
    SocketAddress::V4 { octets: [a, b, c, d], port: port }
}

fn request(host: &str, port: u16, timeout: u128) -> DNSRequest {
    DNSRequest::new(host.to_string(), port, timeout)
}

/// Runs the resolver's side once at time `now`, the way its thread does, but
/// answering only from the fixed answers: the system resolver is replaced by
/// a lookup that fails with `lookup_error`.
fn serve(resolver: &mut DNSResolver, now: u128, lookup_error: &str) -> usize {
    resolver.drain_inbox(now).unwrap();
    let mut served = 0;
    while let Some(step) = resolver.handle_query(now) {
        let response = match step {
            Resolution::Answered(r) => r,
            Resolution::Lookup(req) => DNSResponse::from_lookup(req, Err(lookup_error.to_string())),
        };
        assert_eq!(resolver.reply(response), Delivery::Sent);
        served += 1;
    }
    served
}

fn error_text(resp: &DNSResponse) -> String {
    resp.result.clone().unwrap_err()
}

#[test]
fn requests_equal_by_host_and_port() {
    assert_eq!(request("a.example", 80, 1), request("a.example", 80, 2));
    assert_ne!(request("a.example", 80, 1), request("a.example", 81, 1));
    assert_ne!(request("a.example", 80, 1), request("b.example", 80, 1));
}

#[test]
fn request_times_out_after_deadline() {
    let r = request("a.example", 80, 100);
    assert!(!r.is_timed_out(99));
    assert!(!r.is_timed_out(100));
    assert!(r.is_timed_out(101));
}

#[test]
fn response_constructors() {
    let ok = DNSResponse::new(request("h", 1, 2), Ok(vec![v4(1, 2, 3, 4, 1)]));
    assert_eq!(ok.result, Ok(vec![v4(1, 2, 3, 4, 1)]));
    let err = DNSResponse::error(request("h", 1, 2), "boom".to_string());
    assert_eq!(err.result, Err("boom".to_string()));
    assert_eq!(err.request.timeout, 2);
}

#[test]
fn lookup_outcomes_become_responses() {
    let addrs = vec![v4(10, 0, 0, 1, 80), v4(10, 0, 0, 2, 80)];
    let ok = DNSResponse::from_lookup(request("h", 80, 5), Ok(addrs.clone()));
    assert_eq!(ok.result, Ok(addrs));
    let empty = DNSResponse::from_lookup(request("h", 80, 5), Ok(vec![]));
    assert_eq!(error_text(&empty), "DNS resolve error: got zero addresses");
    let failed = DNSResponse::from_lookup(request("h", 80, 5), Err("NotFound".to_string()));
    assert_eq!(error_text(&failed), "DNS resolve error: NotFound");
}

#[test]
fn clone_copies_response() {
    let r = DNSResponse::new(request("h", 1, 2), Ok(vec![v4(1, 1, 1, 1, 1)]));
    let c = r.clone();
    assert_eq!(c, r);
    assert_eq!(c.request.timeout, 2);
}

#[test]
fn hardcoded_answer_needs_no_lookup() {
    let (mut resolver, _client) = DNSResolver::new(4);
    resolver.add_hardcoded("node.example", 20443, vec![v4(127, 0, 0, 1, 20443)]);
    match resolver.resolve(request("node.example", 20443, T0)) {
        Resolution::Answered(r) => assert_eq!(r.result, Ok(vec![v4(127, 0, 0, 1, 20443)])),
        Resolution::Lookup(_) => panic!("expected a fixed answer"),
    }
    match resolver.resolve(request("node.example", 20444, T0)) {
        Resolution::Lookup(r) => assert_eq!(r.port, 20444),
        Resolution::Answered(_) => panic!("expected a lookup"),
    }
    resolver.add_hardcoded("node.example", 20443, vec![]);
    match resolver.resolve(request("node.example", 20443, T0)) {
        Resolution::Answered(r) => assert_eq!(r.result, Ok(vec![])),
        Resolution::Lookup(_) => panic!("expected a fixed answer"),
    }
}

#[test]
fn admission_refuses_late_and_surplus_requests() {
    let (mut resolver, _client) = DNSResolver::new(2);
    let late = resolver.admit_request(request("a", 1, T0), T0 + 1).unwrap();
    assert_eq!(error_text(&late), "DNS request timed out");
    assert!(resolver.admit_request(request("b", 1, T0 + 10), T0).is_none());
    assert!(resolver.admit_request(request("c", 1, T0 + 10), T0).is_none());
    let full = resolver.admit_request(request("d", 1, T0 + 10), T0).unwrap();
    assert_eq!(error_text(&full), "Too many DNS requests in-flight");
    assert_eq!(full.request.host, "d");
}

#[test]
fn queries_are_served_oldest_first() {
    let (mut resolver, _client) = DNSResolver::new(8);
    resolver.add_hardcoded("b", 1, vec![v4(2, 2, 2, 2, 1)]);
    assert!(resolver.admit_request(request("a", 1, T0 + 5), T0).is_none());
    assert!(resolver.admit_request(request("b", 1, T0 + 50), T0).is_none());
    match resolver.handle_query(T0 + 10) {
        Some(Resolution::Answered(r)) => {
            assert_eq!(r.request.host, "a");
            assert_eq!(error_text(&r), "DNS request timed out");
        }
        _ => panic!("expected a timeout"),
    }
    match resolver.handle_query(T0 + 10) {
        Some(Resolution::Answered(r)) => assert_eq!(r.result, Ok(vec![v4(2, 2, 2, 2, 1)])),
        _ => panic!("expected the fixed answer"),
    }
    assert!(resolver.handle_query(T0 + 10).is_none());
}

#[test]
fn drain_inbox_takes_at_most_the_limit() {
    let (mut resolver, mut client) = DNSResolver::new(2);
    for host in ["a", "b", "c"] {
        client.queue_lookup(host, 80, T0 + 1000).unwrap();
    }
    assert_eq!(resolver.drain_inbox(T0).unwrap(), 2);
    // The third request finds the queue full and is refused.
    assert_eq!(resolver.drain_inbox(T0).unwrap(), 0);
    assert_eq!(client.try_recv(T0).unwrap(), 1);
    let refused = client.poll_lookup("c", 80).unwrap().unwrap();
    assert_eq!(error_text(&refused), "Too many DNS requests in-flight");
    assert_eq!(client.poll_lookup("a", 80).unwrap(), None);
}

#[test]
fn poll_of_unknown_lookup_names_it() {
    let (_resolver, mut client) = DNSResolver::new(2);
    match client.poll_lookup("nowhere.example", 8080) {
        Err(Error::LookupError(text)) => assert_eq!(text, "No such pending lookup: nowhere.example:8080"),
        other => panic!("unexpected {:?}", other),
    }
    match client.poll_lookup("x", 0) {
        Err(Error::LookupError(text)) => assert_eq!(text, "No such pending lookup: x:0"),
        other => panic!("unexpected {:?}", other),
    }
}

#[test]
fn answer_is_handed_out_once() {
    let (mut resolver, mut client) = DNSResolver::new(4);
    resolver.add_hardcoded("a", 1, vec![v4(1, 2, 3, 4, 1)]);
    client.queue_lookup("a", 1, T0 + 100).unwrap();
    assert_eq!(client.poll_lookup("a", 1).unwrap(), None);
    assert_eq!(serve(&mut resolver, T0, "unused"), 1);
    assert_eq!(client.try_recv(T0).unwrap(), 1);
    let resp = client.poll_lookup("a", 1).unwrap().unwrap();
    assert_eq!(resp.result, Ok(vec![v4(1, 2, 3, 4, 1)]));
    assert!(client.poll_lookup("a", 1).is_err());
}

#[test]
fn requeue_keeps_first_deadline() {
    let (mut resolver, mut client) = DNSResolver::new(4);
    client.queue_lookup("a", 1, T0 + 10).unwrap();
    client.queue_lookup("a", 1, T0 + 1000).unwrap();
    // Past the first deadline the lookup times out, though it was queued again
    // with a later one.
    assert_eq!(client.try_recv(T0 + 20).unwrap(), 0);
    let resp = client.poll_lookup("a", 1).unwrap().unwrap();
    assert_eq!(resp.request.timeout, T0 + 10);
    assert_eq!(error_text(&resp), "DNS lookup timed out");
    let _ = resolver.drain_inbox(T0);
}

#[test]
fn responses_for_unknown_lookups_are_dropped() {
    let (mut resolver, mut client) = DNSResolver::new(4);
    resolver.add_hardcoded("a", 1, vec![v4(1, 2, 3, 4, 1)]);
    client.queue_lookup("a", 1, T0 + 100).unwrap();
    serve(&mut resolver, T0, "unused");
    client.clear_all_requests();
    assert_eq!(client.try_recv(T0).unwrap(), 0);
    assert!(client.poll_lookup("a", 1).is_err());
}

#[test]
fn accept_responses_counts_timely_answers() {
    let (_resolver, mut client) = DNSResolver::new(4);
    let mut batch = VecDeque::new();
    batch.push_back(DNSResponse::new(request("a", 1, T0 + 100), Ok(vec![])));
    assert_eq!(client.accept_responses(T0, batch, true), Err(Error::RecvError("Disconnected".to_string())));
    assert_eq!(client.accept_responses(T0, VecDeque::new(), false), Ok(0));
}

#[test]
fn late_response_becomes_timeout() {
    let (_resolver, mut client) = DNSResolver::new(4);
    client.queue_lookup("a", 1, T0 + 1000).unwrap();
    let mut batch = VecDeque::new();
    batch.push_back(DNSResponse::new(request("a", 1, T0 + 5), Ok(vec![v4(9, 9, 9, 9, 1)])));
    assert_eq!(client.accept_responses(T0 + 10, batch, false), Ok(0));
    let resp = client.poll_lookup("a", 1).unwrap().unwrap();
    assert_eq!(resp.request.timeout, T0 + 5);
    assert_eq!(error_text(&resp), "DNS lookup timed out");
}

#[test]
fn dns_start_stop() {
    let (mut resolver, client) = DNSResolver::new(100);
    drop(client);
    // Run the resolver's decision loop, as its thread does, until it stops.
    let mut served = 0;
    let mut action = ResolverAction::Drain;
    let mut steps = 0;
    while action != ResolverAction::Stop {
        assert_eq!(action, ResolverAction::Drain);
        let event = ResolverEvent::Drained(resolver.drain_inbox(T0));
        let (s, a) = resolver_next(served, 100, event);
        served = s;
        action = a;
        steps += 1;
    }
    assert_eq!(steps, 1);
    assert_eq!(resolver.drain_inbox(T0), Err(Error::ConnectionBroken));
}

#[test]
fn take_arrival_decides_each_read() {
    let (mut resolver, _client) = DNSResolver::new(1);
    assert!(matches!(resolver.take_arrival(Received::Empty, T0), DrainStep::Finished));
    assert!(matches!(resolver.take_arrival(Received::Disconnected, T0), DrainStep::Broken));
    assert!(matches!(resolver.take_arrival(Received::Message(request("a", 1, T0 + 5)), T0), DrainStep::Queued));
    match resolver.take_arrival(Received::Message(request("b", 1, T0 + 5)), T0) {
        DrainStep::Refused(r) => assert_eq!(error_text(&r), "Too many DNS requests in-flight"),
        other => panic!("unexpected {:?}", other),
    }
    match resolver.take_arrival(Received::Message(request("c", 1, T0)), T0 + 1) {
        DrainStep::Refused(r) => assert_eq!(error_text(&r), "DNS request timed out"),
        other => panic!("unexpected {:?}", other),
    }
}

#[test]
fn only_a_vanished_client_breaks_draining() {
    assert!(DNSResolver::refusal_breaks(Delivery::Disconnected));
    assert!(!DNSResolver::refusal_breaks(Delivery::Full));
    assert!(!DNSResolver::refusal_breaks(Delivery::Sent));
}

#[test]
fn drain_with_zero_limit_takes_nothing() {
    let (mut resolver, mut client) = DNSResolver::new(0);
    client.queue_lookup("a", 1, T0 + 5).unwrap();
    assert_eq!(resolver.drain_inbox(T0), Ok(0));
    assert!(resolver.handle_query(T0).is_none());
}

#[test]
fn read_step_collects_and_records_disconnection() {
    let mut batch = VecDeque::new();
    let r = DNSResponse::new(request("a", 1, 2), Ok(vec![]));
    assert_eq!(DNSClient::read_step(&mut batch, Received::Message(r.clone())), (false, false));
    assert_eq!(batch.len(), 1);
    assert_eq!(DNSClient::read_step(&mut batch, Received::Empty), (true, false));
    assert_eq!(DNSClient::read_step(&mut batch, Received::Disconnected), (true, true));
    assert_eq!(batch.len(), 1);
    assert_eq!(batch[0], r);
}

#[test]
fn try_recv_reports_vanished_resolver() {
    let (resolver, mut client) = DNSResolver::new(4);
    drop(resolver);
    assert_eq!(client.try_recv(T0), Err(Error::RecvError("Disconnected".to_string())));
}

#[test]
fn resolver_loop_decisions() {
    assert_eq!(resolver_next(3, 4, ResolverEvent::Drained(Err(Error::ConnectionBroken))), (0, ResolverAction::Stop));
    assert_eq!(
        resolver_next(3, 4, ResolverEvent::Drained(Ok(0))),
        (0, ResolverAction::SleepThenServe(IDLE_SLEEP_MS))
    );
    assert_eq!(
        resolver_next(0, 0, ResolverEvent::Drained(Ok(0))),
        (0, ResolverAction::SleepThenDrain(IDLE_SLEEP_MS))
    );
    assert_eq!(resolver_next(0, 4, ResolverEvent::Drained(Ok(2))), (0, ResolverAction::Serve));
    assert_eq!(resolver_next(0, 0, ResolverEvent::Drained(Ok(2))), (0, ResolverAction::Drain));
    assert_eq!(resolver_next(1, 4, ResolverEvent::NothingToServe), (1, ResolverAction::Drain));
    assert_eq!(resolver_next(1, 4, ResolverEvent::Replied(Delivery::Sent)), (2, ResolverAction::Serve));
    assert_eq!(resolver_next(3, 4, ResolverEvent::Replied(Delivery::Full)), (4, ResolverAction::Drain));
    assert_eq!(resolver_next(1, 4, ResolverEvent::Replied(Delivery::Disconnected)), (1, ResolverAction::Drain));
}

#[test]
fn dns_resolve_one_name() {
    let (mut resolver, mut client) = DNSResolver::new(100);
    resolver.add_hardcoded("www.google.com", 80, vec![v4(142, 250, 72, 4, 80)]);
    client.queue_lookup("www.google.com", 80, T0 + 120_000).unwrap();
    let mut resolved_addrs = None;
    for round in 0..3 {
        let now = T0 + round;
        serve(&mut resolver, now, "unused");
        client.try_recv(now).unwrap();
        if let Some(addrs) = client.poll_lookup("www.google.com", 80).unwrap() {
            resolved_addrs = Some(addrs);
            break;
        }
    }
    assert!(resolved_addrs.is_some());
}

#[test]
fn dns_resolve_10_names() {
    let (mut resolver, mut client) = DNSResolver::new(100);
    let names = vec![
        "www.google.com",
        "www.facebook.com",
        "www.twitter.com",
        "www.blockstack.org",
        "www.reddit.com",
        "www.slashdot.org",
        "www.coinmarketcap.com",
        "core.blockstack.org",
        "news.ycombinator.com",
        "lobste.rs",
    ];
    for (i, name) in names.iter().enumerate() {
        resolver.add_hardcoded(name, 80, vec![v4(10, 0, 0, i as u8, 80)]);
    }
    for name in names.iter() {
        client.queue_lookup(name, 80, T0 + 120_000).unwrap();
    }
    let mut resolved_addrs = std::collections::HashMap::new();
    for round in 0..20 {
        let now = T0 + round;
        serve(&mut resolver, now, "unused");
        client.try_recv(now).unwrap();
        for name in names.iter() {
            if resolved_addrs.contains_key(&name.to_string()) {
                continue;
            }
            match client.poll_lookup(name, 80).unwrap() {
                Some(addrs) => {
                    resolved_addrs.insert(name.to_string(), addrs);
                    break;
                }
                None => {}
            }
        }
        if resolved_addrs.len() == names.len() {
            break;
        }
    }
    assert_eq!(resolved_addrs.len(), names.len());
}

#[test]
fn dns_resolve_invalid_name() {
    let (mut resolver, mut client) = DNSResolver::new(100);
    client.queue_lookup("asdfjkl;", 80, T0 + 120_000_000).unwrap();
    let mut resolved_error = None;
    for round in 0..3 {
        let now = T0 + round;
        serve(&mut resolver, now, "Custom { kind: Uncategorized, error: \"failed to lookup address information\" }");
        client.try_recv(now).unwrap();
        if let Some(resp) = client.poll_lookup("asdfjkl;", 80).unwrap() {
            resolved_error = Some(resp);
            break;
        }
    }
    assert!(resolved_error.is_some());
    assert!(resolved_error.unwrap().result.unwrap_err().find("DNS resolve error").is_some());
}

#[test]
fn dns_resolve_no_such_name() {
    let (mut resolver, mut client) = DNSResolver::new(100);
    resolver.add_hardcoded("www.google.com", 80, vec![v4(142, 250, 72, 4, 80)]);
    client.queue_lookup("www.google.com", 80, T0 + 120_000_000).unwrap();
    let mut resolved_err = None;
    for round in 0..3 {
        let now = T0 + round;
        serve(&mut resolver, now, "unused");
        client.try_recv(now).unwrap();
        match client.poll_lookup("www.facebook.com", 80) {
            Ok(_) => {}
            Err(e) => {
                resolved_err = Some(e);
                break;
            }
        }
    }
    assert!(resolved_err.is_some());
    assert!(format!("{:?}", &resolved_err.unwrap()).find("No such pending lookup").is_some());
}

#[test]
fn dns_resolve_timeout() {
    let (_resolver, mut client) = DNSResolver::new(100);
    client.queue_lookup("www.google.com", 80, T0 + 100).unwrap();
    // The resolver never answers; 200 ms later the lookup has timed out.
    let now = T0 + 200;
    let mut resolved_err = None;
    for _ in 0..3 {
        client.try_recv(now).unwrap();
        match client.poll_lookup("www.google.com", 80) {
            Ok(res) => {
                resolved_err = Some(res);
                break;
            }
            Err(e) => {
                panic!("err: {:?}", &e);
            }
        }
    }
    assert!(resolved_err.is_some());
    assert!(format!("{:?}", &resolved_err.unwrap()).find("timed out").is_some());
}

#[test]
fn equal_requests_hash_alike() {
    let hash_of = |r: &DNSRequest| {
        let mut h = std::collections::hash_map::DefaultHasher::new();
        r.hash(&mut h);
        h.finish()
    };
    assert_eq!(hash_of(&request("a.example", 80, 1)), hash_of(&request("a.example", 80, 999)));
    assert_ne!(hash_of(&request("a.example", 80, 1)), hash_of(&request("a.example", 81, 1)));
}

#[test]
fn polled_answer_is_for_its_own_name_and_handed_out_once() {
    let (mut resolver, mut client) = DNSResolver::new(8);
    resolver.add_hardcoded("a", 1, vec![v4(1, 1, 1, 1, 1)]);
    resolver.add_hardcoded("b", 2, vec![v4(2, 2, 2, 2, 2)]);
    client.queue_lookup("a", 1, T0 + 100).unwrap();
    client.queue_lookup("b", 2, T0 + 100).unwrap();
    assert_eq!(client.poll_lookup("a", 1).unwrap(), None);
    serve(&mut resolver, T0, "unused");
    assert_eq!(client.try_recv(T0).unwrap(), 2);
    let b = client.poll_lookup("b", 2).unwrap().unwrap();
    assert_eq!((b.request.host.as_str(), b.request.port), ("b", 2));
    let a = client.poll_lookup("a", 1).unwrap().unwrap();
    assert_eq!((a.request.host.as_str(), a.request.port), ("a", 1));
    assert_eq!(a.result, Ok(vec![v4(1, 1, 1, 1, 1)]));
    assert!(matches!(client.poll_lookup("a", 1), Err(Error::LookupError(_))));
}

#[test]
fn record_lookup_follows_delivery() {
    let (_resolver, mut client) = DNSResolver::new(4);
    match client.record_lookup(false, "a", 1, T0 + 10) {
        Err(Error::LookupError(text)) => assert_eq!(text, "Failed to queue DNS query"),
        other => panic!("unexpected {:?}", other),
    }
    assert!(client.poll_lookup("a", 1).is_err());
    assert_eq!(client.record_lookup(true, "a", 1, T0 + 10), Ok(()));
    assert_eq!(client.poll_lookup("a", 1).unwrap(), None);
}

#[test]
fn queue_lookup_fails_without_resolver() {
    let (resolver, mut client) = DNSResolver::new(1);
    drop(resolver);
    match client.queue_lookup("a", 80, u128::MAX) {
        Err(Error::LookupError(text)) => assert_eq!(text, "Failed to queue DNS query"),
        other => panic!("unexpected {:?}", other),
    }
    assert!(client.poll_lookup("a", 80).is_err());
}
