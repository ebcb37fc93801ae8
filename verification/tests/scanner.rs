use grpc_probe::result::TlsSession;
use grpc_probe::scanner::{
    connect_tcp, endpoint_text, request_target, resolve_dns, Action, Event, GrpcScanner, Outcome,
    Scan, Stage,
};
use http::{HeaderMap, HeaderName, HeaderValue};
use std::time::Duration;

const MS: u128 = 1_000_000;

fn begin(domain: &str, port: u16) -> Scan {
    let scanner = GrpcScanner::new(Duration::from_secs(8));
    assert_eq!(scanner.timeout(), Duration::from_secs(8));
    let (scan, action) = scanner.scan_at(domain, port, "then".to_string());
    match action {
        Action::Resolve { domain: asked, timeout } => {
            assert_eq!(asked, domain);
            assert_eq!(timeout, Duration::from_secs(8));
        }
        _ => panic!("expected a lookup"),
    }
    scan
}

fn take(scan: &mut Scan, event: Event, now: u128) -> Action {
    assert!(scan.accepts(&event));
    scan.step(event, now)
}

fn found() -> Event {
    Event::LookedUp(Outcome::Done(vec!["10.0.0.1".to_string(), "10.0.0.2".to_string()]))
}

fn connected() -> Event {
    Event::Connected(Outcome::Done(()))
}

fn secured() -> Event {
    Event::TlsConnected(Outcome::Done(TlsSession {
        version: Some(0x0303),
        cipher: Some(0x1301),
        certificates: Vec::new(),
    }))
}

fn shaken() -> Event {
    Event::HandshakeDone(Outcome::Done(()))
}

fn header(name: &'static str, value: &'static str) -> HeaderMap {
    let mut map = HeaderMap::new();
    map.insert(HeaderName::from_static(name), HeaderValue::from_static(value));
    map
}

fn services() -> Vec<u8> {
    vec![0, 0, 0, 0, 7, 0x0a, 5, 0x0a, 3, b'a', b'.', b'b']
}

#[test]
fn lookup_fails() {
    let cases = [
        (Outcome::TimedOut, "DNS: timeout"),
        (Outcome::Failed("no such host".to_string()), "DNS: no such host"),
        (Outcome::Done(Vec::new()), "DNS: no IP"),
    ];
    for (outcome, error) in cases {
        let mut scan = begin("a.com", 443);
        let action = take(&mut scan, Event::LookedUp(outcome), 7 * MS + 999_999);
        assert!(matches!(action, Action::Finish));
        assert_eq!(scan.stage(), Stage::Over);
        let result = scan.result();
        assert_eq!(result.error, error);
        assert_eq!(result.dns_time_ms, 7);
        assert_eq!(result.total_time_ms, 7);
        assert!(!result.dns_success);
        assert_eq!(result.domain, "a.com");
        assert_eq!(result.port, 443);
        assert_eq!(result.timestamp, "then");
    }
}

#[test]
fn connection_fails() {
    let cases = [
        (Outcome::TimedOut, "TCP: timeout"),
        (Outcome::Failed("refused".to_string()), "TCP: refused"),
    ];
    for (outcome, error) in cases {
        let mut scan = begin("a.com", 8080);
        match take(&mut scan, found(), 3 * MS) {
            Action::Connect { address, timeout } => {
                assert_eq!(address, "10.0.0.1:8080");
                assert_eq!(timeout, Duration::from_secs(8));
            }
            _ => panic!("expected a connection"),
        }
        let action = take(&mut scan, Event::Connected(outcome), 10 * MS);
        assert!(matches!(action, Action::Finish));
        let result = scan.result();
        assert_eq!(result.error, error);
        assert!(result.dns_success && !result.tcp_success);
        assert_eq!(result.ip, "10.0.0.1");
        assert_eq!(result.dns_time_ms, 3);
        assert_eq!(result.tcp_time_ms, 7);
        assert_eq!(result.total_time_ms, 10);
        assert_eq!(result.grpc_time_ms, 0);
    }
}

#[test]
fn scan_with_tls_from_start_to_end() {
    let mut scan = begin("a.com", 443);
    take(&mut scan, found(), MS);
    match take(&mut scan, connected(), 2 * MS) {
        Action::ConnectTls { server_name, timeout } => {
            assert_eq!(server_name, "a.com");
            assert_eq!(timeout, Duration::from_secs(8));
        }
        _ => panic!("expected TLS"),
    }
    assert!(matches!(take(&mut scan, secured(), 3 * MS), Action::Handshake { .. }));
    assert!(matches!(take(&mut scan, shaken(), 4 * MS), Action::AwaitReady));
    match take(&mut scan, Event::Ready(Ok(())), 5 * MS) {
        Action::Send { request, body } => {
            assert_eq!(request.method(), "POST");
            assert_eq!(
                request.uri(),
                "https://a.com/grpc.reflection.v1alpha.ServerReflection/ServerReflectionInfo"
            );
            assert_eq!(request.headers().len(), 4);
            assert_eq!(request.headers()["content-type"], "application/grpc");
            assert_eq!(request.headers()["te"], "trailers");
            assert_eq!(request.headers()["grpc-accept-encoding"], "identity");
            assert_eq!(request.headers()["user-agent"], "grpc-go/1.59.0");
            assert_eq!(body, vec![0, 0, 0, 0, 2, 0x22, 0]);
        }
        _ => panic!("expected a request"),
    }
    assert!(matches!(
        take(&mut scan, Event::Sent(Ok(())), 6 * MS),
        Action::AwaitResponse { .. }
    ));
    let head = Event::Responded(Outcome::Done(header("content-type", "application/grpc")));
    assert!(matches!(
        take(&mut scan, head, 7 * MS),
        Action::ReadBody { wait_nanos: 5_000_000_000 }
    ));
    assert!(matches!(
        take(&mut scan, Event::BodyRead(Some(services())), 1007 * MS),
        Action::ReadBody { wait_nanos: 4_000_000_000 }
    ));
    assert!(matches!(
        take(&mut scan, Event::BodyRead(None), 1008 * MS),
        Action::ReadTrailers { wait_nanos: 2_000_000_000 }
    ));
    let end = Event::TrailersRead(Some(header("grpc-status", "0")));
    assert!(matches!(take(&mut scan, end, 1012 * MS), Action::Finish));
    let result = scan.result();
    assert!(result.dns_success && result.tcp_success && result.http2_success);
    assert!(result.tls_enabled && result.grpc_detected && result.reflection_enabled);
    assert_eq!(result.tls_version, "TLSv1_2");
    assert_eq!(result.grpc_response, "grpc-status:0");
    assert_eq!(result.services_count, 1);
    assert_eq!(result.services_list, "a.b");
    assert!(!result.requires_auth);
    assert_eq!(result.error, "");
    assert_eq!(result.dns_time_ms, 1);
    assert_eq!(result.tcp_time_ms, 1);
    assert_eq!(result.grpc_time_ms, 1010);
    assert_eq!(result.total_time_ms, 1012);
    assert_eq!(scan.signals(), ("application/grpc", "0"));
}

#[test]
fn scan_in_clear() {
    let mut scan = begin("a.com", 50051);
    take(&mut scan, found(), 0);
    assert!(matches!(take(&mut scan, connected(), 0), Action::Handshake { .. }));
    take(&mut scan, shaken(), 0);
    match take(&mut scan, Event::Ready(Ok(())), 0) {
        Action::Send { request, .. } => assert_eq!(request.uri().scheme_str(), Some("http")),
        _ => panic!("expected a request"),
    }
    take(&mut scan, Event::Sent(Ok(())), 0);
    take(&mut scan, Event::Responded(Outcome::Done(header("content-type", "text/html"))), 0);
    take(&mut scan, Event::BodyRead(Some(services())), 0);
    take(&mut scan, Event::BodyRead(None), 0);
    assert!(matches!(take(&mut scan, Event::TrailersRead(None), 0), Action::Finish));
    let result = scan.result();
    assert!(result.http2_success && !result.tls_enabled);
    assert!(!result.grpc_detected && !result.reflection_enabled);
    assert_eq!(result.grpc_response, "");
    assert_eq!(scan.signals(), ("text/html", ""));
}

#[test]
fn tls_after_failure_in_clear() {
    let failures = [
        Event::HandshakeDone(Outcome::TimedOut),
        Event::HandshakeDone(Outcome::Failed("not HTTP/2".to_string())),
    ];
    for failure in failures {
        let mut scan = begin("a.com", 9090);
        take(&mut scan, found(), 0);
        take(&mut scan, connected(), 0);
        match take(&mut scan, failure, 0) {
            Action::Connect { address, .. } => assert_eq!(address, "10.0.0.1:9090"),
            _ => panic!("expected a connection"),
        }
        assert_eq!(scan.stage(), Stage::Reconnecting);
        assert_eq!(scan.result().error, "");
        assert!(matches!(take(&mut scan, connected(), 0), Action::ConnectTls { .. }));
        take(&mut scan, secured(), 0);
        take(&mut scan, shaken(), 0);
        let action = take(&mut scan, Event::Ready(Err("closed".to_string())), 9 * MS);
        assert!(matches!(action, Action::Finish));
        assert_eq!(scan.result().error, "TLS: closed");
        assert!(scan.result().tls_enabled && scan.result().http2_success);
    }
}

#[test]
fn second_connection_fails_without_a_word() {
    let mut scan = begin("a.com", 9090);
    take(&mut scan, found(), 0);
    take(&mut scan, connected(), 0);
    take(&mut scan, Event::HandshakeDone(Outcome::TimedOut), 0);
    let action = take(&mut scan, Event::Connected(Outcome::TimedOut), 5 * MS);
    assert!(matches!(action, Action::Finish));
    assert_eq!(scan.result().error, "");
    assert_eq!(scan.result().grpc_time_ms, 5);
    assert!(scan.result().tcp_success);
}

#[test]
fn errors_with_tls() {
    let steps: Vec<(usize, Event, &str)> = vec![
        (0, Event::TlsConnected(Outcome::TimedOut), "TLS: TLS timeout"),
        (0, Event::TlsConnected(Outcome::Failed("alert".to_string())), "TLS: alert"),
        (1, Event::HandshakeDone(Outcome::TimedOut), "TLS: h2 handshake timeout"),
        (1, Event::HandshakeDone(Outcome::Failed("goaway".to_string())), "TLS: goaway"),
        (2, Event::Ready(Err("busy".to_string())), "TLS: busy"),
        (3, Event::Sent(Err("reset".to_string())), "TLS: reset"),
        (4, Event::Responded(Outcome::TimedOut), "TLS: response timeout"),
        (4, Event::Responded(Outcome::Failed("eof".to_string())), "TLS: eof"),
    ];
    for (reached, event, error) in steps {
        let mut scan = begin("a.com", 443);
        take(&mut scan, found(), 0);
        take(&mut scan, connected(), 0);
        let before = [secured(), shaken(), Event::Ready(Ok(())), Event::Sent(Ok(()))];
        for done in before.into_iter().take(reached) {
            take(&mut scan, done, 0);
        }
        assert!(matches!(take(&mut scan, event, 0), Action::Finish));
        assert_eq!(scan.result().error, error);
        assert!(!scan.result().grpc_detected);
    }
}

#[test]
fn domain_that_is_no_server_name() {
    let mut scan = begin("a b", 443);
    take(&mut scan, found(), 0);
    assert!(matches!(take(&mut scan, connected(), 0), Action::Finish));
    assert_eq!(scan.result().error, "TLS: invalid server name");
    assert!(scan.result().tcp_success && !scan.result().tls_enabled);
}

#[test]
fn validity_of_the_server_name_decides() {
    let reconnecting = |domain: &str| {
        let mut scan = begin(domain, 8080);
        take(&mut scan, found(), 0);
        take(&mut scan, connected(), 0);
        take(&mut scan, Event::HandshakeDone(Outcome::TimedOut), 0);
        assert_eq!(scan.stage(), Stage::Reconnecting);
        scan
    };
    let mut scan = reconnecting("a.com");
    assert!(matches!(scan.ask_tls(false, 0), Action::Finish));
    assert_eq!(scan.result().error, "TLS: invalid server name");
    let mut scan = reconnecting("a b");
    assert!(matches!(scan.ask_tls(true, 0), Action::ConnectTls { .. }));
    assert_eq!(scan.stage(), Stage::ConnectingTls);
}

#[test]
fn domain_that_fits_no_request() {
    let mut scan = begin("a b", 80);
    take(&mut scan, found(), 0);
    take(&mut scan, connected(), 0);
    take(&mut scan, shaken(), 0);
    let action = take(&mut scan, Event::Ready(Ok(())), 0);
    assert!(matches!(action, Action::Connect { .. }));
}

#[test]
fn building_of_the_request_decides() {
    let mut scan = begin("a.com", 443);
    take(&mut scan, found(), 0);
    take(&mut scan, connected(), 0);
    take(&mut scan, secured(), 0);
    take(&mut scan, shaken(), 0);
    assert!(matches!(scan.after_build(Err("bad uri".to_string()), 0), Action::Finish));
    assert_eq!(scan.result().error, "TLS: bad uri");
}

#[test]
fn body_is_read_up_to_its_limit() {
    let mut scan = begin("a.com", 80);
    take(&mut scan, found(), 0);
    take(&mut scan, connected(), 0);
    take(&mut scan, shaken(), 0);
    take(&mut scan, Event::Ready(Ok(())), 0);
    take(&mut scan, Event::Sent(Ok(())), 0);
    take(&mut scan, Event::Responded(Outcome::Done(HeaderMap::new())), 0);
    assert!(matches!(
        take(&mut scan, Event::BodyRead(Some(vec![1; 65536])), 4960 * MS),
        Action::ReadBody { wait_nanos: 50_000_000 }
    ));
    assert!(matches!(
        take(&mut scan, Event::BodyRead(Some(Vec::new())), 9000 * MS),
        Action::ReadBody { wait_nanos: 50_000_000 }
    ));
    assert!(matches!(
        take(&mut scan, Event::BodyRead(Some(vec![1])), 9000 * MS),
        Action::ReadTrailers { .. }
    ));
}

#[test]
fn body_that_cannot_be_read_is_not_accepted() {
    let huge = vec![
        0, 0, 0, 0, 11, 0x12, 0xff, 0xff, 0xff, 0xff, 0xff, 0xff, 0xff, 0xff, 0xff, 0x01,
    ];
    let mut scan = begin("a.com", 80);
    take(&mut scan, found(), 0);
    take(&mut scan, connected(), 0);
    take(&mut scan, shaken(), 0);
    take(&mut scan, Event::Ready(Ok(())), 0);
    take(&mut scan, Event::Sent(Ok(())), 0);
    take(&mut scan, Event::Responded(Outcome::Done(HeaderMap::new())), 0);
    take(&mut scan, Event::BodyRead(Some(huge)), 0);
    take(&mut scan, Event::BodyRead(None), 0);
    assert!(!scan.accepts(&Event::TrailersRead(Some(header("grpc-status", "0")))));
    assert!(scan.accepts(&Event::TrailersRead(None)));
    take(&mut scan, Event::TrailersRead(None), 0);
    assert!(!scan.result().grpc_detected);
}

#[test]
fn only_what_is_waited_for_is_accepted() {
    let mut scan = begin("a.com", 80);
    assert!(!scan.accepts(&connected()));
    assert!(!scan.accepts(&Event::TrailersRead(None)));
    take(&mut scan, found(), 0);
    assert!(!scan.accepts(&found()));
    assert!(scan.accepts(&connected()));
    take(&mut scan, Event::Connected(Outcome::TimedOut), 0);
    assert!(!scan.accepts(&connected()));
    assert!(!scan.accepts(&shaken()));
}

#[test]
fn clock_that_goes_back_counts_nothing() {
    let mut scan = begin("a.com", 80);
    take(&mut scan, found(), 10 * MS);
    take(&mut scan, Event::Connected(Outcome::TimedOut), 4 * MS);
    assert_eq!(scan.result().tcp_time_ms, 0);
    assert_eq!(scan.result().total_time_ms, 4);
}

#[test]
fn scan_begins_now() {
    let scanner = GrpcScanner::new(Duration::from_secs(1));
    let (scan, action) = scanner.scan("a.com", 80);
    assert!(matches!(action, Action::Resolve { .. }));
    assert_eq!(scan.stage(), Stage::Resolving);
    let timestamp = scan.result().timestamp.clone();
    let year = timestamp[..4].parse::<u32>();
    assert!(year.unwrap() >= 1970);
    for (at, mark) in [(4, b'-'), (7, b'-'), (10, b'T'), (13, b':'), (16, b':')] {
        assert_eq!(timestamp.as_bytes()[at], mark);
    }
    for (at, least, most) in [(5, 1, 12), (8, 1, 31), (11, 0, 23), (14, 0, 59), (17, 0, 59)] {
        let part = timestamp[at..at + 2].parse::<u32>().unwrap();
        assert!(least <= part && part <= most);
    }
    let fraction = timestamp[19..].strip_suffix("+00:00").unwrap();
    assert!(matches!(fraction.len(), 0 | 4 | 7 | 10));
    if !fraction.is_empty() {
        assert!(fraction.starts_with('.'));
        assert!(fraction[1..].bytes().all(|b| b.is_ascii_digit()));
    }
}

#[test]
fn pieces_of_the_scan() {
    assert_eq!(endpoint_text("::1", 443), "::1:443");
    assert_eq!(
        request_target(false, "a.com"),
        "http://a.com/grpc.reflection.v1alpha.ServerReflection/ServerReflectionInfo"
    );
    assert_eq!(resolve_dns(Outcome::TimedOut), Err("timeout".to_string()));
    assert_eq!(resolve_dns(Outcome::Done(vec!["1.1.1.1".to_string()])), Ok("1.1.1.1".to_string()));
    assert_eq!(connect_tcp(Outcome::Done(())), Ok(()));
    assert_eq!(connect_tcp(Outcome::Failed("x".to_string())), Err("x".to_string()));
}

#[test]
fn tls_after_a_request_that_cannot_be_built() {
    let mut scan = begin("a.com", 8080);
    take(&mut scan, found(), MS);
    take(&mut scan, connected(), 2 * MS);
    take(&mut scan, shaken(), 3 * MS);
    match scan.after_build(Err("bad target".to_string()), 4 * MS) {
        Action::Connect { address, .. } => assert_eq!(address, "10.0.0.1:8080"),
        _ => panic!("expected a second connection"),
    }
    assert_eq!(scan.result().error, "");
    match take(&mut scan, connected(), 5 * MS) {
        Action::ConnectTls { server_name, .. } => assert_eq!(server_name, "a.com"),
        _ => panic!("expected TLS"),
    }
}

fn addresses(list: &[&str]) -> Outcome<Vec<String>> {
    Outcome::Done(list.iter().map(|a| a.to_string()).collect())
}

#[test]
fn addresses_of_version_6_come_first() {
    let cases: [(&[&str], &str); 6] = [
        (&["10.0.0.1", "2001:db8::1"], "2001:db8::1"),
        (&["2001:db8::1", "10.0.0.1"], "2001:db8::1"),
        (&["10.0.0.1", "2001:db8::2", "10.0.0.2", "2001:db8::1"], "2001:db8::2"),
        (&["2001:db8::2", "2001:db8::1"], "2001:db8::2"),
        (&["10.0.0.2", "10.0.0.1"], "10.0.0.2"),
        (&["::"], "::"),
    ];
    for (list, chosen) in cases {
        assert_eq!(resolve_dns(addresses(list)), Ok(chosen.to_string()));
        let mut scan = begin("a.com", 443);
        match take(&mut scan, Event::LookedUp(addresses(list)), 0) {
            Action::Connect { address, .. } => assert_eq!(address, format!("{}:443", chosen)),
            _ => panic!("expected a connection"),
        }
        assert_eq!(scan.result().ip, chosen);
        assert!(scan.result().dns_success);
    }
}

#[test]
fn error_begins_as_far_as_the_scan_has_come() {
    let check = |scan: &Scan| {
        let r = scan.result();
        assert_eq!(scan.stage(), Stage::Over);
        let dns = r.error.starts_with("DNS: ");
        let tcp = r.error.starts_with("TCP: ");
        assert_eq!(r.dns_success, !dns);
        assert_eq!(r.tcp_success, !dns && !tcp);
        assert_eq!(r.dns_success, !r.ip.is_empty());
        assert!(r.error.is_empty() || dns || tcp || r.error.starts_with("TLS: "));
    };
    let mut scan = begin("a.com", 443);
    take(&mut scan, Event::LookedUp(Outcome::Failed("TCP: odd".to_string())), 0);
    check(&scan);
    let mut scan = begin("a.com", 443);
    take(&mut scan, found(), 0);
    take(&mut scan, Event::Connected(Outcome::Failed("DNS: odd".to_string())), 0);
    check(&scan);
    let mut scan = begin("a.com", 443);
    take(&mut scan, found(), 0);
    take(&mut scan, connected(), 0);
    take(&mut scan, Event::TlsConnected(Outcome::Failed("DNS: odd".to_string())), 0);
    check(&scan);
    assert_eq!(scan.result().error, "TLS: DNS: odd");
    let mut scan = begin("a.com", 80);
    take(&mut scan, found(), 0);
    take(&mut scan, connected(), 0);
    take(&mut scan, Event::HandshakeDone(Outcome::TimedOut), 0);
    take(&mut scan, Event::Connected(Outcome::TimedOut), 0);
    check(&scan);
}

#[test]
fn times_of_the_phases_fit_into_the_whole() {
    let part = 600_000;
    let mut scan = begin("a b", 443);
    take(&mut scan, found(), MS + part);
    take(&mut scan, connected(), 2 * (MS + part));
    assert_eq!(scan.stage(), Stage::Over);
    let mut scan = begin("a.com", 443);
    take(&mut scan, found(), MS + part);
    take(&mut scan, connected(), 2 * (MS + part));
    take(&mut scan, Event::TlsConnected(Outcome::TimedOut), 3 * (MS + part));
    let r = scan.result();
    assert_eq!((r.dns_time_ms, r.tcp_time_ms, r.grpc_time_ms), (1, 1, 1));
    assert_eq!(r.total_time_ms, 4);
}
