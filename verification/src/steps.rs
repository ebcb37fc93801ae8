//! What each step of a scan does with what has come in, and what comes of a whole
//! response.
use vstd::prelude::*;

use crate::outside::{built_request, header_fields, is_server_name, visible_text};
use crate::properties::{lemma_services_counted, run, sound};
use crate::reflection::{frame_ends_fit, framed_services};
use crate::result::{
    content_type_text, field_text, lemma_content_type_noted, lemma_first_value_read,
    lemma_status_noted, lemma_trailers_noted, with_body, with_content_type, with_tls,
    with_trailers, ScanRecord, TlsSession,
};
use crate::scanner::{
    body_wait, endpoint, lemma_first_ipv6_preferred, lemma_ipv6_preferred, millis, preferred,
    request_headers, request_uri, Action, Event, Outcome, ScanState, Stage, Task,
};
use crate::text::{decimal, join, texts};
use crate::wire::{frame, list_services_request};

verus! {

/// Milliseconds are whole and counted down: what is left over is less than one.
/// Where the clock went back there are none.
pub proof fn lemma_millis_counted_down(from: u128, to: u128)
    ensures
        to < from ==> millis(from, to) == 0,
        from <= to ==> millis(from, to) == (to - from) / 1_000_000 % 0x1_0000_0000_0000_0000,
        from <= to && (to - from) / 1_000_000 < 0x1_0000_0000_0000_0000 ==> millis(from, to)
            * 1_000_000 <= to - from < millis(from, to) * 1_000_000 + 1_000_000,
{
}

/// The body is waited for until five seconds after it began to be read, but for a
/// piece of it never less than a twentieth of a second.
pub proof fn lemma_body_waited_for(start: u128, now: u128)
    ensures
        start <= now && now + body_wait(start, now) > start + 5_000_000_000 ==> body_wait(
            start,
            now,
        ) == 50_000_000,
        start <= now ==> now + body_wait(start, now) >= start + 5_000_000_000,
        body_wait(start, now) >= 50_000_000,
        now < start ==> body_wait(start, now) == 5_000_000_000,
{
}

/// The pieces of what is asked for: the address with its port behind a colon, the
/// target with its scheme, and the request and its body.
pub proof fn lemma_asked_for(ip: Seq<char>, port: u16, tls: bool, domain: Seq<char>)
    ensures
        endpoint(ip, port) == ip + ":"@ + decimal(port as nat),
        tls ==> request_uri(tls, domain) == "https"@ + "://"@ + domain
            + "/grpc.reflection.v1alpha.ServerReflection/ServerReflectionInfo"@,
        !tls ==> request_uri(tls, domain) == "http"@ + "://"@ + domain
            + "/grpc.reflection.v1alpha.ServerReflection/ServerReflectionInfo"@,
        request_headers().len() == 4,
        request_headers()[0] == ("content-type"@, "application/grpc"@),
        request_headers()[1] == ("te"@, "trailers"@),
        request_headers()[2] == ("grpc-accept-encoding"@, "identity"@),
        request_headers()[3] == ("user-agent"@, "grpc-go/1.59.0"@),
        frame(list_services_request()) == seq![0u8, 0, 0, 0, 2, 0x22, 0],
{
    assert(frame(list_services_request()) =~= seq![0u8, 0, 0, 0, 2, 0x22, 0]);
}

/// A task says all that the action says that it is taken of.
pub proof fn lemma_task_says_all(action: Action)
    ensures
        action matches Action::Resolve { domain, timeout } ==> action@ == (Task::Resolve {
            domain: domain@,
            timeout,
        }),
        action matches Action::Connect { address, timeout } ==> action@ == (Task::Connect {
            address: address@,
            timeout,
        }),
        action matches Action::ConnectTls { server_name, timeout } ==> action@
            == (Task::ConnectTls { server_name: server_name@, timeout }),
        action matches Action::Handshake { timeout } ==> action@ == (Task::Handshake { timeout }),
        action matches Action::Send { request, body } ==> action@ == (Task::Send {
            request,
            body: body@,
        }),
        action matches Action::AwaitResponse { timeout } ==> action@ == (Task::AwaitResponse {
            timeout,
        }),
        action matches Action::ReadBody { wait_nanos } ==> action@ == (Task::ReadBody {
            wait_nanos,
        }),
        action matches Action::ReadTrailers { wait_nanos } ==> action@ == (Task::ReadTrailers {
            wait_nanos,
        }),
        action is AwaitReady <==> action@ is AwaitReady,
        action is Finish <==> action@ is Finish,
{
}

/// A scan begins with a lookup before it, at time zero, and with nothing found out
/// of the endpoint but what it is.
pub proof fn lemma_scan_begins(
    domain: Seq<char>,
    port: u16,
    timeout: std::time::Duration,
    timestamp: Seq<char>,
)
    ensures
        ({
            let s = ScanState::started(domain, port, timeout, timestamp);
            let r = s.result;
            &&& s.stage == Stage::Resolving && !s.tls && s.timeout == timeout
            &&& s.phase_start == 0 && s.body_start == 0 && s.body.len() == 0
            &&& s.content_type.len() == 0 && s.grpc_status.len() == 0
            &&& r.domain == domain && r.port == port && r.timestamp == timestamp
            &&& r.ip.len() == 0 && r.grpc_response.len() == 0 && r.services_list.len() == 0
            &&& r.tls_version.len() == 0 && r.tls_cipher.len() == 0 && r.cert_issuer.len() == 0
            &&& r.cert_expires.len() == 0 && r.auth_type.len() == 0 && r.error.len() == 0
            &&& !r.dns_success && !r.tcp_success && !r.http2_success && !r.tls_enabled
            &&& !r.grpc_detected && !r.reflection_enabled && !r.requires_auth
            &&& r.services_count == 0 && r.dns_time_ms == 0 && r.tcp_time_ms == 0
            &&& r.grpc_time_ms == 0 && r.total_time_ms == 0
        }),
{
}

/// Which event a scan takes at which stage. Only the trailers are taken under a
/// condition: where gRPC has been or is thereby detected, the body can be read.
pub proof fn lemma_taken_at_its_stage(s: ScanState, event: Event)
    ensures
        event is LookedUp ==> (s.takes(event) <==> s.stage == Stage::Resolving),
        event is Connected ==> (s.takes(event) <==> s.stage == Stage::Connecting || s.stage
            == Stage::Reconnecting),
        event is TlsConnected ==> (s.takes(event) <==> s.stage == Stage::ConnectingTls),
        event is HandshakeDone ==> (s.takes(event) <==> s.stage == Stage::Handshaking),
        event is Ready ==> (s.takes(event) <==> s.stage == Stage::Preparing),
        event is Sent ==> (s.takes(event) <==> s.stage == Stage::Sending),
        event is Responded ==> (s.takes(event) <==> s.stage == Stage::Responding),
        event is BodyRead ==> (s.takes(event) <==> s.stage == Stage::Reading),
        event matches Event::TrailersRead(trailers) ==> (s.takes(event) <==> s.stage
            == Stage::Trailing && (s.result.grpc_detected || trailers is Some && header_fields(
            trailers->0,
        ).contains_key("grpc-status"@) ==> frame_ends_fit(s.body))),
{
}

/// A lookup that brings addresses: the first with a colon in it, or the first of
/// all if none has one, is noted and connected to.
pub proof fn lemma_address_found(s: ScanState, addresses: Vec<String>, i: int, now: u128)
    requires
        0 <= i < addresses@.len(),
        ({
            ||| addresses@[i]@.contains(':') && forall|j: int|
                0 <= j < i ==> !(#[trigger] addresses@[j]@).contains(':')
            ||| i == 0 && forall|j: int|
                0 <= j < addresses@.len() ==> !(#[trigger] addresses@[j]@).contains(':')
        }),
    ensures
        s.next(Event::LookedUp(Outcome::Done(addresses)), now) == (
            ScanState {
                stage: Stage::Connecting,
                phase_start: now,
                result: ScanRecord {
                    dns_success: true,
                    ip: addresses@[i]@,
                    dns_time_ms: millis(s.phase_start, now),
                    ..s.result
                },
                ..s
            },
            Task::Connect {
                address: addresses@[i]@ + ":"@ + decimal(s.result.port as nat),
                timeout: s.timeout,
            },
        ),
{
    let all = texts(addresses@);
    assert forall|j: int| 0 <= j < all.len() implies #[trigger] all[j] == addresses@[j]@ by {}
    if addresses@[i]@.contains(':') {
        lemma_first_ipv6_preferred(all, i);
    } else {
        lemma_ipv6_preferred(all);
    }
    assert(preferred(all) == addresses@[i]@);
}

/// A lookup that brings no address ends the scan, with the reason.
pub proof fn lemma_no_address_found(
    s: ScanState,
    outcome: Outcome<Vec<String>>,
    reason: Seq<char>,
    now: u128,
)
    requires
        match outcome {
            Outcome::Done(addresses) => addresses@.len() == 0 && reason == "no IP"@,
            Outcome::TimedOut => reason == "timeout"@,
            Outcome::Failed(error) => reason == error@,
        },
    ensures
        s.next(Event::LookedUp(outcome), now) == (
            ScanState {
                stage: Stage::Over,
                result: ScanRecord {
                    error: "DNS: "@ + reason,
                    dns_time_ms: millis(s.phase_start, now),
                    total_time_ms: millis(0, now),
                    ..s.result
                },
                ..s
            },
            Task::Finish,
        ),
{
}

/// A first connection: on port 443 TLS comes next, if the domain can be the name
/// of a server, and else the scan is over; on any other port HTTP/2 in clear.
pub proof fn lemma_connection_made(s: ScanState, now: u128)
    requires
        s.stage == Stage::Connecting,
    ensures
        ({
            let r = ScanRecord {
                tcp_success: true,
                tcp_time_ms: millis(s.phase_start, now),
                ..s.result
            };
            let next = s.next(Event::Connected(Outcome::Done(())), now);
            &&& s.result.port != 443 ==> next == (
                ScanState { stage: Stage::Handshaking, phase_start: now, result: r, ..s },
                Task::Handshake { timeout: s.timeout },
            )
            &&& s.result.port == 443 && is_server_name(s.result.domain) ==> next == (
                ScanState {
                    stage: Stage::ConnectingTls,
                    tls: true,
                    phase_start: now,
                    result: r,
                    ..s
                },
                Task::ConnectTls { server_name: s.result.domain, timeout: s.timeout },
            )
            &&& s.result.port == 443 && !is_server_name(s.result.domain) ==> next == (
                ScanState {
                    stage: Stage::Over,
                    tls: true,
                    phase_start: now,
                    result: ScanRecord {
                        error: "TLS: "@ + "invalid server name"@,
                        grpc_time_ms: 0,
                        total_time_ms: millis(0, now),
                        ..r
                    },
                    ..s
                },
                Task::Finish,
            )
        }),
{
}

/// No first connection: the scan ends with the reason.
pub proof fn lemma_no_connection_made(
    s: ScanState,
    outcome: Outcome<()>,
    reason: Seq<char>,
    now: u128,
)
    requires
        s.stage == Stage::Connecting,
        outcome is TimedOut && reason == "timeout"@ || outcome is Failed && reason
            == outcome->Failed_0@,
    ensures
        s.next(Event::Connected(outcome), now) == (
            ScanState {
                stage: Stage::Over,
                result: ScanRecord {
                    error: "TCP: "@ + reason,
                    tcp_time_ms: millis(s.phase_start, now),
                    total_time_ms: millis(0, now),
                    ..s.result
                },
                ..s
            },
            Task::Finish,
        ),
{
}

/// A second connection is for TLS, if the domain can be the name of a server;
/// without it the scan ends and says nothing.
pub proof fn lemma_connection_made_again(s: ScanState, outcome: Outcome<()>, now: u128)
    requires
        s.stage == Stage::Reconnecting,
    ensures
        ({
            let next = s.next(Event::Connected(outcome), now);
            let over = ScanRecord {
                grpc_time_ms: millis(s.phase_start, now),
                total_time_ms: millis(0, now),
                ..s.result
            };
            &&& outcome is Done && is_server_name(s.result.domain) ==> next == (
                ScanState { stage: Stage::ConnectingTls, tls: true, ..s },
                Task::ConnectTls { server_name: s.result.domain, timeout: s.timeout },
            )
            &&& outcome is Done && !is_server_name(s.result.domain) ==> next == (
                ScanState {
                    stage: Stage::Over,
                    tls: true,
                    result: ScanRecord { error: "TLS: "@ + "invalid server name"@, ..over },
                    ..s
                },
                Task::Finish,
            )
            &&& !(outcome is Done) ==> next == (
                ScanState { stage: Stage::Over, result: over, ..s },
                Task::Finish,
            )
        }),
{
}

/// What comes of the validity of the server name and of building the request,
/// each given by itself.
pub proof fn lemma_decided(
    s: ScanState,
    valid: bool,
    built: Result<http::Request<()>, Seq<char>>,
    now: u128,
)
    ensures
        valid ==> s.ask_tls(valid, now) == (
            ScanState { stage: Stage::ConnectingTls, tls: true, ..s },
            Task::ConnectTls { server_name: s.result.domain, timeout: s.timeout },
        ),
        !valid ==> s.ask_tls(valid, now) == (
            ScanState {
                stage: Stage::Over,
                tls: true,
                result: ScanRecord {
                    error: "TLS: "@ + "invalid server name"@,
                    grpc_time_ms: millis(s.phase_start, now),
                    total_time_ms: millis(0, now),
                    ..s.result
                },
                ..s
            },
            Task::Finish,
        ),
        built matches Ok(request) ==> s.after_build(built, now) == (
            ScanState { stage: Stage::Sending, ..s },
            Task::Send { request, body: seq![0u8, 0, 0, 0, 2, 0x22, 0] },
        ),
        built matches Err(error) ==> (s.tls ==> s.after_build(built, now) == (
            ScanState {
                stage: Stage::Over,
                result: ScanRecord {
                    error: "TLS: "@ + error,
                    grpc_time_ms: millis(s.phase_start, now),
                    total_time_ms: millis(0, now),
                    ..s.result
                },
                ..s
            },
            Task::Finish,
        )) && (!s.tls ==> s.after_build(built, now) == (
            ScanState { stage: Stage::Reconnecting, ..s },
            Task::Connect {
                address: s.result.ip + ":"@ + decimal(s.result.port as nat),
                timeout: s.timeout,
            },
        )),
{
    assert(frame(list_services_request()) =~= seq![0u8, 0, 0, 0, 2, 0x22, 0]);
}

/// A TLS connection is noted, and HTTP/2 comes next.
pub proof fn lemma_tls_made(s: ScanState, session: TlsSession, now: u128)
    ensures
        s.next(Event::TlsConnected(Outcome::Done(session)), now) == (
            ScanState {
                stage: Stage::Handshaking,
                result: with_tls(s.result, session),
                ..s
            },
            Task::Handshake { timeout: s.timeout },
        ),
{
}

/// What goes on when each step of an attempt succeeds: HTTP/2 is noted and waited
/// for to be ready, the request is sent, and the response waited for.
pub proof fn lemma_attempt_goes_on(s: ScanState, request: http::Request<()>, now: u128)
    ensures
        s.next(Event::HandshakeDone(Outcome::Done(())), now) == (
            ScanState {
                stage: Stage::Preparing,
                result: ScanRecord { http2_success: true, ..s.result },
                ..s
            },
            Task::AwaitReady,
        ),
        built_request(
            "POST"@,
            (if s.tls {
                "https"@
            } else {
                "http"@
            }) + "://"@ + s.result.domain
                + "/grpc.reflection.v1alpha.ServerReflection/ServerReflectionInfo"@,
            seq![
                ("content-type"@, "application/grpc"@),
                ("te"@, "trailers"@),
                ("grpc-accept-encoding"@, "identity"@),
                ("user-agent"@, "grpc-go/1.59.0"@),
            ],
        ) == Ok::<http::Request<()>, Seq<char>>(request) ==> s.next(Event::Ready(Ok(())), now) == (
            ScanState { stage: Stage::Sending, ..s },
            Task::Send { request, body: seq![0u8, 0, 0, 0, 2, 0x22, 0] },
        ),
        s.next(Event::Sent(Ok(())), now) == (
            ScanState { stage: Stage::Responding, ..s },
            Task::AwaitResponse { timeout: s.timeout },
        ),
{
    assert(frame(list_services_request()) =~= seq![0u8, 0, 0, 0, 2, 0x22, 0]);
}

/// Whether an attempt fails with an event, and for which reason.
pub open spec fn fails_for(s: ScanState, event: Event, reason: Seq<char>) -> bool {
    match event {
        Event::TlsConnected(Outcome::TimedOut) => reason == "TLS timeout"@,
        Event::TlsConnected(Outcome::Failed(error)) => reason == error@,
        Event::HandshakeDone(Outcome::TimedOut) => if s.tls {
            reason == "h2 handshake timeout"@
        } else {
            reason == "h2c handshake timeout"@
        },
        Event::HandshakeDone(Outcome::Failed(error)) => reason == error@,
        Event::Ready(Ok(_)) => built_request(
            "POST"@,
            (if s.tls {
                "https"@
            } else {
                "http"@
            }) + "://"@ + s.result.domain
                + "/grpc.reflection.v1alpha.ServerReflection/ServerReflectionInfo"@,
            seq![
                ("content-type"@, "application/grpc"@),
                ("te"@, "trailers"@),
                ("grpc-accept-encoding"@, "identity"@),
                ("user-agent"@, "grpc-go/1.59.0"@),
            ],
        ) == Err::<http::Request<()>, Seq<char>>(reason),
        Event::Ready(Err(error)) => reason == error@,
        Event::Sent(Err(error)) => reason == error@,
        Event::Responded(Outcome::TimedOut) => reason == "response timeout"@,
        Event::Responded(Outcome::Failed(error)) => reason == error@,
        _ => false,
    }
}

/// What comes of an attempt that fails: with TLS the scan ends with the reason;
/// without, nothing is noted and the same endpoint is connected to again.
#[verifier::rlimit(40)]
pub proof fn lemma_attempt_ends(s: ScanState, event: Event, reason: Seq<char>, now: u128)
    requires
        fails_for(s, event, reason),
    ensures
        s.tls ==> s.next(event, now) == (
            ScanState {
                stage: Stage::Over,
                result: ScanRecord {
                    error: "TLS: "@ + reason,
                    grpc_time_ms: millis(s.phase_start, now),
                    total_time_ms: millis(0, now),
                    ..s.result
                },
                ..s
            },
            Task::Finish,
        ),
        !s.tls ==> s.next(event, now) == (
            ScanState { stage: Stage::Reconnecting, ..s },
            Task::Connect {
                address: s.result.ip + ":"@ + decimal(s.result.port as nat),
                timeout: s.timeout,
            },
        ),
{
}

/// A response: its content type is kept and noted, and its body comes next, from
/// the start.
pub proof fn lemma_response_came(s: ScanState, headers: http::HeaderMap, now: u128)
    ensures
        s.next(Event::Responded(Outcome::Done(headers)), now) == (
            ScanState {
                stage: Stage::Reading,
                body: Seq::empty(),
                body_start: now,
                content_type: content_type_text(headers),
                result: with_content_type(s.result, content_type_text(headers)),
                ..s
            },
            Task::ReadBody { wait_nanos: 5_000_000_000 },
        ),
{
}

/// A piece of the body is put behind what there is, whatever it is, and reading
/// goes on as long as all of it is not more than 65536 bytes. Where there is no
/// piece, or there is enough, the trailers come next.
pub proof fn lemma_piece_came(s: ScanState, piece: Vec<u8>, now: u128)
    requires
        s.stage == Stage::Reading,
    ensures
        s.body.len() + piece@.len() <= 65536 ==> s.next(Event::BodyRead(Some(piece)), now) == (
            ScanState { body: s.body + piece@, ..s },
            Task::ReadBody { wait_nanos: body_wait(s.body_start, now) },
        ),
        s.body.len() + piece@.len() > 65536 ==> s.next(Event::BodyRead(Some(piece)), now) == (
            ScanState { stage: Stage::Trailing, body: s.body + piece@, ..s },
            Task::ReadTrailers { wait_nanos: 2_000_000_000 },
        ),
        s.next(Event::BodyRead(None), now) == (
            ScanState { stage: Stage::Trailing, ..s },
            Task::ReadTrailers { wait_nanos: 2_000_000_000 },
        ),
{
}

/// The trailers end the scan: what they tell is noted, and then what the body
/// tells.
pub proof fn lemma_trailers_came(s: ScanState, trailers: Option<http::HeaderMap>, now: u128)
    ensures
        ({
            let told = match trailers {
                Some(headers) => with_trailers(s.result, headers),
                None => s.result,
            };
            let status = match trailers {
                Some(headers) => field_text(headers, "grpc-status"@),
                None => None,
            };
            s.next(Event::TrailersRead(trailers), now) == (
                ScanState {
                    stage: Stage::Over,
                    grpc_status: if status is Some {
                        status->0
                    } else {
                        s.grpc_status
                    },
                    result: ScanRecord {
                        grpc_time_ms: millis(s.phase_start, now),
                        total_time_ms: millis(0, now),
                        ..with_body(told, s.body)
                    },
                    ..s
                },
                Task::Finish,
            )
        }),
{
}

/// What the body tells: nothing unless gRPC has been detected and the first frame
/// lists services; and then that reflection is on, how many services there are,
/// and their names with semicolons between them.
pub proof fn lemma_body_noted(r: ScanRecord, body: Seq<u8>)
    ensures
        !r.grpc_detected || framed_services(body) is None ==> with_body(r, body) == r,
        r.grpc_detected && framed_services(body) is Some ==> {
            let names = framed_services(body)->0;
            &&& names.len() <= u32::MAX
            &&& with_body(r, body) == (ScanRecord {
                reflection_enabled: true,
                services_count: names.len() as u32,
                services_list: join(names, ";"@),
                ..r
            })
        },
{
    if r.grpc_detected && framed_services(body) is Some {
        lemma_services_counted(r, body);
    }
}

/// Pieces of a body, each with the time at which it came, as events.
pub open spec fn piece_events(pieces: Seq<(Vec<u8>, u128)>) -> Seq<(Event, u128)> {
    pieces.map_values(|p: (Vec<u8>, u128)| (Event::BodyRead(Some(p.0)), p.1))
}

/// The bytes of pieces of a body, one after the other.
pub open spec fn put_together(pieces: Seq<(Vec<u8>, u128)>) -> Seq<u8> {
    pieces.map_values(|p: (Vec<u8>, u128)| p.0@).flatten()
}

/// What has been put together before the last piece comes before it.
proof fn lemma_put_together_last(pieces: Seq<(Vec<u8>, u128)>)
    requires
        pieces.len() > 0,
    ensures
        put_together(pieces) == put_together(pieces.drop_last()) + pieces.last().0@,
{
    let bytes = pieces.map_values(|p: (Vec<u8>, u128)| p.0@);
    let init = pieces.drop_last().map_values(|p: (Vec<u8>, u128)| p.0@);
    assert(bytes.drop_last() =~= init);
    bytes.lemma_flatten_and_flatten_alt_are_equivalent();
    init.lemma_flatten_and_flatten_alt_are_equivalent();
}

/// A body that comes in pieces is put together out of all of them, in order: as
/// long as they are not more than 65536 bytes, reading goes on, and nothing else
/// has changed.
pub proof fn lemma_body_put_together(s: ScanState, pieces: Seq<(Vec<u8>, u128)>)
    requires
        s.stage == Stage::Reading,
        s.body.len() + put_together(pieces).len() <= 65536,
    ensures
        run(s, piece_events(pieces)) == (ScanState { body: s.body + put_together(pieces), ..s }),
    decreases pieces.len(),
{
    let events = piece_events(pieces);
    if pieces.len() == 0 {
        assert(s.body + put_together(pieces) =~= s.body);
    } else {
        let init = pieces.drop_last();
        let (piece, now) = pieces.last();
        lemma_put_together_last(pieces);
        lemma_body_put_together(s, init);
        assert(events.drop_last() =~= piece_events(init));
        lemma_piece_came(run(s, piece_events(init)), piece, now);
        assert(s.body + put_together(init) + piece@ =~= s.body + put_together(pieces));
    }
}

/// The end of a scan after a response: its head, its body in pieces, and its
/// trailers, each with the time at which it came.
pub open spec fn after_whole_response(
    s: ScanState,
    headers: (http::HeaderMap, u128),
    pieces: Seq<(Vec<u8>, u128)>,
    no_more: u128,
    trailers: (Option<http::HeaderMap>, u128),
) -> ScanState {
    let reading = s.next(Event::Responded(Outcome::Done(headers.0)), headers.1).0;
    let read = run(reading, piece_events(pieces)).next(Event::BodyRead(None), no_more).0;
    read.next(Event::TrailersRead(trailers.0), trailers.1).0
}

/// What is reported of a response that is read whole, in terms of its head, the
/// bytes of its body, and its trailers. gRPC is detected exactly if the first
/// sixteen characters of the content type are `application/grpc` or there is a
/// status in the trailers. What is noted of it is the status, if there is one that
/// can be read, else the content type. Credentials are asked for by the statuses
/// 16 and 7. The services are those that the first frame of the body lists, and
/// only where gRPC has been detected. All else stays but for the times.
pub proof fn lemma_whole_response_reported(
    s: ScanState,
    headers: (http::HeaderMap, u128),
    pieces: Seq<(Vec<u8>, u128)>,
    no_more: u128,
    trailers: (Option<http::HeaderMap>, u128),
)
    requires
        sound(s),
        s.stage == Stage::Responding,
        put_together(pieces).len() <= 65536,
    ensures
        ({
            let r = after_whole_response(s, headers, pieces, no_more, trailers).result;
            let head = header_fields(headers.0);
            let typed = head.contains_key("content-type"@) && visible_text(
                head["content-type"@][0],
            ) is Some;
            let content_type = visible_text(head["content-type"@][0])->0;
            let by_type = typed && content_type.len() >= 16 && content_type.take(16)
                == "application/grpc"@;
            let tail = header_fields(trailers.0->0);
            let by_status = trailers.0 is Some && tail.contains_key("grpc-status"@);
            let readable = by_status && visible_text(tail["grpc-status"@][0]) is Some;
            let status = visible_text(tail["grpc-status"@][0])->0;
            let body = put_together(pieces);
            let listed = framed_services(body) is Some && r.grpc_detected;
            &&& r.grpc_detected <==> by_type || by_status
            &&& readable ==> r.grpc_response == "grpc-status:"@ + status
            &&& !readable && by_type ==> r.grpc_response == content_type
            &&& !readable && !by_type ==> r.grpc_response == s.result.grpc_response
            &&& r.requires_auth <==> readable && (status == seq!['1', '6'] || status == seq!['7'])
            &&& r.reflection_enabled <==> listed
            &&& listed ==> r.services_count == framed_services(body)->0.len() && r.services_list
                == join(framed_services(body)->0, ";"@)
            &&& r.grpc_time_ms == millis(s.phase_start, trailers.1)
            &&& r.total_time_ms == millis(0, trailers.1)
            &&& r == (ScanRecord {
                grpc_detected: r.grpc_detected,
                grpc_response: r.grpc_response,
                requires_auth: r.requires_auth,
                auth_type: r.auth_type,
                reflection_enabled: r.reflection_enabled,
                services_count: r.services_count,
                services_list: r.services_list,
                grpc_time_ms: r.grpc_time_ms,
                total_time_ms: r.total_time_ms,
                ..s.result
            })
        }),
{
    let reading = s.next(Event::Responded(Outcome::Done(headers.0)), headers.1).0;
    let content_type = content_type_text(headers.0);
    reveal_strlit("application/grpc");
    lemma_response_came(s, headers.0, headers.1);
    lemma_first_value_read(headers.0, "content-type"@);
    lemma_content_type_noted(s.result, content_type);
    lemma_body_put_together(reading, pieces);
    let read = run(reading, piece_events(pieces));
    assert(read.body =~= put_together(pieces));
    let waiting = read.next(Event::BodyRead(None), no_more).0;
    assert(waiting.body == read.body);
    assert(waiting.result == reading.result);
    lemma_trailers_came(waiting, trailers.0, trailers.1);
    let told = match trailers.0 {
        Some(tail) => with_trailers(waiting.result, tail),
        None => waiting.result,
    };
    if let Some(tail) = trailers.0 {
        lemma_first_value_read(tail, "grpc-status"@);
        lemma_trailers_noted(waiting.result, tail);
        if field_text(tail, "grpc-status"@) is Some {
            lemma_status_noted(
                ScanRecord { grpc_detected: true, ..waiting.result },
                field_text(tail, "grpc-status"@)->0,
            );
        }
    }
    lemma_body_noted(told, waiting.body);
}

/// How a body is cut into pieces, and when they come, makes no difference to what
/// is reported.
pub proof fn lemma_cuts_make_no_difference(
    s: ScanState,
    headers: (http::HeaderMap, u128),
    a: Seq<(Vec<u8>, u128)>,
    b: Seq<(Vec<u8>, u128)>,
    no_more_a: u128,
    no_more_b: u128,
    trailers: (Option<http::HeaderMap>, u128),
)
    requires
        put_together(a) == put_together(b),
        put_together(a).len() <= 65536,
    ensures
        after_whole_response(s, headers, a, no_more_a, trailers) == after_whole_response(
            s,
            headers,
            b,
            no_more_b,
            trailers,
        ),
{
    let reading = s.next(Event::Responded(Outcome::Done(headers.0)), headers.1).0;
    lemma_body_put_together(reading, a);
    lemma_body_put_together(reading, b);
}

} // verus!
