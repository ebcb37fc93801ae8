//! The scan of one endpoint, step by step.
//!
//! A scan asks for one piece of network work at a time and decides from what
//! comes back what to note and what to ask for next.
use std::time::Duration;
use vstd::prelude::*;
use vstd::string::*;

use crate::outside::{
    build_request, built_request, is_server_name, is_utc_time, server_name_valid,
};
use crate::reflection::{frame_ends_fit, frame_readable};
use crate::result::{
    blank_record, content_type, content_type_text, field_text, grpc_status, has_grpc_status,
    with_body, with_content_type, with_tls, with_trailers, ScanRecord, ScanResult, TlsSession,
};
use crate::text::{chars_of, concat, decimal, decimal_text, texts};
use crate::wire::{frame, list_services_frame, list_services_request};

verus! {

/// The port on which TLS is spoken from the start.
pub const TLS_PORT: u16 = 443;

/// How long the body of a response is read, in nanoseconds.
pub const BODY_NANOS: u64 = 5_000_000_000;

/// How long one piece of the body is waited for at the least, in nanoseconds.
pub const MIN_WAIT_NANOS: u64 = 50_000_000;

/// How long the trailers of a response are waited for, in nanoseconds.
pub const TRAILERS_NANOS: u64 = 2_000_000_000;

/// With more than so many bytes of it, reading of the body stops.
pub const BODY_LIMIT: usize = 65536;

/// How a piece of network work ended.
#[derive(Debug)]
pub enum Outcome<T> {
    Done(T),
    TimedOut,
    Failed(String),
}

/// What has been waited for has happened.
#[derive(Debug)]
pub enum Event {
    /// The domain has been looked up, with these IP addresses as text.
    LookedUp(Outcome<Vec<String>>),
    /// A TCP connection has been tried.
    Connected(Outcome<()>),
    /// A TLS connection has been tried.
    TlsConnected(Outcome<TlsSession>),
    /// The HTTP/2 handshake has been tried.
    HandshakeDone(Outcome<()>),
    /// The connection is ready for a request.
    Ready(Result<(), String>),
    /// The request and its body have been sent.
    Sent(Result<(), String>),
    /// The head of the response has been waited for.
    Responded(Outcome<http::HeaderMap>),
    /// A piece of the body has been waited for; nothing once there is no more
    /// of it to be had.
    BodyRead(Option<Vec<u8>>),
    /// The trailers have been waited for.
    TrailersRead(Option<http::HeaderMap>),
}

/// What is to be done next.
#[derive(Debug)]
pub enum Action {
    /// Look up the addresses of the domain.
    Resolve { domain: String, timeout: Duration },
    /// Open a TCP connection.
    Connect { address: String, timeout: Duration },
    /// Speak TLS over the TCP connection.
    ConnectTls { server_name: String, timeout: Duration },
    /// Start HTTP/2 over what is connected.
    Handshake { timeout: Duration },
    /// Wait until the HTTP/2 connection can take a request.
    AwaitReady,
    /// Send a request with a body.
    Send { request: http::Request<()>, body: Vec<u8> },
    /// Wait for the head of the response.
    AwaitResponse { timeout: Duration },
    /// Wait for a piece of the body.
    ReadBody { wait_nanos: u64 },
    /// Wait for the trailers.
    ReadTrailers { wait_nanos: u64 },
    /// Nothing: the scan is over.
    Finish,
}

/// What is to be done next, with its texts as sequences of characters.
#[verifier::ext_equal]
pub enum Task {
    Resolve { domain: Seq<char>, timeout: Duration },
    Connect { address: Seq<char>, timeout: Duration },
    ConnectTls { server_name: Seq<char>, timeout: Duration },
    Handshake { timeout: Duration },
    AwaitReady,
    Send { request: http::Request<()>, body: Seq<u8> },
    AwaitResponse { timeout: Duration },
    ReadBody { wait_nanos: u64 },
    ReadTrailers { wait_nanos: u64 },
    Finish,
}

impl View for Action {
    type V = Task;

    open spec fn view(&self) -> Task {
        match *self {
            Action::Resolve { domain, timeout } => Task::Resolve { domain: domain@, timeout },
            Action::Connect { address, timeout } => Task::Connect { address: address@, timeout },
            Action::ConnectTls { server_name, timeout } => Task::ConnectTls {
                server_name: server_name@,
                timeout,
            },
            Action::Handshake { timeout } => Task::Handshake { timeout },
            Action::AwaitReady => Task::AwaitReady,
            Action::Send { request, body } => Task::Send { request, body: body@ },
            Action::AwaitResponse { timeout } => Task::AwaitResponse { timeout },
            Action::ReadBody { wait_nanos } => Task::ReadBody { wait_nanos },
            Action::ReadTrailers { wait_nanos } => Task::ReadTrailers { wait_nanos },
            Action::Finish => Task::Finish,
        }
    }
}

/// What a scan is waiting for.
#[derive(Debug, Clone, Copy, PartialEq, Eq, Structural)]
pub enum Stage {
    Resolving,
    Connecting,
    /// Connecting a second time, after HTTP/2 without TLS has failed.
    Reconnecting,
    ConnectingTls,
    Handshaking,
    Preparing,
    Sending,
    Responding,
    Reading,
    Trailing,
    Over,
}

/// The state of a scan, with its texts as sequences of characters.
#[verifier::ext_equal]
pub struct ScanState {
    pub timeout: Duration,
    pub stage: Stage,
    /// Whether the connection is, or is to be, one with TLS.
    pub tls: bool,
    /// When the present phase began, in nanoseconds from the start.
    pub phase_start: u128,
    /// When the body began to be read, in nanoseconds from the start.
    pub body_start: u128,
    /// The body read so far.
    pub body: Seq<u8>,
    /// The content type of the response.
    pub content_type: Seq<char>,
    /// The gRPC status in the trailers.
    pub grpc_status: Seq<char>,
    pub result: ScanRecord,
}

/// The scan of one endpoint.
#[derive(Debug)]
pub struct Scan {
    timeout: Duration,
    stage: Stage,
    tls: bool,
    phase_start: u128,
    body_start: u128,
    body: Vec<u8>,
    content_type: String,
    grpc_status: String,
    result: ScanResult,
}

impl View for Scan {
    type V = ScanState;

    closed spec fn view(&self) -> ScanState {
        ScanState {
            timeout: self.timeout,
            stage: self.stage,
            tls: self.tls,
            phase_start: self.phase_start,
            body_start: self.body_start,
            body: self.body@,
            content_type: self.content_type@,
            grpc_status: self.grpc_status@,
            result: self.result@,
        }
    }
}

/// Whole milliseconds from one time to another, both in nanoseconds; none if
/// the clock went back.
pub open spec fn millis(from: u128, to: u128) -> u64 {
    if to < from {
        0
    } else {
        ((to - from) / 1_000_000 % 0x1_0000_0000_0000_0000) as u64
    }
}

/// How long to wait for a piece of the body: what is left of the time for all
/// of it, but not less than the least.
pub open spec fn body_wait(start: u128, now: u128) -> u64 {
    let elapsed: int = if now < start {
        0
    } else {
        now - start
    };
    if elapsed > BODY_NANOS - MIN_WAIT_NANOS {
        MIN_WAIT_NANOS
    } else {
        (BODY_NANOS - elapsed) as u64
    }
}

/// The address of a TCP endpoint.
pub open spec fn endpoint(ip: Seq<char>, port: u16) -> Seq<char> {
    ip + ":"@ + decimal(port as nat)
}

/// The service method that lists the services of a server.
pub open spec fn reflection_path() -> Seq<char> {
    "/grpc.reflection.v1alpha.ServerReflection/ServerReflectionInfo"@
}

/// Where the request goes to.
pub open spec fn request_uri(tls: bool, domain: Seq<char>) -> Seq<char> {
    (if tls {
        "https"@
    } else {
        "http"@
    }) + "://"@ + domain + reflection_path()
}

/// The header fields of the request.
pub open spec fn request_headers() -> Seq<(Seq<char>, Seq<char>)> {
    seq![
        ("content-type"@, "application/grpc"@),
        ("te"@, "trailers"@),
        ("grpc-accept-encoding"@, "identity"@),
        ("user-agent"@, "grpc-go/1.59.0"@),
    ]
}

/// Why a piece of work did not succeed.
pub open spec fn failure<T>(outcome: Outcome<T>, on_timeout: Seq<char>) -> Seq<char> {
    match outcome {
        Outcome::Failed(error) => error@,
        _ => on_timeout,
    }
}

/// Whether an IP address is one of version 6: only these are written with
/// colons.
pub open spec fn is_ipv6(address: Seq<char>) -> bool {
    address.contains(':')
}

/// The address to connect to: the first of version 6 if there is one, else the
/// first of all.
pub open spec fn preferred(addresses: Seq<Seq<char>>) -> Seq<char> {
    let six = addresses.filter(|a: Seq<char>| is_ipv6(a));
    if six.len() > 0 {
        six[0]
    } else {
        addresses[0]
    }
}

/// The first address of version 6 is preferred to all others.
pub proof fn lemma_first_ipv6_preferred(addresses: Seq<Seq<char>>, i: int)
    requires
        0 <= i < addresses.len(),
        is_ipv6(addresses[i]),
        forall|j: int| 0 <= j < i ==> !is_ipv6(#[trigger] addresses[j]),
    ensures
        preferred(addresses) == addresses[i],
{
    let six = |a: Seq<char>| is_ipv6(a);
    let before = addresses.take(i);
    let rest = addresses.skip(i + 1);
    lemma_none_ipv6(before);
    assert(addresses =~= before.push(addresses[i]) + rest);
    Seq::filter_distributes_over_add(before.push(addresses[i]), rest, six);
    Seq::lemma_filter_push(before, addresses[i], six);
}

/// Without an address of version 6, there is none among them.
proof fn lemma_none_ipv6(addresses: Seq<Seq<char>>)
    requires
        forall|j: int| 0 <= j < addresses.len() ==> !is_ipv6(#[trigger] addresses[j]),
    ensures
        addresses.filter(|a: Seq<char>| is_ipv6(a)).len() == 0,
{
    let six = |a: Seq<char>| is_ipv6(a);
    let found = addresses.filter(six);
    if found.len() > 0 {
        addresses.lemma_filter_pred(six, 0);
        assert(found.contains(found[0]));
        addresses.lemma_filter_contains_rev(six, found[0]);
    }
}

/// AAAA first: of some addresses one of them is preferred, and if any is of
/// version 6, that one is; if none is, it is the first.
pub proof fn lemma_ipv6_preferred(addresses: Seq<Seq<char>>)
    requires
        addresses.len() > 0,
    ensures
        addresses.contains(preferred(addresses)),
        (exists|i: int| 0 <= i < addresses.len() && is_ipv6(#[trigger] addresses[i])) ==> is_ipv6(
            preferred(addresses),
        ),
        (forall|i: int| 0 <= i < addresses.len() ==> !is_ipv6(#[trigger] addresses[i]))
            ==> preferred(addresses) == addresses[0],
{
    let six = |a: Seq<char>| is_ipv6(a);
    let found = addresses.filter(six);
    if found.len() > 0 {
        addresses.lemma_filter_pred(six, 0);
        assert(found.contains(found[0]));
        addresses.lemma_filter_contains_rev(six, found[0]);
    } else {
        assert(addresses.contains(addresses[0]));
        assert forall|i: int| 0 <= i < addresses.len() implies !is_ipv6(
            #[trigger] addresses[i],
        ) by {
            if is_ipv6(addresses[i]) {
                addresses.lemma_filter_contains(six, i);
            }
        }
    }
}

/// The address that a lookup gives, or why it gives none.
pub open spec fn resolved(outcome: Outcome<Vec<String>>) -> Result<Seq<char>, Seq<char>> {
    match outcome {
        Outcome::Done(addresses) => if addresses@.len() > 0 {
            Ok(preferred(texts(addresses@)))
        } else {
            Err("no IP"@)
        },
        _ => Err(failure(outcome, "timeout"@)),
    }
}

impl ScanState {
    /// A scan that has just begun.
    pub open spec fn started(
        domain: Seq<char>,
        port: u16,
        timeout: Duration,
        timestamp: Seq<char>,
    ) -> ScanState {
        ScanState {
            timeout,
            stage: Stage::Resolving,
            tls: false,
            phase_start: 0,
            body_start: 0,
            body: Seq::empty(),
            content_type: Seq::empty(),
            grpc_status: Seq::empty(),
            result: ScanRecord { domain, port, ..blank_record(timestamp) },
        }
    }

    /// The scan goes on to wait for something.
    pub open spec fn at(self, stage: Stage) -> ScanState {
        ScanState { stage, ..self }
    }

    /// The scan with another result.
    pub open spec fn with(self, result: ScanRecord) -> ScanState {
        ScanState { result, ..self }
    }

    /// A TCP connection is asked for.
    pub open spec fn connect(self, stage: Stage) -> (ScanState, Task) {
        (
            self.at(stage),
            Task::Connect {
                address: endpoint(self.result.ip, self.result.port),
                timeout: self.timeout,
            },
        )
    }

    /// The scan ends before anything but the network has been tried.
    pub open spec fn give_up(self, error: Seq<char>, now: u128) -> (ScanState, Task) {
        (
            self.at(Stage::Over).with(
                ScanRecord { error, total_time_ms: millis(0, now), ..self.result },
            ),
            Task::Finish,
        )
    }

    /// The scan ends.
    pub open spec fn finish(self, now: u128) -> (ScanState, Task) {
        (
            self.at(Stage::Over).with(
                ScanRecord {
                    grpc_time_ms: millis(self.phase_start, now),
                    total_time_ms: millis(0, now),
                    ..self.result
                },
            ),
            Task::Finish,
        )
    }

    /// HTTP/2 is asked for.
    pub open spec fn handshake(self) -> (ScanState, Task) {
        (self.at(Stage::Handshaking), Task::Handshake { timeout: self.timeout })
    }

    /// An attempt at gRPC has failed. Without TLS it is tried again with TLS,
    /// over a new connection; with TLS the scan ends with the error.
    pub open spec fn attempt_failed(self, error: Seq<char>, now: u128) -> (ScanState, Task) {
        if self.tls {
            self.with(ScanRecord { error: "TLS: "@ + error, ..self.result }).finish(now)
        } else {
            self.connect(Stage::Reconnecting)
        }
    }

    /// TLS is asked for, if the domain is valid as the name of a TLS server.
    pub open spec fn ask_tls(self, valid: bool, now: u128) -> (ScanState, Task) {
        let next = ScanState { tls: true, ..self };
        if valid {
            (
                next.at(Stage::ConnectingTls),
                Task::ConnectTls { server_name: self.result.domain, timeout: self.timeout },
            )
        } else {
            next.attempt_failed("invalid server name"@, now)
        }
    }

    /// Whether a TCP connection is there to go on with TLS: the first on the port
    /// of TLS, or the second on any other.
    pub open spec fn at_tls(self) -> bool {
        ||| self.stage == Stage::Connecting && self.result.tcp_success && self.result.port
            == TLS_PORT
        ||| self.stage == Stage::Reconnecting
    }

    /// The connection goes on with TLS.
    pub open spec fn begin_tls(self, now: u128) -> (ScanState, Task) {
        self.ask_tls(is_server_name(self.result.domain), now)
    }

    /// The domain has been looked up.
    pub open spec fn after_lookup(self, outcome: Outcome<Vec<String>>, now: u128) -> (
        ScanState,
        Task,
    ) {
        let timed = ScanRecord { dns_time_ms: millis(self.phase_start, now), ..self.result };
        match resolved(outcome) {
            Ok(ip) => (ScanState { phase_start: now, ..self }).with(
                ScanRecord { dns_success: true, ip, ..timed },
            ).connect(Stage::Connecting),
            Err(error) => self.with(timed).give_up("DNS: "@ + error, now),
        }
    }

    /// A TCP connection has been tried for the first time.
    pub open spec fn after_connect(self, outcome: Outcome<()>, now: u128) -> (ScanState, Task) {
        let timed = ScanRecord { tcp_time_ms: millis(self.phase_start, now), ..self.result };
        if outcome is Done {
            let next = (ScanState { phase_start: now, ..self }).with(
                ScanRecord { tcp_success: true, ..timed },
            );
            if self.result.port == TLS_PORT {
                next.begin_tls(now)
            } else {
                next.handshake()
            }
        } else {
            self.with(timed).give_up("TCP: "@ + failure(outcome, "timeout"@), now)
        }
    }

    /// A TCP connection has been tried for the second time.
    pub open spec fn after_reconnect(self, outcome: Outcome<()>, now: u128) -> (ScanState, Task) {
        if outcome is Done {
            self.begin_tls(now)
        } else {
            self.finish(now)
        }
    }

    /// A TLS connection has been tried.
    pub open spec fn after_tls(self, outcome: Outcome<TlsSession>, now: u128) -> (ScanState, Task) {
        match outcome {
            Outcome::Done(session) => self.with(with_tls(self.result, session)).handshake(),
            _ => self.attempt_failed(failure(outcome, "TLS timeout"@), now),
        }
    }

    /// HTTP/2 has been tried.
    pub open spec fn after_handshake(self, outcome: Outcome<()>, now: u128) -> (ScanState, Task) {
        if outcome is Done {
            (
                self.at(Stage::Preparing).with(
                    ScanRecord { http2_success: true, ..self.result },
                ),
                Task::AwaitReady,
            )
        } else {
            let on_timeout = if self.tls {
                "h2 handshake timeout"@
            } else {
                "h2c handshake timeout"@
            };
            self.attempt_failed(failure(outcome, on_timeout), now)
        }
    }

    /// The connection is ready, and the request, if it could be built, is sent.
    pub open spec fn after_build(
        self,
        built: Result<http::Request<()>, Seq<char>>,
        now: u128,
    ) -> (ScanState, Task) {
        match built {
            Ok(request) => (
                self.at(Stage::Sending),
                Task::Send { request, body: frame(list_services_request()) },
            ),
            Err(error) => self.attempt_failed(error, now),
        }
    }

    /// The connection has been waited for to be ready.
    pub open spec fn after_ready(self, outcome: Result<(), String>, now: u128) -> (
        ScanState,
        Task,
    ) {
        match outcome {
            Ok(_) => self.after_build(
                built_request("POST"@, request_uri(self.tls, self.result.domain), request_headers()),
                now,
            ),
            Err(error) => self.attempt_failed(error@, now),
        }
    }

    /// The request has been sent.
    pub open spec fn after_send(self, outcome: Result<(), String>, now: u128) -> (ScanState, Task) {
        match outcome {
            Ok(_) => (
                self.at(Stage::Responding),
                Task::AwaitResponse { timeout: self.timeout },
            ),
            Err(error) => self.attempt_failed(error@, now),
        }
    }

    /// The head of the response has been waited for.
    pub open spec fn after_response(self, outcome: Outcome<http::HeaderMap>, now: u128) -> (
        ScanState,
        Task,
    ) {
        match outcome {
            Outcome::Done(headers) => {
                let content_type = content_type_text(headers);
                (
                    (ScanState { content_type, body: Seq::empty(), body_start: now, ..self }).at(
                        Stage::Reading,
                    ).with(with_content_type(self.result, content_type)),
                    Task::ReadBody { wait_nanos: BODY_NANOS },
                )
            },
            _ => self.attempt_failed(failure(outcome, "response timeout"@), now),
        }
    }

    /// A piece of the body has been waited for.
    pub open spec fn after_body(self, piece: Option<Seq<u8>>, now: u128) -> (ScanState, Task) {
        let body = match piece {
            Some(bytes) => self.body + bytes,
            None => self.body,
        };
        let next = ScanState { body, ..self };
        if piece is Some && body.len() <= BODY_LIMIT {
            (next, Task::ReadBody { wait_nanos: body_wait(self.body_start, now) })
        } else {
            (next.at(Stage::Trailing), Task::ReadTrailers { wait_nanos: TRAILERS_NANOS })
        }
    }

    /// What the trailers, if there are any, tell.
    pub open spec fn with_trailers(self, trailers: Option<http::HeaderMap>) -> ScanState {
        match trailers {
            Some(headers) => {
                let status = match field_text(headers, "grpc-status"@) {
                    Some(text) => text,
                    None => self.grpc_status,
                };
                (ScanState { grpc_status: status, ..self }).with(
                    with_trailers(self.result, headers),
                )
            },
            None => self,
        }
    }

    /// The trailers have been waited for.
    pub open spec fn after_trailers(self, trailers: Option<http::HeaderMap>, now: u128) -> (
        ScanState,
        Task,
    ) {
        let told = self.with_trailers(trailers);
        told.with(with_body(told.result, self.body)).finish(now)
    }

    /// Whether the event is what the scan is waiting for, and the body, if the
    /// event has it looked at, can be.
    pub open spec fn takes(self, event: Event) -> bool {
        match event {
            Event::LookedUp(_) => self.stage == Stage::Resolving,
            Event::Connected(_) => self.stage == Stage::Connecting || self.stage
                == Stage::Reconnecting,
            Event::TlsConnected(_) => self.stage == Stage::ConnectingTls,
            Event::HandshakeDone(_) => self.stage == Stage::Handshaking,
            Event::Ready(_) => self.stage == Stage::Preparing,
            Event::Sent(_) => self.stage == Stage::Sending,
            Event::Responded(_) => self.stage == Stage::Responding,
            Event::BodyRead(_) => self.stage == Stage::Reading,
            Event::TrailersRead(trailers) => self.stage == Stage::Trailing && (self.with_trailers(
                trailers,
            ).result.grpc_detected ==> frame_ends_fit(self.body)),
        }
    }

    /// The scan after an event, and what is to be done next.
    pub open spec fn next(self, event: Event, now: u128) -> (ScanState, Task) {
        match event {
            Event::LookedUp(outcome) => self.after_lookup(outcome, now),
            Event::Connected(outcome) => if self.stage == Stage::Reconnecting {
                self.after_reconnect(outcome, now)
            } else {
                self.after_connect(outcome, now)
            },
            Event::TlsConnected(outcome) => self.after_tls(outcome, now),
            Event::HandshakeDone(outcome) => self.after_handshake(outcome, now),
            Event::Ready(outcome) => self.after_ready(outcome, now),
            Event::Sent(outcome) => self.after_send(outcome, now),
            Event::Responded(outcome) => self.after_response(outcome, now),
            Event::BodyRead(piece) => self.after_body(
                match piece {
                    Some(bytes) => Some(bytes@),
                    None => None,
                },
                now,
            ),
            Event::TrailersRead(trailers) => self.after_trailers(trailers, now),
        }
    }
}

/// Whole milliseconds from one time to another, both in nanoseconds.
fn elapsed_millis(from: u128, to: u128) -> (r: u64)
    ensures
        r == millis(from, to),
{
    if to < from {
        0
    } else {
        let n: u128 = (to - from) / 1_000_000;
        assert(#[verifier::truncate] (n as u64) == n % 0x1_0000_0000_0000_0000) by (bit_vector);
        #[verifier::truncate]
        (n as u64)
    }
}

/// How long to wait for a piece of the body.
fn remaining_wait(start: u128, now: u128) -> (r: u64)
    ensures
        r == body_wait(start, now),
{
    let elapsed: u128 = if now < start {
        0
    } else {
        now - start
    };
    if elapsed > (BODY_NANOS - MIN_WAIT_NANOS) as u128 {
        MIN_WAIT_NANOS
    } else {
        BODY_NANOS - elapsed as u64
    }
}

/// The address of a TCP endpoint.
pub fn endpoint_text(ip: &str, port: u16) -> (r: String)
    ensures
        r@ == endpoint(ip@, port),
{
    let mut r = concat(ip, ":");
    r.append(decimal_text(port as u64).as_str());
    r
}

/// Where the request goes to.
pub fn request_target(tls: bool, domain: &str) -> (r: String)
    ensures
        r@ == request_uri(tls, domain@),
{
    let mut r = concat(
        if tls {
            "https"
        } else {
            "http"
        },
        "://",
    );
    r.append(domain);
    r.append("/grpc.reflection.v1alpha.ServerReflection/ServerReflectionInfo");
    r
}

/// Whether an IP address is one of version 6.
fn ipv6(address: &str) -> (r: bool)
    ensures
        r == is_ipv6(address@),
{
    let chars = chars_of(address);
    let mut i: usize = 0;
    while i < chars.len()
        invariant
            i <= chars@.len(),
            chars@ == address@,
            forall|j: int| 0 <= j < i ==> chars@[j] != ':',
        decreases chars@.len() - i,
    {
        if chars[i] == ':' {
            assert(address@[i as int] == ':');
            return true;
        }
        i = i + 1;
    }
    false
}

/// The address to connect to.
fn prefer(addresses: &Vec<String>) -> (r: String)
    requires
        addresses@.len() > 0,
    ensures
        r@ == preferred(texts(addresses@)),
{
    let mut i: usize = 0;
    while i < addresses.len()
        invariant
            i <= addresses@.len(),
            forall|j: int| 0 <= j < i ==> !is_ipv6(#[trigger] texts(addresses@)[j]),
        decreases addresses@.len() - i,
    {
        assert(texts(addresses@)[i as int] == addresses@[i as int]@);
        if ipv6(addresses[i].as_str()) {
            proof {
                lemma_first_ipv6_preferred(texts(addresses@), i as int);
            }
            return addresses[i].clone();
        }
        i = i + 1;
    }
    proof {
        lemma_ipv6_preferred(texts(addresses@));
    }
    addresses[0].clone()
}

/// The address that a lookup gives, or why it gives none.
pub fn resolve_dns(outcome: Outcome<Vec<String>>) -> (r: Result<String, String>)
    ensures
        match r {
            Ok(ip) => resolved(outcome) == Ok::<Seq<char>, Seq<char>>(ip@),
            Err(error) => resolved(outcome) == Err::<Seq<char>, Seq<char>>(error@),
        },
{
    match outcome {
        Outcome::Done(addresses) => if addresses.len() > 0 {
            Ok(prefer(&addresses))
        } else {
            Err("no IP".to_owned())
        },
        Outcome::TimedOut => Err("timeout".to_owned()),
        Outcome::Failed(error) => Err(error),
    }
}

/// Whether a TCP connection has been made, or why not.
pub fn connect_tcp(outcome: Outcome<()>) -> (r: Result<(), String>)
    ensures
        match r {
            Ok(_) => outcome is Done,
            Err(error) => !(outcome is Done) && error@ == failure(outcome, "timeout"@),
        },
{
    match outcome {
        Outcome::Done(_) => Ok(()),
        Outcome::TimedOut => Err("timeout".to_owned()),
        Outcome::Failed(error) => Err(error),
    }
}

/// Scans endpoints for gRPC.
#[derive(Debug)]
pub struct GrpcScanner {
    timeout: Duration,
}

impl View for GrpcScanner {
    type V = Duration;

    closed spec fn view(&self) -> Duration {
        self.timeout
    }
}

impl GrpcScanner {
    /// A scanner that gives each piece of network work so much time.
    pub fn new(timeout: Duration) -> (r: Self)
        ensures
            r@ == timeout,
    {
        GrpcScanner { timeout }
    }

    /// How long each piece of network work may take.
    pub fn timeout(&self) -> (r: Duration)
        ensures
            r == self@,
    {
        self.timeout
    }

    /// Begins the scan of an endpoint now: the scan, and what is to be done
    /// first.
    pub fn scan(&self, domain: &str, port: u16) -> (r: (Scan, Action))
        ensures
            r.0@ == ScanState::started(domain@, port, self@, r.0@.result.timestamp),
            is_utc_time(r.0@.result.timestamp),
            r.1@ == (Task::Resolve { domain: domain@, timeout: self@ }),
    {
        self.begin(domain, port, ScanResult::default())
    }

    /// Begins the scan of an endpoint at a given time.
    pub fn scan_at(&self, domain: &str, port: u16, timestamp: String) -> (r: (Scan, Action))
        ensures
            r.0@ == ScanState::started(domain@, port, self@, timestamp@),
            r.1@ == (Task::Resolve { domain: domain@, timeout: self@ }),
    {
        self.begin(domain, port, ScanResult::blank(timestamp))
    }

    /// Begins the scan of an endpoint with a blank result.
    fn begin(&self, domain: &str, port: u16, blank: ScanResult) -> (r: (Scan, Action))
        requires
            blank@ == blank_record(blank@.timestamp),
        ensures
            r.0@ == ScanState::started(domain@, port, self@, blank@.timestamp),
            r.1@ == (Task::Resolve { domain: domain@, timeout: self@ }),
    {
        let mut result = blank;
        result.domain = domain.to_owned();
        result.port = port;
        let scan = Scan {
            timeout: self.timeout,
            stage: Stage::Resolving,
            tls: false,
            phase_start: 0,
            body_start: 0,
            body: Vec::new(),
            content_type: String::new(),
            grpc_status: String::new(),
            result,
        };
        assert(scan@ =~= ScanState::started(domain@, port, self@, blank@.timestamp));
        (scan, Action::Resolve { domain: domain.to_owned(), timeout: self.timeout })
    }
}

impl Scan {
    /// A TCP connection is asked for.
    fn connect(&mut self, stage: Stage) -> (r: Action)
        ensures
            (final(self)@, r@) == old(self)@.connect(stage),
    {
        self.stage = stage;
        let address = endpoint_text(self.result.ip.as_str(), self.result.port);
        Action::Connect { address, timeout: self.timeout }
    }

    /// The scan ends before anything but the network has been tried.
    fn give_up(&mut self, error: String, now: u128) -> (r: Action)
        ensures
            (final(self)@, r@) == old(self)@.give_up(error@, now),
    {
        self.result.error = error;
        self.result.total_time_ms = elapsed_millis(0, now);
        self.stage = Stage::Over;
        Action::Finish
    }

    /// The scan ends.
    fn finish(&mut self, now: u128) -> (r: Action)
        ensures
            (final(self)@, r@) == old(self)@.finish(now),
    {
        self.result.grpc_time_ms = elapsed_millis(self.phase_start, now);
        self.result.total_time_ms = elapsed_millis(0, now);
        self.stage = Stage::Over;
        Action::Finish
    }

    /// HTTP/2 is asked for.
    fn handshake(&mut self) -> (r: Action)
        ensures
            (final(self)@, r@) == old(self)@.handshake(),
    {
        self.stage = Stage::Handshaking;
        Action::Handshake { timeout: self.timeout }
    }

    /// An attempt at gRPC has failed.
    fn attempt_failed(&mut self, error: &str, now: u128) -> (r: Action)
        ensures
            (final(self)@, r@) == old(self)@.attempt_failed(error@, now),
    {
        if self.tls {
            self.result.error = concat("TLS: ", error);
            self.finish(now)
        } else {
            self.connect(Stage::Reconnecting)
        }
    }

    /// The connection goes on with TLS.
    fn begin_tls(&mut self, now: u128) -> (r: Action)
        requires
            old(self)@.at_tls(),
        ensures
            (final(self)@, r@) == old(self)@.begin_tls(now),
    {
        let valid = server_name_valid(self.result.domain.as_str());
        self.ask_tls(valid, now)
    }

    /// TLS is asked for, if the domain is valid as the name of a TLS server.
    pub fn ask_tls(&mut self, valid: bool, now: u128) -> (r: Action)
        requires
            old(self)@.at_tls(),
        ensures
            (final(self)@, r@) == old(self)@.ask_tls(valid, now),
    {
        self.tls = true;
        if valid {
            self.stage = Stage::ConnectingTls;
            Action::ConnectTls { server_name: self.result.domain.clone(), timeout: self.timeout }
        } else {
            self.attempt_failed("invalid server name", now)
        }
    }

    /// The domain has been looked up.
    fn after_lookup(&mut self, outcome: Outcome<Vec<String>>, now: u128) -> (r: Action)
        ensures
            (final(self)@, r@) == old(self)@.after_lookup(outcome, now),
    {
        self.result.dns_time_ms = elapsed_millis(self.phase_start, now);
        match resolve_dns(outcome) {
            Ok(ip) => {
                self.phase_start = now;
                self.result.dns_success = true;
                self.result.ip = ip;
                self.connect(Stage::Connecting)
            },
            Err(error) => self.give_up(concat("DNS: ", error.as_str()), now),
        }
    }

    /// A TCP connection has been tried for the first time.
    fn after_connect(&mut self, outcome: Outcome<()>, now: u128) -> (r: Action)
        requires
            old(self)@.stage == Stage::Connecting,
        ensures
            (final(self)@, r@) == old(self)@.after_connect(outcome, now),
    {
        self.result.tcp_time_ms = elapsed_millis(self.phase_start, now);
        match connect_tcp(outcome) {
            Ok(_) => {
                self.phase_start = now;
                self.result.tcp_success = true;
                if self.result.port == TLS_PORT {
                    self.begin_tls(now)
                } else {
                    self.handshake()
                }
            },
            Err(error) => self.give_up(concat("TCP: ", error.as_str()), now),
        }
    }

    /// A TCP connection has been tried for the second time.
    fn after_reconnect(&mut self, outcome: Outcome<()>, now: u128) -> (r: Action)
        requires
            old(self)@.stage == Stage::Reconnecting,
        ensures
            (final(self)@, r@) == old(self)@.after_reconnect(outcome, now),
    {
        match connect_tcp(outcome) {
            Ok(_) => self.begin_tls(now),
            Err(_) => self.finish(now),
        }
    }

    /// A TLS connection has been tried.
    fn after_tls(&mut self, outcome: Outcome<TlsSession>, now: u128) -> (r: Action)
        ensures
            (final(self)@, r@) == old(self)@.after_tls(outcome, now),
    {
        match outcome {
            Outcome::Done(session) => {
                self.result.note_tls(&session);
                self.handshake()
            },
            Outcome::TimedOut => self.attempt_failed("TLS timeout", now),
            Outcome::Failed(error) => self.attempt_failed(error.as_str(), now),
        }
    }

    /// HTTP/2 has been tried.
    fn after_handshake(&mut self, outcome: Outcome<()>, now: u128) -> (r: Action)
        ensures
            (final(self)@, r@) == old(self)@.after_handshake(outcome, now),
    {
        match outcome {
            Outcome::Done(_) => {
                self.result.http2_success = true;
                self.stage = Stage::Preparing;
                Action::AwaitReady
            },
            Outcome::TimedOut => if self.tls {
                self.attempt_failed("h2 handshake timeout", now)
            } else {
                self.attempt_failed("h2c handshake timeout", now)
            },
            Outcome::Failed(error) => self.attempt_failed(error.as_str(), now),
        }
    }

    /// The request is sent, if it could be built.
    pub fn after_build(&mut self, built: Result<http::Request<()>, String>, now: u128) -> (r: Action)
        requires
            old(self)@.stage == Stage::Preparing,
        ensures
            (final(self)@, r@) == old(self)@.after_build(
                match built {
                    Ok(request) => Ok(request),
                    Err(error) => Err(error@),
                },
                now,
            ),
    {
        match built {
            Ok(request) => {
                self.stage = Stage::Sending;
                Action::Send { request, body: list_services_frame() }
            },
            Err(error) => self.attempt_failed(error.as_str(), now),
        }
    }

    /// The connection has been waited for to be ready.
    fn after_ready(&mut self, outcome: Result<(), String>, now: u128) -> (r: Action)
        requires
            old(self)@.stage == Stage::Preparing,
        ensures
            (final(self)@, r@) == old(self)@.after_ready(outcome, now),
    {
        match outcome {
            Ok(_) => {
                let uri = request_target(self.tls, self.result.domain.as_str());
                let built = build_request(
                    "POST",
                    uri.as_str(),
                    ("content-type", "application/grpc"),
                    ("te", "trailers"),
                    ("grpc-accept-encoding", "identity"),
                    ("user-agent", "grpc-go/1.59.0"),
                );
                self.after_build(built, now)
            },
            Err(error) => self.attempt_failed(error.as_str(), now),
        }
    }

    /// The request has been sent.
    fn after_send(&mut self, outcome: Result<(), String>, now: u128) -> (r: Action)
        ensures
            (final(self)@, r@) == old(self)@.after_send(outcome, now),
    {
        match outcome {
            Ok(_) => {
                self.stage = Stage::Responding;
                Action::AwaitResponse { timeout: self.timeout }
            },
            Err(error) => self.attempt_failed(error.as_str(), now),
        }
    }

    /// The head of the response has been waited for.
    fn after_response(&mut self, outcome: Outcome<http::HeaderMap>, now: u128) -> (r: Action)
        ensures
            (final(self)@, r@) == old(self)@.after_response(outcome, now),
    {
        match outcome {
            Outcome::Done(headers) => {
                let text = content_type(&headers);
                self.result.note_content_type(text.as_str());
                self.content_type = text;
                self.body = Vec::new();
                self.body_start = now;
                self.stage = Stage::Reading;
                Action::ReadBody { wait_nanos: BODY_NANOS }
            },
            Outcome::TimedOut => self.attempt_failed("response timeout", now),
            Outcome::Failed(error) => self.attempt_failed(error.as_str(), now),
        }
    }

    /// A piece of the body has been waited for.
    fn after_body(&mut self, piece: Option<Vec<u8>>, now: u128) -> (r: Action)
        ensures
            (final(self)@, r@) == old(self)@.after_body(
                match piece {
                    Some(bytes) => Some(bytes@),
                    None => None,
                },
                now,
            ),
    {
        if let Some(bytes) = piece {
            let mut bytes = bytes;
            self.body.append(&mut bytes);
            if self.body.len() <= BODY_LIMIT {
                return Action::ReadBody { wait_nanos: remaining_wait(self.body_start, now) };
            }
        }
        self.stage = Stage::Trailing;
        Action::ReadTrailers { wait_nanos: TRAILERS_NANOS }
    }

    /// Takes down what the trailers, if there are any, tell.
    fn note_trailers(&mut self, trailers: &Option<http::HeaderMap>)
        ensures
            final(self)@ == old(self)@.with_trailers(*trailers),
    {
        if let Some(headers) = trailers {
            self.result.note_trailers(headers);
            if let Some(status) = grpc_status(headers) {
                self.grpc_status = status;
            }
        }
    }

    /// The trailers have been waited for.
    fn after_trailers(&mut self, trailers: Option<http::HeaderMap>, now: u128) -> (r: Action)
        requires
            old(self)@.with_trailers(trailers).result.grpc_detected ==> frame_ends_fit(
                old(self)@.body,
            ),
        ensures
            (final(self)@, r@) == old(self)@.after_trailers(trailers, now),
    {
        self.note_trailers(&trailers);
        self.result.note_body(self.body.as_slice());
        self.finish(now)
    }

    /// Takes an event in: what it tells is noted, and what is to be done next
    /// comes back. `now` is the time since the scan began, in nanoseconds.
    pub fn step(&mut self, event: Event, now: u128) -> (r: Action)
        requires
            old(self)@.takes(event),
        ensures
            (final(self)@, r@) == old(self)@.next(event, now),
    {
        match event {
            Event::LookedUp(outcome) => self.after_lookup(outcome, now),
            Event::Connected(outcome) => match self.stage {
                Stage::Reconnecting => self.after_reconnect(outcome, now),
                _ => self.after_connect(outcome, now),
            },
            Event::TlsConnected(outcome) => self.after_tls(outcome, now),
            Event::HandshakeDone(outcome) => self.after_handshake(outcome, now),
            Event::Ready(outcome) => self.after_ready(outcome, now),
            Event::Sent(outcome) => self.after_send(outcome, now),
            Event::Responded(outcome) => self.after_response(outcome, now),
            Event::BodyRead(piece) => self.after_body(piece, now),
            Event::TrailersRead(trailers) => self.after_trailers(trailers, now),
        }
    }

    /// Whether the event is what the scan is waiting for, and the body, if the
    /// event has it looked at, can be.
    pub fn accepts(&self, event: &Event) -> (r: bool)
        ensures
            r == self@.takes(*event),
    {
        match event {
            Event::LookedUp(_) => self.stage == Stage::Resolving,
            Event::Connected(_) => self.stage == Stage::Connecting || self.stage
                == Stage::Reconnecting,
            Event::TlsConnected(_) => self.stage == Stage::ConnectingTls,
            Event::HandshakeDone(_) => self.stage == Stage::Handshaking,
            Event::Ready(_) => self.stage == Stage::Preparing,
            Event::Sent(_) => self.stage == Stage::Sending,
            Event::Responded(_) => self.stage == Stage::Responding,
            Event::BodyRead(_) => self.stage == Stage::Reading,
            Event::TrailersRead(trailers) => {
                let detected = self.result.grpc_detected || match trailers {
                    Some(headers) => has_grpc_status(headers),
                    None => false,
                };
                self.stage == Stage::Trailing && (!detected || frame_readable(
                    self.body.as_slice(),
                ))
            },
        }
    }

    /// What the scan is waiting for.
    pub fn stage(&self) -> (r: Stage)
        ensures
            r == self@.stage,
    {
        self.stage
    }

    /// What has been found out so far.
    pub fn result(&self) -> (r: &ScanResult)
        ensures
            r@ == self@.result,
    {
        &self.result
    }

    /// The content type of the response, and the gRPC status in its trailers;
    /// empty where there is none.
    pub fn signals(&self) -> (r: (&str, &str))
        ensures
            r.0@ == self@.content_type,
            r.1@ == self@.grpc_status,
    {
        (self.content_type.as_str(), self.grpc_status.as_str())
    }
}

} // verus!
