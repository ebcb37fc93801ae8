//! What holds of every scan and of every name that a scan reports.
use vstd::prelude::*;

use crate::outside::{built_request, header_fields, is_server_name};
use crate::reflection::{
    first_field, framed_services, is_word_char, lemma_field_shrinks, listed_names,
    valid_service_name, Field,
};
use crate::result::{
    content_type_text, field_text, is_grpc_content_type, with_body, with_trailers, ScanRecord,
};
use crate::scanner::{
    body_wait, endpoint, is_ipv6, lemma_ipv6_preferred, preferred, request_headers, request_uri,
    Event, Outcome, ScanState, Stage, Task, BODY_LIMIT, BODY_NANOS, MIN_WAIT_NANOS, TLS_PORT,
};
use crate::text::{is_digit, join, lemma_join_split, split, texts};
use crate::wire::frame_payload;

verus! {

/// Every name that a list of services gives is valid.
pub proof fn lemma_listed_names_valid(msg: Seq<u8>)
    ensures
        match listed_names(msg) {
            Some(names) => forall|i: int|
                0 <= i < names.len() ==> valid_service_name(#[trigger] names[i]),
            None => true,
        },
    decreases msg.len(),
{
    lemma_field_shrinks(msg);
    match first_field(msg) {
        Field::Delimited { number, content, rest } => {
            lemma_listed_names_valid(rest);
        },
        Field::Other { rest } => {
            lemma_listed_names_valid(rest);
        },
        _ => {},
    }
}

/// There is always a piece, and the last piece of a text is its end.
proof fn lemma_split_shape(s: Seq<char>, sep: char)
    ensures
        split(s, sep).len() >= 1,
        split(s, sep).last().len() == 0 <==> s.len() == 0 || s.last() == sep,
        split(s, sep).len() > 1 <==> s.contains(sep),
        s.len() > 0 ==> (split(s, sep)[0].len() == 0 <==> s[0] == sep),
        s.len() > 0 && s[0] != sep ==> split(s, sep)[0][0] == s[0],
    decreases s.len(),
{
    if s.len() > 0 {
        let init = s.drop_last();
        lemma_split_shape(init, sep);
        assert(s =~= init.push(s.last()));
        if s.last() == sep {
            assert(s[s.len() - 1] == sep);
        }
        if init.contains(sep) {
            let i = choose|i: int| 0 <= i < init.len() && init[i] == sep;
            assert(s[i] == sep);
        }
        if s.contains(sep) && s.last() != sep {
            let i = choose|i: int| 0 <= i < s.len() && s[i] == sep;
            assert(init[i] == sep);
        }
    }
}

/// A valid service name is not empty, has a dot in it, neither begins nor ends
/// with one, begins with a lower-case letter, and is not made of numbers alone.
pub proof fn lemma_valid_name_shape(name: Seq<char>)
    requires
        valid_service_name(name),
    ensures
        name.len() > 0,
        name.contains('.'),
        name[0] != '.',
        name.last() != '.',
        'a' <= name[0] <= 'z',
        exists|i: int, j: int|
            0 <= i < split(name, '.').len() && 0 <= j < split(name, '.')[i].len() && !is_digit(
                #[trigger] split(name, '.')[i][j],
            ),
{
    let labels = split(name, '.');
    lemma_split_shape(name, '.');
    assert(labels[labels.len() - 1].len() > 0);
    assert(labels[0].len() > 0);
    assert(!is_digit(labels[0][0]));
}

/// A character that is not the separator is in one of the pieces.
proof fn lemma_split_covers(s: Seq<char>, sep: char, c: char)
    requires
        s.contains(c),
        c != sep,
    ensures
        exists|i: int| 0 <= i < split(s, sep).len() && (#[trigger] split(s, sep)[i]).contains(c),
    decreases s.len(),
{
    let init = s.drop_last();
    let before = split(init, sep);
    let after = split(s, sep);
    lemma_split_shape(init, sep);
    if s.last() == c {
        let n = after.len() - 1;
        assert(after[n][before.last().len() as int] == c);
        assert(after[n].contains(c));
    } else {
        let k = choose|k: int| 0 <= k < s.len() && s[k] == c;
        assert(init[k] == c);
        lemma_split_covers(init, sep, c);
        let i = choose|i: int| 0 <= i < before.len() && (#[trigger] before[i]).contains(c);
        let j = choose|j: int| 0 <= j < before[i].len() && before[i][j] == c;
        assert(after[i][j] == c);
        assert(after[i].contains(c));
    }
}

/// A list of services has no more names than bytes.
proof fn lemma_names_bounded(msg: Seq<u8>)
    ensures
        match listed_names(msg) {
            Some(names) => names.len() <= msg.len(),
            None => true,
        },
    decreases msg.len(),
{
    lemma_field_shrinks(msg);
    match first_field(msg) {
        Field::Delimited { number, content, rest } => {
            lemma_names_bounded(rest);
        },
        Field::Other { rest } => {
            lemma_names_bounded(rest);
        },
        _ => {},
    }
}

/// The number of services that is reported is exactly that of the names found,
/// and there is one at least: what a frame can hold is never too much to count.
pub proof fn lemma_services_counted(r: ScanRecord, body: Seq<u8>)
    requires
        r.grpc_detected,
        framed_services(body) is Some,
    ensures
        with_body(r, body).services_count == framed_services(body)->0.len(),
        with_body(r, body).services_count > 0,
{
    lemma_names_bounded(frame_payload(body)->0);
}

/// The services that are reported can be told apart again: what stands between
/// the semicolons is exactly the names that were found, in order.
pub proof fn lemma_services_list_splits(r: ScanRecord, body: Seq<u8>)
    requires
        r.grpc_detected,
        framed_services(body) is Some,
    ensures
        split(with_body(r, body).services_list, ';') == framed_services(body)->0,
{
    let names = framed_services(body)->0;
    lemma_listed_names_valid(frame_payload(body)->0);
    assert forall|i: int| 0 <= i < names.len() implies !(#[trigger] names[i]).contains(';') by {
        assert(valid_service_name(names[i]));
        if names[i].contains(';') {
            lemma_split_covers(names[i], '.', ';');
            let labels = split(names[i], '.');
            let k = choose|k: int| 0 <= k < labels.len() && (#[trigger] labels[k]).contains(';');
            let j = choose|j: int| 0 <= j < labels[k].len() && labels[k][j] == ';';
            assert(is_word_char(labels[k][j]));
        }
    }
    reveal_strlit(";");
    assert(";"@ =~= seq![';']);
    lemma_join_split(names, ';');
}

/// A list that begins with something does not join to nothing.
proof fn lemma_join_not_empty(names: Seq<Seq<char>>, sep: Seq<char>)
    requires
        names.len() > 0,
        names[0].len() > 0,
    ensures
        join(names, sep).len() > 0,
    decreases names.len(),
{
    if names.len() > 1 {
        lemma_join_not_empty(names.drop_last(), sep);
    }
}

/// What is found out nests: there is no connection without an address, no
/// HTTP/2 and no TLS without a connection, on the port of TLS no HTTP/2 without
/// TLS, no gRPC without HTTP/2, and neither a list of services nor a demand for
/// credentials without gRPC. The services are as many as their list has names,
/// and each of these is valid.
/// A scan that ends with an error has found no gRPC.
pub open spec fn findings_nest(r: ScanRecord) -> bool {
    &&& r.tcp_success ==> r.dns_success
    &&& r.http2_success ==> r.tcp_success
    &&& r.tls_enabled ==> r.tcp_success
    &&& r.port == TLS_PORT && r.http2_success ==> r.tls_enabled
    &&& r.grpc_detected ==> r.http2_success
    &&& r.grpc_detected ==> r.error.len() == 0
    &&& r.reflection_enabled ==> r.grpc_detected
    &&& r.reflection_enabled <==> r.services_list.len() > 0
    &&& r.reflection_enabled <==> r.services_count > 0
    &&& r.reflection_enabled ==> r.services_count == split(r.services_list, ';').len()
    &&& r.reflection_enabled ==> forall|i: int|
        0 <= i < split(r.services_list, ';').len() ==> valid_service_name(
            #[trigger] split(r.services_list, ';')[i],
        )
    &&& r.requires_auth ==> r.grpc_detected
    &&& r.auth_type == if r.requires_auth {
        "grpc-token"@
    } else {
        Seq::empty()
    }
}

/// How far a scan that is over has come shows in how its error begins: with
/// `DNS: ` exactly if no address was found, with `TCP: ` exactly if there was an
/// address but no connection, and otherwise, if there is one, with `TLS: `.
pub open spec fn error_tells(r: ScanRecord) -> bool {
    let dns = "DNS: "@.is_prefix_of(r.error);
    let tcp = "TCP: "@.is_prefix_of(r.error);
    let tls = "TLS: "@.is_prefix_of(r.error);
    &&& r.dns_success <==> !dns
    &&& r.tcp_success <==> !(dns || tcp)
    &&& r.error.len() == 0 || dns || tcp || tls
}

/// An error begins with what it is told under, and with nothing else.
proof fn lemma_error_begins()
    ensures
        forall|cause: Seq<char>|
            #![trigger "DNS: "@ + cause]
            "DNS: "@.is_prefix_of("DNS: "@ + cause),
        forall|cause: Seq<char>|
            #![trigger "TCP: "@ + cause]
            "TCP: "@.is_prefix_of("TCP: "@ + cause) && !"DNS: "@.is_prefix_of("TCP: "@ + cause),
        forall|cause: Seq<char>|
            #![trigger "TLS: "@ + cause]
            "TLS: "@.is_prefix_of("TLS: "@ + cause) && !"DNS: "@.is_prefix_of("TLS: "@ + cause)
                && !"TCP: "@.is_prefix_of("TLS: "@ + cause),
{
    reveal_strlit("DNS: ");
    reveal_strlit("TCP: ");
    reveal_strlit("TLS: ");
    assert forall|cause: Seq<char>|
        #![trigger "DNS: "@ + cause]
        "DNS: "@.is_prefix_of("DNS: "@ + cause) by {
        assert("DNS: "@ =~= ("DNS: "@ + cause).subrange(0, 5));
    }
    assert forall|cause: Seq<char>|
        #![trigger "TCP: "@ + cause]
        "TCP: "@.is_prefix_of("TCP: "@ + cause) && !"DNS: "@.is_prefix_of("TCP: "@ + cause) by {
        assert("TCP: "@ =~= ("TCP: "@ + cause).subrange(0, 5));
        assert("TCP: "@[0] != "DNS: "@[0]);
    }
    assert forall|cause: Seq<char>|
        #![trigger "TLS: "@ + cause]
        "TLS: "@.is_prefix_of("TLS: "@ + cause) && !"DNS: "@.is_prefix_of("TLS: "@ + cause)
            && !"TCP: "@.is_prefix_of("TLS: "@ + cause) by {
        assert("TLS: "@ =~= ("TLS: "@ + cause).subrange(0, 5));
        assert("TLS: "@[0] != "DNS: "@[0]);
        assert("TLS: "@[1] != "TCP: "@[1]);
    }
}

/// What holds of a scan while it goes on, besides that what it has found out
/// nests: what has been reached at each stage, that nothing is said of gRPC
/// before a response, and that on the port of TLS nothing but TLS is spoken.
pub open spec fn sound(s: ScanState) -> bool {
    let r = s.result;
    &&& findings_nest(r)
    &&& s.stage != Stage::Over ==> r.error.len() == 0
    &&& s.stage == Stage::Over ==> error_tells(r)
    &&& s.stage == Stage::Resolving ==> !r.dns_success && !s.tls
    &&& s.stage == Stage::Connecting ==> r.dns_success && !r.tcp_success && !s.tls
    &&& s.stage == Stage::Reconnecting ==> r.tcp_success && !s.tls && r.port != TLS_PORT
    &&& s.stage == Stage::ConnectingTls ==> r.tcp_success && s.tls && !r.tls_enabled
    &&& s.stage == Stage::Handshaking ==> r.tcp_success && (s.tls ==> r.tls_enabled)
    &&& s.stage == Stage::Preparing || s.stage == Stage::Sending || s.stage == Stage::Responding
        || s.stage == Stage::Reading || s.stage == Stage::Trailing ==> r.http2_success
    &&& s.stage != Stage::Reading && s.stage != Stage::Trailing && s.stage != Stage::Over
        ==> !r.grpc_detected
    &&& s.stage == Stage::Reading || s.stage == Stage::Trailing ==> !r.reflection_enabled
        && !r.requires_auth
    &&& r.port == TLS_PORT && r.tcp_success ==> s.tls
    &&& r.tls_enabled ==> s.tls
    &&& s.stage == Stage::Reading ==> s.body.len() <= BODY_LIMIT
}

/// A scan that has just begun is sound.
pub proof fn lemma_started_sound(
    domain: Seq<char>,
    port: u16,
    timeout: std::time::Duration,
    timestamp: Seq<char>,
)
    ensures
        sound(ScanState::started(domain, port, timeout, timestamp)),
{
}

/// A record stays nested when its body is looked at.
proof fn lemma_body_nests(r: ScanRecord, body: Seq<u8>)
    requires
        findings_nest(r),
        !r.reflection_enabled,
    ensures
        findings_nest(with_body(r, body)),
        with_body(r, body).grpc_detected == r.grpc_detected,
{
    if r.grpc_detected && body.len() > 0 {
        if let Some(names) = framed_services(body) {
            let msg = frame_payload(body)->0;
            lemma_listed_names_valid(msg);
            assert(valid_service_name(names[0]));
            lemma_valid_name_shape(names[0]);
            lemma_join_not_empty(names, ";"@);
            lemma_services_counted(r, body);
            lemma_services_list_splits(r, body);
        }
    }
}

/// Every step of a sound scan leaves it sound. So all that a scan reports, when
/// it is over or before, nests.
#[verifier::rlimit(40)]
pub proof fn lemma_step_sound(s: ScanState, event: Event, now: u128)
    requires
        sound(s),
        s.takes(event),
    ensures
        sound(s.next(event, now).0),
        findings_nest(s.next(event, now).0.result),
{
    reveal_strlit("DNS: ");
    reveal_strlit("TCP: ");
    reveal_strlit("TLS: ");
    lemma_error_begins();
    if let Event::TrailersRead(trailers) = event {
        let told = s.with_trailers(trailers);
        lemma_body_nests(told.result, s.body);
    }
}

/// What comes of the validity of the server name, or of building the request,
/// leaves a sound scan sound whichever it is.
pub proof fn lemma_decisions_sound(
    s: ScanState,
    valid: bool,
    built: Result<http::Request<()>, Seq<char>>,
    now: u128,
)
    requires
        sound(s),
    ensures
        s.at_tls() ==> sound(s.ask_tls(valid, now).0),
        s.stage == Stage::Preparing ==> sound(s.after_build(built, now).0),
{
    reveal_strlit("DNS: ");
    reveal_strlit("TCP: ");
    reveal_strlit("TLS: ");
    lemma_error_begins();
}

/// Whether the addresses that an event brings, if it brings any, are not empty.
pub open spec fn addresses_given(event: Event) -> bool {
    match event {
        Event::LookedUp(Outcome::Done(addresses)) => forall|i: int|
            0 <= i < addresses@.len() ==> (#[trigger] addresses@[i]@).len() > 0,
        _ => true,
    }
}

/// There is an address in the result exactly if the lookup succeeded, and no
/// step changes that.
pub proof fn lemma_step_keeps_address(s: ScanState, event: Event, now: u128)
    requires
        sound(s),
        s.takes(event),
        addresses_given(event),
        s.result.dns_success <==> s.result.ip.len() > 0,
    ensures
        ({
            let r = s.next(event, now).0.result;
            r.dns_success <==> r.ip.len() > 0
        }),
{
    if let Event::LookedUp(Outcome::Done(addresses)) = event {
        let all = texts(addresses@);
        if all.len() > 0 {
            lemma_ipv6_preferred(all);
            let i = choose|i: int| 0 <= i < all.len() && all[i] == preferred(all);
            assert(addresses@[i]@.len() > 0);
        }
    }
}

/// AAAA first: if a lookup brings an address of IP version 6, it is one of these
/// that is connected to.
pub proof fn lemma_ipv6_connected_first(s: ScanState, addresses: Vec<String>, i: int, now: u128)
    requires
        s.stage == Stage::Resolving,
        0 <= i < addresses@.len(),
        is_ipv6(addresses@[i]@),
    ensures
        ({
            let (next, task) = s.next(Event::LookedUp(Outcome::Done(addresses)), now);
            &&& is_ipv6(next.result.ip)
            &&& texts(addresses@).contains(next.result.ip)
            &&& task == (Task::Connect {
                address: endpoint(next.result.ip, s.result.port),
                timeout: s.timeout,
            })
        }),
{
    assert(is_ipv6(texts(addresses@)[i]));
    lemma_ipv6_preferred(texts(addresses@));
}

/// A step changes neither what is scanned nor when the scan began, nor how long
/// the work may take.
#[verifier::rlimit(40)]
pub proof fn lemma_step_keeps_target(s: ScanState, event: Event, now: u128)
    requires
        s.takes(event),
    ensures
        s.next(event, now).0.result.domain == s.result.domain,
        s.next(event, now).0.result.port == s.result.port,
        s.next(event, now).0.result.timestamp == s.result.timestamp,
        s.next(event, now).0.timeout == s.timeout,
{
}

/// Something is to be done next if and only if the scan is not over.
pub proof fn lemma_finish_when_over(s: ScanState, event: Event, now: u128)
    requires
        s.takes(event),
    ensures
        s.next(event, now).1 is Finish <==> s.next(event, now).0.stage == Stage::Over,
{
}

/// How many steps a scan can still take, apart from reading the body.
pub open spec fn steps_left(s: ScanState) -> nat {
    let within_attempt: nat = match s.stage {
        Stage::Handshaking => 6,
        Stage::Preparing => 5,
        Stage::Sending => 4,
        Stage::Responding => 3,
        Stage::Reading => 2,
        Stage::Trailing => 1,
        _ => 0,
    };
    match s.stage {
        Stage::Over => 0,
        Stage::Resolving => 16,
        Stage::Connecting => 15,
        Stage::Reconnecting => 8,
        Stage::ConnectingTls => 7,
        _ => if s.tls {
            within_attempt
        } else {
            within_attempt + 8
        },
    }
}

/// A scan comes to an end: every step but one that adds to the body brings it
/// nearer, and those go on only while the body is within its limit.
pub proof fn lemma_step_progress(s: ScanState, event: Event, now: u128)
    requires
        sound(s),
        s.takes(event),
    ensures
        ({
            let next = s.next(event, now).0;
            ||| steps_left(next) < steps_left(s)
            ||| {
                &&& event matches Event::BodyRead(Some(piece))
                &&& next.stage == Stage::Reading
                &&& next.body == s.body + piece@
                &&& next.body.len() <= BODY_LIMIT
                &&& next.result == s.result
            }
        }),
{
}

/// The state of a scan after some events, each with the time at which it came.
pub open spec fn run(s: ScanState, events: Seq<(Event, u128)>) -> ScanState
    decreases events.len(),
{
    if events.len() == 0 {
        s
    } else {
        run(s, events.drop_last()).next(events.last().0, events.last().1).0
    }
}

/// Whether each event is one that the scan takes when it comes.
pub open spec fn taken(s: ScanState, events: Seq<(Event, u128)>) -> bool
    decreases events.len(),
{
    events.len() == 0 || taken(s, events.drop_last()) && run(s, events.drop_last()).takes(
        events.last().0,
    )
}

/// How many of the events are something else than a piece of the body.
pub open spec fn milestones(events: Seq<(Event, u128)>) -> nat
    decreases events.len(),
{
    if events.len() == 0 {
        0
    } else {
        milestones(events.drop_last()) + match events.last().0 {
            Event::BodyRead(Some(_)) => 0nat,
            _ => 1,
        }
    }
}

/// What any scan has found out nests at any time, it is what was asked to be
/// scanned, and the scan is over after at most 16 events that are not pieces of
/// the body.
pub proof fn lemma_every_scan(
    domain: Seq<char>,
    port: u16,
    timeout: std::time::Duration,
    timestamp: Seq<char>,
    events: Seq<(Event, u128)>,
)
    requires
        taken(ScanState::started(domain, port, timeout, timestamp), events),
    ensures
        ({
            let s = run(ScanState::started(domain, port, timeout, timestamp), events);
            &&& sound(s)
            &&& findings_nest(s.result)
            &&& s.result.domain == domain
            &&& s.result.port == port
            &&& s.result.timestamp == timestamp
            &&& milestones(events) + steps_left(s) <= 16
        }),
    decreases events.len(),
{
    let start = ScanState::started(domain, port, timeout, timestamp);
    if events.len() == 0 {
        lemma_started_sound(domain, port, timeout, timestamp);
    } else {
        let before = run(start, events.drop_last());
        let (event, now) = events.last();
        lemma_every_scan(domain, port, timeout, timestamp, events.drop_last());
        lemma_step_sound(before, event, now);
        lemma_step_keeps_target(before, event, now);
        lemma_step_progress(before, event, now);
    }
}

/// What any scan reports when it is over: what was asked to be scanned, an error
/// that begins as far as the scan has come, and an address exactly if one was
/// found.
pub proof fn lemma_every_report(
    domain: Seq<char>,
    port: u16,
    timeout: std::time::Duration,
    timestamp: Seq<char>,
    events: Seq<(Event, u128)>,
)
    requires
        taken(ScanState::started(domain, port, timeout, timestamp), events),
        forall|i: int| 0 <= i < events.len() ==> addresses_given(#[trigger] events[i].0),
    ensures
        ({
            let s = run(ScanState::started(domain, port, timeout, timestamp), events);
            &&& s.result.domain == domain
            &&& s.result.port == port
            &&& s.result.dns_success <==> s.result.ip.len() > 0
            &&& s.stage == Stage::Over ==> error_tells(s.result)
        }),
    decreases events.len(),
{
    let start = ScanState::started(domain, port, timeout, timestamp);
    lemma_every_scan(domain, port, timeout, timestamp, events);
    if events.len() > 0 {
        let init = events.drop_last();
        assert forall|i: int| 0 <= i < init.len() implies addresses_given(
            #[trigger] init[i].0,
        ) by {
            assert(init[i] == events[i]);
        }
        lemma_every_report(domain, port, timeout, timestamp, init);
        lemma_every_scan(domain, port, timeout, timestamp, init);
        assert(addresses_given(events[events.len() - 1].0));
        lemma_step_keeps_address(run(start, init), events.last().0, events.last().1);
    }
}

/// Whether events come in the order of their times, none later than `last`.
pub open spec fn in_order(events: Seq<(Event, u128)>, last: u128) -> bool {
    forall|i: int, j: int|
        0 <= i <= j < events.len() ==> #[trigger] events[i].1 <= #[trigger] events[j].1 <= last
}

/// What holds of the times of a scan at a given time: those of the phases that
/// are done fit in before the present one began, and once the scan is over, into
/// its whole time.
spec fn timed(s: ScanState, now: u128) -> bool {
    let r = s.result;
    &&& s.phase_start <= now
    &&& s.stage != Stage::Over ==> (r.dns_time_ms + r.tcp_time_ms) * 1_000_000 <= s.phase_start
        && r.grpc_time_ms == 0
    &&& s.stage == Stage::Resolving ==> s.phase_start == 0
    &&& s.stage == Stage::Resolving || s.stage == Stage::Connecting ==> r.tcp_time_ms == 0
    &&& r.dns_time_ms + r.tcp_time_ms + r.grpc_time_ms <= now / 1_000_000
    &&& s.stage == Stage::Over ==> r.dns_time_ms + r.tcp_time_ms + r.grpc_time_ms
        <= r.total_time_ms <= now / 1_000_000
}

/// A step keeps the times as they should be.
#[verifier::rlimit(40)]
proof fn lemma_step_timed(s: ScanState, event: Event, now: u128)
    requires
        sound(s),
        s.takes(event),
        timed(s, now),
        now / 1_000_000 < 0x1_0000_0000_0000_0000,
    ensures
        timed(s.next(event, now).0, now),
{
    assert((now - s.phase_start) / 1_000_000 < 0x1_0000_0000_0000_0000);
}

/// The times of the phases together do not exceed the whole time of a scan that
/// is over, if its events come in order and the times can be counted in
/// milliseconds.
pub proof fn lemma_times_add_up(
    domain: Seq<char>,
    port: u16,
    timeout: std::time::Duration,
    timestamp: Seq<char>,
    events: Seq<(Event, u128)>,
    last: u128,
)
    requires
        taken(ScanState::started(domain, port, timeout, timestamp), events),
        in_order(events, last),
        last / 1_000_000 < 0x1_0000_0000_0000_0000,
    ensures
        ({
            let s = run(ScanState::started(domain, port, timeout, timestamp), events);
            let r = s.result;
            s.stage == Stage::Over ==> r.dns_time_ms + r.tcp_time_ms + r.grpc_time_ms
                <= r.total_time_ms <= last / 1_000_000
        }),
{
    lemma_run_timed(domain, port, timeout, timestamp, events, last);
}

/// The times are as they should be after any events in order.
proof fn lemma_run_timed(
    domain: Seq<char>,
    port: u16,
    timeout: std::time::Duration,
    timestamp: Seq<char>,
    events: Seq<(Event, u128)>,
    last: u128,
)
    requires
        taken(ScanState::started(domain, port, timeout, timestamp), events),
        in_order(events, last),
        last / 1_000_000 < 0x1_0000_0000_0000_0000,
    ensures
        timed(run(ScanState::started(domain, port, timeout, timestamp), events), last),
    decreases events.len(),
{
    if events.len() > 0 {
        let init = events.drop_last();
        let (event, now) = events.last();
        assert(events[events.len() - 1].1 <= events[events.len() - 1].1);
        assert forall|i: int, j: int| 0 <= i <= j < init.len() implies #[trigger] init[i].1
            <= #[trigger] init[j].1 <= now by {
            assert(events[i].1 <= events[j].1);
            assert(events[j].1 <= events[events.len() - 1].1);
        }
        lemma_run_timed(domain, port, timeout, timestamp, init, now);
        lemma_every_scan(domain, port, timeout, timestamp, init);
        let start = ScanState::started(domain, port, timeout, timestamp);
        lemma_step_timed(run(start, init), event, now);
    }
}

/// On the port of TLS, HTTP/2 is never asked for without TLS.
pub proof fn lemma_tls_port_never_in_clear(s: ScanState, event: Event, now: u128)
    requires
        sound(s),
        s.takes(event),
        s.result.port == TLS_PORT,
        s.next(event, now).1 is Handshake,
    ensures
        s.next(event, now).0.tls,
        s.next(event, now).0.result.tls_enabled,
{
}

/// On any other port, HTTP/2 is asked for without TLS once there is a
/// connection.
pub proof fn lemma_other_ports_begin_in_clear(s: ScanState, outcome: Outcome<()>, now: u128)
    requires
        sound(s),
        s.stage == Stage::Connecting,
        s.result.port != TLS_PORT,
        outcome is Done,
    ensures
        s.next(Event::Connected(outcome), now).1 == (Task::Handshake { timeout: s.timeout }),
        !s.next(Event::Connected(outcome), now).0.tls,
{
}

/// On the port of TLS, TLS is asked for once there is a connection, if the
/// domain can be the name of a TLS server.
pub proof fn lemma_tls_port_begins_with_tls(s: ScanState, outcome: Outcome<()>, now: u128)
    requires
        s.stage == Stage::Connecting,
        s.result.port == TLS_PORT,
        outcome is Done,
        is_server_name(s.result.domain),
    ensures
        s.next(Event::Connected(outcome), now).1 == (Task::ConnectTls {
            server_name: s.result.domain,
            timeout: s.timeout,
        }),
{
}

/// Whether, with an event, an attempt at gRPC has failed: HTTP/2 or the response
/// did not come about, or there is no request to send.
pub open spec fn attempt_fails(s: ScanState, event: Event) -> bool {
    match event {
        Event::HandshakeDone(outcome) => !(outcome is Done),
        Event::Ready(outcome) => outcome is Err || built_request(
            "POST"@,
            request_uri(s.tls, s.result.domain),
            request_headers(),
        ) is Err,
        Event::Sent(outcome) => outcome is Err,
        Event::Responded(outcome) => !(outcome is Done),
        _ => false,
    }
}

/// When an attempt without TLS fails, nothing is reported; the same endpoint is
/// connected to again, and if that succeeds, TLS is what comes next.
pub proof fn lemma_tls_after_clear_fails(s: ScanState, event: Event, now: u128, again: u128)
    requires
        sound(s),
        s.takes(event),
        !s.tls,
        attempt_fails(s, event),
    ensures
        ({
            let (next, task) = s.next(event, now);
            &&& next.stage == Stage::Reconnecting
            &&& next.result == s.result
            &&& task == (Task::Connect {
                address: endpoint(s.result.ip, s.result.port),
                timeout: s.timeout,
            })
            &&& next.next(Event::Connected(Outcome::Done(())), again).0.tls
            &&& is_server_name(s.result.domain) ==> next.next(
                Event::Connected(Outcome::Done(())),
                again,
            ).1 == (Task::ConnectTls { server_name: s.result.domain, timeout: s.timeout })
        }),
{
}

/// A wait for a piece of the body is never shorter than the least nor longer
/// than the time for all of it, and does not grow as time passes.
pub proof fn lemma_body_wait_bounds(start: u128, now: u128, later: u128)
    requires
        now <= later,
    ensures
        MIN_WAIT_NANOS <= body_wait(start, now) <= BODY_NANOS,
        body_wait(start, later) <= body_wait(start, now),
{
}

/// The state of a scan after some pieces of the body have been read.
pub open spec fn after_pieces(s: ScanState, pieces: Seq<(Option<Seq<u8>>, u128)>) -> ScanState
    decreases pieces.len(),
{
    if pieces.len() == 0 {
        s
    } else {
        after_pieces(s, pieces.drop_last()).after_body(pieces.last().0, pieces.last().1).0
    }
}

/// Reading the body changes nothing of what has been found out.
proof fn lemma_pieces_keep_result(s: ScanState, pieces: Seq<(Option<Seq<u8>>, u128)>)
    ensures
        after_pieces(s, pieces).result == s.result,
    decreases pieces.len(),
{
    if pieces.len() > 0 {
        lemma_pieces_keep_result(s, pieces.drop_last());
    }
}

/// gRPC is detected by two signals and no other: a response whose content type
/// is one of gRPC, or a gRPC status in its trailers. What the body holds, and in
/// which pieces it comes, makes no difference.
pub proof fn lemma_detected_by_signals(
    s: ScanState,
    headers: http::HeaderMap,
    responded: u128,
    pieces: Seq<(Option<Seq<u8>>, u128)>,
    trailers: Option<http::HeaderMap>,
    ended: u128,
)
    requires
        sound(s),
        s.stage == Stage::Responding,
    ensures
        ({
            let reading = s.after_response(Outcome::Done(headers), responded).0;
            let done = after_pieces(reading, pieces).after_trailers(trailers, ended).0;
            done.result.grpc_detected <==> {
                ||| is_grpc_content_type(content_type_text(headers))
                ||| trailers is Some && header_fields(trailers->0).contains_key("grpc-status"@)
            }
        }),
{
    let reading = s.after_response(Outcome::Done(headers), responded).0;
    lemma_pieces_keep_result(reading, pieces);
    let read = after_pieces(reading, pieces);
    assert(with_body(read.with_trailers(trailers).result, read.body).grpc_detected
        == read.with_trailers(trailers).result.grpc_detected);
}

/// Credentials are asked for by the status alone: once the trailers are in, they
/// are if and only if the status says 16 or 7.
pub proof fn lemma_credentials_by_status(r: ScanRecord, trailers: http::HeaderMap)
    requires
        !r.requires_auth,
    ensures
        with_trailers(r, trailers).requires_auth <==> {
            let status = field_text(trailers, "grpc-status"@);
            status == Some("16"@) || status == Some("7"@)
        },
{
}

} // verus!
