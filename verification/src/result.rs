//! What a scan of one endpoint finds out.
use vstd::prelude::*;
use vstd::string::*;

use crate::outside::{
    certificate_fields, cipher_suite_name, cipher_suite_text, first_value, has_field,
    header_fields, is_field_name, is_utc_time, read_certificate, text_of, tls_version_name, tls_version_text,
    utc_timestamp, value_text, visible_text, CertificateFields,
};
use crate::reflection::{frame_ends_fit, framed_services, parse_grpc_data_frame};
use crate::text::{concat, join, join_texts, same_text, starts_with};

verus! {

/// The result of a scan, field by field as it is reported.
#[derive(Debug, Clone)]
pub struct ScanResult {
    pub domain: String,
    pub port: u16,
    pub ip: String,
    pub timestamp: String,
    pub dns_success: bool,
    pub tcp_success: bool,
    pub http2_success: bool,
    pub grpc_detected: bool,
    pub grpc_response: String,
    pub reflection_enabled: bool,
    pub services_count: u32,
    pub services_list: String,
    pub tls_enabled: bool,
    pub tls_version: String,
    pub tls_cipher: String,
    pub cert_issuer: String,
    pub cert_expires: String,
    pub requires_auth: bool,
    pub auth_type: String,
    pub dns_time_ms: u64,
    pub tcp_time_ms: u64,
    pub grpc_time_ms: u64,
    pub total_time_ms: u64,
    pub error: String,
}

/// The result of a scan with its texts as sequences of characters.
#[verifier::ext_equal]
pub struct ScanRecord {
    pub domain: Seq<char>,
    pub port: u16,
    pub ip: Seq<char>,
    pub timestamp: Seq<char>,
    pub dns_success: bool,
    pub tcp_success: bool,
    pub http2_success: bool,
    pub grpc_detected: bool,
    pub grpc_response: Seq<char>,
    pub reflection_enabled: bool,
    pub services_count: u32,
    pub services_list: Seq<char>,
    pub tls_enabled: bool,
    pub tls_version: Seq<char>,
    pub tls_cipher: Seq<char>,
    pub cert_issuer: Seq<char>,
    pub cert_expires: Seq<char>,
    pub requires_auth: bool,
    pub auth_type: Seq<char>,
    pub dns_time_ms: u64,
    pub tcp_time_ms: u64,
    pub grpc_time_ms: u64,
    pub total_time_ms: u64,
    pub error: Seq<char>,
}

impl View for ScanResult {
    type V = ScanRecord;

    open spec fn view(&self) -> ScanRecord {
        ScanRecord {
            domain: self.domain@,
            port: self.port,
            ip: self.ip@,
            timestamp: self.timestamp@,
            dns_success: self.dns_success,
            tcp_success: self.tcp_success,
            http2_success: self.http2_success,
            grpc_detected: self.grpc_detected,
            grpc_response: self.grpc_response@,
            reflection_enabled: self.reflection_enabled,
            services_count: self.services_count,
            services_list: self.services_list@,
            tls_enabled: self.tls_enabled,
            tls_version: self.tls_version@,
            tls_cipher: self.tls_cipher@,
            cert_issuer: self.cert_issuer@,
            cert_expires: self.cert_expires@,
            requires_auth: self.requires_auth,
            auth_type: self.auth_type@,
            dns_time_ms: self.dns_time_ms,
            tcp_time_ms: self.tcp_time_ms,
            grpc_time_ms: self.grpc_time_ms,
            total_time_ms: self.total_time_ms,
            error: self.error@,
        }
    }
}

/// A result in which nothing has been found out yet.
pub open spec fn blank_record(timestamp: Seq<char>) -> ScanRecord {
    ScanRecord {
        domain: Seq::empty(),
        port: 0,
        ip: Seq::empty(),
        timestamp,
        dns_success: false,
        tcp_success: false,
        http2_success: false,
        grpc_detected: false,
        grpc_response: Seq::empty(),
        reflection_enabled: false,
        services_count: 0,
        services_list: Seq::empty(),
        tls_enabled: false,
        tls_version: Seq::empty(),
        tls_cipher: Seq::empty(),
        cert_issuer: Seq::empty(),
        cert_expires: Seq::empty(),
        requires_auth: false,
        auth_type: Seq::empty(),
        dns_time_ms: 0,
        tcp_time_ms: 0,
        grpc_time_ms: 0,
        total_time_ms: 0,
        error: Seq::empty(),
    }
}

/// What is known of a TLS connection: version and cipher suite by their numbers
/// on the wire, and the certificates of the server in DER, its own first.
#[derive(Debug)]
pub struct TlsSession {
    pub version: Option<u16>,
    pub cipher: Option<u16>,
    pub certificates: Vec<Vec<u8>>,
}

/// Who issued a certificate: the first common name if it can be read, else the
/// first organization if that can, else unknown.
pub open spec fn issuer_text(
    common_names: Seq<Option<Seq<char>>>,
    organizations: Seq<Option<Seq<char>>>,
) -> Seq<char> {
    if common_names.len() > 0 && common_names[0] is Some {
        common_names[0]->0
    } else if organizations.len() > 0 && organizations[0] is Some {
        organizations[0]->0
    } else {
        "Unknown"@
    }
}

/// A record with what a certificate tells.
pub open spec fn with_certificate(
    r: ScanRecord,
    fields: (Seq<Option<Seq<char>>>, Seq<Option<Seq<char>>>, Option<Seq<char>>),
) -> ScanRecord {
    ScanRecord {
        cert_issuer: issuer_text(fields.0, fields.1),
        cert_expires: match fields.2 {
            Some(date) => date,
            None => Seq::empty(),
        },
        ..r
    }
}

/// A record with what a TLS connection tells.
pub open spec fn with_tls(r: ScanRecord, session: TlsSession) -> ScanRecord {
    let connected = ScanRecord {
        tls_enabled: true,
        tls_version: match session.version {
            Some(code) => tls_version_text(code),
            None => r.tls_version,
        },
        tls_cipher: match session.cipher {
            Some(code) => cipher_suite_text(code),
            None => r.tls_cipher,
        },
        ..r
    };
    if session.certificates@.len() > 0 {
        match certificate_fields(session.certificates@[0]@) {
            Some(fields) => with_certificate(connected, fields),
            None => connected,
        }
    } else {
        connected
    }
}

/// The text of the first value that a message has under a field name, if there
/// is one and it is visible ASCII.
pub open spec fn field_text(headers: http::HeaderMap, name: Seq<char>) -> Option<Seq<char>> {
    if header_fields(headers).contains_key(name) {
        visible_text(header_fields(headers)[name][0])
    } else {
        None
    }
}

/// The content type of a response; empty if it has none that can be read.
pub open spec fn content_type_text(headers: http::HeaderMap) -> Seq<char> {
    match field_text(headers, "content-type"@) {
        Some(text) => text,
        None => Seq::empty(),
    }
}

/// Whether a content type is one of gRPC.
pub open spec fn is_grpc_content_type(content_type: Seq<char>) -> bool {
    "application/grpc"@.is_prefix_of(content_type)
}

/// A record with what the content type of the response tells.
pub open spec fn with_content_type(r: ScanRecord, content_type: Seq<char>) -> ScanRecord {
    if is_grpc_content_type(content_type) {
        ScanRecord { grpc_detected: true, grpc_response: content_type, ..r }
    } else {
        r
    }
}

/// Whether a gRPC status asks for credentials: 16 is for no authentication, 7
/// for no permission.
pub open spec fn asks_for_credentials(status: Seq<char>) -> bool {
    status == "16"@ || status == "7"@
}

/// A record with what the gRPC status in the trailers tells.
pub open spec fn with_status(r: ScanRecord, status: Seq<char>) -> ScanRecord {
    let answered = ScanRecord { grpc_response: "grpc-status:"@ + status, ..r };
    if asks_for_credentials(status) {
        ScanRecord { requires_auth: true, auth_type: "grpc-token"@, ..answered }
    } else {
        answered
    }
}

/// A record with what the trailers of the response tell.
pub open spec fn with_trailers(r: ScanRecord, trailers: http::HeaderMap) -> ScanRecord {
    if header_fields(trailers).contains_key("grpc-status"@) {
        let detected = ScanRecord { grpc_detected: true, ..r };
        match field_text(trailers, "grpc-status"@) {
            Some(status) => with_status(detected, status),
            None => detected,
        }
    } else {
        r
    }
}

/// A record with the services of a server.
pub open spec fn with_services(r: ScanRecord, names: Seq<Seq<char>>) -> ScanRecord {
    ScanRecord {
        reflection_enabled: true,
        services_count: (names.len() % 0x1_0000_0000) as u32,
        services_list: join(names, ";"@),
        ..r
    }
}

/// A record with what the body of the response tells; that of a server that
/// does not speak gRPC is not looked at.
pub open spec fn with_body(r: ScanRecord, body: Seq<u8>) -> ScanRecord {
    if r.grpc_detected && body.len() > 0 {
        match framed_services(body) {
            Some(names) => with_services(r, names),
            None => r,
        }
    } else {
        r
    }
}

/// Who issued a certificate.
pub fn issuer_name(fields: &CertificateFields) -> (r: String)
    ensures
        r@ == issuer_text(fields@.0, fields@.1),
{
    if fields.common_names.len() > 0 {
        assert(fields@.0[0] == text_of(fields.common_names@[0]));
        if let Some(name) = &fields.common_names[0] {
            return name.clone();
        }
    }
    if fields.organizations.len() > 0 {
        assert(fields@.1[0] == text_of(fields.organizations@[0]));
        if let Some(name) = &fields.organizations[0] {
            return name.clone();
        }
    }
    "Unknown".to_owned()
}

/// The content type of a response; empty if it has none that can be read.
pub fn content_type(headers: &http::HeaderMap) -> (r: String)
    ensures
        r@ == content_type_text(*headers),
{
    proof {
        lemma_field_names();
    }
    match first_value(headers, "content-type") {
        Some(value) => match value_text(value) {
            Some(text) => text.to_owned(),
            None => String::new(),
        },
        None => String::new(),
    }
}

/// The gRPC status in the trailers of a response, if it can be read.
pub fn grpc_status(trailers: &http::HeaderMap) -> (r: Option<String>)
    ensures
        text_of(r) == field_text(*trailers, "grpc-status"@),
{
    proof {
        lemma_field_names();
    }
    match first_value(trailers, "grpc-status") {
        Some(value) => match value_text(value) {
            Some(text) => Some(text.to_owned()),
            None => None,
        },
        None => None,
    }
}

/// Whether the trailers of a response have a gRPC status, readable or not.
pub fn has_grpc_status(trailers: &http::HeaderMap) -> (r: bool)
    ensures
        r == header_fields(*trailers).contains_key("grpc-status"@),
{
    proof {
        lemma_field_names();
    }
    has_field(trailers, "grpc-status")
}

/// The two field names that are looked up are in the form in which header maps
/// keep them.
proof fn lemma_field_names()
    ensures
        is_field_name("content-type"@),
        is_field_name("grpc-status"@),
{
    reveal_strlit("content-type");
    reveal_strlit("grpc-status");
}

impl Default for ScanResult {
    /// A result in which nothing has been found out yet, as of now.
    fn default() -> (r: Self)
        ensures
            r@ == blank_record(r.timestamp@),
            is_utc_time(r.timestamp@),
    {
        ScanResult::blank(utc_timestamp())
    }
}

impl ScanResult {
    /// A result in which nothing has been found out yet.
    pub fn blank(timestamp: String) -> (r: Self)
        ensures
            r@ == blank_record(timestamp@),
    {
        let r = ScanResult {
            domain: String::new(),
            port: 0,
            ip: String::new(),
            timestamp,
            dns_success: false,
            tcp_success: false,
            http2_success: false,
            grpc_detected: false,
            grpc_response: String::new(),
            reflection_enabled: false,
            services_count: 0,
            services_list: String::new(),
            tls_enabled: false,
            tls_version: String::new(),
            tls_cipher: String::new(),
            cert_issuer: String::new(),
            cert_expires: String::new(),
            requires_auth: false,
            auth_type: String::new(),
            dns_time_ms: 0,
            tcp_time_ms: 0,
            grpc_time_ms: 0,
            total_time_ms: 0,
            error: String::new(),
        };
        assert(r@ =~= blank_record(timestamp@));
        r
    }

    /// Takes down what a certificate tells.
    pub fn note_certificate(&mut self, fields: &CertificateFields)
        ensures
            final(self)@ == with_certificate(old(self)@, fields@),
    {
        self.cert_issuer = issuer_name(fields);
        self.cert_expires = match &fields.not_after {
            Some(date) => date.clone(),
            None => String::new(),
        };
    }

    /// Takes down what a TLS connection tells.
    pub fn note_tls(&mut self, session: &TlsSession)
        ensures
            final(self)@ == with_tls(old(self)@, *session),
    {
        self.tls_enabled = true;
        if let Some(code) = session.version {
            self.tls_version = tls_version_name(code);
        }
        if let Some(code) = session.cipher {
            self.tls_cipher = cipher_suite_name(code);
        }
        if session.certificates.len() > 0 {
            if let Some(fields) = read_certificate(session.certificates[0].as_slice()) {
                self.note_certificate(&fields);
            }
        }
    }

    /// Takes down what the content type of the response tells.
    pub fn note_content_type(&mut self, content_type: &str)
        ensures
            final(self)@ == with_content_type(old(self)@, content_type@),
    {
        if starts_with(content_type, "application/grpc") {
            self.grpc_detected = true;
            self.grpc_response = content_type.to_owned();
        }
    }

    /// Takes down what the gRPC status in the trailers tells.
    pub fn note_status(&mut self, status: &str)
        ensures
            final(self)@ == with_status(old(self)@, status@),
    {
        self.grpc_response = concat("grpc-status:", status);
        if same_text(status, "16") || same_text(status, "7") {
            self.requires_auth = true;
            self.auth_type = "grpc-token".to_owned();
        }
    }

    /// Takes down what the trailers of the response tell.
    pub fn note_trailers(&mut self, trailers: &http::HeaderMap)
        ensures
            final(self)@ == with_trailers(old(self)@, *trailers),
    {
        if has_grpc_status(trailers) {
            self.grpc_detected = true;
            if let Some(status) = grpc_status(trailers) {
                self.note_status(status.as_str());
            }
        }
    }

    /// Takes down what the body of the response tells.
    pub fn note_body(&mut self, body: &[u8])
        requires
            old(self).grpc_detected ==> frame_ends_fit(body@),
        ensures
            final(self)@ == with_body(old(self)@, body@),
    {
        if self.grpc_detected && body.len() > 0 {
            if let Some(services) = parse_grpc_data_frame(body) {
                let n: usize = services.len();
                self.reflection_enabled = true;
                self.services_count = low_32_bits(n as u64);
                self.services_list = join_texts(&services, ";");
            }
        }
    }
}

/// The low 32 bits of a number.
fn low_32_bits(n: u64) -> (r: u32)
    ensures
        r == n % 0x1_0000_0000,
{
    assert(#[verifier::truncate] (n as u32) == n % 0x1_0000_0000) by (bit_vector);
    #[verifier::truncate]
    (n as u32)
}

/// In a blank result nothing has been found out: all texts but the time are
/// empty, all numbers zero, and nothing is so.
pub proof fn lemma_blank_says_nothing(timestamp: Seq<char>)
    ensures
        ({
            let r = blank_record(timestamp);
            &&& r.timestamp == timestamp
            &&& r.domain.len() == 0 && r.ip.len() == 0 && r.grpc_response.len() == 0
            &&& r.services_list.len() == 0 && r.tls_version.len() == 0 && r.tls_cipher.len() == 0
            &&& r.cert_issuer.len() == 0 && r.cert_expires.len() == 0 && r.auth_type.len() == 0
            &&& r.error.len() == 0
            &&& !r.dns_success && !r.tcp_success && !r.http2_success && !r.tls_enabled
            &&& !r.grpc_detected && !r.reflection_enabled && !r.requires_auth
            &&& r.port == 0 && r.services_count == 0 && r.dns_time_ms == 0 && r.tcp_time_ms == 0
            &&& r.grpc_time_ms == 0 && r.total_time_ms == 0
        }),
{
}

/// What a TLS connection tells: that there is one, its version and cipher suite
/// if they are known, and nothing but these and what its certificate tells.
pub proof fn lemma_tls_noted(r: ScanRecord, session: TlsSession)
    ensures
        ({
            let t = with_tls(r, session);
            &&& t.tls_enabled
            &&& session.version is Some ==> t.tls_version == tls_version_text(session.version->0)
            &&& session.version is None ==> t.tls_version == r.tls_version
            &&& session.cipher is Some ==> t.tls_cipher == cipher_suite_text(session.cipher->0)
            &&& session.cipher is None ==> t.tls_cipher == r.tls_cipher
            &&& t == (ScanRecord {
                tls_enabled: true,
                tls_version: t.tls_version,
                tls_cipher: t.tls_cipher,
                cert_issuer: t.cert_issuer,
                cert_expires: t.cert_expires,
                ..r
            })
        }),
{
}

/// Issuer and expiry are those of the first certificate, the server's own: the
/// first common name of its issuer, where that cannot be read the first
/// organization, and where that cannot either, unknown; and the end of its
/// validity, or nothing. Without a first certificate that can be read they stay.
pub proof fn lemma_own_certificate_noted(r: ScanRecord, session: TlsSession)
    ensures
        ({
            let t = with_tls(r, session);
            let own = if session.certificates@.len() > 0 {
                certificate_fields(session.certificates@[0]@)
            } else {
                None
            };
            match own {
                Some((names, organizations, not_after)) => {
                    &&& names.len() > 0 && names[0] is Some ==> t.cert_issuer == names[0]->0
                    &&& !(names.len() > 0 && names[0] is Some) && organizations.len() > 0
                        && organizations[0] is Some ==> t.cert_issuer == organizations[0]->0
                    &&& !(names.len() > 0 && names[0] is Some) && !(organizations.len() > 0
                        && organizations[0] is Some) ==> t.cert_issuer == "Unknown"@
                    &&& not_after is Some ==> t.cert_expires == not_after->0
                    &&& not_after is None ==> t.cert_expires.len() == 0
                },
                None => t.cert_issuer == r.cert_issuer && t.cert_expires == r.cert_expires,
            }
        }),
{
}

/// The certificates after the first make no difference: two connections with the
/// same version and cipher suite, and the same first certificate or none each,
/// tell the same.
pub proof fn lemma_later_certificates_ignored(r: ScanRecord, a: TlsSession, b: TlsSession)
    requires
        a.version == b.version,
        a.cipher == b.cipher,
        a.certificates@.len() > 0 <==> b.certificates@.len() > 0,
        a.certificates@.len() > 0 ==> a.certificates@[0]@ == b.certificates@[0]@,
    ensures
        with_tls(r, a) == with_tls(r, b),
{
}

/// What a certificate tells changes nothing but issuer and expiry.
pub proof fn lemma_certificate_noted(
    r: ScanRecord,
    fields: (Seq<Option<Seq<char>>>, Seq<Option<Seq<char>>>, Option<Seq<char>>),
)
    ensures
        ({
            let t = with_certificate(r, fields);
            let (names, organizations, not_after) = fields;
            &&& t == (ScanRecord { cert_issuer: t.cert_issuer, cert_expires: t.cert_expires, ..r })
            &&& names.len() > 0 && names[0] is Some ==> t.cert_issuer == names[0]->0
            &&& !(names.len() > 0 && names[0] is Some) && organizations.len() > 0
                && organizations[0] is Some ==> t.cert_issuer == organizations[0]->0
            &&& !(names.len() > 0 && names[0] is Some) && !(organizations.len() > 0
                && organizations[0] is Some) ==> t.cert_issuer == "Unknown"@
            &&& not_after is Some ==> t.cert_expires == not_after->0
            &&& not_after is None ==> t.cert_expires.len() == 0
            &&& t.cert_issuer == issuer_text(names, organizations)
        }),
{
}

/// The text of a field is that of its first value, if the field is there and its
/// first value is visible ASCII; the values after the first make no difference.
pub proof fn lemma_first_value_read(headers: http::HeaderMap, name: Seq<char>)
    ensures
        !header_fields(headers).contains_key(name) ==> field_text(headers, name) is None,
        header_fields(headers).contains_key(name) ==> field_text(headers, name) == visible_text(
            header_fields(headers)[name][0],
        ),
        field_text(headers, "content-type"@) is Some ==> content_type_text(headers) == field_text(
            headers,
            "content-type"@,
        )->0,
        field_text(headers, "content-type"@) is None ==> content_type_text(headers).len() == 0,
{
}

/// A content type is one of gRPC exactly if its first sixteen characters are
/// `application/grpc`, and only then it is a signal: gRPC is detected and the
/// content type noted. Any other changes nothing.
pub proof fn lemma_content_type_noted(r: ScanRecord, content_type: Seq<char>)
    ensures
        ({
            let grpc = content_type.len() >= 16 && content_type.take(16) == "application/grpc"@;
            &&& is_grpc_content_type(content_type) <==> grpc
            &&& grpc ==> with_content_type(r, content_type) == (ScanRecord {
                grpc_detected: true,
                grpc_response: content_type,
                ..r
            })
            &&& !grpc ==> with_content_type(r, content_type) == r
        }),
{
    reveal_strlit("application/grpc");
    if content_type.len() >= 16 {
        assert(content_type.take(16) =~= content_type.subrange(0, 16));
    }
}

/// What a gRPC status tells: it is noted, and `16` and `7`, and these alone, ask
/// for credentials.
pub proof fn lemma_status_noted(r: ScanRecord, status: Seq<char>)
    ensures
        ({
            let asks = status == seq!['1', '6'] || status == seq!['7'];
            &&& asks ==> with_status(r, status) == (ScanRecord {
                grpc_response: "grpc-status:"@ + status,
                requires_auth: true,
                auth_type: "grpc-token"@,
                ..r
            })
            &&& !asks ==> with_status(r, status) == (ScanRecord {
                grpc_response: "grpc-status:"@ + status,
                ..r
            })
        }),
{
    reveal_strlit("16");
    reveal_strlit("7");
    assert("16"@ =~= seq!['1', '6']);
    assert("7"@ =~= seq!['7']);
}

/// What the trailers tell: gRPC is detected exactly if they have a status, which
/// is noted if it can be read; without one they change nothing.
pub proof fn lemma_trailers_noted(r: ScanRecord, trailers: http::HeaderMap)
    ensures
        ({
            let there = header_fields(trailers).contains_key("grpc-status"@);
            let status = visible_text(header_fields(trailers)["grpc-status"@][0]);
            let detected = ScanRecord { grpc_detected: true, ..r };
            &&& !there ==> with_trailers(r, trailers) == r
            &&& there && status is None ==> with_trailers(r, trailers) == detected
            &&& there && status is Some ==> with_trailers(r, trailers) == with_status(
                detected,
                status->0,
            )
        }),
{
}

/// A record says field by field what the result says that it is taken of, and so
/// do the fields of a certificate.
pub proof fn lemma_record_says_all(r: ScanResult, fields: CertificateFields)
    ensures
        r@.domain == r.domain@ && r@.port == r.port && r@.ip == r.ip@,
        r@.timestamp == r.timestamp@ && r@.dns_success == r.dns_success,
        r@.tcp_success == r.tcp_success && r@.http2_success == r.http2_success,
        r@.grpc_detected == r.grpc_detected && r@.grpc_response == r.grpc_response@,
        r@.reflection_enabled == r.reflection_enabled && r@.services_count == r.services_count,
        r@.services_list == r.services_list@ && r@.tls_enabled == r.tls_enabled,
        r@.tls_version == r.tls_version@ && r@.tls_cipher == r.tls_cipher@,
        r@.cert_issuer == r.cert_issuer@ && r@.cert_expires == r.cert_expires@,
        r@.requires_auth == r.requires_auth && r@.auth_type == r.auth_type@,
        r@.dns_time_ms == r.dns_time_ms && r@.tcp_time_ms == r.tcp_time_ms,
        r@.grpc_time_ms == r.grpc_time_ms && r@.total_time_ms == r.total_time_ms,
        r@.error == r.error@,
        fields@.0.len() == fields.common_names@.len(),
        forall|i: int|
            0 <= i < fields.common_names@.len() ==> #[trigger] fields@.0[i] == text_of(
                fields.common_names@[i],
            ),
        fields@.1.len() == fields.organizations@.len(),
        forall|i: int|
            0 <= i < fields.organizations@.len() ==> #[trigger] fields@.1[i] == text_of(
                fields.organizations@[i],
            ),
        fields@.2 == text_of(fields.not_after),
        fields.not_after is None ==> text_of(fields.not_after) is None,
        fields.not_after is Some ==> text_of(fields.not_after) == Some(fields.not_after->0@),
{
}

} // verus!
