use grpc_probe::outside::CertificateFields;
use grpc_probe::result::{content_type, grpc_status, issuer_name, ScanResult, TlsSession};
use http::{HeaderMap, HeaderName, HeaderValue};

fn header(name: &'static str, value: &[u8]) -> HeaderMap {
    let mut map = HeaderMap::new();
    map.insert(HeaderName::from_static(name), HeaderValue::from_bytes(value).unwrap());
    map
}

fn blank() -> ScanResult {
    ScanResult::blank("then".to_string())
}

fn tlv(tag: u8, content: &[u8]) -> Vec<u8> {
    let mut bytes = vec![tag];
    if content.len() < 128 {
        bytes.push(content.len() as u8);
    } else {
        bytes.push(0x82);
        bytes.extend_from_slice(&(content.len() as u16).to_be_bytes());
    }
    bytes.extend_from_slice(content);
    bytes
}

fn attribute(kind: u8, tag: u8, value: &[u8]) -> Vec<u8> {
    let mut content = tlv(0x06, &[0x55, 0x04, kind]);
    content.extend(tlv(tag, value));
    tlv(0x31, &tlv(0x30, &content))
}

fn certificate(issuer: &[Vec<u8>]) -> Vec<u8> {
    let algorithm = tlv(0x30, &tlv(0x06, &[0x2a, 0x03]));
    let mut validity = tlv(0x17, b"200101000000Z");
    validity.extend(tlv(0x17, b"270102030405Z"));
    let mut key = tlv(0x30, &tlv(0x06, &[0x2a, 0x03]));
    key.extend(tlv(0x03, &[0x00, 0x01]));
    let mut body = tlv(0x02, &[0x01]);
    body.extend(algorithm.clone());
    body.extend(tlv(0x30, &issuer.concat()));
    body.extend(tlv(0x30, &validity));
    body.extend(tlv(0x30, &[]));
    body.extend(tlv(0x30, &key));
    let mut all = tlv(0x30, &body);
    all.extend(algorithm);
    all.extend(tlv(0x03, &[0x00, 0x01]));
    tlv(0x30, &all)
}

fn session(certificates: Vec<Vec<u8>>) -> TlsSession {
    TlsSession { version: Some(0x0304), cipher: Some(0x1301), certificates }
}

#[test]
fn new_result_is_blank() {
    let result = ScanResult::default();
    assert_eq!(result.domain, "");
    assert_eq!(result.port, 0);
    assert!(!result.dns_success && !result.tcp_success && !result.http2_success);
    assert!(!result.grpc_detected && !result.reflection_enabled && !result.requires_auth);
    assert_eq!(result.error, "");
    assert!(result.timestamp.ends_with("+00:00"));
    assert_eq!(result.timestamp.as_bytes()[10], b'T');
    assert_eq!(blank().timestamp, "then");
}

#[test]
fn content_types() {
    assert_eq!(content_type(&header("content-type", b"application/grpc")), "application/grpc");
    assert_eq!(content_type(&HeaderMap::new()), "");
    assert_eq!(content_type(&header("server", b"x")), "");
    assert_eq!(content_type(&header("content-type", b"caf\xe9")), "");
    let mut two = header("content-type", b"first");
    two.append("content-type", HeaderValue::from_static("second"));
    assert_eq!(content_type(&two), "first");
}

#[test]
fn statuses() {
    assert_eq!(grpc_status(&header("grpc-status", b"0")), Some("0".to_string()));
    assert_eq!(grpc_status(&HeaderMap::new()), None);
    assert_eq!(grpc_status(&header("grpc-status", b"\xff")), None);
}

#[test]
fn content_type_of_grpc_is_a_signal() {
    let mut result = blank();
    result.note_content_type("application/grpc+proto");
    assert!(result.grpc_detected);
    assert_eq!(result.grpc_response, "application/grpc+proto");
    let mut other = blank();
    other.note_content_type("text/html");
    other.note_content_type("");
    other.note_content_type("application/grp");
    other.note_content_type("Application/grpc");
    assert!(!other.grpc_detected);
    assert_eq!(other.grpc_response, "");
}

#[test]
fn status_in_the_trailers_is_a_signal() {
    let mut result = blank();
    result.note_trailers(&header("grpc-status", b"12"));
    assert!(result.grpc_detected);
    assert_eq!(result.grpc_response, "grpc-status:12");
    assert!(!result.requires_auth);
    assert_eq!(result.auth_type, "");
}

#[test]
fn status_asks_for_credentials() {
    for status in ["16", "7"] {
        let mut result = blank();
        result.note_trailers(&header("grpc-status", status.as_bytes()));
        assert!(result.requires_auth);
        assert_eq!(result.auth_type, "grpc-token");
        assert_eq!(result.grpc_response, format!("grpc-status:{}", status));
    }
    let mut result = blank();
    result.note_trailers(&header("grpc-status", b"07"));
    assert!(!result.requires_auth);
}

#[test]
fn unreadable_status_is_a_signal_all_the_same() {
    let mut result = blank();
    result.grpc_response = "before".to_string();
    result.note_trailers(&header("grpc-status", b"\xfe"));
    assert!(result.grpc_detected);
    assert_eq!(result.grpc_response, "before");
    let mut none = blank();
    none.note_trailers(&header("grpc-message", b"0"));
    assert!(!none.grpc_detected);
}

#[test]
fn services_are_noted_once_grpc_is_detected() {
    let body = [0, 0, 0, 0, 14, 0x0a, 5, 0x0a, 3, b'a', b'.', b'b', 0x0a, 5, 0x0a, 3, b'c', b'.', b'd'];
    let mut result = blank();
    result.note_body(&body);
    assert!(!result.reflection_enabled);
    result.grpc_detected = true;
    result.note_body(&body);
    assert!(result.reflection_enabled);
    assert_eq!(result.services_count, 2);
    assert_eq!(result.services_list, "a.b;c.d");
    let mut nothing = blank();
    nothing.grpc_detected = true;
    nothing.note_body(&[]);
    nothing.note_body(&[0, 0, 0, 0, 1, 0]);
    assert!(!nothing.reflection_enabled);
    assert_eq!(nothing.services_count, 0);
}

#[test]
fn tls_is_noted() {
    let mut result = blank();
    result.note_tls(&session(Vec::new()));
    assert!(result.tls_enabled);
    assert_eq!(result.tls_version, "TLSv1_3");
    assert_eq!(result.tls_cipher, "TLS13_AES_128_GCM_SHA256");
    assert_eq!(result.cert_issuer, "");
    assert_eq!(result.cert_expires, "");
}

#[test]
fn tls_versions_by_number() {
    let known = [
        (0x0002, "SSLv2"),
        (0x0300, "SSLv3"),
        (0x0301, "TLSv1_0"),
        (0x0302, "TLSv1_1"),
        (0x0303, "TLSv1_2"),
        (0x0304, "TLSv1_3"),
        (0xfeff, "DTLSv1_0"),
        (0xfefd, "DTLSv1_2"),
        (0xfefc, "DTLSv1_3"),
        (0x0305, "ProtocolVersion(0x305)"),
        (0x7abc, "ProtocolVersion(0x7abc)"),
        (0, "ProtocolVersion(0x0)"),
    ];
    for (code, name) in known {
        let mut result = blank();
        result.note_tls(&TlsSession { version: Some(code), cipher: None, certificates: vec![] });
        assert_eq!(result.tls_version, name);
        assert_eq!(result.tls_cipher, "");
    }
}

#[test]
fn certificate_is_noted() {
    let issuer = [
        attribute(0x0a, 0x0c, b"Example Org"),
        attribute(0x03, 0x0c, b"Example CA"),
        attribute(0x03, 0x0c, b"Another"),
    ];
    let mut result = blank();
    result.note_tls(&session(vec![certificate(&issuer), vec![1, 2, 3]]));
    assert_eq!(result.cert_issuer, "Example CA");
    assert_eq!(result.cert_expires, "Sat, 02 Jan 2027 03:04:05 +0000");
}

#[test]
fn issuer_by_organization() {
    let issuer = [attribute(0x0a, 0x13, b"Example Org")];
    let mut result = blank();
    result.note_tls(&session(vec![certificate(&issuer)]));
    assert_eq!(result.cert_issuer, "Example Org");
    let unreadable = [attribute(0x03, 0x1e, &[0, 65]), attribute(0x0a, 0x0c, b"Org")];
    let mut result = blank();
    result.note_tls(&session(vec![certificate(&unreadable)]));
    assert_eq!(result.cert_issuer, "Org");
}

#[test]
fn issuer_unknown() {
    let mut result = blank();
    result.note_tls(&session(vec![certificate(&[])]));
    assert_eq!(result.cert_issuer, "Unknown");
}

#[test]
fn no_certificate_at_all() {
    let mut result = blank();
    result.note_tls(&session(vec![vec![0x30, 0x00]]));
    assert_eq!(result.cert_issuer, "");
    assert_eq!(result.cert_expires, "");
}

#[test]
fn issuer_of_given_fields() {
    let fields = |cn: Vec<Option<String>>, org: Vec<Option<String>>| CertificateFields {
        common_names: cn,
        organizations: org,
        not_after: None,
    };
    let a = || Some("a".to_string());
    let b = || Some("b".to_string());
    assert_eq!(issuer_name(&fields(vec![a()], vec![b()])), "a");
    assert_eq!(issuer_name(&fields(vec![None, a()], vec![b()])), "b");
    assert_eq!(issuer_name(&fields(vec![None], vec![None, b()])), "Unknown");
    let mut result = blank();
    result.cert_expires = "before".to_string();
    result.note_certificate(&fields(vec![], vec![]));
    assert_eq!(result.cert_issuer, "Unknown");
    assert_eq!(result.cert_expires, "");
}

#[test]
fn reported_services_can_be_told_apart() {
    let list = [b"a.b", b"c.d", b"e.f"];
    let mut message = Vec::new();
    for name in list {
        message.extend_from_slice(&[0x0a, 5, 0x0a, 3]);
        message.extend_from_slice(name);
    }
    let mut body = vec![0, 0, 0, 0, message.len() as u8];
    body.extend_from_slice(&message);
    let mut result = blank();
    result.note_content_type("application/grpc");
    result.note_body(&body);
    let names: Vec<&str> = result.services_list.split(';').collect();
    assert_eq!(names, vec!["a.b", "c.d", "e.f"]);
    assert_eq!(result.services_count, 3);
}
