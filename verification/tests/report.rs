use grpc_probe::report::{
    count_message, detection_signal, found_message, progress, Progress, Tally,
};
use grpc_probe::result::ScanResult;

#[test]
fn tally_counts() {
    let mut tally = Tally::new();
    assert_eq!(tally.count(false, false), 1);
    assert_eq!(tally.count(true, false), 2);
    assert_eq!(tally.count(true, true), 3);
    assert_eq!(tally.completed(), 3);
    assert_eq!(tally.grpc_found(), 2);
    assert_eq!(tally.reflection_found(), 1);
}

#[test]
fn progress_is_told_now_and_then() {
    assert_eq!(progress(7, true, false), Progress::Found);
    assert_eq!(progress(7, true, true), Progress::Found);
    assert_eq!(progress(7, false, true), Progress::Count);
    assert_eq!(progress(500, false, false), Progress::Count);
    assert_eq!(progress(100, false, false), Progress::Quiet);
    assert_eq!(progress(501, false, false), Progress::Quiet);
    assert_eq!(count_message(1500), "1500 scans complete");
}

#[test]
fn found_endpoint_is_told() {
    let mut result = ScanResult::blank(String::new());
    result.domain = "a.com".to_string();
    result.port = 50051;
    assert_eq!(
        found_message(&result),
        "\u{2713} gRPC FOUND: a.com:50051 | reflection:no | services:0 | tls:none"
    );
    result.reflection_enabled = true;
    result.services_count = 12;
    result.tls_enabled = true;
    result.tls_version = "TLSv1_3".to_string();
    assert_eq!(
        found_message(&result),
        "\u{2713} gRPC FOUND: a.com:50051 | reflection:YES | services:12 | tls:TLSv1_3"
    );
}

#[test]
fn signals_are_told() {
    assert_eq!(detection_signal(false, "text/html", ""), "");
    assert_eq!(detection_signal(true, "application/grpc+proto", ""), "content-type");
    assert_eq!(detection_signal(true, "text/html", "12"), "grpc-status");
    assert_eq!(detection_signal(true, "application/grpc", "0"), "content-type;grpc-status");
}
