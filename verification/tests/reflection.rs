use grpc_probe::reflection::{
    extract_service_name, frame_readable, is_valid_grpc_service_name, list_readable,
    parse_grpc_data_frame, parse_list_services_response, service_readable,
};

fn varint(mut n: usize) -> Vec<u8> {
    let mut bytes = Vec::new();
    while n >= 128 {
        bytes.push((n % 128) as u8 + 128);
        n /= 128;
    }
    bytes.push(n as u8);
    bytes
}

fn field(number: u8, content: &[u8]) -> Vec<u8> {
    let mut bytes = vec![number * 8 + 2];
    bytes.extend(varint(content.len()));
    bytes.extend_from_slice(content);
    bytes
}

fn service(name: &str) -> Vec<u8> {
    field(1, &field(1, name.as_bytes()))
}

fn framed(message: &[u8]) -> Vec<u8> {
    let mut bytes = vec![0];
    bytes.extend_from_slice(&(message.len() as u32).to_be_bytes());
    bytes.extend_from_slice(message);
    bytes
}

fn names(list: &[&str]) -> Option<Vec<String>> {
    Some(list.iter().map(|s| s.to_string()).collect())
}

#[test]
fn names_of_services() {
    assert!(is_valid_grpc_service_name("grpc.health.v1.Health"));
    assert!(is_valid_grpc_service_name("a.b"));
    assert!(is_valid_grpc_service_name("x_1.Y_2"));
    assert!(is_valid_grpc_service_name("a.1"));
    assert!(is_valid_grpc_service_name("a.b.c.d.e.f.g.h"));
}

#[test]
fn names_that_no_service_has() {
    assert!(!is_valid_grpc_service_name(""));
    assert!(!is_valid_grpc_service_name("health"));
    assert!(!is_valid_grpc_service_name(".health.v1"));
    assert!(!is_valid_grpc_service_name("health.v1."));
    assert!(!is_valid_grpc_service_name("health..v1"));
    assert!(!is_valid_grpc_service_name("a.b.c.d.e.f.g.h.i"));
    assert!(!is_valid_grpc_service_name("Grpc.Health"));
    assert!(!is_valid_grpc_service_name("_grpc.Health"));
    assert!(!is_valid_grpc_service_name("1.2"));
    assert!(!is_valid_grpc_service_name("grpc.he-alth"));
    assert!(!is_valid_grpc_service_name("grpc.he alth"));
    assert!(!is_valid_grpc_service_name("..."));
}

#[test]
fn names_beyond_ascii() {
    assert!(is_valid_grpc_service_name("a.\u{e9}t\u{e9}"));
    assert!(is_valid_grpc_service_name("a.\u{663}"));
    assert!(!is_valid_grpc_service_name("a.\u{2014}"));
    assert!(!is_valid_grpc_service_name("\u{e9}.b"));
}

#[test]
fn names_are_measured_in_bytes() {
    let longest = format!("a.{}", "b".repeat(126));
    assert_eq!(longest.len(), 128);
    assert!(is_valid_grpc_service_name(&longest));
    assert!(!is_valid_grpc_service_name(&format!("{}b", longest)));
    assert!(is_valid_grpc_service_name(&format!("a.{}", "\u{e9}".repeat(63))));
    assert!(!is_valid_grpc_service_name(&format!("a.{}", "\u{e9}".repeat(64))));
}

#[test]
fn name_of_a_service_message() {
    assert_eq!(extract_service_name(&field(1, b"a.b")), Some("a.b".to_string()));
    let mut later = field(3, b"skipped");
    later.extend(field(1, b"a.b"));
    assert_eq!(extract_service_name(&later), Some("a.b".to_string()));
    assert_eq!(extract_service_name(&field(1, "\u{e9}".as_bytes())), Some("\u{e9}".to_string()));
    assert_eq!(extract_service_name(&field(1, b"")), Some(String::new()));
}

#[test]
fn service_message_without_a_name() {
    assert_eq!(extract_service_name(&[]), None);
    assert_eq!(extract_service_name(&field(2, b"a.b")), None);
    assert_eq!(extract_service_name(&field(1, &[0xff, 0xfe])), None);
    assert_eq!(extract_service_name(&[0x0a, 0x05, b'a']), None);
    assert_eq!(extract_service_name(&[0x0a, 0x80]), None);
    let mut after_integer = vec![0x10, 0x01];
    after_integer.extend(field(1, b"a.b"));
    assert_eq!(extract_service_name(&after_integer), None);
}

#[test]
fn list_of_services() {
    let mut msg = service("grpc.health.v1.Health");
    msg.extend(service("my.pkg.Api"));
    assert_eq!(
        parse_list_services_response(&msg),
        names(&["grpc.health.v1.Health", "my.pkg.Api"])
    );
}

#[test]
fn list_passes_over_other_fields() {
    let mut msg = vec![0x08, 0x96, 0x01];
    msg.extend([0x09, 1, 2, 3, 4, 5, 6, 7, 8]);
    msg.extend(service("a.b"));
    msg.extend([0x0d, 1, 2, 3, 4]);
    msg.extend(field(2, &field(1, b"not.listed")));
    msg.extend(service("no dots"));
    msg.extend(service("c.d"));
    assert_eq!(parse_list_services_response(&msg), names(&["a.b", "c.d"]));
}

#[test]
fn list_ends_at_what_is_cut_short_or_unknown() {
    let mut cut = service("a.b");
    cut.extend([0x0a, 0x7f, 1]);
    assert_eq!(parse_list_services_response(&cut), names(&["a.b"]));
    let mut unknown = service("a.b");
    unknown.push(0x0b);
    unknown.extend(service("c.d"));
    assert_eq!(parse_list_services_response(&unknown), names(&["a.b"]));
    let mut fixed = service("a.b");
    fixed.extend([0x09, 1, 2]);
    assert_eq!(parse_list_services_response(&fixed), names(&["a.b"]));
    let mut integer = service("a.b");
    integer.push(0x08);
    assert_eq!(parse_list_services_response(&integer), names(&["a.b"]));
}

#[test]
fn integer_that_does_not_end_takes_one_byte() {
    let mut msg = vec![0x08];
    msg.extend([0x8d; 10]);
    assert_eq!(parse_list_services_response(&msg), None);
    let mut msg = vec![0x08, 0x8a];
    msg.extend([0x80; 9]);
    assert_eq!(parse_list_services_response(&msg), None);
    let mut msg = vec![0x08, 0x80, 0x89];
    msg.extend([0x80; 8]);
    msg.extend(service("a.b"));
    assert_eq!(parse_list_services_response(&msg), names(&["a.b"]));
}

#[test]
fn unreadable_length_spoils_the_list() {
    let mut msg = service("a.b");
    msg.extend([0x0a, 0x80]);
    assert_eq!(parse_list_services_response(&msg), None);
}

#[test]
fn list_without_services() {
    assert_eq!(parse_list_services_response(&[]), None);
    assert_eq!(parse_list_services_response(&service("Bad")), None);
}

#[test]
fn framed_list_is_read_as_written() {
    let mut msg = service("grpc.reflection.v1alpha.ServerReflection");
    msg.extend(service("a.b"));
    let mut data = framed(&msg);
    data.extend([1, 2, 3]);
    assert!(frame_readable(&data));
    assert_eq!(
        parse_grpc_data_frame(&data),
        names(&["grpc.reflection.v1alpha.ServerReflection", "a.b"])
    );
}

#[test]
fn no_list_in_a_bad_frame() {
    let mut data = framed(&service("a.b"));
    data[0] = 1;
    assert_eq!(parse_grpc_data_frame(&data), None);
    assert_eq!(parse_grpc_data_frame(&[]), None);
    let mut short = framed(&service("a.b"));
    while short.pop().is_some() {
        assert_eq!(parse_grpc_data_frame(&short), None);
    }
}

#[test]
fn length_beyond_a_machine_word_is_not_readable() {
    let huge = [0xff, 0xff, 0xff, 0xff, 0xff, 0xff, 0xff, 0xff, 0xff, 0x01];
    let mut msg = vec![0x12];
    msg.extend(huge);
    assert!(!frame_readable(&framed(&msg)));
    assert!(!list_readable(&msg));
    assert!(!service_readable(&msg));
    assert!(list_readable(&service("a.b")));
    assert!(service_readable(&field(1, b"a.b")));
    let mut inner = vec![0x12];
    inner.extend(huge);
    assert!(!frame_readable(&framed(&field(1, &inner))));
    assert!(!list_readable(&field(1, &inner)));
    assert!(frame_readable(&framed(&field(2, &inner))));
    assert!(frame_readable(&framed(&[0x0a, 0xff, 0xff, 0x03])));
    assert!(frame_readable(&huge));
}

#[test]
fn name_is_read_whatever_follows_it() {
    let mut data = field(1, b"a.b");
    data.extend([0x0b, 0xff, 0xff]);
    assert!(service_readable(&data));
    assert_eq!(extract_service_name(&data), Some("a.b".to_string()));
}

#[test]
fn only_the_first_frame_counts() {
    let mut data = framed(&service("a.b"));
    data.extend(framed(&service("c.d")));
    assert_eq!(parse_grpc_data_frame(&data), names(&["a.b"]));
}

#[test]
fn lists_are_read_one_after_the_other() {
    let mut first = service("a.b");
    first.extend([0x08, 0x01]);
    let mut second = vec![0x0d, 1, 2, 3, 4];
    second.extend(service("c.d"));
    let both = [first.clone(), second.clone()].concat();
    assert_eq!(parse_list_services_response(&first), names(&["a.b"]));
    assert_eq!(parse_list_services_response(&second), names(&["c.d"]));
    assert_eq!(parse_list_services_response(&both), names(&["a.b", "c.d"]));
}
