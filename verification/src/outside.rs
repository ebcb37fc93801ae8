//! What the library takes on trust: the functions of other crates and of the
//! standard library that it calls, each with the contract it relies on.
use vstd::prelude::*;
use vstd::utf8::{decode_utf8, valid_utf8};

use crate::text::{all_digits, digit_char, is_space, number};

verus! {

/// `String::push` appends one character.
pub assume_specification[ String::push ](s: &mut String, c: char)
    ensures
        final(s)@ == old(s)@.push(c),
;

/// What `char::is_alphanumeric` answers: whether Unicode counts the character
/// as a letter or a number.
pub uninterp spec fn unicode_alphanumeric(c: char) -> bool;

/// `char::is_alphanumeric` depends on its character alone.
pub assume_specification[ char::is_alphanumeric ](c: char) -> (r: bool)
    ensures
        r == unicode_alphanumeric(c),
;

/// `char::is_whitespace` tells whether Unicode gives the character the property
/// `White_Space`.
pub assume_specification[ char::is_whitespace ](c: char) -> (r: bool)
    ensures
        r == is_space(c),
;

/// `std::str::from_utf8` succeeds on exactly the well-formed UTF-8 and then
/// gives the characters that the bytes encode.
#[verifier::external_body]
pub(crate) fn utf8_text(bytes: &[u8]) -> (r: Option<&str>)
    ensures
        match r {
            Some(text) => valid_utf8(bytes@) && text@ == decode_utf8(bytes@),
            None => !valid_utf8(bytes@),
        },
{
    std::str::from_utf8(bytes).ok()
}

/// The header fields of an HTTP message.
#[verifier::external_type_specification]
#[verifier::external_body]
#[verifier::reject_recursive_types(T)]
pub struct ExHeaderMap<T>(http::HeaderMap<T>);

/// The value of one header field.
#[verifier::external_type_specification]
#[verifier::external_body]
pub struct ExHeaderValue(http::HeaderValue);

/// An HTTP request.
#[verifier::external_type_specification]
#[verifier::external_body]
#[verifier::reject_recursive_types(T)]
pub struct ExRequest<T>(http::Request<T>);

/// What a header map holds: for each field name in it, in lower case, the bytes
/// of its values in the order in which they came.
pub uninterp spec fn header_fields(headers: http::HeaderMap) -> Map<Seq<char>, Seq<Seq<u8>>>;

/// The bytes that a header value holds.
pub uninterp spec fn value_bytes(value: http::HeaderValue) -> Seq<u8>;

/// Whether `name` is a field name as header maps keep them: letters in lower
/// case, digits and hyphens, and not too long.
pub open spec fn is_field_name(name: Seq<char>) -> bool {
    &&& 0 < name.len() <= 64
    &&& forall|i: int|
        0 <= i < name.len() ==> {
            ||| 'a' <= #[trigger] name[i] <= 'z'
            ||| '0' <= name[i] <= '9'
            ||| name[i] == '-'
        }
}

/// `http::HeaderMap::contains_key`, for a field name in lower case, tells
/// whether the map has a value under it.
#[verifier::external_body]
pub(crate) fn has_field(headers: &http::HeaderMap, name: &str) -> (r: bool)
    requires
        is_field_name(name@),
    ensures
        r == header_fields(*headers).contains_key(name@),
{
    headers.contains_key(name)
}

/// `http::HeaderMap::get`, for a field name in lower case, gives the first of
/// the values under it, and nothing exactly when there is none.
#[verifier::external_body]
pub(crate) fn first_value<'a>(headers: &'a http::HeaderMap, name: &str) -> (r: Option<
    &'a http::HeaderValue,
>)
    requires
        is_field_name(name@),
    ensures
        match r {
            Some(value) => header_fields(*headers).contains_key(name@) && value_bytes(*value)
                == header_fields(*headers)[name@][0],
            None => !header_fields(*headers).contains_key(name@),
        },
{
    headers.get(name)
}

/// Whether a byte is a visible ASCII character, a blank or a tab.
pub open spec fn is_visible(b: u8) -> bool {
    32 <= b < 127 || b == 9
}

/// The text of bytes that are all visible ASCII, blanks or tabs.
pub open spec fn visible_text(bytes: Seq<u8>) -> Option<Seq<char>> {
    if forall|i: int| 0 <= i < bytes.len() ==> is_visible(#[trigger] bytes[i]) {
        Some(bytes.map_values(|b: u8| b as char))
    } else {
        None
    }
}

/// `http::HeaderValue::to_str` gives the text of a value whose bytes are all
/// visible ASCII, blanks or tabs, and nothing for any other value.
#[verifier::external_body]
pub(crate) fn value_text(value: &http::HeaderValue) -> (r: Option<&str>)
    ensures
        match r {
            Some(text) => visible_text(value_bytes(*value)) == Some(text@),
            None => visible_text(value_bytes(*value)) is None,
        },
{
    value.to_str().ok()
}

/// What building an HTTP request gives: the request itself, or the text of the
/// error that keeps it from being built.
pub uninterp spec fn built_request(
    method: Seq<char>,
    uri: Seq<char>,
    headers: Seq<(Seq<char>, Seq<char>)>,
) -> Result<http::Request<()>, Seq<char>>;

/// `http::Request::builder`, given a method, a target and four header fields in
/// order, gives a request or an error that depends on these alone.
#[verifier::external_body]
pub(crate) fn build_request(
    method: &str,
    uri: &str,
    first: (&str, &str),
    second: (&str, &str),
    third: (&str, &str),
    fourth: (&str, &str),
) -> (r: Result<http::Request<()>, String>)
    ensures
        match r {
            Ok(request) => Ok::<_, Seq<char>>(request),
            Err(error) => Err(error@),
        } == built_request(
            method@,
            uri@,
            seq![
                (first.0@, first.1@),
                (second.0@, second.1@),
                (third.0@, third.1@),
                (fourth.0@, fourth.1@),
            ],
        ),
{
    http::Request::builder()
        .method(method)
        .uri(uri)
        .header(first.0, first.1)
        .header(second.0, second.1)
        .header(third.0, third.1)
        .header(fourth.0, fourth.1)
        .body(())
        .map_err(|e| e.to_string())
}

/// A number in hexadecimal, in lower case and without leading zeros.
pub open spec fn hexadecimal(n: nat) -> Seq<char>
    decreases n,
{
    let digit = n % 16;
    let c = if digit < 10 {
        (48 + digit) as char
    } else {
        (87 + digit) as char
    };
    if n < 16 {
        seq![c]
    } else {
        hexadecimal(n / 16).push(c)
    }
}

/// How a version of TLS, given by its number on the wire, is written.
pub open spec fn tls_version_text(code: u16) -> Seq<char> {
    match code {
        0x0002 => "SSLv2"@,
        0x0300 => "SSLv3"@,
        0x0301 => "TLSv1_0"@,
        0x0302 => "TLSv1_1"@,
        0x0303 => "TLSv1_2"@,
        0x0304 => "TLSv1_3"@,
        0xfeff => "DTLSv1_0"@,
        0xfefd => "DTLSv1_2"@,
        0xfefc => "DTLSv1_3"@,
        _ => "ProtocolVersion(0x"@ + hexadecimal(code as nat) + ")"@,
    }
}

/// The debug format of `rustls::ProtocolVersion` writes the versions that it
/// knows by name and any other by number.
#[verifier::external_body]
pub(crate) fn tls_version_name(code: u16) -> (r: String)
    ensures
        r@ == tls_version_text(code),
{
    format!("{:?}", rustls::ProtocolVersion::from(code))
}

/// How a cipher suite of TLS, given by its number on the wire, is written.
pub uninterp spec fn cipher_suite_text(code: u16) -> Seq<char>;

/// The debug format of `rustls::CipherSuite` depends on the number alone.
#[verifier::external_body]
pub(crate) fn cipher_suite_name(code: u16) -> (r: String)
    ensures
        r@ == cipher_suite_text(code),
{
    format!("{:?}", rustls::CipherSuite::from(code))
}

/// Whether a string is a DNS name or an IP address that a TLS server can be
/// asked for by.
pub uninterp spec fn is_server_name(domain: Seq<char>) -> bool;

/// `rustls::pki_types::ServerName::try_from` succeeds or not by its string
/// alone.
#[verifier::external_body]
pub(crate) fn server_name_valid(domain: &str) -> (r: bool)
    ensures
        r == is_server_name(domain@),
{
    rustls::pki_types::ServerName::try_from(domain.to_string()).is_ok()
}

/// What is read out of a certificate. An attribute that cannot be read as a
/// string is `None`, and so is a date that has no RFC 2822 form.
#[derive(Debug)]
pub struct CertificateFields {
    /// The common names of the issuer, in order.
    pub common_names: Vec<Option<String>>,
    /// The organizations of the issuer, in order.
    pub organizations: Vec<Option<String>>,
    /// The end of the validity, in the form of RFC 2822.
    pub not_after: Option<String>,
}

/// The characters of a string that may be missing.
pub open spec fn text_of(s: Option<String>) -> Option<Seq<char>> {
    match s {
        Some(text) => Some(text@),
        None => None,
    }
}

impl View for CertificateFields {
    type V = (Seq<Option<Seq<char>>>, Seq<Option<Seq<char>>>, Option<Seq<char>>);

    open spec fn view(&self) -> Self::V {
        (
            self.common_names@.map_values(|s: Option<String>| text_of(s)),
            self.organizations@.map_values(|s: Option<String>| text_of(s)),
            text_of(self.not_after),
        )
    }
}

/// What a DER-encoded certificate holds: the common names and the organizations
/// of its issuer and the end of its validity; nothing if it is no certificate.
pub uninterp spec fn certificate_fields(der: Seq<u8>) -> Option<
    (Seq<Option<Seq<char>>>, Seq<Option<Seq<char>>>, Option<Seq<char>>),
>;

/// `x509_parser::parse_x509_certificate` reads a certificate, or fails, by its
/// bytes alone; so do the accessors of the certificate that it gives.
#[verifier::external_body]
pub(crate) fn read_certificate(der: &[u8]) -> (r: Option<CertificateFields>)
    ensures
        match r {
            Some(fields) => certificate_fields(der@) == Some(fields@),
            None => certificate_fields(der@) is None,
        },
{
    let (_, certificate) = x509_parser::parse_x509_certificate(der).ok()?;
    let issuer = certificate.issuer();
    Some(CertificateFields {
        common_names: issuer.iter_common_name().map(|a| a.as_str().ok().map(String::from)).collect(),
        organizations: issuer.iter_organization().map(|a| a.as_str().ok().map(String::from)).collect(),
        not_after: certificate.validity().not_after.to_rfc2822().ok(),
    })
}

/// A number below 100 in two decimal digits.
pub open spec fn two_digits(n: nat) -> Seq<char> {
    seq![digit_char(n / 10), digit_char(n % 10)]
}

/// A year from 1970 on: four digits, or a plus sign and more than four.
pub open spec fn is_year(s: Seq<char>) -> bool {
    ||| s.len() == 4 && all_digits(s) && number(s) >= 1970
    ||| s.len() > 5 && s[0] == '+' && all_digits(s.drop_first()) && s[1] != '0'
}

/// A fraction of a second: none, or a point and three, six or nine digits.
pub open spec fn is_fraction(s: Seq<char>) -> bool {
    ||| s.len() == 0
    ||| (s.len() == 4 || s.len() == 7 || s.len() == 10) && s[0] == '.' && all_digits(
        s.drop_first(),
    )
}

/// A time in UTC as RFC 3339 has it: date, `T`, time of day with a fraction or
/// without, and the offset.
pub open spec fn utc_text(
    year: Seq<char>,
    month: nat,
    day: nat,
    hour: nat,
    minute: nat,
    second: nat,
    fraction: Seq<char>,
) -> Seq<char> {
    year + "-"@ + two_digits(month) + "-"@ + two_digits(day) + "T"@ + two_digits(hour) + ":"@
        + two_digits(minute) + ":"@ + two_digits(second) + fraction + "+00:00"@
}

/// Whether a text is a time in UTC, from 1970 on, as RFC 3339 has it.
pub open spec fn is_utc_time(s: Seq<char>) -> bool {
    exists|
        year: Seq<char>,
        month: nat,
        day: nat,
        hour: nat,
        minute: nat,
        second: nat,
        fraction: Seq<char>,
    |
        s == #[trigger] utc_text(year, month, day, hour, minute, second, fraction) && is_year(year)
            && 1 <= month <= 12 && 1 <= day <= 31 && hour < 24 && minute < 60 && second < 60
            && is_fraction(fraction)
}

/// `chrono::Utc::now` reads the clock, which does not stand before 1970, and
/// `to_rfc3339` writes the time in the form of RFC 3339 with the offset of UTC.
/// What the time is, nothing says.
#[verifier::external_body]
pub(crate) fn utc_timestamp() -> (r: String)
    ensures
        is_utc_time(r@),
{
    chrono::Utc::now().to_rfc3339()
}

} // verus!
