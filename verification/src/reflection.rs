//! Service names in the reply to a reflection request.
//!
//! The reply is one uncompressed gRPC frame around a list of services; each
//! service is a nested message whose first field is its name.
use vstd::prelude::*;
use vstd::utf8::{decode_utf8, encode_utf8, valid_utf8};

use crate::outside::{unicode_alphanumeric, utf8_text};
use crate::text::{chars_of, split, texts};
use crate::wire::{frame_message, frame_payload, lemma_varint_len_bound, parse_varint, varint};

verus! {

/// A letter, a digit or an underscore; beyond ASCII, what Unicode counts as a
/// letter or a number.
pub open spec fn is_word_char(c: char) -> bool {
    if c <= '\u{7f}' {
        'a' <= c <= 'z' || 'A' <= c <= 'Z' || '0' <= c <= '9' || c == '_'
    } else {
        unicode_alphanumeric(c)
    }
}

/// A row of word characters, possibly empty.
pub open spec fn is_word(s: Seq<char>) -> bool {
    forall|i: int| 0 <= i < s.len() ==> is_word_char(#[trigger] s[i])
}

/// The longest service name, in bytes of UTF-8.
pub const MAX_NAME_BYTES: usize = 128;

/// The most labels a service name has.
pub const MAX_LABELS: usize = 8;

/// Whether a name can be that of a gRPC service: two to eight non-empty words
/// with dots between them, the first beginning with a lower-case ASCII letter,
/// in at most 128 bytes.
pub open spec fn valid_service_name(name: Seq<char>) -> bool {
    let labels = split(name, '.');
    &&& encode_utf8(name).len() <= MAX_NAME_BYTES
    &&& 2 <= labels.len() <= MAX_LABELS
    &&& forall|i: int|
        0 <= i < labels.len() ==> (#[trigger] labels[i]).len() > 0 && is_word(labels[i])
    &&& 'a' <= labels[0][0] <= 'z'
}

/// Whether a character is a word character.
fn word_char(c: char) -> (r: bool)
    ensures
        r == is_word_char(c),
{
    if c <= '\u{7f}' {
        ('a' <= c && c <= 'z') || ('A' <= c && c <= 'Z') || ('0' <= c && c <= '9') || c == '_'
    } else {
        c.is_alphanumeric()
    }
}

/// The labels of `s`, all but the last of which are finished, are words, and
/// the finished ones are not empty.
spec fn labels_fine(labels: Seq<Seq<char>>) -> bool {
    &&& is_word(labels.last())
    &&& forall|i: int|
        0 <= i < labels.len() - 1 ==> (#[trigger] labels[i]).len() > 0 && is_word(labels[i])
}

/// One more character extends the last label or starts a new one.
proof fn lemma_labels_extend(labels: Seq<Seq<char>>, c: char, next: Seq<Seq<char>>)
    requires
        labels.len() > 0,
        next == if c == '.' {
            labels.push(Seq::empty())
        } else {
            labels.update(labels.len() - 1, labels.last().push(c))
        },
    ensures
        labels_fine(next) == (labels_fine(labels) && if c == '.' {
            labels.last().len() > 0
        } else {
            is_word_char(c)
        }),
{
    let n = labels.len() as int;
    if c == '.' {
        assert(next.last().len() == 0);
        if labels_fine(next) {
            assert(next[n - 1] == labels[n - 1]);
            assert forall|i: int| 0 <= i < n - 1 implies (#[trigger] labels[i]).len() > 0
                && is_word(labels[i]) by {
                assert(next[i] == labels[i]);
            }
        }
    } else {
        let last = labels.last();
        assert(next.last() == last.push(c));
        if labels_fine(next) {
            assert(next.last()[last.len() as int] == c);
            assert forall|i: int| 0 <= i < last.len() implies is_word_char(#[trigger] last[i]) by {
                assert(next.last()[i] == last[i]);
            }
            assert forall|i: int| 0 <= i < n - 1 implies (#[trigger] labels[i]).len() > 0
                && is_word(labels[i]) by {
                assert(next[i] == labels[i]);
            }
        }
    }
}

/// Whether a name can be that of a gRPC service.
pub fn is_valid_grpc_service_name(name: &str) -> (r: bool)
    ensures
        r == valid_service_name(name@),
{
    if name.as_bytes().len() > MAX_NAME_BYTES {
        return false;
    }
    let chars = chars_of(name);
    let mut fine = true;
    let mut dots: usize = 0;
    let mut last_empty = true;
    let mut i: usize = 0;
    while i < chars.len()
        invariant
            i <= chars@.len(),
            dots <= i,
            dots + 1 == split(chars@.take(i as int), '.').len(),
            fine == labels_fine(split(chars@.take(i as int), '.')),
            last_empty == (split(chars@.take(i as int), '.').last().len() == 0),
            i > 0 && chars@[0] == '.' ==> split(chars@.take(i as int), '.')[0].len() == 0
                && dots > 0,
            i > 0 && chars@[0] != '.' ==> split(chars@.take(i as int), '.')[0].len() > 0
                && split(chars@.take(i as int), '.')[0][0] == chars@[0],
        decreases chars@.len() - i,
    {
        let c = chars[i];
        let ghost labels = split(chars@.take(i as int), '.');
        let ghost next = split(chars@.take(i + 1), '.');
        proof {
            assert(chars@.take(i + 1).drop_last() =~= chars@.take(i as int));
            lemma_labels_extend(labels, c, next);
        }
        if c == '.' {
            fine = fine && !last_empty;
            dots = dots + 1;
            last_empty = true;
        } else {
            fine = fine && word_char(c);
            last_empty = false;
        }
        i = i + 1;
    }
    assert(chars@.take(chars@.len() as int) =~= name@);
    let ghost labels = split(name@, '.');
    if !fine || last_empty || dots < 1 || dots >= MAX_LABELS {
        assert(valid_service_name(name@) ==> labels[labels.len() - 1].len() > 0);
        return false;
    }
    assert forall|k: int| 0 <= k < labels.len() implies (#[trigger] labels[k]).len() > 0 && is_word(
        labels[k],
    ) by {
        assert(labels[labels.len() - 1] == labels.last());
    }
    'a' <= chars[0] && chars[0] <= 'z'
}

/// What stands at the head of a message.
pub enum Field {
    /// Nothing more to read: the message is over, its next field is cut short,
    /// or the wire type of that field is not known.
    End,
    /// A length-delimited field whose length cannot be read.
    Unreadable,
    /// A length-delimited field: its number, its content and what follows it.
    Delimited { number: int, content: Seq<u8>, rest: Seq<u8> },
    /// A field of another wire type, and what follows it.
    Other { rest: Seq<u8> },
}

/// What is left of `s` after `n` bytes.
pub open spec fn after(s: Seq<u8>, n: nat) -> Seq<u8> {
    if n <= s.len() {
        s.skip(n as int)
    } else {
        Seq::empty()
    }
}

/// How many bytes an integer field takes after its tag; a field that holds no
/// varint counts as one byte.
pub open spec fn integer_len(s: Seq<u8>) -> nat {
    match varint(s) {
        Some((_, n)) => n,
        None => 1,
    }
}

/// The field at the head of `msg`. Its first byte is a tag: the wire type in the
/// low three bits, the field number in the others.
pub open spec fn first_field(msg: Seq<u8>) -> Field {
    let rest = msg.drop_first();
    let wire_type = msg[0] % 8;
    if msg.len() == 0 {
        Field::End
    } else if wire_type == 2 {
        match varint(rest) {
            None => Field::Unreadable,
            Some((value, n)) => {
                let body = rest.skip(n as int);
                let len = value as usize;
                if len > body.len() {
                    Field::End
                } else {
                    Field::Delimited {
                        number: (msg[0] / 8) as int,
                        content: body.take(len as int),
                        rest: body.skip(len as int),
                    }
                }
            },
        }
    } else if wire_type == 0 {
        Field::Other { rest: after(rest, integer_len(rest)) }
    } else if wire_type == 1 {
        Field::Other { rest: after(rest, 8) }
    } else if wire_type == 5 {
        Field::Other { rest: after(rest, 4) }
    } else {
        Field::End
    }
}

/// Whether the end of the field at the head of `msg`, which is what is left of a
/// message of `total` bytes, is a position that a machine word can hold.
pub open spec fn first_end_fits(msg: Seq<u8>, total: nat) -> bool {
    if msg.len() > 0 && msg[0] % 8 == 2 {
        match varint(msg.drop_first()) {
            None => true,
            Some((value, n)) => total - msg.len() + 1 + n + (value as usize) <= usize::MAX,
        }
    } else {
        true
    }
}

/// A field takes up at least its tag, so what follows it is shorter.
pub proof fn lemma_field_shrinks(msg: Seq<u8>)
    ensures
        match first_field(msg) {
            Field::Delimited { number, content, rest } => content.len() + rest.len() < msg.len(),
            Field::Other { rest } => rest.len() < msg.len(),
            _ => true,
        },
{
    if msg.len() > 0 {
        lemma_varint_len_bound(msg.drop_first());
    }
}

/// The name in a service message: the first length-delimited field numbered 1,
/// if it is UTF-8 and every field before it is length-delimited and whole.
pub open spec fn service_name(data: Seq<u8>) -> Option<Seq<char>>
    decreases data.len(),
{
    match first_field(data) {
        Field::Delimited { number, content, rest } => {
            if number == 1 {
                if valid_utf8(content) {
                    Some(decode_utf8(content))
                } else {
                    None
                }
            } else {
                proof {
                    lemma_field_shrinks(data);
                }
                service_name(rest)
            }
        },
        _ => None,
    }
}

/// Whether every field met on the way to the name, in what is left of a service
/// message of `total` bytes, ends where a machine word can say.
pub open spec fn name_ends_fit(data: Seq<u8>, total: nat) -> bool
    decreases data.len(),
{
    &&& first_end_fits(data, total)
    &&& match first_field(data) {
        Field::Delimited { number, content, rest } => {
            number == 1 || {
                proof {
                    lemma_field_shrinks(data);
                }
                name_ends_fit(rest, total)
            }
        },
        _ => true,
    }
}

/// The names that a length-delimited field of a list of services gives: one, if
/// it is a service with a valid name.
pub open spec fn listed_name(number: int, content: Seq<u8>) -> Seq<Seq<char>> {
    match service_name(content) {
        Some(name) if number == 1 && valid_service_name(name) => seq![name],
        _ => Seq::empty(),
    }
}

/// The valid names in a list of services, in order. The list ends where a field
/// is cut short or has a wire type that is not known; a length that cannot be
/// read spoils the whole list.
pub open spec fn listed_names(msg: Seq<u8>) -> Option<Seq<Seq<char>>>
    decreases msg.len(),
{
    match first_field(msg) {
        Field::End => Some(Seq::empty()),
        Field::Unreadable => None,
        Field::Delimited { number, content, rest } => {
            proof {
                lemma_field_shrinks(msg);
            }
            match listed_names(rest) {
                None => None,
                Some(later) => Some(listed_name(number, content) + later),
            }
        },
        Field::Other { rest } => {
            proof {
                lemma_field_shrinks(msg);
            }
            listed_names(rest)
        },
    }
}

/// Whether every field met in what is left of a list of services of `total`
/// bytes, and in the services in it, ends where a machine word can say.
pub open spec fn list_ends_fit(msg: Seq<u8>, total: nat) -> bool
    decreases msg.len(),
{
    &&& first_end_fits(msg, total)
    &&& match first_field(msg) {
        Field::Delimited { number, content, rest } => {
            (number == 1 ==> name_ends_fit(content, content.len())) && {
                proof {
                    lemma_field_shrinks(msg);
                }
                list_ends_fit(rest, total)
            }
        },
        Field::Other { rest } => {
            proof {
                lemma_field_shrinks(msg);
            }
            list_ends_fit(rest, total)
        },
        _ => true,
    }
}

/// The services that a reflection reply lists: there are some, or nothing.
pub open spec fn listed_services(msg: Seq<u8>) -> Option<Seq<Seq<char>>> {
    match listed_names(msg) {
        Some(names) if names.len() > 0 => Some(names),
        _ => None,
    }
}

/// The services that the gRPC frame at the head of `data` lists.
pub open spec fn framed_services(data: Seq<u8>) -> Option<Seq<Seq<char>>> {
    match frame_payload(data) {
        Some(message) => listed_services(message),
        None => None,
    }
}

/// Whether every field met in the gRPC frame at the head of `data` ends where a
/// machine word can say.
pub open spec fn frame_ends_fit(data: Seq<u8>) -> bool {
    match frame_payload(data) {
        Some(message) => list_ends_fit(message, message.len()),
        None => true,
    }
}

/// A field found in a message, by the positions where its content begins and
/// ends.
enum FoundField {
    End,
    Unreadable,
    Delimited { number: u8, start: usize, end: usize },
    Other { next: usize },
}

impl FoundField {
    /// Whether this is the field at `pos` in `msg`.
    spec fn describes(self, msg: Seq<u8>, pos: int) -> bool {
        match self {
            FoundField::End => first_field(msg.skip(pos)) is End,
            FoundField::Unreadable => first_field(msg.skip(pos)) is Unreadable,
            FoundField::Delimited { number, start, end } => pos < start <= end <= msg.len()
                && first_field(msg.skip(pos)) == (Field::Delimited {
                number: number as int,
                content: msg.subrange(start as int, end as int),
                rest: msg.skip(end as int),
            }),
            FoundField::Other { next } => pos < next <= msg.len() && first_field(msg.skip(pos))
                == (Field::Other { rest: msg.skip(next as int) }),
        }
    }
}

/// The position `n` bytes on, or the end if there are fewer.
fn skip_bytes(msg: &[u8], pos: usize, n: usize) -> (r: usize)
    requires
        pos <= msg@.len(),
    ensures
        pos <= r <= msg@.len(),
        msg@.skip(r as int) == after(msg@.skip(pos as int), n as nat),
{
    let r: usize = if n <= msg.len() - pos {
        pos + n
    } else {
        msg.len()
    };
    assert(msg@.skip(r as int) =~= after(msg@.skip(pos as int), n as nat));
    r
}

/// Finds the field at `pos`.
fn read_field(msg: &[u8], pos: usize) -> (r: FoundField)
    requires
        pos <= msg@.len(),
        first_end_fits(msg@.skip(pos as int), msg@.len()),
    ensures
        r.describes(msg@, pos as int),
{
    if pos == msg.len() {
        return FoundField::End;
    }
    let ghost here = msg@.skip(pos as int);
    let tag = msg[pos];
    let start: usize = pos + 1;
    let rest = &msg[start..msg.len()];
    assert(rest@ =~= here.drop_first());
    assert(rest@ =~= msg@.skip(start as int));
    let wire_type: u8 = tag % 8;
    if wire_type == 2 {
        match parse_varint(rest) {
            None => FoundField::Unreadable,
            Some((value, used)) => {
                let start: usize = start + used;
                let len: usize = value as usize;
                let ghost body = rest@.skip(used as int);
                assert(body =~= msg@.skip(start as int));
                let end: usize = start + len;
                if end > msg.len() {
                    FoundField::End
                } else {
                    assert(body.take(len as int) =~= msg@.subrange(start as int, end as int));
                    assert(body.skip(len as int) =~= msg@.skip(end as int));
                    FoundField::Delimited { number: tag / 8, start, end }
                }
            },
        }
    } else if wire_type == 0 {
        let used: usize = match parse_varint(rest) {
            Some((_, used)) => used,
            None => 1,
        };
        FoundField::Other { next: skip_bytes(msg, start, used) }
    } else if wire_type == 1 {
        FoundField::Other { next: skip_bytes(msg, start, 8) }
    } else if wire_type == 5 {
        FoundField::Other { next: skip_bytes(msg, start, 4) }
    } else {
        FoundField::End
    }
}

/// Reads the name out of a service message.
pub fn extract_service_name(data: &[u8]) -> (r: Option<String>)
    requires
        name_ends_fit(data@, data@.len()),
    ensures
        match r {
            Some(name) => service_name(data@) == Some(name@),
            None => service_name(data@) is None,
        },
{
    let mut pos: usize = 0;
    assert(data@.skip(0) =~= data@);
    loop
        invariant
            pos <= data@.len(),
            service_name(data@) == service_name(data@.skip(pos as int)),
            name_ends_fit(data@.skip(pos as int), data@.len()),
        decreases data@.len() - pos,
    {
        match read_field(data, pos) {
            FoundField::Delimited { number, start, end } => {
                if number == 1 {
                    return match utf8_text(&data[start..end]) {
                        Some(text) => Some(text.to_owned()),
                        None => None,
                    };
                }
                pos = end;
            },
            _ => {
                return None;
            },
        }
    }
}

/// Reads the names of the services that a reflection reply lists.
pub fn parse_list_services_response(msg: &[u8]) -> (r: Option<Vec<String>>)
    requires
        list_ends_fit(msg@, msg@.len()),
    ensures
        match r {
            Some(names) => listed_services(msg@) == Some(texts(names@)),
            None => listed_services(msg@) is None,
        },
{
    let mut services: Vec<String> = Vec::new();
    let mut pos: usize = 0;
    proof {
        assert(msg@.skip(0) =~= msg@);
        assert(texts(services@) =~= Seq::empty());
        if let Some(names) = listed_names(msg@) {
            assert(Seq::<Seq<char>>::empty() + names =~= names);
        }
    }
    loop
        invariant
            pos <= msg@.len(),
            list_ends_fit(msg@.skip(pos as int), msg@.len()),
            match listed_names(msg@.skip(pos as int)) {
                None => listed_names(msg@) is None,
                Some(later) => listed_names(msg@) == Some(texts(services@) + later),
            },
        decreases msg@.len() - pos,
    {
        let ghost before = texts(services@);
        match read_field(msg, pos) {
            FoundField::End => {
                assert(before + Seq::<Seq<char>>::empty() =~= before);
                return if services.len() == 0 {
                    None
                } else {
                    Some(services)
                };
            },
            FoundField::Unreadable => {
                return None;
            },
            FoundField::Delimited { number, start, end } => {
                let content = &msg[start..end];
                if number == 1 {
                    if let Some(name) = extract_service_name(content) {
                        if is_valid_grpc_service_name(name.as_str()) {
                            services.push(name);
                        }
                    }
                }
                proof {
                    let found = listed_name(number as int, content@);
                    assert(texts(services@) =~= before + found);
                    if let Some(later) = listed_names(msg@.skip(end as int)) {
                        assert(before + (found + later) =~= before + found + later);
                    }
                }
                pos = end;
            },
            FoundField::Other { next } => {
                pos = next;
            },
        }
    }
}

/// Reads the names of the services that the gRPC frame at the head of `data`
/// lists.
pub fn parse_grpc_data_frame(data: &[u8]) -> (r: Option<Vec<String>>)
    requires
        frame_ends_fit(data@),
    ensures
        match r {
            Some(names) => framed_services(data@) == Some(texts(names@)),
            None => framed_services(data@) is None,
        },
{
    match frame_message(data) {
        Some(message) => parse_list_services_response(message),
        None => None,
    }
}

/// Whether the field at `pos` ends where a machine word can say.
fn field_end_fits(msg: &[u8], pos: usize) -> (r: bool)
    requires
        pos <= msg@.len(),
    ensures
        r == first_end_fits(msg@.skip(pos as int), msg@.len()),
{
    if pos == msg.len() || msg[pos] % 8 != 2 {
        return true;
    }
    let ghost here = msg@.skip(pos as int);
    let rest = &msg[pos + 1..msg.len()];
    assert(rest@ =~= here.drop_first());
    match parse_varint(rest) {
        None => true,
        Some((value, used)) => {
            let start: usize = pos + 1 + used;
            value as usize <= usize::MAX - start
        },
    }
}

/// Whether a service message can be read for its name: every field met on the
/// way to it ends where a machine word can say.
pub fn service_readable(data: &[u8]) -> (r: bool)
    ensures
        r == name_ends_fit(data@, data@.len()),
{
    let mut pos: usize = 0;
    assert(data@.skip(0) =~= data@);
    loop
        invariant
            pos <= data@.len(),
            name_ends_fit(data@, data@.len()) == name_ends_fit(
                data@.skip(pos as int),
                data@.len(),
            ),
        decreases data@.len() - pos,
    {
        if !field_end_fits(data, pos) {
            return false;
        }
        match read_field(data, pos) {
            FoundField::Delimited { number, start: _, end } => {
                if number == 1 {
                    return true;
                }
                pos = end;
            },
            _ => {
                return true;
            },
        }
    }
}

/// Whether a list of services can be read for their names: every field met in it,
/// and in the services in it, ends where a machine word can say.
pub fn list_readable(msg: &[u8]) -> (r: bool)
    ensures
        r == list_ends_fit(msg@, msg@.len()),
{
    let mut pos: usize = 0;
    assert(msg@.skip(0) =~= msg@);
    loop
        invariant
            pos <= msg@.len(),
            list_ends_fit(msg@, msg@.len()) == list_ends_fit(msg@.skip(pos as int), msg@.len()),
        decreases msg@.len() - pos,
    {
        if !field_end_fits(msg, pos) {
            return false;
        }
        match read_field(msg, pos) {
            FoundField::Delimited { number, start, end } => {
                if number == 1 && !service_readable(&msg[start..end]) {
                    return false;
                }
                pos = end;
            },
            FoundField::Other { next } => {
                pos = next;
            },
            _ => {
                return true;
            },
        }
    }
}

/// Whether the gRPC frame at the head of `data` can be read for service names:
/// every field in it ends where a machine word can say.
pub fn frame_readable(data: &[u8]) -> (r: bool)
    ensures
        r == frame_ends_fit(data@),
{
    match frame_message(data) {
        Some(message) => list_readable(message),
        None => true,
    }
}

} // verus!
