//! What a reply is read as: byte by byte, field by field, and when there is more
//! of it or less.
use vstd::prelude::*;
use vstd::utf8::{decode_utf8, encode_utf8, valid_utf8};

use crate::outside::unicode_alphanumeric;
use crate::reflection::{
    after, first_field, frame_ends_fit, framed_services, is_word, is_word_char,
    lemma_field_shrinks, list_ends_fit, listed_name, listed_names, listed_services, name_ends_fit,
    service_name, valid_service_name, Field,
};
use crate::text::{join, lemma_join_split, lemma_split_join, split};
use crate::wire::{
    base128, big_endian, frame, frame_payload, lemma_frame_roundtrip, lemma_varint_len_bound,
    varint, varint_len, FRAME_HEADER_LEN, MAX_VARINT_LEN,
};

verus! {

/// More bytes do not change where a varint ends, and where there was no end they
/// bring one only after the bytes there were.
proof fn lemma_varint_len_extends(s: Seq<u8>, t: Seq<u8>)
    ensures
        varint_len(s) > 0 ==> varint_len(s + t) == varint_len(s),
        varint_len(s) == 0 ==> varint_len(s + t) == 0 || varint_len(s + t) > s.len(),
    decreases s.len(),
{
    if s.len() > 0 {
        assert((s + t).drop_first() =~= s.drop_first() + t);
        lemma_varint_len_extends(s.drop_first(), t);
    }
}

/// The first bytes decide a varint: once there is one, or there are as many
/// bytes as the longest has, what follows makes no difference.
pub proof fn lemma_varint_decided(s: Seq<u8>, t: Seq<u8>)
    requires
        varint(s) is Some || s.len() >= MAX_VARINT_LEN,
    ensures
        varint(s + t) == varint(s),
{
    lemma_varint_len_extends(s, t);
    lemma_varint_len_bound(s);
    let n = varint_len(s);
    if n > 0 {
        assert((s + t).take(n as int) =~= s.take(n as int));
    }
}

/// Whether all of the field at the head of `msg` is there.
pub open spec fn first_whole(msg: Seq<u8>) -> bool {
    let rest = msg.drop_first();
    let wire_type = msg[0] % 8;
    &&& msg.len() > 0
    &&& {
        ||| wire_type == 2 && first_field(msg) is Delimited
        ||| wire_type == 0 && varint(rest) is Some
        ||| wire_type == 1 && rest.len() >= 8
        ||| wire_type == 5 && rest.len() >= 4
    }
}

/// A whole field is the same whatever follows it.
proof fn lemma_first_extends(msg: Seq<u8>, more: Seq<u8>)
    requires
        first_whole(msg),
    ensures
        match first_field(msg) {
            Field::Delimited { number, content, rest } => first_field(msg + more)
                == (Field::Delimited { number, content, rest: rest + more }),
            Field::Other { rest } => first_field(msg + more) == (Field::Other {
                rest: rest + more,
            }),
            _ => true,
        },
        first_field(msg) is Delimited || first_field(msg) is Other,
{
    let rest = msg.drop_first();
    assert((msg + more)[0] == msg[0]);
    assert((msg + more).drop_first() =~= rest + more);
    let wire_type = msg[0] % 8;
    if wire_type == 2 || wire_type == 0 {
        lemma_varint_decided(rest, more);
        lemma_varint_len_bound(rest);
        let (value, n) = varint(rest)->0;
        let body = rest.skip(n as int);
        assert((rest + more).skip(n as int) =~= body + more);
        if wire_type == 2 {
            let len = value as usize as int;
            assert((body + more).take(len) =~= body.take(len));
            assert((body + more).skip(len) =~= body.skip(len) + more);
        }
    } else if wire_type == 1 {
        assert((rest + more).skip(8) =~= rest.skip(8) + more);
    } else {
        assert((rest + more).skip(4) =~= rest.skip(4) + more);
    }
}

/// Whether `msg` is a row of fields, each of which is all there.
pub open spec fn fields_whole(msg: Seq<u8>) -> bool
    decreases msg.len(),
{
    msg.len() == 0 || first_whole(msg) && {
        proof {
            lemma_field_shrinks(msg);
        }
        match first_field(msg) {
            Field::Delimited { number, content, rest } => fields_whole(rest),
            Field::Other { rest } => fields_whole(rest),
            _ => false,
        }
    }
}

/// Lists are read one after the other: whole fields with more after them give
/// their names and then those of the rest. If the rest is spoilt, all is.
pub proof fn lemma_lists_concatenate(msg: Seq<u8>, more: Seq<u8>)
    requires
        fields_whole(msg),
    ensures
        listed_names(msg) is Some,
        listed_names(msg + more) == match listed_names(more) {
            Some(later) => Some(listed_names(msg)->0 + later),
            None => None,
        },
    decreases msg.len(),
{
    if msg.len() == 0 {
        assert(msg + more =~= more);
        assert(listed_names(msg) == Some(Seq::<Seq<char>>::empty()));
        if let Some(later) = listed_names(more) {
            assert(Seq::<Seq<char>>::empty() + later =~= later);
        }
    } else {
        lemma_field_shrinks(msg);
        lemma_first_extends(msg, more);
        match first_field(msg) {
            Field::Delimited { number, content, rest } => {
                lemma_lists_concatenate(rest, more);
                if let Some(later) = listed_names(more) {
                    let found = listed_name(number, content);
                    let names = listed_names(rest)->0;
                    assert(found + (names + later) =~= (found + names) + later);
                }
            },
            Field::Other { rest } => {
                lemma_lists_concatenate(rest, more);
            },
            _ => {},
        }
    }
}

/// A field with a wire type that is not known ends the list: what came before it
/// counts, and nothing after it does.
pub proof fn lemma_unknown_type_ends_list(msg: Seq<u8>, more: Seq<u8>)
    requires
        fields_whole(msg),
        more.len() > 0,
        more[0] % 8 == 3 || more[0] % 8 == 4 || more[0] % 8 >= 6,
    ensures
        listed_names(msg + more) == listed_names(msg),
{
    lemma_lists_concatenate(msg, more);
    let names = listed_names(msg)->0;
    assert(listed_names(more) == Some(Seq::<Seq<char>>::empty()));
    assert(names + Seq::<Seq<char>>::empty() =~= names);
}

/// A length that cannot be read spoils the list, whatever came before it.
pub proof fn lemma_unreadable_length_spoils_list(msg: Seq<u8>, more: Seq<u8>)
    requires
        fields_whole(msg),
        more.len() > 0,
        more[0] % 8 == 2,
        varint(more.drop_first()) is None,
    ensures
        listed_names(msg + more) is None,
{
    lemma_lists_concatenate(msg, more);
}

/// A frame of which not all is there gives nothing.
pub proof fn lemma_cut_frame_gives_nothing(message: Seq<u8>, n: int)
    requires
        message.len() < 0x1_0000_0000,
        0 <= n < frame(message).len(),
    ensures
        frame_payload(frame(message).take(n)) is None,
        framed_services(frame(message).take(n)) is None,
{
    let cut = frame(message).take(n);
    let len = message.len();
    if n >= FRAME_HEADER_LEN {
        let header = cut.subrange(1, 5);
        assert(header[0] == (len / 0x100_0000) as u8);
        assert(header[1] == (len / 0x1_0000 % 0x100) as u8);
        assert(header[2] == (len / 0x100 % 0x100) as u8);
        assert(header[3] == (len % 0x100) as u8);
        assert(big_endian(header) == len);
    }
}

/// Only the first frame counts: what it lists is what is read, whatever follows.
pub proof fn lemma_first_frame_counts(message: Seq<u8>, rest: Seq<u8>)
    requires
        0 < message.len() < 0x1_0000_0000,
    ensures
        framed_services(frame(message) + rest) == listed_services(message),
{
    lemma_frame_roundtrip(message, rest);
}

/// How a varint is read byte by byte: a byte below 128 is all of it, and one from
/// 128 on adds its low seven bits below seven times as many bits of what follows,
/// up to ten bytes and within 64 bits.
pub proof fn lemma_varint_by_bytes(b: u8, s: Seq<u8>)
    ensures
        varint(Seq::empty()) is None,
        b < 128 ==> varint(seq![b] + s) == Some((b as u64, 1nat)),
        b >= 128 ==> varint(seq![b] + s) == match varint(s) {
            Some((value, n)) => if n < 10 {
                Some((((b - 128 + 128 * value) % 0x1_0000_0000_0000_0000) as u64, n + 1))
            } else {
                None
            },
            None => None,
        },
{
    let all = seq![b] + s;
    let n = varint_len(s);
    lemma_varint_len_bound(s);
    assert(all[0] == b);
    assert(all.drop_first() =~= s);
    if b < 128 {
        let one = all.take(1);
        assert(one.drop_first() =~= Seq::<u8>::empty());
        assert(base128(one.drop_first()) == 0);
        assert(base128(one) == b);
    } else if 0 < n < 10 {
        let longer = all.take((n + 1) as int);
        assert(longer.drop_first() =~= s.take(n as int));
        assert(longer[0] == b);
        let rest = base128(s.take(n as int));
        assert(base128(longer) == (b % 128) as nat + 128 * rest);
        let low = rest % 0x1_0000_0000_0000_0000;
        let high = rest / 0x1_0000_0000_0000_0000;
        assert(rest == high * 0x1_0000_0000_0000_0000 + low);
        assert((b - 128 + 128 * rest) % 0x1_0000_0000_0000_0000 == (b - 128 + 128 * low)
            % 0x1_0000_0000_0000_0000);
    }
}

/// What a frame is read as: five bytes of header, the first of them zero and the
/// others the length of the message, the most significant first; then as many
/// bytes of message, at least one, all of which must be there.
pub proof fn lemma_frame_read(data: Seq<u8>)
    ensures
        data.len() < 5 ==> frame_payload(data) is None,
        data.len() >= 5 ==> ({
            let len = data[1] * 0x100_0000 + data[2] * 0x1_0000 + data[3] * 0x100 + data[4];
            frame_payload(data) == if data[0] == 0 && 0 < len <= data.len() - 5 {
                Some(data.subrange(5, 5 + len))
            } else {
                None
            }
        }),
        framed_services(data) == match frame_payload(data) {
            Some(message) => listed_services(message),
            None => None,
        },
{
    if data.len() >= 5 {
        let header = data.subrange(1, 5);
        assert(header[0] == data[1] && header[1] == data[2] && header[2] == data[3] && header[3]
            == data[4]);
    }
}

/// What a frame is written as.
pub proof fn lemma_frame_written(message: Seq<u8>)
    requires
        message.len() < 0x1_0000_0000,
    ensures
        frame(message).len() == 5 + message.len(),
        frame(message)[0] == 0,
        frame(message)[1] * 0x100_0000 + frame(message)[2] * 0x1_0000 + frame(message)[3] * 0x100
            + frame(message)[4] == message.len(),
        frame(message).skip(5) == message,
{
    assert(frame(message).skip(5) =~= message);
}

/// A length-delimited field that is all there stands at the head.
proof fn lemma_delimited_first(tag: u8, len: Seq<u8>, content: Seq<u8>, rest: Seq<u8>)
    requires
        tag % 8 == 2,
        content.len() <= usize::MAX,
        varint(len) == Some((content.len() as u64, len.len())),
    ensures
        first_field(seq![tag] + len + content + rest) == (Field::Delimited {
            number: (tag / 8) as int,
            content,
            rest,
        }),
{
    let msg = seq![tag] + len + content + rest;
    assert(msg[0] == tag);
    assert(msg.drop_first() =~= len + (content + rest));
    lemma_varint_decided(len, content + rest);
    let body = msg.drop_first().skip(len.len() as int);
    assert(body =~= content + rest);
    assert(body.take(content.len() as int) =~= content);
    assert(body.skip(content.len() as int) =~= rest);
}

/// A length-delimited field that is cut short ends a message.
proof fn lemma_cut_first(tag: u8, len: Seq<u8>, value: u64, cut: Seq<u8>)
    requires
        tag % 8 == 2,
        varint(len) == Some((value, len.len())),
        value as usize > cut.len(),
    ensures
        first_field(seq![tag] + len + cut) is End,
{
    let msg = seq![tag] + len + cut;
    assert(msg[0] == tag);
    assert(msg.drop_first() =~= len + cut);
    lemma_varint_decided(len, cut);
    assert(msg.drop_first().skip(len.len() as int) =~= cut);
}

/// What a length-delimited field adds to a list: its name, if its number is 1 and
/// it is a service with a valid one, comes before the names of the rest.
pub proof fn lemma_list_with_field(tag: u8, len: Seq<u8>, content: Seq<u8>, rest: Seq<u8>)
    requires
        tag % 8 == 2,
        content.len() <= usize::MAX,
        varint(len) == Some((content.len() as u64, len.len())),
    ensures
        listed_names(seq![tag] + len + content + rest) == match listed_names(rest) {
            Some(later) => match service_name(content) {
                Some(name) => if tag == 0x0a && valid_service_name(name) {
                    Some(seq![name] + later)
                } else {
                    Some(later)
                },
                None => Some(later),
            },
            None => None,
        },
{
    lemma_delimited_first(tag, len, content, rest);
    if let Some(later) = listed_names(rest) {
        assert(Seq::<Seq<char>>::empty() + later =~= later);
    }
}

/// Whether some bytes are a varint and nothing else.
pub open spec fn is_varint(s: Seq<u8>) -> bool {
    match varint(s) {
        Some((_, n)) => n == s.len(),
        None => false,
    }
}

/// What a list passes over: an integer of any length, or one byte where there is
/// none; eight bytes; or four bytes, by the wire type.
pub proof fn lemma_list_passes_over(tag: u8, field: Seq<u8>, rest: Seq<u8>)
    requires
        ({
            ||| tag % 8 == 0 && is_varint(field)
            ||| tag % 8 == 0 && field.len() == 1 && varint(field + rest) is None
            ||| tag % 8 == 1 && field.len() == 8
            ||| tag % 8 == 5 && field.len() == 4
        }),
    ensures
        listed_names(seq![tag] + field + rest) == listed_names(rest),
{
    let msg = seq![tag] + field + rest;
    assert(msg[0] == tag);
    assert(msg.drop_first() =~= field + rest);
    assert((field + rest).skip(field.len() as int) =~= rest);
    if tag % 8 == 0 && varint(field) is Some {
        lemma_varint_decided(field, rest);
    }
}

/// Where a list ends, for good or for bad: at its end, at a field that is cut
/// short, at a wire type that is not known; a length that cannot be read spoils
/// it.
pub proof fn lemma_list_ends(tag: u8, len: Seq<u8>, value: u64, cut: Seq<u8>)
    ensures
        listed_names(Seq::empty()) == Some(Seq::<Seq<char>>::empty()),
        tag % 8 == 2 && varint(len) == Some((value, len.len())) && value as usize > cut.len()
            ==> listed_names(seq![tag] + len + cut) == Some(Seq::<Seq<char>>::empty()),
        tag % 8 == 2 && varint(cut) is None ==> listed_names(seq![tag] + cut) is None,
        tag % 8 == 0 && cut.len() == 0 || tag % 8 == 1 && cut.len() < 8 || tag % 8 == 5
            && cut.len() < 4 ==> listed_names(seq![tag] + cut) == Some(Seq::<Seq<char>>::empty()),
        tag % 8 == 3 || tag % 8 == 4 || tag % 8 >= 6 ==> listed_names(seq![tag] + cut) == Some(
            Seq::<Seq<char>>::empty(),
        ),
{
    let msg = seq![tag] + cut;
    assert(msg[0] == tag);
    assert(msg.drop_first() =~= cut);
    if tag % 8 == 2 && varint(len) == Some((value, len.len())) && value as usize > cut.len() {
        lemma_cut_first(tag, len, value, cut);
    }
    assert(listed_names(Seq::empty()) == Some(Seq::<Seq<char>>::empty()));
    if tag % 8 == 0 && cut.len() == 0 || tag % 8 == 1 && cut.len() < 8 || tag % 8 == 5 && cut.len()
        < 4 {
        assert(cut.skip(cut.len() as int) =~= Seq::<u8>::empty());
        assert(after(cut, 9) =~= Seq::<u8>::empty());
        assert(first_field(msg) == (Field::Other { rest: Seq::<u8>::empty() }));
    }
}

/// There are services exactly if the list was read to its end and has a name.
pub proof fn lemma_some_services(msg: Seq<u8>)
    ensures
        listed_services(msg) is Some <==> listed_names(msg) is Some && listed_names(msg)->0.len()
            > 0,
        listed_services(msg) is Some ==> listed_services(msg) == listed_names(msg),
{
}

/// How the name is found in a service message: field by field, each of them
/// length-delimited and all there, up to the first numbered 1, which must be
/// UTF-8.
pub proof fn lemma_name_with_field(tag: u8, len: Seq<u8>, content: Seq<u8>, rest: Seq<u8>)
    requires
        tag % 8 == 2,
        content.len() <= usize::MAX,
        varint(len) == Some((content.len() as u64, len.len())),
    ensures
        tag != 0x0a ==> service_name(seq![tag] + len + content + rest) == service_name(rest),
        tag == 0x0a && valid_utf8(content) ==> service_name(seq![tag] + len + content + rest)
            == Some(decode_utf8(content)),
        tag == 0x0a && !valid_utf8(content) ==> service_name(
            seq![tag] + len + content + rest,
        ) is None,
{
    lemma_delimited_first(tag, len, content, rest);
}

/// Where there is no name: at the end of a service message, at a field that is
/// not length-delimited, at one that is cut short, and at a length that cannot be
/// read.
pub proof fn lemma_name_missing(tag: u8, len: Seq<u8>, value: u64, cut: Seq<u8>)
    ensures
        service_name(Seq::empty()) is None,
        tag % 8 != 2 ==> service_name(seq![tag] + cut) is None,
        tag % 8 == 2 && varint(cut) is None ==> service_name(seq![tag] + cut) is None,
        tag % 8 == 2 && varint(len) == Some((value, len.len())) && value as usize > cut.len()
            ==> service_name(seq![tag] + len + cut) is None,
{
    let msg = seq![tag] + cut;
    assert(msg[0] == tag);
    assert(msg.drop_first() =~= cut);
    if tag % 8 == 2 && varint(len) == Some((value, len.len())) && value as usize > cut.len() {
        lemma_cut_first(tag, len, value, cut);
    }
}

/// What can be read, field by field: a field that is all there asks only that
/// what follows it can be read, and a service in a list that its name can.
pub proof fn lemma_readable_with_field(
    tag: u8,
    len: Seq<u8>,
    content: Seq<u8>,
    rest: Seq<u8>,
    total: nat,
)
    requires
        tag % 8 == 2,
        content.len() <= usize::MAX,
        varint(len) == Some((content.len() as u64, len.len())),
        (seq![tag] + len + content + rest).len() <= total <= usize::MAX,
    ensures
        list_ends_fit(seq![tag] + len + content + rest, total) <==> list_ends_fit(rest, total) && (
        tag == 0x0a ==> name_ends_fit(content, content.len())),
        name_ends_fit(seq![tag] + len + content + rest, total) <==> tag == 0x0a || name_ends_fit(
            rest,
            total,
        ),
{
    let msg = seq![tag] + len + content + rest;
    lemma_delimited_first(tag, len, content, rest);
    assert(msg[0] == tag);
    assert(msg.drop_first() =~= len + (content + rest));
    lemma_varint_decided(len, content + rest);
}

/// A field that is cut short can be read exactly if a machine word can say where
/// it would end.
pub proof fn lemma_readable_cut(tag: u8, len: Seq<u8>, value: u64, cut: Seq<u8>, total: nat)
    requires
        tag % 8 == 2,
        varint(len) == Some((value, len.len())),
        value as usize > cut.len(),
        (seq![tag] + len + cut).len() <= total <= usize::MAX,
    ensures
        list_ends_fit(seq![tag] + len + cut, total) <==> total - cut.len() + (value as usize)
            <= usize::MAX,
        name_ends_fit(seq![tag] + len + cut, total) <==> total - cut.len() + (value as usize)
            <= usize::MAX,
{
    let msg = seq![tag] + len + cut;
    lemma_cut_first(tag, len, value, cut);
    assert(msg[0] == tag);
    assert(msg.drop_first() =~= len + cut);
    lemma_varint_decided(len, cut);
}

/// Whatever else there is in a message can be read.
pub proof fn lemma_readable_otherwise(tag: u8, field: Seq<u8>, rest: Seq<u8>, total: nat)
    ensures
        list_ends_fit(Seq::empty(), total),
        name_ends_fit(Seq::empty(), total),
        tag % 8 != 2 ==> name_ends_fit(seq![tag] + rest, total),
        tag % 8 == 2 && varint(rest) is None ==> name_ends_fit(seq![tag] + rest, total)
            && list_ends_fit(seq![tag] + rest, total),
        tag % 8 == 3 || tag % 8 == 4 || tag % 8 >= 6 ==> list_ends_fit(seq![tag] + rest, total),
        tag % 8 == 0 && rest.len() == 0 || tag % 8 == 1 && rest.len() < 8 || tag % 8 == 5
            && rest.len() < 4 ==> list_ends_fit(seq![tag] + rest, total),
        ({
            ||| tag % 8 == 0 && is_varint(field)
            ||| tag % 8 == 0 && field.len() == 1 && varint(field + rest) is None
            ||| tag % 8 == 1 && field.len() == 8
            ||| tag % 8 == 5 && field.len() == 4
        }) ==> list_ends_fit(seq![tag] + field + rest, total) == list_ends_fit(rest, total),
{
    let msg = seq![tag] + rest;
    assert(msg[0] == tag);
    assert(msg.drop_first() =~= rest);
    if tag % 8 == 0 && rest.len() == 0 || tag % 8 == 1 && rest.len() < 8 || tag % 8 == 5
        && rest.len() < 4 {
        assert(after(rest, 9) =~= Seq::<u8>::empty());
        assert(rest.skip(rest.len() as int) =~= Seq::<u8>::empty());
        assert(first_field(msg) == (Field::Other { rest: Seq::<u8>::empty() }));
        assert(list_ends_fit(Seq::empty(), total));
    }
    let longer = seq![tag] + field + rest;
    assert(longer[0] == tag);
    assert(longer.drop_first() =~= field + rest);
    assert((field + rest).skip(field.len() as int) =~= rest);
    if tag % 8 == 0 && varint(field) is Some {
        lemma_varint_decided(field, rest);
    }
}

/// A frame can be read exactly if its message, where it has one, can.
pub proof fn lemma_readable_frame(data: Seq<u8>)
    ensures
        frame_ends_fit(data) <==> (frame_payload(data) is Some ==> list_ends_fit(
            frame_payload(data)->0,
            frame_payload(data)->0.len(),
        )),
{
}

/// Every name of two to eight words with dots between them, the first beginning
/// with a lower-case ASCII letter, in at most 128 bytes of UTF-8, is valid. A word
/// is made of ASCII letters and digits, underscores, and beyond ASCII of what
/// Unicode counts as letters and numbers.
pub proof fn lemma_name_of_words_valid(words: Seq<Seq<char>>)
    requires
        2 <= words.len() <= 8,
        encode_utf8(join(words, seq!['.'])).len() <= 128,
        forall|i: int| 0 <= i < words.len() ==> (#[trigger] words[i]).len() > 0,
        forall|i: int, j: int|
            0 <= i < words.len() && 0 <= j < words[i].len() ==> {
                let c = #[trigger] words[i][j];
                ||| 0x30 <= c as int <= 0x39
                ||| 0x41 <= c as int <= 0x5a
                ||| 0x61 <= c as int <= 0x7a
                ||| c as int == 0x5f
                ||| c as int >= 0x80 && unicode_alphanumeric(c)
            },
        0x61 <= words[0][0] as int <= 0x7a,
    ensures
        valid_service_name(join(words, seq!['.'])),
{
    assert forall|i: int| 0 <= i < words.len() implies !(#[trigger] words[i]).contains('.') by {
        if words[i].contains('.') {
            let j = choose|j: int| 0 <= j < words[i].len() && words[i][j] == '.';
            assert(words[i][j] as int == 0x2e);
        }
    }
    lemma_join_split(words, '.');
    assert forall|i: int| 0 <= i < words.len() implies is_word(#[trigger] words[i]) by {
        assert forall|j: int| 0 <= j < words[i].len() implies is_word_char(
            #[trigger] words[i][j],
        ) by {}
    }
}

/// No other name is valid: one that is can be taken apart at its dots into two to
/// eight such words.
pub proof fn lemma_valid_name_has_words(name: Seq<char>) -> (words: Seq<Seq<char>>)
    requires
        valid_service_name(name),
    ensures
        name == join(words, seq!['.']),
        2 <= words.len() <= 8,
        encode_utf8(name).len() <= 128,
        forall|i: int| 0 <= i < words.len() ==> (#[trigger] words[i]).len() > 0,
        forall|i: int, j: int|
            0 <= i < words.len() && 0 <= j < words[i].len() ==> {
                let c = #[trigger] words[i][j];
                ||| 0x30 <= c as int <= 0x39
                ||| 0x41 <= c as int <= 0x5a
                ||| 0x61 <= c as int <= 0x7a
                ||| c as int == 0x5f
                ||| c as int >= 0x80 && unicode_alphanumeric(c)
            },
        0x61 <= words[0][0] as int <= 0x7a,
{
    let words = split(name, '.');
    lemma_split_join(name, '.');
    assert forall|i: int, j: int| 0 <= i < words.len() && 0 <= j < words[i].len() implies {
        let c = #[trigger] words[i][j];
        ||| 0x30 <= c as int <= 0x39
        ||| 0x41 <= c as int <= 0x5a
        ||| 0x61 <= c as int <= 0x7a
        ||| c as int == 0x5f
        ||| c as int >= 0x80 && unicode_alphanumeric(c)
    } by {
        assert(is_word(words[i]));
        assert(is_word_char(words[i][j]));
    }
    words
}

} // verus!
