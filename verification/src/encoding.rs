//! How a server writes its list of services, and that reading undoes it.
use vstd::prelude::*;
use vstd::utf8::{encode_utf8, encode_utf8_decode_utf8, encode_utf8_valid_utf8};

use crate::reflection::{
    first_end_fits, first_field, frame_ends_fit, framed_services, list_ends_fit, listed_name,
    listed_names, listed_services, name_ends_fit, service_name, valid_service_name, Field,
};
use crate::wire::{base128, frame, lemma_frame_roundtrip, pow128, varint, varint_len};

verus! {

/// A number as a varint: seven bits a byte, the least significant first, with
/// the top bit set on all bytes but the last.
pub open spec fn varint_bytes(n: nat) -> Seq<u8>
    decreases n,
{
    if n < 128 {
        seq![n as u8]
    } else {
        seq![(128 + n % 128) as u8] + varint_bytes(n / 128)
    }
}

/// A length-delimited field numbered 1.
pub open spec fn field_bytes(content: Seq<u8>) -> Seq<u8> {
    seq![0x0au8] + varint_bytes(content.len()) + content
}

/// A service message with nothing but a name in it.
pub open spec fn service_bytes(name: Seq<char>) -> Seq<u8> {
    field_bytes(encode_utf8(name))
}

/// A list of services.
pub open spec fn list_bytes(names: Seq<Seq<char>>) -> Seq<u8>
    decreases names.len(),
{
    if names.len() == 0 {
        Seq::empty()
    } else {
        field_bytes(service_bytes(names[0])) + list_bytes(names.drop_first())
    }
}

/// A number below 128 to the power of `k` takes at most `k` bytes.
proof fn lemma_varint_bytes_len(n: nat, k: nat)
    requires
        n < pow128(k),
        k >= 1,
    ensures
        1 <= varint_bytes(n).len() <= k,
    decreases k,
{
    if n >= 128 {
        assert(k > 1) by {
            reveal_with_fuel(pow128, 2);
        }
        assert(n / 128 < pow128((k - 1) as nat));
        lemma_varint_bytes_len(n / 128, (k - 1) as nat);
    }
}

/// What varint bytes are read as, whatever follows them.
proof fn lemma_varint_bytes_read(n: nat, rest: Seq<u8>)
    ensures
        varint_len(varint_bytes(n) + rest) == varint_bytes(n).len(),
        base128(varint_bytes(n)) == n,
    decreases n,
{
    let bytes = varint_bytes(n);
    let all = bytes + rest;
    if n < 128 {
        assert(all[0] == n as u8);
        assert(bytes.drop_first() =~= Seq::<u8>::empty());
        assert(base128(bytes.drop_first()) == 0);
    } else {
        lemma_varint_bytes_read(n / 128, rest);
        assert(all.drop_first() =~= varint_bytes(n / 128) + rest);
        assert(bytes.drop_first() =~= varint_bytes(n / 128));
        assert(all[0] == (128 + n % 128) as u8);
        assert(bytes[0] % 128 == n % 128);
        assert(varint_bytes(n / 128).len() >= 1);
    }
}

/// Reading a varint gives back the number it was written for, whatever follows.
pub proof fn lemma_varint_roundtrip(n: u64, rest: Seq<u8>)
    ensures
        varint(varint_bytes(n as nat) + rest) == Some((n, varint_bytes(n as nat).len())),
{
    let bytes = varint_bytes(n as nat);
    lemma_varint_bytes_read(n as nat, rest);
    assert(pow128(10) > n) by {
        reveal_with_fuel(pow128, 11);
    }
    lemma_varint_bytes_len(n as nat, 10);
    assert((bytes + rest).take(bytes.len() as int) =~= bytes);
}

/// Reading a length-delimited field gives back its content and what follows.
proof fn lemma_field_read(content: Seq<u8>, rest: Seq<u8>, total: nat)
    requires
        (field_bytes(content) + rest).len() <= total <= usize::MAX,
    ensures
        first_field(field_bytes(content) + rest) == (Field::Delimited { number: 1, content, rest }),
        first_end_fits(field_bytes(content) + rest, total),
{
    let msg = field_bytes(content) + rest;
    let len = varint_bytes(content.len());
    assert(msg[0] == 0x0a);
    assert(msg.drop_first() =~= len + (content + rest));
    lemma_varint_roundtrip(content.len() as u64, content + rest);
    let body = msg.drop_first().skip(len.len() as int);
    assert(body =~= content + rest);
    assert(body.take(content.len() as int) =~= content);
    assert(body.skip(content.len() as int) =~= rest);
}

/// Reading a service message gives back the name it was written for, whatever
/// follows the name.
pub proof fn lemma_service_roundtrip(name: Seq<char>, rest: Seq<u8>)
    requires
        (service_bytes(name) + rest).len() <= usize::MAX,
    ensures
        service_name(service_bytes(name) + rest) == Some(name),
        name_ends_fit(service_bytes(name) + rest, (service_bytes(name) + rest).len()),
{
    lemma_field_read(encode_utf8(name), rest, (service_bytes(name) + rest).len());
    encode_utf8_valid_utf8(name);
    encode_utf8_decode_utf8(name);
}

/// A service at the head of a list gives its name, and then come those of the
/// rest.
proof fn lemma_listed_first(name: Seq<char>, rest: Seq<u8>, later: Seq<Seq<char>>, total: nat)
    requires
        (field_bytes(service_bytes(name)) + rest).len() <= total <= usize::MAX,
        valid_service_name(name),
        listed_names(rest) == Some(later),
        list_ends_fit(rest, total),
    ensures
        listed_names(field_bytes(service_bytes(name)) + rest) == Some(seq![name] + later),
        list_ends_fit(field_bytes(service_bytes(name)) + rest, total),
{
    let bytes = service_bytes(name);
    lemma_field_read(bytes, rest, total);
    assert(listed_name(1, bytes) == seq![name] && name_ends_fit(bytes, bytes.len())) by {
        assert(bytes + Seq::<u8>::empty() =~= bytes);
        lemma_service_roundtrip(name, Seq::empty());
    }
}

/// Reading a list of services gives back its names.
proof fn lemma_list_read(names: Seq<Seq<char>>, total: nat)
    requires
        list_bytes(names).len() <= total <= usize::MAX,
        forall|i: int| 0 <= i < names.len() ==> valid_service_name(#[trigger] names[i]),
    ensures
        listed_names(list_bytes(names)) == Some(names),
        list_ends_fit(list_bytes(names), total),
    decreases names.len(),
{
    if names.len() == 0 {
        assert(listed_names(list_bytes(names)) == Some(Seq::<Seq<char>>::empty()));
        assert(names =~= Seq::empty());
    } else {
        let later = names.drop_first();
        assert forall|i: int| 0 <= i < later.len() implies valid_service_name(
            #[trigger] later[i],
        ) by {
            assert(later[i] == names[i + 1]);
        }
        lemma_list_read(later, total);
        lemma_listed_first(names[0], list_bytes(later), later, total);
        assert(seq![names[0]] + later =~= names);
    }
}

/// Reading a list of services, bare of any frame, gives back exactly the valid
/// names it was written for, in their order.
pub proof fn lemma_list_roundtrip(names: Seq<Seq<char>>)
    requires
        names.len() > 0,
        forall|i: int| 0 <= i < names.len() ==> valid_service_name(#[trigger] names[i]),
        list_bytes(names).len() <= usize::MAX,
    ensures
        listed_services(list_bytes(names)) == Some(names),
        list_ends_fit(list_bytes(names), list_bytes(names).len()),
{
    lemma_list_read(names, list_bytes(names).len());
}

/// A server that answers with the list of its services is read as it wrote: a
/// frame around a non-empty list of valid names gives exactly these names, in
/// their order, whatever bytes follow the frame.
pub proof fn lemma_services_roundtrip(names: Seq<Seq<char>>, rest: Seq<u8>)
    requires
        names.len() > 0,
        forall|i: int| 0 <= i < names.len() ==> valid_service_name(#[trigger] names[i]),
        list_bytes(names).len() < 0x1_0000_0000,
    ensures
        framed_services(frame(list_bytes(names)) + rest) == Some(names),
        frame_ends_fit(frame(list_bytes(names)) + rest),
{
    let msg = list_bytes(names);
    lemma_list_roundtrip(names);
    lemma_frame_roundtrip(msg, rest);
}

} // verus!
