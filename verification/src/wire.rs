//! The two byte formats a reflection reply is made of: protocol-buffer
//! variable-length integers and length-prefixed gRPC frames.
use vstd::prelude::*;

verus! {

/// The value of a little-endian sequence of seven-bit groups; the top bit of
/// each byte is a continuation mark and carries no value.
pub open spec fn base128(s: Seq<u8>) -> nat
    decreases s.len(),
{
    if s.len() == 0 {
        0
    } else {
        (s[0] % 128) as nat + 128 * base128(s.drop_first())
    }
}

/// How many bytes the varint at the head of `s` takes: everything up to and
/// with the first byte whose continuation mark is clear, or 0 if there is none.
pub open spec fn varint_len(s: Seq<u8>) -> nat
    decreases s.len(),
{
    if s.len() == 0 {
        0
    } else if s[0] < 128 {
        1
    } else {
        let rest = varint_len(s.drop_first());
        if rest == 0 {
            0
        } else {
            rest + 1
        }
    }
}

/// The longest varint that is read.
pub const MAX_VARINT_LEN: usize = 10;

/// The varint at the head of `s`, as its value and its length in bytes.
/// Bits beyond the 64th are dropped.
pub open spec fn varint(s: Seq<u8>) -> Option<(u64, nat)> {
    let n = varint_len(s);
    if 1 <= n <= MAX_VARINT_LEN {
        Some(((base128(s.take(n as int)) % 0x1_0000_0000_0000_0000) as u64, n))
    } else {
        None
    }
}

/// 128 to the power of `n`.
pub open spec fn pow128(n: nat) -> nat
    decreases n,
{
    if n == 0 {
        1
    } else {
        128 * pow128((n - 1) as nat)
    }
}

/// Appending a byte adds its seven bits at the next higher weight.
proof fn lemma_base128_push(s: Seq<u8>, b: u8)
    ensures
        base128(s.push(b)) == base128(s) + (b % 128) as nat * pow128(s.len()),
    decreases s.len(),
{
    let v = (b % 128) as nat;
    let whole = s.push(b);
    if s.len() == 0 {
        assert(whole.drop_first() =~= Seq::<u8>::empty());
        assert(base128(whole.drop_first()) == 0);
        assert(whole[0] == b);
        assert(v * pow128(s.len()) == v) by (nonlinear_arith)
            requires
                pow128(s.len()) == 1,
        ;
    } else {
        let tail = base128(s.drop_first());
        let p = pow128((s.len() - 1) as nat);
        lemma_base128_push(s.drop_first(), b);
        assert(whole.drop_first() =~= s.drop_first().push(b));
        assert(whole[0] == s[0]);
        assert(128 * (tail + v * p) == 128 * tail + v * pow128(s.len())) by (nonlinear_arith)
            requires
                pow128(s.len()) == 128 * p,
        ;
    }
}

/// `n` marked bytes followed by an unmarked one make a varint of `n + 1` bytes.
proof fn lemma_varint_len_at(s: Seq<u8>, n: nat)
    requires
        n <= s.len(),
        forall|j: int| 0 <= j < n ==> s[j] >= 128,
    ensures
        n < s.len() && s[n as int] < 128 ==> varint_len(s) == n + 1,
        n == s.len() ==> varint_len(s) == 0,
        varint_len(s) == 0 || varint_len(s) > n,
    decreases n,
{
    if n > 0 {
        assert forall|j: int| 0 <= j < n - 1 implies s.drop_first()[j] >= 128 by {
            assert(s.drop_first()[j] == s[j + 1]);
        }
        lemma_varint_len_at(s.drop_first(), (n - 1) as nat);
    }
}

/// A varint lies inside the bytes it is read from.
pub proof fn lemma_varint_len_bound(s: Seq<u8>)
    ensures
        varint_len(s) <= s.len(),
    decreases s.len(),
{
    if s.len() > 0 {
        lemma_varint_len_bound(s.drop_first());
    }
}

/// The weight of the `i`-th group as a machine shift.
proof fn lemma_or_shifted(acc: u64, x: u64, shift: u32, i: nat)
    requires
        i < 10,
        shift == 7 * i,
        x < 128,
        acc < pow128(i),
    ensures
        (acc | (x << shift)) == (acc + x * pow128(i)) % 0x1_0000_0000_0000_0000,
        i < 9 ==> (acc | (x << shift)) == acc + x * pow128(i) < pow128(i + 1),
{
    reveal_with_fuel(pow128, 11);
    let p: u64 = pow128(i) as u64;
    assert(p == pow128(i));
    assert(({
        ||| shift == 0 && p == 1
        ||| shift == 7 && p == 0x80
        ||| shift == 14 && p == 0x4000
        ||| shift == 21 && p == 0x20_0000
        ||| shift == 28 && p == 0x1000_0000
        ||| shift == 35 && p == 0x8_0000_0000
        ||| shift == 42 && p == 0x400_0000_0000
        ||| shift == 49 && p == 0x2_0000_0000_0000
        ||| shift == 56 && p == 0x100_0000_0000_0000
    }) || (shift == 63 && p == 0x8000_0000_0000_0000));
    if i < 9 {
        assert((acc | (x << shift)) == acc + x * p && acc + x * p < 128 * p) by (bit_vector)
            requires
                acc < p,
                x < 128,
                ({
                    ||| shift == 0 && p == 1
                    ||| shift == 7 && p == 0x80
                    ||| shift == 14 && p == 0x4000
                    ||| shift == 21 && p == 0x20_0000
                    ||| shift == 28 && p == 0x1000_0000
                    ||| shift == 35 && p == 0x8_0000_0000
                    ||| shift == 42 && p == 0x400_0000_0000
                    ||| shift == 49 && p == 0x2_0000_0000_0000
                    ||| shift == 56 && p == 0x100_0000_0000_0000
                }),
        ;
    } else {
        let low = x % 2;
        let half = x / 2;
        assert((acc | (x << shift)) == acc + (x % 2) * 0x8000_0000_0000_0000) by (bit_vector)
            requires
                acc < 0x8000_0000_0000_0000,
                shift == 63,
        ;
        let lifted: int = acc + low * 0x8000_0000_0000_0000;
        assert(x * pow128(i) == x * 0x8000_0000_0000_0000);
        assert(acc + x * pow128(i) == half * 0x1_0000_0000_0000_0000 + lifted);
        assert((half * 0x1_0000_0000_0000_0000 + lifted) % 0x1_0000_0000_0000_0000 == lifted);
    }
}

/// Reads the varint at the head of `data`: its value and how many bytes it
/// took. There is none when the bytes run out, or ten of them pass, before one
/// without a continuation mark.
pub fn parse_varint(data: &[u8]) -> (r: Option<(u64, usize)>)
    ensures
        match r {
            Some((value, len)) => varint(data@) == Some((value, len as nat)) && len <= data@.len(),
            None => varint(data@) is None,
        },
{
    let mut result: u64 = 0;
    let mut shift: u32 = 0;
    let mut i: usize = 0;
    while i < data.len()
        invariant
            i <= data@.len(),
            i < 10,
            shift == 7 * i,
            result == base128(data@.take(i as int)),
            result < pow128(i as nat),
            forall|j: int| 0 <= j < i ==> data@[j] >= 128,
        decreases data@.len() - i,
    {
        let byte = data[i];
        let group: u64 = (byte & 0x7f) as u64;
        proof {
            assert(byte & 0x7f == byte % 128) by (bit_vector);
            assert((byte & 0x80 == 0) == (byte < 128)) by (bit_vector);
            lemma_or_shifted(result, group, shift, i as nat);
            lemma_base128_push(data@.take(i as int), byte);
            assert(data@.take(i + 1) =~= data@.take(i as int).push(byte));
            assert(result + group * pow128(i as nat) == base128(data@.take(i + 1)));
        }
        result = result | (group << shift);
        if byte & 0x80 == 0 {
            proof {
                lemma_varint_len_at(data@, i as nat);
            }
            return Some((result, i + 1));
        }
        proof {
            if i == 9 {
                lemma_varint_len_at(data@, 10);
            }
        }
        shift = shift + 7;
        i = i + 1;
        if shift >= 64 {
            return None;
        }
        proof {
            assert(result == base128(data@.take(i as int)));
        }
    }
    proof {
        lemma_varint_len_at(data@, data@.len());
    }
    None
}

/// The bytes of a gRPC frame before its message: a compression mark and the
/// length of the message.
pub const FRAME_HEADER_LEN: usize = 5;

/// The number that four bytes stand for, the most significant first.
pub open spec fn big_endian(s: Seq<u8>) -> nat
    recommends
        s.len() == 4,
{
    (s[0] * 0x100_0000 + s[1] * 0x1_0000 + s[2] * 0x100 + s[3]) as nat
}

/// The message of the gRPC frame at the head of `data`: there is one if the
/// frame is not compressed, its message is not empty and all of it is there.
pub open spec fn frame_payload(data: Seq<u8>) -> Option<Seq<u8>> {
    let len = big_endian(data.subrange(1, 5));
    if data.len() < FRAME_HEADER_LEN || data[0] != 0 || len == 0 || len > data.len()
        - FRAME_HEADER_LEN {
        None
    } else {
        Some(data.subrange(5, 5 + len as int))
    }
}

/// The message of the gRPC frame at the head of `data`.
pub fn frame_message(data: &[u8]) -> (r: Option<&[u8]>)
    ensures
        match r {
            Some(message) => frame_payload(data@) == Some(message@),
            None => frame_payload(data@) is None,
        },
{
    if data.len() < FRAME_HEADER_LEN {
        return None;
    }
    if data[0] != 0x00 {
        return None;
    }
    let len: u64 = data[1] as u64 * 0x100_0000 + data[2] as u64 * 0x1_0000 + data[3] as u64 * 0x100
        + data[4] as u64;
    let available: usize = data.len() - FRAME_HEADER_LEN;
    if len == 0 || len > available as u64 {
        return None;
    }
    Some(&data[5..5 + len as usize])
}

/// A gRPC frame around a message: not compressed, then the length, then the
/// message itself.
pub open spec fn frame(message: Seq<u8>) -> Seq<u8> {
    let n = message.len();
    seq![
        0u8,
        (n / 0x100_0000) as u8,
        (n / 0x1_0000 % 0x100) as u8,
        (n / 0x100 % 0x100) as u8,
        (n % 0x100) as u8,
    ] + message
}

/// Reading a frame gives back the message it was made around.
pub proof fn lemma_frame_roundtrip(message: Seq<u8>, rest: Seq<u8>)
    requires
        0 < message.len() < 0x1_0000_0000,
    ensures
        frame_payload(frame(message) + rest) == Some(message),
{
    let data = frame(message) + rest;
    let n = message.len();
    let header = data.subrange(1, 5);
    assert(header[0] == (n / 0x100_0000) as u8);
    assert(header[1] == (n / 0x1_0000 % 0x100) as u8);
    assert(header[2] == (n / 0x100 % 0x100) as u8);
    assert(header[3] == (n % 0x100) as u8);
    assert(big_endian(header) == n);
    assert(data.subrange(5, 5 + n as int) =~= message);
}

/// The request to list the services: field 4, an empty string.
pub open spec fn list_services_request() -> Seq<u8> {
    seq![0x22u8, 0x00]
}

/// The frame that asks a server to list its services.
pub fn list_services_frame() -> (r: Vec<u8>)
    ensures
        r@ == frame(list_services_request()),
{
    let mut r: Vec<u8> = vec![0x00, 0x00, 0x00, 0x00, 0x02];
    r.push(0x22);
    r.push(0x00);
    assert(r@ =~= frame(list_services_request()));
    r
}

} // verus!
