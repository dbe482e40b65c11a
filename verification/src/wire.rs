//! The building blocks of the wire format: big-endian integers, two's
//! complement, and strings behind a one-byte length.

use vstd::prelude::*;
use vstd::utf8::*;

verus! {

/// 256 to the power `n`: the number of values that `n` bytes can hold.
pub open spec fn pow256(n: nat) -> nat
    decreases n,
{
    if n == 0 {
        1
    } else {
        256 * pow256((n - 1) as nat)
    }
}

/// The `width` low bytes of `value`, most significant first.
pub open spec fn be_bytes(value: nat, width: nat) -> Seq<u8>
    decreases width,
{
    if width == 0 {
        Seq::empty()
    } else {
        be_bytes(value / 256, (width - 1) as nat).push((value % 256) as u8)
    }
}

/// The number that `bytes` spell, most significant byte first.
pub open spec fn be_value(bytes: Seq<u8>) -> nat
    decreases bytes.len(),
{
    if bytes.len() == 0 {
        0
    } else {
        be_value(bytes.drop_last()) * 256 + bytes.last() as nat
    }
}

/// The unsigned number whose `width` bytes are the two's complement form of `value`.
pub open spec fn twos_complement(value: int, width: nat) -> nat {
    if value >= 0 {
        value as nat
    } else {
        (value + pow256(width)) as nat
    }
}

/// The signed number that the `width`-byte unsigned number `n` stands for in
/// two's complement.
pub open spec fn from_twos_complement(n: nat, width: nat) -> int {
    if 2 * n < pow256(width) {
        n as int
    } else {
        n - pow256(width)
    }
}

/// The powers of 256 at the widths of Rust's integer types.
pub proof fn lemma_pow256_values()
    ensures
        pow256(0) == 1,
        pow256(1) == 0x100,
        pow256(2) == 0x1_0000,
        pow256(4) == 0x1_0000_0000,
        pow256(8) == 0x1_0000_0000_0000_0000,
        pow256(16) == 0x1_0000_0000_0000_0000_0000_0000_0000_0000,
{
    reveal_with_fuel(pow256, 17);
}

/// `pow256` grows with its argument.
pub proof fn lemma_pow256_monotonic(a: nat, b: nat)
    requires
        a <= b,
    ensures
        0 < pow256(a) <= pow256(b),
    decreases b,
{
    if b == 0 {
    } else if a == b {
        lemma_pow256_monotonic((a - 1) as nat, (b - 1) as nat);
    } else {
        lemma_pow256_monotonic(a, (b - 1) as nat);
    }
}

/// `be_bytes` yields exactly `width` bytes.
pub proof fn lemma_be_bytes_len(value: nat, width: nat)
    ensures
        be_bytes(value, width).len() == width,
    decreases width,
{
    if width > 0 {
        lemma_be_bytes_len(value / 256, (width - 1) as nat);
    }
}

/// What `n` bytes spell is below 256 to the `n`.
pub proof fn lemma_be_value_bound(bytes: Seq<u8>)
    ensures
        be_value(bytes) < pow256(bytes.len()),
    decreases bytes.len(),
{
    if bytes.len() > 0 {
        lemma_be_value_bound(bytes.drop_last());
    }
}

/// Reading back the bytes of a number that fits gives the number.
pub proof fn lemma_be_value_of_bytes(value: nat, width: nat)
    requires
        value < pow256(width),
    ensures
        be_value(be_bytes(value, width)) == value,
    decreases width,
{
    if width > 0 {
        let init = be_bytes(value / 256, (width - 1) as nat);
        let low = (value % 256) as u8;
        lemma_be_value_of_bytes(value / 256, (width - 1) as nat);
        assert(init.push(low).drop_last() =~= init);
    }
}

/// Writing the number that some bytes spell gives the bytes.
pub proof fn lemma_be_bytes_of_value(bytes: Seq<u8>)
    ensures
        be_bytes(be_value(bytes), bytes.len()) == bytes,
    decreases bytes.len(),
{
    if bytes.len() > 0 {
        lemma_be_bytes_of_value(bytes.drop_last());
    }
}

/// Reads `width` bytes from the front of `bytes` as one big-endian number.
pub open spec fn decode_uint(bytes: Seq<u8>, width: nat) -> Option<nat> {
    if bytes.len() < width {
        None
    } else {
        Some(be_value(bytes.take(width as int)))
    }
}

/// A number that fits `width` bytes is read back from them, whatever follows.
pub proof fn lemma_decode_uint_of_encoded(value: nat, width: nat, rest: Seq<u8>)
    requires
        value < pow256(width),
    ensures
        decode_uint(be_bytes(value, width) + rest, width) == Some(value),
{
    lemma_be_bytes_len(value, width);
    lemma_be_value_of_bytes(value, width);
    assert((be_bytes(value, width) + rest).take(width as int) =~= be_bytes(value, width));
}

/// What `decode_uint` accepts is the `width` bytes of the number it returns.
pub proof fn lemma_encode_uint_of_decoded(bytes: Seq<u8>, width: nat)
    requires
        decode_uint(bytes, width) is Some,
    ensures
        decode_uint(bytes, width).unwrap() < pow256(width),
        be_bytes(decode_uint(bytes, width).unwrap(), width) == bytes.take(width as int),
{
    lemma_be_value_bound(bytes.take(width as int));
    lemma_be_bytes_of_value(bytes.take(width as int));
}

/// One byte spells itself.
pub proof fn lemma_be_bytes_one(byte: u8)
    ensures
        be_bytes(byte as nat, 1) == seq![byte],
{
    reveal_with_fuel(be_bytes, 2);
}

/// A string can stand behind a one-byte length: its UTF-8 form has at most 255 bytes.
pub open spec fn text_fits(text: Seq<char>) -> bool {
    encode_utf8(text).len() <= 255
}

/// The UTF-8 form of a string has at least one byte and at most four for each
/// character, so a string of at most 63 characters always fits.
pub proof fn lemma_text_len_bounds(text: Seq<char>)
    ensures
        text.len() <= encode_utf8(text).len() <= 4 * text.len(),
        text.len() <= 63 ==> text_fits(text),
    decreases text.len(),
{
    if text.len() > 0 {
        lemma_text_len_bounds(text.drop_first());
    }
}

/// A string on the wire: the length of its UTF-8 form in one byte, then that form.
pub open spec fn encode_text(text: Seq<char>) -> Seq<u8> {
    seq![encode_utf8(text).len() as u8] + encode_utf8(text)
}

/// Reads a string from the front of `bytes`: the string and the number of bytes
/// it took, or `None` where the length byte is missing, promises more bytes than
/// there are, or the bytes are not UTF-8.
pub open spec fn decode_text(bytes: Seq<u8>) -> Option<(Seq<char>, int)> {
    if bytes.len() == 0 {
        None
    } else {
        let end = 1 + bytes[0] as int;
        if end > bytes.len() || !valid_utf8(bytes.subrange(1, end)) {
            None
        } else {
            Some((decode_utf8(bytes.subrange(1, end)), end))
        }
    }
}

/// A string that fits is read back from its encoding, whatever follows it.
pub proof fn lemma_decode_text_of_encoded(text: Seq<char>, rest: Seq<u8>)
    requires
        text_fits(text),
    ensures
        decode_text(encode_text(text) + rest) == Some((text, encode_text(text).len() as int)),
{
    let body = encode_utf8(text);
    let bytes = encode_text(text) + rest;
    assert(bytes.subrange(1, 1 + body.len() as int) =~= body);
    encode_utf8_valid_utf8(text);
    encode_utf8_decode_utf8(text);
}

/// What `decode_text` accepts is the encoding of the string it returns.
pub proof fn lemma_encode_text_of_decoded(bytes: Seq<u8>)
    requires
        decode_text(bytes) is Some,
    ensures
        ({
            let (text, used) = decode_text(bytes).unwrap();
            &&& text_fits(text)
            &&& 0 <= used <= bytes.len()
            &&& encode_text(text) == bytes.take(used)
        }),
{
    decode_utf8_encode_utf8(bytes.subrange(1, 1 + bytes[0] as int));
}

/// Two strings with the same UTF-8 form are the same string.
pub proof fn lemma_encode_utf8_injective(a: Seq<char>, b: Seq<char>)
    requires
        encode_utf8(a) == encode_utf8(b),
    ensures
        a == b,
{
    encode_utf8_decode_utf8(a);
    encode_utf8_decode_utf8(b);
}

/// `String::from_utf8`, not proved here: where `bytes` are valid UTF-8 it
/// returns the string that is made of them, and otherwise an error, which is
/// turned into `None`.
#[verifier::external_body]
pub(crate) fn string_from_utf8(bytes: Vec<u8>) -> (text: Option<String>)
    ensures
        text is Some <==> valid_utf8(bytes@),
        text matches Some(string) ==> encode_utf8(string@) == bytes@,
{
    String::from_utf8(bytes).ok()
}

/// Reads `width` bytes at `pos` as one big-endian number, or `None` where fewer
/// than `width` bytes are left.
pub(crate) fn read_uint(bytes: &[u8], pos: usize, width: usize) -> (value: Option<u128>)
    requires
        width <= 16,
    ensures
        value is Some <==> pos + width <= bytes@.len(),
        value matches Some(number) ==> number == be_value(
            bytes@.subrange(pos as int, pos + width),
        ),
{
    if width > bytes.len() || pos > bytes.len() - width {
        return None;
    }
    let mut number: u128 = 0;
    let mut i: usize = 0;
    while i < width
        invariant
            i <= width <= 16,
            pos + width <= bytes@.len() <= usize::MAX,
            number == be_value(bytes@.subrange(pos as int, pos + i)),
            number < pow256(i as nat),
        decreases width - i,
    {
        proof {
            lemma_pow256_monotonic((i + 1) as nat, 16);
            lemma_pow256_values();
            assert(bytes@.subrange(pos as int, pos + i + 1).drop_last() =~= bytes@.subrange(
                pos as int,
                pos + i,
            ));
        }
        number = number * 256 + bytes[pos + i] as u128;
        i += 1;
    }
    Some(number)
}

/// The `i8` that one byte stands for.
pub(crate) fn signed_8(number: u128) -> (value: i8)
    requires
        number < pow256(1),
    ensures
        value == from_twos_complement(number as nat, 1),
{
    proof {
        lemma_pow256_values();
    }
    if number < 0x80 {
        number as i8
    } else {
        (number as i16 - 0x100) as i8
    }
}

/// The `i16` that two bytes stand for.
pub(crate) fn signed_16(number: u128) -> (value: i16)
    requires
        number < pow256(2),
    ensures
        value == from_twos_complement(number as nat, 2),
{
    proof {
        lemma_pow256_values();
    }
    if number < 0x8000 {
        number as i16
    } else {
        (number as i32 - 0x1_0000) as i16
    }
}

/// The `i32` that four bytes stand for.
pub(crate) fn signed_32(number: u128) -> (value: i32)
    requires
        number < pow256(4),
    ensures
        value == from_twos_complement(number as nat, 4),
{
    proof {
        lemma_pow256_values();
    }
    if number < 0x8000_0000 {
        number as i32
    } else {
        (number as i64 - 0x1_0000_0000) as i32
    }
}

/// The `i64` that eight bytes stand for.
pub(crate) fn signed_64(number: u128) -> (value: i64)
    requires
        number < pow256(8),
    ensures
        value == from_twos_complement(number as nat, 8),
{
    proof {
        lemma_pow256_values();
    }
    if number < 0x8000_0000_0000_0000 {
        number as i64
    } else {
        (number as i128 - 0x1_0000_0000_0000_0000) as i64
    }
}

/// The `i128` that sixteen bytes stand for.
pub(crate) fn signed_128(number: u128) -> (value: i128)
    ensures
        value == from_twos_complement(number as nat, 16),
{
    proof {
        lemma_pow256_values();
    }
    if number < 0x8000_0000_0000_0000_0000_0000_0000_0000 {
        number as i128
    } else {
        -((u128::MAX - number) as i128) - 1
    }
}

/// Whether `text` can stand behind a one-byte length.
pub fn fits(text: &str) -> (short: bool)
    ensures
        short == text_fits(text@),
{
    text.as_bytes().len() <= 255
}

/// Reads a string behind its length byte at `pos`: the string and the position
/// after it.
pub(crate) fn read_text(bytes: &[u8], pos: usize) -> (read: Option<(String, usize)>)
    requires
        pos <= bytes@.len(),
    ensures
        match read {
            Some((text, next)) => pos <= next <= bytes@.len() && decode_text(
                bytes@.skip(pos as int),
            ) == Some((text@, next - pos)),
            None => decode_text(bytes@.skip(pos as int)) is None,
        },
{
    if pos >= bytes.len() {
        return None;
    }
    let length = bytes[pos] as usize;
    if length > bytes.len() - pos - 1 {
        return None;
    }
    let start = pos + 1;
    let end = start + length;
    let mut body: Vec<u8> = Vec::new();
    let mut i: usize = start;
    while i < end
        invariant
            start <= i <= end <= bytes@.len(),
            body@ == bytes@.subrange(start as int, i as int),
        decreases end - i,
    {
        body.push(bytes[i]);
        i += 1;
    }
    assert(bytes@.skip(pos as int).subrange(1, 1 + length) =~= bytes@.subrange(
        start as int,
        end as int,
    ));
    match string_from_utf8(body) {
        Some(text) => {
            proof {
                encode_utf8_decode_utf8(text@);
            }
            Some((text, end))
        },
        None => None,
    }
}

} // verus!
