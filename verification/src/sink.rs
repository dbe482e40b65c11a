//! The byte sink: a growable vector that the `acursor` writers append to.
//!
//! The writers in this file are believed, not proved. Each hands one call to
//! `acursor::write::WriteBytes`, which that crate implements for every
//! `std::io::Write`, and so for `Vec<u8>`. There the crate's source shows one
//! `write_all` of the number's bytes, most significant first, and returns what
//! that call returns; the vector's `write_all` appends the bytes and succeeds.
//! So each contract states that the call returns `Ok` and that the bytes were
//! appended. Only [`written`], which turns a writer's outcome into the store's
//! own, is verified.

use acursor::write::WriteBytes;
use vstd::prelude::*;
use vstd::utf8::*;

use crate::error::Error;
use crate::wire::{be_bytes, encode_text, twos_complement};

verus! {

/// `std::io::Error`, which the writers return. Nothing is known of its contents.
#[verifier::external_type_specification]
#[verifier::external_body]
pub struct ExIoError(std::io::Error);

/// `WriteBytes::write_u8`: the call succeeds and the byte was appended.
#[verifier::external_body]
pub(crate) fn write_u8(sink: &mut Vec<u8>, number: u8) -> (outcome: Result<(), std::io::Error>)
    ensures
        outcome is Ok,
        final(sink)@ == old(sink)@ + be_bytes(number as nat, 1),
{
    sink.write_u8(number)
}

/// `WriteBytes::write_i8`: the call succeeds and the byte, in two's complement,
/// was appended.
#[verifier::external_body]
pub(crate) fn write_i8(sink: &mut Vec<u8>, number: i8) -> (outcome: Result<(), std::io::Error>)
    ensures
        outcome is Ok,
        final(sink)@ == old(sink)@ + be_bytes(
            twos_complement(number as int, 1),
            1,
        ),
{
    sink.write_i8(number)
}

/// `WriteBytes::write_u16`: the call succeeds and the two bytes were appended,
/// high byte first.
#[verifier::external_body]
pub(crate) fn write_u16(sink: &mut Vec<u8>, number: u16) -> (outcome: Result<(), std::io::Error>)
    ensures
        outcome is Ok,
        final(sink)@ == old(sink)@ + be_bytes(number as nat, 2),
{
    sink.write_u16(number)
}

/// `WriteBytes::write_i16`: the call succeeds and the two bytes of the two's
/// complement form were appended, high byte first.
#[verifier::external_body]
pub(crate) fn write_i16(sink: &mut Vec<u8>, number: i16) -> (outcome: Result<(), std::io::Error>)
    ensures
        outcome is Ok,
        final(sink)@ == old(sink)@ + be_bytes(
            twos_complement(number as int, 2),
            2,
        ),
{
    sink.write_i16(number)
}

/// `WriteBytes::write_u32`: the call succeeds and the four bytes were appended,
/// high byte first.
#[verifier::external_body]
pub(crate) fn write_u32(sink: &mut Vec<u8>, number: u32) -> (outcome: Result<(), std::io::Error>)
    ensures
        outcome is Ok,
        final(sink)@ == old(sink)@ + be_bytes(number as nat, 4),
{
    sink.write_u32(number)
}

/// `WriteBytes::write_i32`: the call succeeds and the four bytes of the two's
/// complement form were appended, high byte first.
#[verifier::external_body]
pub(crate) fn write_i32(sink: &mut Vec<u8>, number: i32) -> (outcome: Result<(), std::io::Error>)
    ensures
        outcome is Ok,
        final(sink)@ == old(sink)@ + be_bytes(
            twos_complement(number as int, 4),
            4,
        ),
{
    sink.write_i32(number)
}

/// `WriteBytes::write_u64`: the call succeeds and the eight bytes were appended,
/// high byte first.
#[verifier::external_body]
pub(crate) fn write_u64(sink: &mut Vec<u8>, number: u64) -> (outcome: Result<(), std::io::Error>)
    ensures
        outcome is Ok,
        final(sink)@ == old(sink)@ + be_bytes(number as nat, 8),
{
    sink.write_u64(number)
}

/// `WriteBytes::write_i64`: the call succeeds and the eight bytes of the two's
/// complement form were appended, high byte first.
#[verifier::external_body]
pub(crate) fn write_i64(sink: &mut Vec<u8>, number: i64) -> (outcome: Result<(), std::io::Error>)
    ensures
        outcome is Ok,
        final(sink)@ == old(sink)@ + be_bytes(
            twos_complement(number as int, 8),
            8,
        ),
{
    sink.write_i64(number)
}

/// `WriteBytes::write_u128`: the call succeeds and the sixteen bytes were
/// appended, high byte first.
#[verifier::external_body]
pub(crate) fn write_u128(sink: &mut Vec<u8>, number: u128) -> (outcome: Result<
    (),
    std::io::Error,
>)
    ensures
        outcome is Ok,
        final(sink)@ == old(sink)@ + be_bytes(number as nat, 16),
{
    sink.write_u128(number)
}

/// `WriteBytes::write_i128`: the call succeeds and the sixteen bytes of the
/// two's complement form were appended, high byte first.
#[verifier::external_body]
pub(crate) fn write_i128(sink: &mut Vec<u8>, number: i128) -> (outcome: Result<
    (),
    std::io::Error,
>)
    ensures
        outcome is Ok,
        final(sink)@ == old(sink)@ + be_bytes(
            twos_complement(number as int, 16),
            16,
        ),
{
    sink.write_i128(number)
}

/// `WriteBytes::write_string::<u8>`: it writes the string's length in bytes as
/// one byte and then the string's UTF-8 form; the call succeeds and both were
/// appended. The call panics on a string of more than 255 bytes, which
/// `requires` leaves out.
#[verifier::external_body]
pub(crate) fn write_string(sink: &mut Vec<u8>, string: String) -> (outcome: Result<
    (),
    std::io::Error,
>)
    requires
        encode_utf8(string@).len() <= 255,
    ensures
        outcome is Ok,
        final(sink)@ == old(sink)@ + encode_text(string@),
{
    sink.write_string::<u8>(string)
}

/// What a write's outcome means to the store: success stays success, and any
/// refusal of the sink becomes [`Error::Sink`].
pub fn written(outcome: Result<(), std::io::Error>) -> (result: Result<(), Error>)
    ensures
        outcome is Ok ==> result == Ok::<(), Error>(()),
        outcome is Err ==> result == Err::<(), Error>(Error::Sink),
{
    match outcome {
        Ok(()) => Ok(()),
        Err(_) => Err(Error::Sink),
    }
}

} // verus!
