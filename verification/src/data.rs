//! The values that a collection holds, and their place in the wire format: one
//! tag byte that names the variant, then the payload.

use vstd::prelude::*;

use crate::error::Error;
use crate::format::Format;
use crate::sink::{
    write_i128, write_i16, write_i32, write_i64, write_i8, write_string, write_u128, write_u16,
    write_u32, write_u64, write_u8, written,
};
use crate::wire::{
    be_bytes, decode_text, decode_uint, encode_text, fits, from_twos_complement,
    lemma_be_bytes_len, lemma_be_bytes_one, lemma_decode_text_of_encoded,
    lemma_decode_uint_of_encoded, lemma_encode_text_of_decoded, lemma_encode_uint_of_decoded,
    lemma_pow256_values, pow256, read_text, read_uint, signed_128, signed_16, signed_32,
    signed_64, signed_8, text_fits, twos_complement,
};

verus! {

/// The tag of a string.
pub const TAG_STRING: u8 = 0;

/// The tag of an `i8`.
pub const TAG_I8: u8 = 1;

/// The tag of a `u8`.
pub const TAG_U8: u8 = 2;

/// The tag of an `i16`.
pub const TAG_I16: u8 = 3;

/// The tag of a `u16`.
pub const TAG_U16: u8 = 4;

/// The tag of an `i32`.
pub const TAG_I32: u8 = 5;

/// The tag of a `u32`.
pub const TAG_U32: u8 = 6;

/// The tag of an `i64`.
pub const TAG_I64: u8 = 7;

/// The tag of a `u64`.
pub const TAG_U64: u8 = 8;

/// The tag of an `i128`.
pub const TAG_I128: u8 = 9;

/// The tag of a `u128`.
pub const TAG_U128: u8 = 10;

/// The tag of a single-precision number.
pub const TAG_F32: u8 = 11;

/// The tag of a double-precision number.
pub const TAG_F64: u8 = 12;

/// One value of the store. The two floating-point variants hold the IEEE-754 bit
/// pattern of their number, which is what the wire format carries: a caller
/// makes one with `to_bits` and reads one with `from_bits`.
#[derive(Debug, PartialEq, Eq)]
pub enum Data {
    String(String),
    I8(i8),
    U8(u8),
    I16(i16),
    U16(u16),
    I32(i32),
    U32(u32),
    I64(i64),
    U64(u64),
    I128(i128),
    U128(u128),
    F32(u32),
    F64(u64),
}

/// The model of a [`Data`]: the same variants, with the string as its characters.
pub enum DataView {
    String(Seq<char>),
    I8(i8),
    U8(u8),
    I16(i16),
    U16(u16),
    I32(i32),
    U32(u32),
    I64(i64),
    U64(u64),
    I128(i128),
    U128(u128),
    F32(u32),
    F64(u64),
}

impl View for Data {
    type V = DataView;

    open spec fn view(&self) -> DataView {
        match self {
            Data::String(text) => DataView::String(text@),
            Data::I8(number) => DataView::I8(*number),
            Data::U8(number) => DataView::U8(*number),
            Data::I16(number) => DataView::I16(*number),
            Data::U16(number) => DataView::U16(*number),
            Data::I32(number) => DataView::I32(*number),
            Data::U32(number) => DataView::U32(*number),
            Data::I64(number) => DataView::I64(*number),
            Data::U64(number) => DataView::U64(*number),
            Data::I128(number) => DataView::I128(*number),
            Data::U128(number) => DataView::U128(*number),
            Data::F32(bits) => DataView::F32(*bits),
            Data::F64(bits) => DataView::F64(*bits),
        }
    }
}

impl Clone for Data {
    fn clone(&self) -> (copy: Data)
        ensures
            copy@ == self@,
    {
        match self {
            Data::String(text) => Data::String(text.clone()),
            Data::I8(number) => Data::I8(*number),
            Data::U8(number) => Data::U8(*number),
            Data::I16(number) => Data::I16(*number),
            Data::U16(number) => Data::U16(*number),
            Data::I32(number) => Data::I32(*number),
            Data::U32(number) => Data::U32(*number),
            Data::I64(number) => Data::I64(*number),
            Data::U64(number) => Data::U64(*number),
            Data::I128(number) => Data::I128(*number),
            Data::U128(number) => Data::U128(*number),
            Data::F32(bits) => Data::F32(*bits),
            Data::F64(bits) => Data::F64(*bits),
        }
    }
}

/// The tag names a fixed-width variant.
pub open spec fn is_number_tag(tag: u8) -> bool {
    TAG_I8 <= tag <= TAG_F64
}

/// The number of payload bytes behind a fixed-width variant's tag.
pub open spec fn tag_width(tag: u8) -> nat {
    if tag == TAG_I8 || tag == TAG_U8 {
        1
    } else if tag == TAG_I16 || tag == TAG_U16 {
        2
    } else if tag == TAG_I32 || tag == TAG_U32 || tag == TAG_F32 {
        4
    } else if tag == TAG_I64 || tag == TAG_U64 || tag == TAG_F64 {
        8
    } else {
        16
    }
}

impl DataView {
    /// The byte that names the variant on the wire.
    pub open spec fn tag(self) -> u8 {
        match self {
            DataView::String(_) => TAG_STRING,
            DataView::I8(_) => TAG_I8,
            DataView::U8(_) => TAG_U8,
            DataView::I16(_) => TAG_I16,
            DataView::U16(_) => TAG_U16,
            DataView::I32(_) => TAG_I32,
            DataView::U32(_) => TAG_U32,
            DataView::I64(_) => TAG_I64,
            DataView::U64(_) => TAG_U64,
            DataView::I128(_) => TAG_I128,
            DataView::U128(_) => TAG_U128,
            DataView::F32(_) => TAG_F32,
            DataView::F64(_) => TAG_F64,
        }
    }

    /// The unsigned number that the payload of a fixed-width variant spells: the
    /// number itself, the two's complement form of a signed one, or the bit
    /// pattern of a floating-point one. A string has none, and gets 0.
    pub open spec fn number(self) -> nat {
        match self {
            DataView::String(_) => 0,
            DataView::I8(number) => twos_complement(number as int, 1),
            DataView::U8(number) => number as nat,
            DataView::I16(number) => twos_complement(number as int, 2),
            DataView::U16(number) => number as nat,
            DataView::I32(number) => twos_complement(number as int, 4),
            DataView::U32(number) => number as nat,
            DataView::I64(number) => twos_complement(number as int, 8),
            DataView::U64(number) => number as nat,
            DataView::I128(number) => twos_complement(number as int, 16),
            DataView::U128(number) => number as nat,
            DataView::F32(bits) => bits as nat,
            DataView::F64(bits) => bits as nat,
        }
    }

    /// The fixed-width variant that `tag` names, holding what `number` spells.
    pub open spec fn from_number(tag: u8, number: nat) -> DataView {
        if tag == TAG_I8 {
            DataView::I8(from_twos_complement(number, 1) as i8)
        } else if tag == TAG_U8 {
            DataView::U8(number as u8)
        } else if tag == TAG_I16 {
            DataView::I16(from_twos_complement(number, 2) as i16)
        } else if tag == TAG_U16 {
            DataView::U16(number as u16)
        } else if tag == TAG_I32 {
            DataView::I32(from_twos_complement(number, 4) as i32)
        } else if tag == TAG_U32 {
            DataView::U32(number as u32)
        } else if tag == TAG_I64 {
            DataView::I64(from_twos_complement(number, 8) as i64)
        } else if tag == TAG_U64 {
            DataView::U64(number as u64)
        } else if tag == TAG_I128 {
            DataView::I128(from_twos_complement(number, 16) as i128)
        } else if tag == TAG_U128 {
            DataView::U128(number as u128)
        } else if tag == TAG_F32 {
            DataView::F32(number as u32)
        } else {
            DataView::F64(number as u64)
        }
    }

    /// The bytes behind the tag: a string behind its length, a number in as many
    /// bytes as its type has, most significant first.
    pub open spec fn payload(self) -> Seq<u8> {
        match self {
            DataView::String(text) => encode_text(text),
            _ => be_bytes(self.number(), tag_width(self.tag())),
        }
    }

    /// A fixed-width value is the one that its tag and its number name, and its
    /// number fits its width.
    pub proof fn lemma_number_round_trip(self)
        requires
            !(self is String),
        ensures
            is_number_tag(self.tag()),
            self.number() < pow256(tag_width(self.tag())),
            DataView::from_number(self.tag(), self.number()) == self,
    {
        lemma_pow256_values();
    }

    /// The value that a tag and a number name has that tag and that number.
    pub proof fn lemma_from_number_round_trip(tag: u8, number: nat)
        requires
            is_number_tag(tag),
            number < pow256(tag_width(tag)),
        ensures
            !(DataView::from_number(tag, number) is String),
            DataView::from_number(tag, number).tag() == tag,
            DataView::from_number(tag, number).number() == number,
    {
        lemma_pow256_values();
    }
}

impl Format for DataView {
    /// A string must fit behind its length byte; every number is valid.
    open spec fn valid(self) -> bool {
        self matches DataView::String(text) ==> text_fits(text)
    }

    open spec fn encode(self) -> Seq<u8> {
        seq![self.tag()] + self.payload()
    }

    open spec fn decode(bytes: Seq<u8>) -> Option<(DataView, int)> {
        if bytes.len() == 0 {
            None
        } else if bytes[0] == TAG_STRING {
            match decode_text(bytes.skip(1)) {
                Some((text, used)) => Some((DataView::String(text), 1 + used)),
                None => None,
            }
        } else if is_number_tag(bytes[0]) {
            match decode_uint(bytes.skip(1), tag_width(bytes[0])) {
                Some(number) => Some(
                    (DataView::from_number(bytes[0], number), 1 + tag_width(bytes[0]) as int),
                ),
                None => None,
            }
        } else {
            None
        }
    }

    proof fn lemma_decode_encode(self, rest: Seq<u8>) {
        let bytes = self.encode() + rest;
        assert(bytes.skip(1) =~= self.payload() + rest);
        match self {
            DataView::String(text) => {
                lemma_decode_text_of_encoded(text, rest);
            },
            _ => {
                self.lemma_number_round_trip();
                lemma_decode_uint_of_encoded(self.number(), tag_width(self.tag()), rest);
                lemma_be_bytes_len(self.number(), tag_width(self.tag()));
            },
        }
    }

    proof fn lemma_encode_decode(bytes: Seq<u8>) {
        let body = bytes.skip(1);
        if bytes[0] == TAG_STRING {
            lemma_encode_text_of_decoded(body);
        } else {
            let width = tag_width(bytes[0]);
            lemma_encode_uint_of_decoded(body, width);
            DataView::lemma_from_number_round_trip(bytes[0], decode_uint(body, width).unwrap());
        }
    }
}

/// The number of payload bytes behind a fixed-width variant's tag.
fn width_of(tag: u8) -> (width: usize)
    ensures
        width == tag_width(tag),
        1 <= width <= 16,
{
    if tag == TAG_I8 || tag == TAG_U8 {
        1
    } else if tag == TAG_I16 || tag == TAG_U16 {
        2
    } else if tag == TAG_I32 || tag == TAG_U32 || tag == TAG_F32 {
        4
    } else if tag == TAG_I64 || tag == TAG_U64 || tag == TAG_F64 {
        8
    } else {
        16
    }
}

/// The fixed-width value that `tag` names, holding what `number` spells.
fn number_data(tag: u8, number: u128) -> (data: Data)
    requires
        is_number_tag(tag),
        number < pow256(tag_width(tag)),
    ensures
        data@ == DataView::from_number(tag, number as nat),
{
    proof {
        lemma_pow256_values();
    }
    if tag == TAG_I8 {
        Data::I8(signed_8(number))
    } else if tag == TAG_U8 {
        Data::U8(number as u8)
    } else if tag == TAG_I16 {
        Data::I16(signed_16(number))
    } else if tag == TAG_U16 {
        Data::U16(number as u16)
    } else if tag == TAG_I32 {
        Data::I32(signed_32(number))
    } else if tag == TAG_U32 {
        Data::U32(number as u32)
    } else if tag == TAG_I64 {
        Data::I64(signed_64(number))
    } else if tag == TAG_U64 {
        Data::U64(number as u64)
    } else if tag == TAG_I128 {
        Data::I128(signed_128(number))
    } else if tag == TAG_U128 {
        Data::U128(number)
    } else if tag == TAG_F32 {
        Data::F32(number as u32)
    } else {
        Data::F64(number as u64)
    }
}

impl Data {
    /// Whether the value can be encoded: a string of at most 255 bytes, or any number.
    pub fn is_valid(&self) -> (valid: bool)
        ensures
            valid == self@.valid(),
    {
        match self {
            Data::String(text) => fits(text.as_str()),
            _ => true,
        }
    }

    /// The string that the value holds, or [`Error::TypeMismatch`] where it holds
    /// a number.
    pub fn as_string(&self) -> (result: Result<&String, Error>)
        ensures
            match result {
                Ok(text) => self@ == DataView::String(text@),
                Err(error) => !(self@ is String) && error == Error::TypeMismatch,
            },
    {
        match self {
            Data::String(text) => Ok(text),
            _ => Err(Error::TypeMismatch),
        }
    }

    /// Appends the value's encoding to `sink`: its tag, then its payload.
    ///
    /// A string of more than 255 bytes is refused with
    /// [`Error::CapacityExceeded`] before anything is written. Every other value
    /// is written.
    pub fn serialize(&self, sink: &mut Vec<u8>) -> (result: Result<(), Error>)
        ensures
            self@.valid() ==> result is Ok && final(sink)@ == old(sink)@ + self@.encode(),
            !self@.valid() ==> result == Err::<(), Error>(Error::CapacityExceeded) && final(sink)@
                == old(sink)@,
    {
        if !self.is_valid() {
            return Err(Error::CapacityExceeded);
        }
        proof {
            lemma_be_bytes_one(self@.tag());
        }
        match self {
            Data::String(text) => {
                written(write_u8(sink, TAG_STRING))?;
                written(write_string(sink, text.clone()))
            },
            Data::I8(number) => {
                written(write_u8(sink, TAG_I8))?;
                written(write_i8(sink, *number))
            },
            Data::U8(number) => {
                written(write_u8(sink, TAG_U8))?;
                written(write_u8(sink, *number))
            },
            Data::I16(number) => {
                written(write_u8(sink, TAG_I16))?;
                written(write_i16(sink, *number))
            },
            Data::U16(number) => {
                written(write_u8(sink, TAG_U16))?;
                written(write_u16(sink, *number))
            },
            Data::I32(number) => {
                written(write_u8(sink, TAG_I32))?;
                written(write_i32(sink, *number))
            },
            Data::U32(number) => {
                written(write_u8(sink, TAG_U32))?;
                written(write_u32(sink, *number))
            },
            Data::I64(number) => {
                written(write_u8(sink, TAG_I64))?;
                written(write_i64(sink, *number))
            },
            Data::U64(number) => {
                written(write_u8(sink, TAG_U64))?;
                written(write_u64(sink, *number))
            },
            Data::I128(number) => {
                written(write_u8(sink, TAG_I128))?;
                written(write_i128(sink, *number))
            },
            Data::U128(number) => {
                written(write_u8(sink, TAG_U128))?;
                written(write_u128(sink, *number))
            },
            Data::F32(bits) => {
                written(write_u8(sink, TAG_F32))?;
                written(write_u32(sink, *bits))
            },
            Data::F64(bits) => {
                written(write_u8(sink, TAG_F64))?;
                written(write_u64(sink, *bits))
            },
        }
    }

    /// Reads one value at `pos`: the value and the position after it, or `None`
    /// where the bytes at `pos` are not the encoding of a value.
    pub fn parse(bytes: &[u8], pos: usize) -> (read: Option<(Data, usize)>)
        ensures
            match read {
                Some((data, next)) => pos <= next <= bytes@.len() && DataView::decode(
                    bytes@.skip(pos as int),
                ) == Some((data@, next - pos)),
                None => pos > bytes@.len() || DataView::decode(bytes@.skip(pos as int)) is None,
            },
    {
        if pos >= bytes.len() {
            return None;
        }
        let tag = bytes[pos];
        let ghost tail = bytes@.skip(pos as int);
        assert(tail.skip(1) =~= bytes@.skip(pos + 1));
        if tag == TAG_STRING {
            match read_text(bytes, pos + 1) {
                Some((text, next)) => Some((Data::String(text), next)),
                None => None,
            }
        } else if tag > TAG_F64 {
            None
        } else {
            let width = width_of(tag);
            match read_uint(bytes, pos + 1, width) {
                Some(number) => {
                    proof {
                        assert(tail.skip(1).take(width as int) =~= bytes@.subrange(
                            pos + 1,
                            pos + 1 + width,
                        ));
                        lemma_encode_uint_of_decoded(tail.skip(1), width as nat);
                    }
                    Some((number_data(tag, number), pos + 1 + width))
                },
                None => None,
            }
        }
    }
}

} // verus!
