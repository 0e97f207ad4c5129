use vstd::prelude::*;
use vstd::utf8::{decode_utf8, valid_utf8};

use crate::codec::{
    encode_u16, encode_u32, lemma_round_trip, i16_of, i32_of, i8_of, read_i16, read_i32, read_u16, read_u32, read_u64, to_i32, to_i8, u16_at, u32_at,
    u64_at, ByteOrder,
};
use crate::errors::FormatError;

verus! {

/// Bytes per value of a TIFF field type, for the twelve types the format defines.
pub open spec fn spec_field_type_size(field_type: u16) -> Option<u64> {
    if field_type == 1 || field_type == 2 || field_type == 6 || field_type == 7 {
        Some(1)
    } else if field_type == 3 || field_type == 8 {
        Some(2)
    } else if field_type == 4 || field_type == 9 || field_type == 11 {
        Some(4)
    } else if field_type == 5 || field_type == 10 || field_type == 12 {
        Some(8)
    } else {
        None
    }
}

/// Size in bytes of one value of `field_type`; `None` for a code outside the twelve types.
pub fn field_type_size(field_type: u16) -> (r: Option<u64>)
    ensures
        r == spec_field_type_size(field_type),
{
    match field_type {
        1 | 2 | 6 | 7 => Some(1),
        3 | 8 => Some(2),
        4 | 9 | 11 => Some(4),
        5 | 10 | 12 => Some(8),
        _ => None,
    }
}

/// A decoded directory value: every one of the `count` elements, in order.
/// `Float` and `Double` hold the IEEE-754 bit patterns of their elements.
#[derive(Clone, Debug, PartialEq)]
pub enum TagValue {
    Byte(Vec<u8>),
    Ascii(String),
    Short(Vec<u16>),
    Long(Vec<u32>),
    Rational(Vec<(u32, u32)>),
    SByte(Vec<i8>),
    Undefined(Vec<u8>),
    SShort(Vec<i16>),
    SLong(Vec<i32>),
    SRational(Vec<(i32, i32)>),
    Float(Vec<u32>),
    Double(Vec<u64>),
}

/// The bytes of an ASCII value as text: one trailing NUL, if present, is stripped.
pub open spec fn ascii_text_bytes(b: Seq<u8>) -> Seq<u8> {
    if b.len() > 0 && b.last() == 0 {
        b.drop_last()
    } else {
        b
    }
}

/// `v` is what `count` values of `field_type` stored at the start of `raw` decode to.
pub open spec fn value_decodes(
    v: TagValue,
    field_type: u16,
    order: ByteOrder,
    raw: Seq<u8>,
    count: nat,
) -> bool {
    match v {
        TagValue::Byte(xs) => field_type == 1 && xs@ == raw.take(count as int),
        TagValue::Ascii(s) => field_type == 2 && s@ == decode_utf8(
            ascii_text_bytes(raw.take(count as int)),
        ),
        TagValue::Short(xs) => field_type == 3 && xs@.len() == count && forall|i: int|
            0 <= i < count ==> #[trigger] xs@[i] == u16_at(order, raw, 2 * i),
        TagValue::Long(xs) => field_type == 4 && xs@.len() == count && forall|i: int|
            0 <= i < count ==> #[trigger] xs@[i] == u32_at(order, raw, 4 * i),
        TagValue::Rational(xs) => field_type == 5 && xs@.len() == count && forall|i: int|
            0 <= i < count ==> #[trigger] xs@[i] == (
                u32_at(order, raw, 8 * i),
                u32_at(order, raw, 8 * i + 4),
            ),
        TagValue::SByte(xs) => field_type == 6 && xs@.len() == count && forall|i: int|
            0 <= i < count ==> #[trigger] xs@[i] == i8_of(raw[i]),
        TagValue::Undefined(xs) => field_type == 7 && xs@ == raw.take(count as int),
        TagValue::SShort(xs) => field_type == 8 && xs@.len() == count && forall|i: int|
            0 <= i < count ==> #[trigger] xs@[i] == i16_of(u16_at(order, raw, 2 * i)),
        TagValue::SLong(xs) => field_type == 9 && xs@.len() == count && forall|i: int|
            0 <= i < count ==> #[trigger] xs@[i] == i32_of(u32_at(order, raw, 4 * i)),
        TagValue::SRational(xs) => field_type == 10 && xs@.len() == count && forall|i: int|
            0 <= i < count ==> #[trigger] xs@[i] == (
                i32_of(u32_at(order, raw, 8 * i)),
                i32_of(u32_at(order, raw, 8 * i + 4)),
            ),
        TagValue::Float(xs) => field_type == 11 && xs@.len() == count && forall|i: int|
            0 <= i < count ==> #[trigger] xs@[i] == u32_at(order, raw, 4 * i),
        TagValue::Double(xs) => field_type == 12 && xs@.len() == count && forall|i: int|
            0 <= i < count ==> #[trigger] xs@[i] == u64_at(order, raw, 8 * i),
    }
}

/// The error, if any, of decoding `count` values of `field_type` from `raw`.
pub open spec fn decode_error(field_type: u16, raw: Seq<u8>, count: nat) -> Option<FormatError> {
    match spec_field_type_size(field_type) {
        None => Some(FormatError::UnsupportedFieldType { field_type }),
        Some(size) => if raw.len() < count * size {
            Some(
                FormatError::Truncated {
                    needed: (count * size) as u64,
                    available: raw.len() as u64,
                },
            )
        } else if field_type == 2 && !valid_utf8(ascii_text_bytes(raw.take(count as int))) {
            Some(FormatError::InvalidEncoding)
        } else {
            None
        },
    }
}

/// The bytes that store the `u16` values `xs` one after another under `order`.
pub open spec fn encode_u16s(order: ByteOrder, xs: Seq<u16>) -> Seq<u8> {
    Seq::new(2 * xs.len(), |k: int| encode_u16(order, xs[k / 2])[k % 2])
}

/// Round trip of a `Short` value: the values stored in either byte order decode without
/// error, and the decoded value holds exactly those values, in order.
pub proof fn lemma_short_round_trip(order: ByteOrder, xs: Seq<u16>, v: TagValue)
    ensures
        decode_error(3, encode_u16s(order, xs), xs.len()) is None,
        value_decodes(v, 3, order, encode_u16s(order, xs), xs.len()) ==> (v matches TagValue::Short(
            ws,
        ) && ws@ == xs),
{
    let enc = encode_u16s(order, xs);
    if value_decodes(v, 3, order, enc, xs.len()) {
        if let TagValue::Short(ws) = v {
            assert forall|i: int| 0 <= i < xs.len() implies ws@[i] == xs[i] by {
                assert(enc[2 * i] == encode_u16(order, xs[i])[0]);
                assert(enc[2 * i + 1] == encode_u16(order, xs[i])[1]);
                lemma_round_trip(order, xs[i], 0, Seq::empty(), Seq::empty());
                assert(Seq::<u8>::empty() + encode_u16(order, xs[i]) + Seq::<u8>::empty()
                    =~= encode_u16(order, xs[i]));
            }
            assert(ws@ =~= xs);
        }
    }
}

/// The bytes that store the `u32` values `xs` one after another under `order`.
pub open spec fn encode_u32s(order: ByteOrder, xs: Seq<u32>) -> Seq<u8> {
    Seq::new(4 * xs.len(), |k: int| encode_u32(order, xs[k / 4])[k % 4])
}

/// Round trip of a `Long` value: the values stored in either byte order decode without
/// error, and the decoded value holds exactly those values, in order.
pub proof fn lemma_long_round_trip(order: ByteOrder, xs: Seq<u32>, v: TagValue)
    ensures
        decode_error(4, encode_u32s(order, xs), xs.len()) is None,
        value_decodes(v, 4, order, encode_u32s(order, xs), xs.len()) ==> (v matches TagValue::Long(
            ws,
        ) && ws@ == xs),
{
    let enc = encode_u32s(order, xs);
    if value_decodes(v, 4, order, enc, xs.len()) {
        if let TagValue::Long(ws) = v {
            assert forall|i: int| 0 <= i < xs.len() implies ws@[i] == xs[i] by {
                let e = encode_u32(order, xs[i]);
                assert(enc[4 * i] == e[0] && enc[4 * i + 1] == e[1]);
                assert(enc[4 * i + 2] == e[2] && enc[4 * i + 3] == e[3]);
                lemma_round_trip(order, 0, xs[i], Seq::empty(), Seq::empty());
                assert(Seq::<u8>::empty() + e + Seq::<u8>::empty() =~= e);
            }
            assert(ws@ =~= xs);
        }
    }
}

/// Relies on `String::from_utf8`: it succeeds exactly on valid UTF-8 and then holds the
/// characters that the bytes encode.
#[verifier::external_body]
fn text_from_utf8(bytes: Vec<u8>) -> (r: Option<String>)
    ensures
        r.is_some() == valid_utf8(bytes@),
        r matches Some(s) ==> s@ == decode_utf8(bytes@),
{
    String::from_utf8(bytes).ok()
}

fn take_bytes(raw: &[u8], n: usize) -> (r: Vec<u8>)
    requires
        n <= raw@.len(),
    ensures
        r@ == raw@.take(n as int),
{
    let mut out: Vec<u8> = Vec::new();
    let mut i: usize = 0;
    while i < n
        invariant
            i <= n <= raw@.len(),
            out@ == raw@.take(i as int),
        decreases n - i,
    {
        out.push(raw[i]);
        i += 1;
        assert(out@ =~= raw@.take(i as int));
    }
    out
}

fn decode_ascii(raw: &[u8], n: usize) -> (r: Option<String>)
    requires
        n <= raw@.len(),
    ensures
        r.is_some() == valid_utf8(ascii_text_bytes(raw@.take(n as int))),
        r matches Some(s) ==> s@ == decode_utf8(ascii_text_bytes(raw@.take(n as int))),
{
    let mut bytes = take_bytes(raw, n);
    if n > 0 && bytes[n - 1] == 0 {
        bytes.pop();
        assert(bytes@ =~= ascii_text_bytes(raw@.take(n as int)));
    }
    text_from_utf8(bytes)
}

fn decode_sbytes(raw: &[u8], n: usize) -> (r: Vec<i8>)
    requires
        n <= raw@.len(),
    ensures
        r@.len() == n,
        forall|i: int| 0 <= i < n ==> #[trigger] r@[i] == i8_of(raw@[i]),
{
    let mut out: Vec<i8> = Vec::new();
    let mut i: usize = 0;
    while i < n
        invariant
            i <= n <= raw@.len(),
            out@.len() == i,
            forall|j: int| 0 <= j < i ==> #[trigger] out@[j] == i8_of(raw@[j]),
        decreases n - i,
    {
        out.push(to_i8(raw[i]));
        i += 1;
    }
    out
}

fn decode_u16s(raw: &[u8], n: usize, order: ByteOrder) -> (r: Vec<u16>)
    requires
        2 * n <= raw@.len(),
    ensures
        r@.len() == n,
        forall|i: int| 0 <= i < n ==> #[trigger] r@[i] == u16_at(order, raw@, 2 * i),
{
    let len = raw.len();
    let mut out: Vec<u16> = Vec::new();
    let mut i: usize = 0;
    while i < n
        invariant
            i <= n,
            2 * n <= raw@.len(),
            len == raw@.len(),
            out@.len() == i,
            forall|j: int| 0 <= j < i ==> #[trigger] out@[j] == u16_at(order, raw@, 2 * j),
        decreases n - i,
    {
        let (v, _) = read_u16(raw, 2 * i, order).unwrap();
        out.push(v);
        i += 1;
    }
    out
}

fn decode_i16s(raw: &[u8], n: usize, order: ByteOrder) -> (r: Vec<i16>)
    requires
        2 * n <= raw@.len(),
    ensures
        r@.len() == n,
        forall|i: int| 0 <= i < n ==> #[trigger] r@[i] == i16_of(u16_at(order, raw@, 2 * i)),
{
    let len = raw.len();
    let mut out: Vec<i16> = Vec::new();
    let mut i: usize = 0;
    while i < n
        invariant
            i <= n,
            2 * n <= raw@.len(),
            len == raw@.len(),
            out@.len() == i,
            forall|j: int|
                0 <= j < i ==> #[trigger] out@[j] == i16_of(u16_at(order, raw@, 2 * j)),
        decreases n - i,
    {
        let (v, _) = read_i16(raw, 2 * i, order).unwrap();
        out.push(v);
        i += 1;
    }
    out
}

fn decode_u32s(raw: &[u8], n: usize, order: ByteOrder) -> (r: Vec<u32>)
    requires
        4 * n <= raw@.len(),
    ensures
        r@.len() == n,
        forall|i: int| 0 <= i < n ==> #[trigger] r@[i] == u32_at(order, raw@, 4 * i),
{
    let len = raw.len();
    let mut out: Vec<u32> = Vec::new();
    let mut i: usize = 0;
    while i < n
        invariant
            i <= n,
            4 * n <= raw@.len(),
            len == raw@.len(),
            out@.len() == i,
            forall|j: int| 0 <= j < i ==> #[trigger] out@[j] == u32_at(order, raw@, 4 * j),
        decreases n - i,
    {
        let (v, _) = read_u32(raw, 4 * i, order).unwrap();
        out.push(v);
        i += 1;
    }
    out
}

fn decode_i32s(raw: &[u8], n: usize, order: ByteOrder) -> (r: Vec<i32>)
    requires
        4 * n <= raw@.len(),
    ensures
        r@.len() == n,
        forall|i: int| 0 <= i < n ==> #[trigger] r@[i] == i32_of(u32_at(order, raw@, 4 * i)),
{
    let len = raw.len();
    let mut out: Vec<i32> = Vec::new();
    let mut i: usize = 0;
    while i < n
        invariant
            i <= n,
            4 * n <= raw@.len(),
            len == raw@.len(),
            out@.len() == i,
            forall|j: int|
                0 <= j < i ==> #[trigger] out@[j] == i32_of(u32_at(order, raw@, 4 * j)),
        decreases n - i,
    {
        let (v, _) = read_i32(raw, 4 * i, order).unwrap();
        out.push(v);
        i += 1;
    }
    out
}

fn decode_u64s(raw: &[u8], n: usize, order: ByteOrder) -> (r: Vec<u64>)
    requires
        8 * n <= raw@.len(),
    ensures
        r@.len() == n,
        forall|i: int| 0 <= i < n ==> #[trigger] r@[i] == u64_at(order, raw@, 8 * i),
{
    let len = raw.len();
    let mut out: Vec<u64> = Vec::new();
    let mut i: usize = 0;
    while i < n
        invariant
            i <= n,
            8 * n <= raw@.len(),
            len == raw@.len(),
            out@.len() == i,
            forall|j: int| 0 <= j < i ==> #[trigger] out@[j] == u64_at(order, raw@, 8 * j),
        decreases n - i,
    {
        let (v, _) = read_u64(raw, 8 * i, order).unwrap();
        out.push(v);
        i += 1;
    }
    out
}

fn decode_rationals(raw: &[u8], n: usize, order: ByteOrder) -> (r: Vec<(u32, u32)>)
    requires
        8 * n <= raw@.len(),
    ensures
        r@.len() == n,
        forall|i: int|
            0 <= i < n ==> #[trigger] r@[i] == (
                u32_at(order, raw@, 8 * i),
                u32_at(order, raw@, 8 * i + 4),
            ),
{
    let len = raw.len();
    let mut out: Vec<(u32, u32)> = Vec::new();
    let mut i: usize = 0;
    while i < n
        invariant
            i <= n,
            8 * n <= raw@.len(),
            len == raw@.len(),
            out@.len() == i,
            forall|j: int|
                0 <= j < i ==> #[trigger] out@[j] == (
                    u32_at(order, raw@, 8 * j),
                    u32_at(order, raw@, 8 * j + 4),
                ),
        decreases n - i,
    {
        let (num, next) = read_u32(raw, 8 * i, order).unwrap();
        let (den, _) = read_u32(raw, next, order).unwrap();
        out.push((num, den));
        i += 1;
    }
    out
}

fn decode_srationals(raw: &[u8], n: usize, order: ByteOrder) -> (r: Vec<(i32, i32)>)
    requires
        8 * n <= raw@.len(),
    ensures
        r@.len() == n,
        forall|i: int|
            0 <= i < n ==> #[trigger] r@[i] == (
                i32_of(u32_at(order, raw@, 8 * i)),
                i32_of(u32_at(order, raw@, 8 * i + 4)),
            ),
{
    let len = raw.len();
    let mut out: Vec<(i32, i32)> = Vec::new();
    let mut i: usize = 0;
    while i < n
        invariant
            i <= n,
            8 * n <= raw@.len(),
            len == raw@.len(),
            out@.len() == i,
            forall|j: int|
                0 <= j < i ==> #[trigger] out@[j] == (
                    i32_of(u32_at(order, raw@, 8 * j)),
                    i32_of(u32_at(order, raw@, 8 * j + 4)),
                ),
        decreases n - i,
    {
        let (num, next) = read_u32(raw, 8 * i, order).unwrap();
        let (den, _) = read_u32(raw, next, order).unwrap();
        out.push((to_i32(num), to_i32(den)));
        i += 1;
    }
    out
}

/// Decodes `count` values of `field_type` stored at the start of `raw` under `order`.
/// Fails on a field-type code outside the twelve types, on fewer bytes than the values
/// take, and on ASCII text that is not UTF-8; otherwise the value holds every element.
pub fn decode_value(field_type: u16, raw: &[u8], order: ByteOrder, count: u32) -> (r: Result<
    TagValue,
    FormatError,
>)
    ensures
        match decode_error(field_type, raw@, count as nat) {
            Some(e) => r == Err::<TagValue, FormatError>(e),
            None => r matches Ok(v) && value_decodes(v, field_type, order, raw@, count as nat),
        },
{
    let size = match field_type_size(field_type) {
        None => {
            return Err(FormatError::UnsupportedFieldType { field_type });
        },
        Some(s) => s,
    };
    let total: u64 = count as u64 * size;
    if (raw.len() as u64) < total {
        return Err(FormatError::Truncated { needed: total, available: raw.len() as u64 });
    }
    let n = count as usize;
    assert(n as int <= count as int * size as int) by (nonlinear_arith)
        requires
            size >= 1,
            n as int == count as int,
    ;
    match field_type {
        1 => Ok(TagValue::Byte(take_bytes(raw, n))),
        2 => match decode_ascii(raw, n) {
            Some(s) => Ok(TagValue::Ascii(s)),
            None => Err(FormatError::InvalidEncoding),
        },
        3 => Ok(TagValue::Short(decode_u16s(raw, n, order))),
        4 => Ok(TagValue::Long(decode_u32s(raw, n, order))),
        5 => Ok(TagValue::Rational(decode_rationals(raw, n, order))),
        6 => Ok(TagValue::SByte(decode_sbytes(raw, n))),
        7 => Ok(TagValue::Undefined(take_bytes(raw, n))),
        8 => Ok(TagValue::SShort(decode_i16s(raw, n, order))),
        9 => Ok(TagValue::SLong(decode_i32s(raw, n, order))),
        10 => Ok(TagValue::SRational(decode_srationals(raw, n, order))),
        11 => Ok(TagValue::Float(decode_u32s(raw, n, order))),
        _ => Ok(TagValue::Double(decode_u64s(raw, n, order))),
    }
}

} // verus!
