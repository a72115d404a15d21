//! The binary codec of typed values.
//!
//! Every encoded value is one tag byte followed by its payload. Counts
//! and string lengths are 64-bit little-endian; every character is its
//! Unicode scalar as 32-bit little-endian; an enum value is its 32-bit
//! ordinal. Decoding is keyed by the expected type and rejects a wrong
//! tag, a truncated buffer, an unknown ordinal, and a wrong struct
//! arity, each with its own error.

use vstd::bytes::{
    spec_u16_from_le_bytes, spec_u16_to_le_bytes, spec_u32_from_le_bytes, spec_u32_to_le_bytes,
    spec_u64_from_le_bytes, spec_u64_to_le_bytes,
};
use vstd::prelude::*;

use crate::model::{FieldModel, FieldValueModel, TypeModel, ValueModel};

verus! {

pub const TAG_TRIGGER: u8 = 1;

pub const TAG_BOOLEAN: u8 = 2;

pub const TAG_NUMBER: u8 = 3;

pub const TAG_STRING: u8 = 4;

pub const TAG_BYTES: u8 = 5;

pub const TAG_COLOR: u8 = 6;

pub const TAG_JSON: u8 = 7;

pub const TAG_SVG: u8 = 8;

pub const TAG_PATH: u8 = 9;

pub const TAG_ENUM: u8 = 10;

pub const TAG_STRUCT: u8 = 11;

pub const TAG_LIST: u8 = 12;

/// The distinct failure modes of decoding.
#[derive(Clone, Copy, Debug, PartialEq, Eq, Structural)]
pub enum DecodeError {
    /// The tag byte does not match the expected type.
    TagMismatch,
    /// The buffer ends before the payload does.
    Truncated,
    /// An enum ordinal at or beyond the variant count.
    UnknownOrdinal,
    /// A struct value whose field count differs from the declared one.
    ArityMismatch,
    /// A payload that holds no value, such as a character code outside
    /// the Unicode scalar range or a boolean byte beyond one.
    BadPayload,
    /// Bytes left over after the value.
    TrailingBytes,
}

/// A `u32` that is a Unicode scalar value, exactly the codes that `char`
/// can hold.
pub open spec fn char_scalar(u: u32) -> bool {
    u < 0xD800 || (0xE000 <= u && u <= 0x10FFFF)
}

/// Relies on `char::from_u32`: returns the character with the given
/// code, or `None` when the code is a surrogate or above the Unicode
/// maximum.
pub assume_specification[ char::from_u32 ](u: u32) -> (r: Option<char>)
    ensures
        r is Some <==> char_scalar(u),
        r matches Some(c) ==> c as u32 == u,
;

/// The tag byte that the encoding of a value of type `t` starts with.
pub open spec fn tag_of(t: TypeModel) -> u8 {
    match t {
        TypeModel::Trigger => TAG_TRIGGER,
        TypeModel::Boolean => TAG_BOOLEAN,
        TypeModel::Number => TAG_NUMBER,
        TypeModel::String => TAG_STRING,
        TypeModel::Bytes => TAG_BYTES,
        TypeModel::Color => TAG_COLOR,
        TypeModel::Json => TAG_JSON,
        TypeModel::Svg => TAG_SVG,
        TypeModel::Path => TAG_PATH,
        TypeModel::Enum { .. } => TAG_ENUM,
        TypeModel::Struct { .. } => TAG_STRUCT,
        TypeModel::List { .. } => TAG_LIST,
    }
}

/// A count or length on the wire: 64-bit little-endian.
pub open spec fn encode_len(n: int) -> Seq<u8> {
    spec_u64_to_le_bytes(n as u64)
}

/// The characters of a string on the wire, four bytes each.
pub open spec fn encode_chars(cs: Seq<char>) -> Seq<u8>
    decreases cs,
{
    if cs.len() == 0 {
        Seq::empty()
    } else {
        spec_u32_to_le_bytes(cs[0] as u32) + encode_chars(cs.drop_first())
    }
}

/// Path components on the wire: each a length and its characters.
pub open spec fn encode_comps(comps: Seq<Seq<char>>) -> Seq<u8>
    decreases comps,
{
    if comps.len() == 0 {
        Seq::empty()
    } else {
        encode_len(comps[0].len() as int) + encode_chars(comps[0]) + encode_comps(
            comps.drop_first(),
        )
    }
}

/// The encoding of a value against its type. Meaningful for well-formed
/// pairs; yields the empty sequence where the shapes cannot match.
pub open spec fn encode_value(t: TypeModel, v: ValueModel) -> Seq<u8>
    decreases v, 1int,
{
    match v {
        ValueModel::Trigger => seq![TAG_TRIGGER],
        ValueModel::Boolean(b) => seq![
            TAG_BOOLEAN,
            if b {
                1u8
            } else {
                0u8
            },
        ],
        ValueModel::Number(n) => seq![TAG_NUMBER] + spec_u64_to_le_bytes(n),
        ValueModel::String(cs) => seq![TAG_STRING] + encode_len(cs.len() as int) + encode_chars(
            cs,
        ),
        ValueModel::Bytes(bs) => seq![TAG_BYTES] + encode_len(bs.len() as int) + bs,
        ValueModel::Color { r, g, b, a } => seq![TAG_COLOR] + spec_u16_to_le_bytes(r)
            + spec_u16_to_le_bytes(g) + spec_u16_to_le_bytes(b) + spec_u16_to_le_bytes(a),
        ValueModel::Json(cs) => seq![TAG_JSON] + encode_len(cs.len() as int) + encode_chars(cs),
        ValueModel::Svg(cs) => seq![TAG_SVG] + encode_len(cs.len() as int) + encode_chars(cs),
        ValueModel::Path(comps) => seq![TAG_PATH] + encode_len(comps.len() as int) + encode_comps(
            comps,
        ),
        ValueModel::Enum { name: _, ordinal } => seq![TAG_ENUM] + spec_u32_to_le_bytes(ordinal),
        ValueModel::Struct(entries) => match t {
            TypeModel::Struct { name: _, fields } => seq![TAG_STRUCT] + encode_len(
                entries.len() as int,
            ) + encode_entries(fields, entries),
            _ => Seq::empty(),
        },
        ValueModel::List(items) => match t {
            TypeModel::List { elem } => seq![TAG_LIST] + encode_len(items.len() as int)
                + encode_items(*elem, items),
            _ => Seq::empty(),
        },
    }
}

/// The encodings of list items, in order.
pub open spec fn encode_items(et: TypeModel, items: Seq<ValueModel>) -> Seq<u8>
    decreases items, 0int,
{
    if items.len() == 0 {
        Seq::empty()
    } else {
        encode_value(et, items[0]) + encode_items(et, items.drop_first())
    }
}

/// The encodings of struct entries against the declared fields, in
/// declared order. Field names stay off the wire.
pub open spec fn encode_entries(fields: Seq<FieldModel>, entries: Seq<FieldValueModel>) -> Seq<u8>
    decreases entries, 0int,
{
    if entries.len() == 0 || fields.len() == 0 {
        Seq::empty()
    } else {
        encode_value(fields[0].ty, entries[0].value) + encode_entries(
            fields.drop_first(),
            entries.drop_first(),
        )
    }
}

/// Every count in the value fits the 64-bit wire format.
pub open spec fn value_bounded(v: ValueModel) -> bool
    decreases v, 1int,
{
    match v {
        ValueModel::String(cs) => cs.len() <= u64::MAX,
        ValueModel::Json(cs) => cs.len() <= u64::MAX,
        ValueModel::Svg(cs) => cs.len() <= u64::MAX,
        ValueModel::Bytes(bs) => bs.len() <= u64::MAX,
        ValueModel::Path(comps) => comps.len() <= u64::MAX && (forall|i: int|
            0 <= i < comps.len() ==> (#[trigger] comps[i]).len() <= u64::MAX),
        ValueModel::Struct(entries) => entries.len() <= u64::MAX && entries_bounded(entries),
        ValueModel::List(items) => items.len() <= u64::MAX && items_bounded(items),
        _ => true,
    }
}

/// Every struct entry's value is bounded.
pub open spec fn entries_bounded(entries: Seq<FieldValueModel>) -> bool
    decreases entries, 0int,
{
    entries.len() == 0 || (value_bounded(entries[0].value) && entries_bounded(
        entries.drop_first(),
    ))
}

/// Every list item is bounded.
pub open spec fn items_bounded(items: Seq<ValueModel>) -> bool
    decreases items, 0int,
{
    items.len() == 0 || (value_bounded(items[0]) && items_bounded(items.drop_first()))
}

/// The decode of `n` characters starting at `pos`.
pub open spec fn decode_chars(bytes: Seq<u8>, pos: int, n: int) -> Result<
    (Seq<char>, int),
    DecodeError,
>
    decreases n,
{
    if n <= 0 {
        Ok((Seq::empty(), pos))
    } else if 0 <= pos && pos + 4 <= bytes.len() {
        let u = spec_u32_from_le_bytes(bytes.subrange(pos, pos + 4));
        if char_scalar(u) {
            match decode_chars(bytes, pos + 4, n - 1) {
                Ok((rest, e)) => Ok((seq![u as char] + rest, e)),
                Err(er) => Err(er),
            }
        } else {
            Err(DecodeError::BadPayload)
        }
    } else {
        Err(DecodeError::Truncated)
    }
}

/// The decode of `n` path components starting at `pos`.
pub open spec fn decode_comps(bytes: Seq<u8>, pos: int, n: int) -> Result<
    (Seq<Seq<char>>, int),
    DecodeError,
>
    decreases n,
{
    if n <= 0 {
        Ok((Seq::empty(), pos))
    } else if 0 <= pos && pos + 8 <= bytes.len() {
        let m = spec_u64_from_le_bytes(bytes.subrange(pos, pos + 8)) as int;
        match decode_chars(bytes, pos + 8, m) {
            Ok((cs, p2)) => match decode_comps(bytes, p2, n - 1) {
                Ok((rest, e)) => Ok((seq![cs] + rest, e)),
                Err(er) => Err(er),
            },
            Err(er) => Err(er),
        }
    } else {
        Err(DecodeError::Truncated)
    }
}

/// The decode of one value of type `t` starting at `pos`: the value and
/// the position after it, or the failure mode.
pub open spec fn decode_value(t: TypeModel, bytes: Seq<u8>, pos: int) -> Result<
    (ValueModel, int),
    DecodeError,
>
    decreases bytes.len() - pos, 0int, 0int,
{
    if !(0 <= pos && pos < bytes.len()) {
        Err(DecodeError::Truncated)
    } else if bytes[pos] != tag_of(t) {
        Err(DecodeError::TagMismatch)
    } else {
        let pos1 = pos + 1;
        match t {
            TypeModel::Trigger => Ok((ValueModel::Trigger, pos1)),
            TypeModel::Boolean => {
                if pos1 < bytes.len() {
                    if bytes[pos1] == 0 {
                        Ok((ValueModel::Boolean(false), pos1 + 1))
                    } else if bytes[pos1] == 1 {
                        Ok((ValueModel::Boolean(true), pos1 + 1))
                    } else {
                        Err(DecodeError::BadPayload)
                    }
                } else {
                    Err(DecodeError::Truncated)
                }
            },
            TypeModel::Number => {
                if pos1 + 8 <= bytes.len() {
                    Ok(
                        (
                            ValueModel::Number(
                                spec_u64_from_le_bytes(bytes.subrange(pos1, pos1 + 8)),
                            ),
                            pos1 + 8,
                        ),
                    )
                } else {
                    Err(DecodeError::Truncated)
                }
            },
            TypeModel::String => match decode_counted_chars(bytes, pos1) {
                Ok((cs, e)) => Ok((ValueModel::String(cs), e)),
                Err(er) => Err(er),
            },
            TypeModel::Json => match decode_counted_chars(bytes, pos1) {
                Ok((cs, e)) => Ok((ValueModel::Json(cs), e)),
                Err(er) => Err(er),
            },
            TypeModel::Svg => match decode_counted_chars(bytes, pos1) {
                Ok((cs, e)) => Ok((ValueModel::Svg(cs), e)),
                Err(er) => Err(er),
            },
            TypeModel::Bytes => {
                if pos1 + 8 <= bytes.len() {
                    let n = spec_u64_from_le_bytes(bytes.subrange(pos1, pos1 + 8)) as int;
                    if n <= bytes.len() - (pos1 + 8) {
                        Ok((ValueModel::Bytes(bytes.subrange(pos1 + 8, pos1 + 8 + n)), pos1 + 8 + n))
                    } else {
                        Err(DecodeError::Truncated)
                    }
                } else {
                    Err(DecodeError::Truncated)
                }
            },
            TypeModel::Color => {
                if pos1 + 8 <= bytes.len() {
                    Ok(
                        (
                            ValueModel::Color {
                                r: spec_u16_from_le_bytes(bytes.subrange(pos1, pos1 + 2)),
                                g: spec_u16_from_le_bytes(bytes.subrange(pos1 + 2, pos1 + 4)),
                                b: spec_u16_from_le_bytes(bytes.subrange(pos1 + 4, pos1 + 6)),
                                a: spec_u16_from_le_bytes(bytes.subrange(pos1 + 6, pos1 + 8)),
                            },
                            pos1 + 8,
                        ),
                    )
                } else {
                    Err(DecodeError::Truncated)
                }
            },
            TypeModel::Path => {
                if pos1 + 8 <= bytes.len() {
                    let n = spec_u64_from_le_bytes(bytes.subrange(pos1, pos1 + 8)) as int;
                    match decode_comps(bytes, pos1 + 8, n) {
                        Ok((comps, e)) => Ok((ValueModel::Path(comps), e)),
                        Err(er) => Err(er),
                    }
                } else {
                    Err(DecodeError::Truncated)
                }
            },
            TypeModel::Enum { name: _, variants } => {
                if pos1 + 4 <= bytes.len() {
                    let ord = spec_u32_from_le_bytes(bytes.subrange(pos1, pos1 + 4));
                    if (ord as int) < variants.len() {
                        Ok(
                            (
                                ValueModel::Enum { name: variants[ord as int], ordinal: ord },
                                pos1 + 4,
                            ),
                        )
                    } else {
                        Err(DecodeError::UnknownOrdinal)
                    }
                } else {
                    Err(DecodeError::Truncated)
                }
            },
            TypeModel::Struct { name: _, fields } => {
                if pos1 + 8 <= bytes.len() {
                    let n = spec_u64_from_le_bytes(bytes.subrange(pos1, pos1 + 8)) as int;
                    if n != fields.len() {
                        Err(DecodeError::ArityMismatch)
                    } else {
                        match decode_entries(fields, bytes, pos1 + 8) {
                            Ok((entries, e)) => Ok((ValueModel::Struct(entries), e)),
                            Err(er) => Err(er),
                        }
                    }
                } else {
                    Err(DecodeError::Truncated)
                }
            },
            TypeModel::List { elem } => {
                if pos1 + 8 <= bytes.len() {
                    let n = spec_u64_from_le_bytes(bytes.subrange(pos1, pos1 + 8)) as int;
                    if n <= bytes.len() - (pos1 + 8) {
                        match decode_items(*elem, bytes, pos1 + 8, n) {
                            Ok((items, e)) => Ok((ValueModel::List(items), e)),
                            Err(er) => Err(er),
                        }
                    } else {
                        Err(DecodeError::Truncated)
                    }
                } else {
                    Err(DecodeError::Truncated)
                }
            },
        }
    }
}

/// The decode of a count followed by that many characters.
pub open spec fn decode_counted_chars(bytes: Seq<u8>, pos: int) -> Result<
    (Seq<char>, int),
    DecodeError,
> {
    if 0 <= pos && pos + 8 <= bytes.len() {
        let n = spec_u64_from_le_bytes(bytes.subrange(pos, pos + 8)) as int;
        decode_chars(bytes, pos + 8, n)
    } else {
        Err(DecodeError::Truncated)
    }
}

/// The decode of `n` list items of type `et` starting at `pos`.
pub open spec fn decode_items(et: TypeModel, bytes: Seq<u8>, pos: int, n: int) -> Result<
    (Seq<ValueModel>, int),
    DecodeError,
>
    decreases bytes.len() - pos, 1int, n,
{
    if n <= 0 {
        Ok((Seq::empty(), pos))
    } else {
        match decode_value(et, bytes, pos) {
            Ok((v, p2)) => {
                if pos < p2 && p2 <= bytes.len() {
                    match decode_items(et, bytes, p2, n - 1) {
                        Ok((rest, e)) => Ok((seq![v] + rest, e)),
                        Err(er) => Err(er),
                    }
                } else {
                    Err(DecodeError::Truncated)
                }
            },
            Err(er) => Err(er),
        }
    }
}

/// The decode of one value per declared field, in declared order.
pub open spec fn decode_entries(fields: Seq<FieldModel>, bytes: Seq<u8>, pos: int) -> Result<
    (Seq<FieldValueModel>, int),
    DecodeError,
>
    decreases bytes.len() - pos, 1int, fields.len(),
{
    if fields.len() == 0 {
        Ok((Seq::empty(), pos))
    } else {
        match decode_value(fields[0].ty, bytes, pos) {
            Ok((v, p2)) => {
                if pos < p2 && p2 <= bytes.len() {
                    match decode_entries(fields.drop_first(), bytes, p2) {
                        Ok((rest, e)) => Ok(
                            (seq![FieldValueModel { name: fields[0].name, value: v }] + rest, e),
                        ),
                        Err(er) => Err(er),
                    }
                } else {
                    Err(DecodeError::Truncated)
                }
            },
            Err(er) => Err(er),
        }
    }
}

/// The decode of a whole blob: one value of type `t`, using every byte.
pub open spec fn decode_full(t: TypeModel, bytes: Seq<u8>) -> Result<ValueModel, DecodeError> {
    match decode_value(t, bytes, 0) {
        Ok((v, e)) => {
            if e == bytes.len() {
                Ok(v)
            } else {
                Err(DecodeError::TrailingBytes)
            }
        },
        Err(er) => Err(er),
    }
}

} // verus!

// The executable encoder and decoder follow; each mirrors the
// specification functions above step by step.

use vstd::bytes::{u16_to_le_bytes, u32_to_le_bytes, u64_to_le_bytes};
use vstd::bytes::{u16_from_le_bytes, u32_from_le_bytes, u64_from_le_bytes};
use vstd::slice::{slice_index_get, slice_subrange, slice_to_vec};

use crate::errors::{CommanderError, ErrorKind};
use crate::model::{struct_value_wf, list_value_wf, value_wf};
use crate::strings::str_eq;
use crate::types::{
    dt_model, entries_model, fields_model, value_model, values_model, CommanderDataType,
    CommanderEnumVariant, CommanderStructField, CommanderValue, ColorValue, JsonString, SvgString,
    StructFieldValue,
};

verus! {

fn push_u64(out: &mut Vec<u8>, x: u64)
    ensures
        final(out)@ == old(out)@ + spec_u64_to_le_bytes(x),
{
    let mut tmp = u64_to_le_bytes(x);
    out.append(&mut tmp);
}

fn push_u32(out: &mut Vec<u8>, x: u32)
    ensures
        final(out)@ == old(out)@ + spec_u32_to_le_bytes(x),
{
    let mut tmp = u32_to_le_bytes(x);
    out.append(&mut tmp);
}

fn push_u16(out: &mut Vec<u8>, x: u16)
    ensures
        final(out)@ == old(out)@ + spec_u16_to_le_bytes(x),
{
    let mut tmp = u16_to_le_bytes(x);
    out.append(&mut tmp);
}

fn push_chars(s: &str, out: &mut Vec<u8>)
    ensures
        final(out)@ == old(out)@ + encode_chars(s@),
    decreases s@.len(),
{
    let len = s.unicode_len();
    let mut i: usize = 0;
    proof {
        assert(s@.skip(0) =~= s@);
    }
    while i < len
        invariant
            len == s@.len(),
            0 <= i <= len,
            out@ + encode_chars(s@.skip(i as int)) == old(out)@ + encode_chars(s@),
        decreases len - i,
    {
        let c = s.get_char(i);
        push_u32(out, c as u32);
        proof {
            assert(s@.skip(i as int)[0] == s@[i as int]);
            assert(s@.skip(i as int).drop_first() =~= s@.skip(i as int + 1));
            assert(out@ + encode_chars(s@.skip(i as int + 1)) =~= old(out)@ + encode_chars(s@));
        }
        i = i + 1;
    }
    proof {
        assert(s@.skip(len as int) =~= Seq::<char>::empty());
        assert(out@ =~= old(out)@ + encode_chars(s@));
    }
}

fn push_bytes(bs: &Vec<u8>, out: &mut Vec<u8>)
    ensures
        final(out)@ == old(out)@ + bs@,
{
    let mut i: usize = 0;
    while i < bs.len()
        invariant
            0 <= i <= bs@.len(),
            out@ == old(out)@ + bs@.take(i as int),
        decreases bs@.len() - i,
    {
        out.push(bs[i]);
        proof {
            assert(bs@.take(i as int + 1) =~= bs@.take(i as int).push(bs@[i as int]));
            assert(out@ =~= old(out)@ + bs@.take(i as int + 1));
        }
        i = i + 1;
    }
    proof {
        assert(bs@.take(bs@.len() as int) =~= bs@);
    }
}

fn encode_into(t: &CommanderDataType, v: &CommanderValue, out: &mut Vec<u8>) -> (ok: bool)
    ensures
        ok <==> value_wf(value_model(*v), dt_model(*t)),
        ok ==> final(out)@ == old(out)@ + encode_value(dt_model(*t), value_model(*v)),
    decreases *v, 0int, 2int,
{
    match (t, v) {
        (CommanderDataType::Trigger(_), CommanderValue::Trigger) => {
            out.push(TAG_TRIGGER);
            proof {
                assert(out@ =~= old(out)@ + encode_value(dt_model(*t), value_model(*v)));
            }
            true
        },
        (CommanderDataType::Boolean(_), CommanderValue::Boolean(b)) => {
            out.push(TAG_BOOLEAN);
            out.push(
                if *b {
                    1u8
                } else {
                    0u8
                },
            );
            proof {
                assert(out@ =~= old(out)@ + encode_value(dt_model(*t), value_model(*v)));
            }
            true
        },
        (CommanderDataType::Number(_), CommanderValue::Number(n)) => {
            out.push(TAG_NUMBER);
            push_u64(out, *n);
            proof {
                assert(out@ =~= old(out)@ + encode_value(dt_model(*t), value_model(*v)));
            }
            true
        },
        (CommanderDataType::String(_), CommanderValue::String(s)) => {
            out.push(TAG_STRING);
            push_u64(out, s.unicode_len() as u64);
            push_chars(s.as_str(), out);
            proof {
                assert(out@ =~= old(out)@ + encode_value(dt_model(*t), value_model(*v)));
            }
            true
        },
        (CommanderDataType::Json(_), CommanderValue::Json(j)) => {
            out.push(TAG_JSON);
            push_u64(out, j.0.unicode_len() as u64);
            push_chars(j.0.as_str(), out);
            proof {
                assert(out@ =~= old(out)@ + encode_value(dt_model(*t), value_model(*v)));
            }
            true
        },
        (CommanderDataType::Svg(_), CommanderValue::Svg(s)) => {
            out.push(TAG_SVG);
            push_u64(out, s.0.unicode_len() as u64);
            push_chars(s.0.as_str(), out);
            proof {
                assert(out@ =~= old(out)@ + encode_value(dt_model(*t), value_model(*v)));
            }
            true
        },
        (CommanderDataType::Bytes(_), CommanderValue::Bytes(bs)) => {
            out.push(TAG_BYTES);
            push_u64(out, bs.len() as u64);
            push_bytes(bs, out);
            proof {
                assert(out@ =~= old(out)@ + encode_value(dt_model(*t), value_model(*v)));
            }
            true
        },
        (CommanderDataType::Color(_), CommanderValue::Color(c)) => {
            out.push(TAG_COLOR);
            push_u16(out, c.r);
            push_u16(out, c.g);
            push_u16(out, c.b);
            push_u16(out, c.a);
            proof {
                assert(out@ =~= old(out)@ + encode_value(dt_model(*t), value_model(*v)));
            }
            true
        },
        (CommanderDataType::Path(_), CommanderValue::Path(comps)) => {
            out.push(TAG_PATH);
            push_u64(out, comps.len() as u64);
            let ghost cm = comps@.map_values(|x: String| x@);
            let mut i: usize = 0;
            proof {
                assert(cm.skip(0) =~= cm);
            }
            while i < comps.len()
                invariant
                    0 <= i <= comps@.len(),
                    cm == comps@.map_values(|x: String| x@),
                    out@ + encode_comps(cm.skip(i as int)) == old(out)@ + seq![TAG_PATH]
                        + encode_len(cm.len() as int) + encode_comps(cm),
                decreases comps@.len() - i,
            {
                push_u64(out, comps[i].unicode_len() as u64);
                push_chars(comps[i].as_str(), out);
                proof {
                    assert(cm.skip(i as int)[0] == cm[i as int]);
                    assert(cm.skip(i as int).drop_first() =~= cm.skip(i as int + 1));
                    assert(out@ + encode_comps(cm.skip(i as int + 1)) =~= old(out)@ + seq![
                        TAG_PATH,
                    ] + encode_len(cm.len() as int) + encode_comps(cm));
                }
                i = i + 1;
            }
            proof {
                assert(cm.skip(cm.len() as int) =~= Seq::<Seq<char>>::empty());
                assert(out@ =~= old(out)@ + encode_value(dt_model(*t), value_model(*v)));
            }
            true
        },
        (CommanderDataType::Enum(et), CommanderValue::Enum(variant)) => {
            let count = et.variants.len();
            if (variant.ordinal as usize) < count && str_eq(
                variant.name.as_str(),
                et.variants[variant.ordinal as usize].name.as_str(),
            ) {
                out.push(TAG_ENUM);
                push_u32(out, variant.ordinal);
                proof {
                    assert(out@ =~= old(out)@ + encode_value(dt_model(*t), value_model(*v)));
                }
                true
            } else {
                false
            }
        },
        (CommanderDataType::Struct(st), CommanderValue::Struct(entries)) => {
            proof {
                crate::types::lemma_entries_model_index(entries@);
                crate::types::lemma_fields_model_index(st.fields@);
            }
            if entries.len() != st.fields.len() {
                false
            } else {
                out.push(TAG_STRUCT);
                push_u64(out, entries.len() as u64);
                let ok = encode_entries_into(&st.fields, entries, 0, out);
                proof {
                    assert(entries_model(entries@).skip(0) =~= entries_model(entries@));
                    assert(fields_model(st.fields@).skip(0) =~= fields_model(st.fields@));
                    if ok {
                        assert(out@ =~= old(out)@ + encode_value(dt_model(*t), value_model(*v)));
                    }
                }
                ok
            }
        },
        (CommanderDataType::List(lt), CommanderValue::List(items)) => {
            proof {
                crate::types::lemma_values_model_index(items@);
            }
            out.push(TAG_LIST);
            push_u64(out, items.len() as u64);
            let ok = encode_items_into(&lt.element, items, 0, out);
            proof {
                assert(values_model(items@).skip(0) =~= values_model(items@));
                if ok {
                    assert(out@ =~= old(out)@ + encode_value(dt_model(*t), value_model(*v)));
                }
            }
            ok
        },
        _ => {
            proof {
                assert(!value_wf(value_model(*v), dt_model(*t)));
            }
            false
        },
    }
}

fn encode_entries_into(
    fields: &Vec<CommanderStructField>,
    entries: &Vec<StructFieldValue>,
    i: usize,
    out: &mut Vec<u8>,
) -> (ok: bool)
    requires
        i <= entries@.len(),
        entries@.len() == fields@.len(),
    ensures
        ok <==> struct_value_wf(
            entries_model(entries@).skip(i as int),
            fields_model(fields@).skip(i as int),
        ),
        ok ==> final(out)@ == old(out)@ + encode_entries(
            fields_model(fields@).skip(i as int),
            entries_model(entries@).skip(i as int),
        ),
    decreases entries, entries@.len() - i, 1int,
{
    proof {
        crate::types::lemma_entries_model_index(entries@);
        crate::types::lemma_fields_model_index(fields@);
    }
    let ghost em = entries_model(entries@);
    let ghost fm = fields_model(fields@);
    if i == entries.len() {
        proof {
            assert(em.skip(i as int) =~= Seq::<crate::model::FieldValueModel>::empty());
            assert(fm.skip(i as int) =~= Seq::<crate::model::FieldModel>::empty());
        }
        true
    } else {
        proof {
            assert(em.skip(i as int)[0] == em[i as int]);
            assert(fm.skip(i as int)[0] == fm[i as int]);
            assert(em.skip(i as int).drop_first() =~= em.skip(i as int + 1));
            assert(fm.skip(i as int).drop_first() =~= fm.skip(i as int + 1));
        }
        if !str_eq(entries[i].name.as_str(), fields[i].name.as_str()) {
            false
        } else {
            let sub_ok = encode_into(&fields[i].data_type, &entries[i].value, out);
            if !sub_ok {
                false
            } else {
                let rest_ok = encode_entries_into(fields, entries, i + 1, out);
                proof {
                    if rest_ok {
                        assert(out@ =~= old(out)@ + encode_entries(
                            fm.skip(i as int),
                            em.skip(i as int),
                        ));
                    }
                }
                rest_ok
            }
        }
    }
}

fn encode_items_into(
    et: &CommanderDataType,
    items: &Vec<CommanderValue>,
    i: usize,
    out: &mut Vec<u8>,
) -> (ok: bool)
    requires
        i <= items@.len(),
    ensures
        ok <==> list_value_wf(values_model(items@).skip(i as int), dt_model(*et)),
        ok ==> final(out)@ == old(out)@ + encode_items(dt_model(*et), values_model(items@).skip(i as int)),
    decreases items, items@.len() - i, 1int,
{
    proof {
        crate::types::lemma_values_model_index(items@);
    }
    let ghost im = values_model(items@);
    if i == items.len() {
        proof {
            assert(im.skip(i as int) =~= Seq::<crate::model::ValueModel>::empty());
        }
        true
    } else {
        proof {
            assert(im.skip(i as int)[0] == im[i as int]);
            assert(im.skip(i as int).drop_first() =~= im.skip(i as int + 1));
        }
        let sub_ok = encode_into(et, &items[i], out);
        if !sub_ok {
            false
        } else {
            let rest_ok = encode_items_into(et, items, i + 1, out);
            proof {
                if rest_ok {
                    assert(out@ =~= old(out)@ + encode_items(dt_model(*et), im.skip(i as int)));
                }
            }
            rest_ok
        }
    }
}

impl CommanderDataType {
    /// Encodes a value against this type. Succeeds exactly when the
    /// value is well-formed against the type; a mismatched value yields
    /// a `TypeMismatch` error.
    pub fn encode(&self, value: &CommanderValue) -> (r: Result<Vec<u8>, CommanderError>)
        ensures
            r is Ok <==> value_wf(value@, self@),
            r matches Ok(b) ==> b@ == encode_value(self@, value@),
            r matches Err(e) ==> e.kind == ErrorKind::TypeMismatch,
    {
        let mut out: Vec<u8> = Vec::new();
        let ok = encode_into(self, value, &mut out);
        if ok {
            proof {
                assert(out@ =~= encode_value(dt_model(*self), value_model(*value)));
            }
            Ok(out)
        } else {
            Err(
                CommanderError::new(
                    ErrorKind::TypeMismatch,
                    crate::strings::str_to_string("value does not match the declared type"),
                ),
            )
        }
    }
}

} // verus!

verus! {

fn read_u16(bytes: &[u8], pos: usize) -> (r: u16)
    requires
        pos + 2 <= bytes@.len(),
    ensures
        r == spec_u16_from_le_bytes(bytes@.subrange(pos as int, pos as int + 2)),
{
    let l = bytes.len();
    u16_from_le_bytes(slice_subrange(bytes, pos, pos + 2))
}

fn read_u32(bytes: &[u8], pos: usize) -> (r: u32)
    requires
        pos + 4 <= bytes@.len(),
    ensures
        r == spec_u32_from_le_bytes(bytes@.subrange(pos as int, pos as int + 4)),
{
    let l = bytes.len();
    u32_from_le_bytes(slice_subrange(bytes, pos, pos + 4))
}

fn read_u64(bytes: &[u8], pos: usize) -> (r: u64)
    requires
        pos + 8 <= bytes@.len(),
    ensures
        r == spec_u64_from_le_bytes(bytes@.subrange(pos as int, pos as int + 8)),
{
    let l = bytes.len();
    u64_from_le_bytes(slice_subrange(bytes, pos, pos + 8))
}

fn decode_chars_exec(bytes: &[u8], pos: usize, n: u64) -> (r: Result<(Vec<char>, usize), DecodeError>)
    requires
        pos <= bytes@.len(),
    ensures
        r matches Ok((cs, e)) ==> decode_chars(bytes@, pos as int, n as int) == Ok::<
            (Seq<char>, int),
            DecodeError,
        >((cs@, e as int)) && pos <= e <= bytes@.len(),
        r matches Err(er) ==> decode_chars(bytes@, pos as int, n as int) == Err::<
            (Seq<char>, int),
            DecodeError,
        >(er),
{
    let mut acc: Vec<char> = Vec::new();
    let mut cur: usize = pos;
    let mut k: u64 = 0;
    while k < n
        invariant
            pos <= cur <= bytes@.len(),
            k <= n,
            acc@.len() == k,
            decode_chars(bytes@, pos as int, n as int) == (match decode_chars(
                bytes@,
                cur as int,
                (n - k) as int,
            ) {
                Ok((rest, e)) => Ok::<(Seq<char>, int), DecodeError>((acc@ + rest, e)),
                Err(er) => Err::<(Seq<char>, int), DecodeError>(er),
            }),
        decreases n - k,
    {
        if bytes.len() - cur < 4 {
            return Err(DecodeError::Truncated);
        }
        let u = read_u32(bytes, cur);
        match char::from_u32(u) {
            Some(c) => {
                let ghost before = acc@;
                acc.push(c);
                cur = cur + 4;
                k = k + 1;
                proof {
                    vstd::utf8::char_u32_cast(c, u);
                    assert(acc@ =~= before + seq![c]);
                    if let Ok((rest2, e2)) = decode_chars(bytes@, cur as int, (n - k) as int) {
                        assert((before + seq![c]) + rest2 =~= before + (seq![c] + rest2));
                    }
                }
            },
            None => {
                return Err(DecodeError::BadPayload);
            },
        }
    }
    proof {
        assert(acc@ + Seq::<char>::empty() =~= acc@);
    }
    Ok((acc, cur))
}

fn decode_counted_chars_exec(bytes: &[u8], pos: usize) -> (r: Result<
    (Vec<char>, usize),
    DecodeError,
>)
    requires
        pos <= bytes@.len(),
    ensures
        r matches Ok((cs, e)) ==> decode_counted_chars(bytes@, pos as int) == Ok::<
            (Seq<char>, int),
            DecodeError,
        >((cs@, e as int)) && pos <= e <= bytes@.len(),
        r matches Err(er) ==> decode_counted_chars(bytes@, pos as int) == Err::<
            (Seq<char>, int),
            DecodeError,
        >(er),
{
    if bytes.len() - pos < 8 {
        return Err(DecodeError::Truncated);
    }
    let n = read_u64(bytes, pos);
    decode_chars_exec(bytes, pos + 8, n)
}

fn decode_comps_exec(bytes: &[u8], pos: usize, n: u64) -> (r: Result<
    (Vec<String>, usize),
    DecodeError,
>)
    requires
        pos <= bytes@.len(),
    ensures
        r matches Ok((cs, e)) ==> decode_comps(bytes@, pos as int, n as int) == Ok::<
            (Seq<Seq<char>>, int),
            DecodeError,
        >((cs@.map_values(|x: String| x@), e as int)) && pos <= e <= bytes@.len(),
        r matches Err(er) ==> decode_comps(bytes@, pos as int, n as int) == Err::<
            (Seq<Seq<char>>, int),
            DecodeError,
        >(er),
{
    let mut acc: Vec<String> = Vec::new();
    let mut cur: usize = pos;
    let mut k: u64 = 0;
    proof {
        assert(acc@.map_values(|x: String| x@) =~= Seq::<Seq<char>>::empty());
    }
    while k < n
        invariant
            pos <= cur <= bytes@.len(),
            k <= n,
            decode_comps(bytes@, pos as int, n as int) == (match decode_comps(
                bytes@,
                cur as int,
                (n - k) as int,
            ) {
                Ok((rest, e)) => Ok::<(Seq<Seq<char>>, int), DecodeError>(
                    (acc@.map_values(|x: String| x@) + rest, e),
                ),
                Err(er) => Err::<(Seq<Seq<char>>, int), DecodeError>(er),
            }),
        decreases n - k,
    {
        let ghost am = acc@.map_values(|x: String| x@);
        if bytes.len() - cur < 8 {
            return Err(DecodeError::Truncated);
        }
        let m = read_u64(bytes, cur);
        match decode_chars_exec(bytes, cur + 8, m) {
            Ok((cs, p2)) => {
                let comp = crate::strings::string_from_chars(&cs);
                acc.push(comp);
                cur = p2;
                k = k + 1;
                proof {
                    assert(acc@.map_values(|x: String| x@) =~= am + seq![cs@]);
                    if let Ok((rest2, e2)) = decode_comps(bytes@, cur as int, (n - k) as int) {
                        assert((am + seq![cs@]) + rest2 =~= am + (seq![cs@] + rest2));
                    }
                }
            },
            Err(er) => {
                return Err(er);
            },
        }
    }
    proof {
        assert(acc@.map_values(|x: String| x@) + Seq::<Seq<char>>::empty() =~= acc@.map_values(
            |x: String| x@,
        ));
    }
    Ok((acc, cur))
}

fn decode_value_exec(t: &CommanderDataType, bytes: &[u8], pos: usize) -> (r: Result<
    (CommanderValue, usize),
    DecodeError,
>)
    requires
        pos <= bytes@.len(),
    ensures
        r matches Ok((v, e)) ==> decode_value(dt_model(*t), bytes@, pos as int) == Ok::<
            (ValueModel, int),
            DecodeError,
        >((value_model(v), e as int)) && pos < e <= bytes@.len(),
        r matches Err(er) ==> decode_value(dt_model(*t), bytes@, pos as int) == Err::<
            (ValueModel, int),
            DecodeError,
        >(er),
    decreases bytes@.len() - pos, 0int, 0int,
{
    if pos >= bytes.len() {
        return Err(DecodeError::Truncated);
    }
    let tag = *slice_index_get(bytes, pos);
    let pos1 = pos + 1;
    match t {
        CommanderDataType::Trigger(_) => {
            if tag != TAG_TRIGGER {
                return Err(DecodeError::TagMismatch);
            }
            Ok((CommanderValue::Trigger, pos1))
        },
        CommanderDataType::Boolean(_) => {
            if tag != TAG_BOOLEAN {
                return Err(DecodeError::TagMismatch);
            }
            if pos1 >= bytes.len() {
                return Err(DecodeError::Truncated);
            }
            let b = *slice_index_get(bytes, pos1);
            if b == 0 {
                Ok((CommanderValue::Boolean(false), pos1 + 1))
            } else if b == 1 {
                Ok((CommanderValue::Boolean(true), pos1 + 1))
            } else {
                Err(DecodeError::BadPayload)
            }
        },
        CommanderDataType::Number(_) => {
            if tag != TAG_NUMBER {
                return Err(DecodeError::TagMismatch);
            }
            if bytes.len() - pos1 < 8 {
                return Err(DecodeError::Truncated);
            }
            let n = read_u64(bytes, pos1);
            Ok((CommanderValue::Number(n), pos1 + 8))
        },
        CommanderDataType::String(_) => {
            if tag != TAG_STRING {
                return Err(DecodeError::TagMismatch);
            }
            match decode_counted_chars_exec(bytes, pos1) {
                Ok((cs, e)) => Ok(
                    (CommanderValue::String(crate::strings::string_from_chars(&cs)), e),
                ),
                Err(er) => Err(er),
            }
        },
        CommanderDataType::Json(_) => {
            if tag != TAG_JSON {
                return Err(DecodeError::TagMismatch);
            }
            match decode_counted_chars_exec(bytes, pos1) {
                Ok((cs, e)) => Ok(
                    (CommanderValue::Json(JsonString(crate::strings::string_from_chars(&cs))), e),
                ),
                Err(er) => Err(er),
            }
        },
        CommanderDataType::Svg(_) => {
            if tag != TAG_SVG {
                return Err(DecodeError::TagMismatch);
            }
            match decode_counted_chars_exec(bytes, pos1) {
                Ok((cs, e)) => Ok(
                    (CommanderValue::Svg(SvgString(crate::strings::string_from_chars(&cs))), e),
                ),
                Err(er) => Err(er),
            }
        },
        CommanderDataType::Bytes(_) => {
            if tag != TAG_BYTES {
                return Err(DecodeError::TagMismatch);
            }
            if bytes.len() - pos1 < 8 {
                return Err(DecodeError::Truncated);
            }
            let n = read_u64(bytes, pos1);
            let avail = bytes.len() - pos1 - 8;
            if n > avail as u64 {
                return Err(DecodeError::Truncated);
            }
            let nn = n as usize;
            let body = slice_to_vec(slice_subrange(bytes, pos1 + 8, pos1 + 8 + nn));
            Ok((CommanderValue::Bytes(body), pos1 + 8 + nn))
        },
        CommanderDataType::Color(_) => {
            if tag != TAG_COLOR {
                return Err(DecodeError::TagMismatch);
            }
            if bytes.len() - pos1 < 8 {
                return Err(DecodeError::Truncated);
            }
            let cr = read_u16(bytes, pos1);
            let cg = read_u16(bytes, pos1 + 2);
            let cb = read_u16(bytes, pos1 + 4);
            let ca = read_u16(bytes, pos1 + 6);
            Ok((CommanderValue::Color(ColorValue { r: cr, g: cg, b: cb, a: ca }), pos1 + 8))
        },
        CommanderDataType::Path(_) => {
            if tag != TAG_PATH {
                return Err(DecodeError::TagMismatch);
            }
            if bytes.len() - pos1 < 8 {
                return Err(DecodeError::Truncated);
            }
            let n = read_u64(bytes, pos1);
            match decode_comps_exec(bytes, pos1 + 8, n) {
                Ok((comps, e)) => Ok((CommanderValue::Path(comps), e)),
                Err(er) => Err(er),
            }
        },
        CommanderDataType::Enum(et) => {
            if tag != TAG_ENUM {
                return Err(DecodeError::TagMismatch);
            }
            if bytes.len() - pos1 < 4 {
                return Err(DecodeError::Truncated);
            }
            let ord = read_u32(bytes, pos1);
            if (ord as usize) < et.variants.len() {
                let name = et.variants[ord as usize].name.clone();
                proof {
                    assert(et.variants@.map_values(|x: CommanderEnumVariant| x.name@)[ord as int]
                        == et.variants@[ord as int].name@);
                }
                Ok((CommanderValue::Enum(CommanderEnumVariant { name, ordinal: ord }), pos1 + 4))
            } else {
                Err(DecodeError::UnknownOrdinal)
            }
        },
        CommanderDataType::Struct(st) => {
            if tag != TAG_STRUCT {
                return Err(DecodeError::TagMismatch);
            }
            if bytes.len() - pos1 < 8 {
                return Err(DecodeError::Truncated);
            }
            let n = read_u64(bytes, pos1);
            proof {
                crate::types::lemma_fields_model_index(st.fields@);
            }
            if n != st.fields.len() as u64 {
                return Err(DecodeError::ArityMismatch);
            }
            proof {
                assert(fields_model(st.fields@).skip(0) =~= fields_model(st.fields@));
            }
            match decode_entries_exec(&st.fields, 0, bytes, pos1 + 8) {
                Ok((entries, e)) => Ok((CommanderValue::Struct(entries), e)),
                Err(er) => Err(er),
            }
        },
        CommanderDataType::List(lt) => {
            if tag != TAG_LIST {
                return Err(DecodeError::TagMismatch);
            }
            if bytes.len() - pos1 < 8 {
                return Err(DecodeError::Truncated);
            }
            let n = read_u64(bytes, pos1);
            let avail = bytes.len() - pos1 - 8;
            if n > avail as u64 {
                return Err(DecodeError::Truncated);
            }
            match decode_items_exec(&lt.element, bytes, pos1 + 8, n) {
                Ok((items, e)) => Ok((CommanderValue::List(items), e)),
                Err(er) => Err(er),
            }
        },
    }
}

fn decode_entries_exec(
    fields: &Vec<CommanderStructField>,
    i: usize,
    bytes: &[u8],
    pos: usize,
) -> (r: Result<(Vec<StructFieldValue>, usize), DecodeError>)
    requires
        i <= fields@.len(),
        pos <= bytes@.len(),
    ensures
        r matches Ok((es, e)) ==> decode_entries(
            fields_model(fields@).skip(i as int),
            bytes@,
            pos as int,
        ) == Ok::<(Seq<FieldValueModel>, int), DecodeError>((entries_model(es@), e as int)) && pos
            <= e <= bytes@.len(),
        r matches Err(er) ==> decode_entries(
            fields_model(fields@).skip(i as int),
            bytes@,
            pos as int,
        ) == Err::<(Seq<FieldValueModel>, int), DecodeError>(er),
    decreases bytes@.len() - pos, 1int, fields@.len() - i,
{
    proof {
        crate::types::lemma_fields_model_index(fields@);
    }
    let ghost fm = fields_model(fields@);
    if i == fields.len() {
        let empty: Vec<StructFieldValue> = Vec::new();
        proof {
            assert(fm.skip(i as int) =~= Seq::<FieldModel>::empty());
            assert(entries_model(empty@) =~= Seq::<FieldValueModel>::empty());
        }
        Ok((empty, pos))
    } else {
        proof {
            assert(fm.skip(i as int)[0] == fm[i as int]);
            assert(fm.skip(i as int).drop_first() =~= fm.skip(i as int + 1));
        }
        match decode_value_exec(&fields[i].data_type, bytes, pos) {
            Ok((v, p2)) => {
                match decode_entries_exec(fields, i + 1, bytes, p2) {
                    Ok((mut rest, e)) => {
                        let ghost restm = entries_model(rest@);
                        proof {
                            crate::types::lemma_entries_model_index(rest@);
                        }
                        rest.insert(0, StructFieldValue { name: fields[i].name.clone(), value: v });
                        proof {
                            crate::types::lemma_entries_model_index(rest@);
                            assert(entries_model(rest@) =~= seq![
                                FieldValueModel {
                                    name: fields@[i as int].name@,
                                    value: value_model(v),
                                },
                            ] + restm);
                        }
                        Ok((rest, e))
                    },
                    Err(er) => Err(er),
                }
            },
            Err(er) => Err(er),
        }
    }
}

fn decode_items_exec(et: &CommanderDataType, bytes: &[u8], pos: usize, n: u64) -> (r: Result<
    (Vec<CommanderValue>, usize),
    DecodeError,
>)
    requires
        pos <= bytes@.len(),
    ensures
        r matches Ok((vs, e)) ==> decode_items(dt_model(*et), bytes@, pos as int, n as int) == Ok::<
            (Seq<ValueModel>, int),
            DecodeError,
        >((values_model(vs@), e as int)) && pos <= e <= bytes@.len(),
        r matches Err(er) ==> decode_items(dt_model(*et), bytes@, pos as int, n as int) == Err::<
            (Seq<ValueModel>, int),
            DecodeError,
        >(er),
    decreases bytes@.len() - pos, 1int, n,
{
    if n == 0 {
        let empty: Vec<CommanderValue> = Vec::new();
        proof {
            assert(values_model(empty@) =~= Seq::<ValueModel>::empty());
        }
        Ok((empty, pos))
    } else {
        match decode_value_exec(et, bytes, pos) {
            Ok((v, p2)) => {
                match decode_items_exec(et, bytes, p2, n - 1) {
                    Ok((mut rest, e)) => {
                        let ghost restm = values_model(rest@);
                        proof {
                            crate::types::lemma_values_model_index(rest@);
                        }
                        rest.insert(0, v);
                        proof {
                            crate::types::lemma_values_model_index(rest@);
                            assert(values_model(rest@) =~= seq![value_model(v)] + restm);
                        }
                        Ok((rest, e))
                    },
                    Err(er) => Err(er),
                }
            },
            Err(er) => Err(er),
        }
    }
}

impl CommanderDataType {
    /// Decodes one value of this type from a blob, using every byte of
    /// it. A wrong tag yields a `TypeMismatch` error; every other
    /// malformed blob yields a `CodecDecode` error.
    pub fn decode(&self, bytes: &[u8]) -> (r: Result<CommanderValue, CommanderError>)
        ensures
            r is Ok <==> decode_full(self@, bytes@) is Ok,
            r matches Ok(v) ==> decode_full(self@, bytes@) == Ok::<ValueModel, DecodeError>(
                value_model(v),
            ),
            r matches Err(e) ==> e.kind == (if decode_full(self@, bytes@)
                == Err::<ValueModel, DecodeError>(DecodeError::TagMismatch) {
                ErrorKind::TypeMismatch
            } else {
                ErrorKind::CodecDecode
            }),
    {
        match decode_value_exec(self, bytes, 0) {
            Ok((v, e)) => {
                if e == bytes.len() {
                    Ok(v)
                } else {
                    Err(
                        CommanderError::new(
                            ErrorKind::CodecDecode,
                            crate::strings::str_to_string("bytes left over after the value"),
                        ),
                    )
                }
            },
            Err(er) => {
                let kind = if matches!(er, DecodeError::TagMismatch) {
                    ErrorKind::TypeMismatch
                } else {
                    ErrorKind::CodecDecode
                };
                Err(CommanderError::new(kind, crate::strings::str_to_string("malformed blob")))
            },
        }
    }
}

} // verus!
