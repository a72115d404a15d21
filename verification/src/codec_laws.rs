//! The laws of the codec: decoding inverts encoding, and a blob never
//! decodes against a type of another kind.

use vstd::bytes::{
    lemma_auto_spec_u16_to_from_le_bytes, lemma_auto_spec_u32_to_from_le_bytes,
    lemma_auto_spec_u64_to_from_le_bytes,
};
use vstd::prelude::*;

use crate::codec::{
    char_scalar, decode_chars, decode_comps, decode_entries, decode_full, decode_items,
    decode_value, encode_chars, encode_comps, encode_entries, encode_items, encode_len,
    encode_value, entries_bounded, items_bounded, tag_of, value_bounded, DecodeError,
};
use crate::model::{
    list_value_wf, struct_value_wf, value_wf, FieldModel, FieldValueModel, TypeModel, ValueModel,
};

verus! {

/// The encoding of a well-formed value starts with its type's tag byte
/// and is never empty.
pub proof fn lemma_encode_head(t: TypeModel, v: ValueModel)
    requires
        value_wf(v, t),
    ensures
        encode_value(t, v).len() >= 1,
        encode_value(t, v)[0] == tag_of(t),
{
    lemma_auto_spec_u64_to_from_le_bytes();
    lemma_auto_spec_u32_to_from_le_bytes();
    lemma_auto_spec_u16_to_from_le_bytes();
}

/// Encoded characters take four bytes each.
pub proof fn lemma_encode_chars_len(cs: Seq<char>)
    ensures
        encode_chars(cs).len() == 4 * cs.len(),
    decreases cs.len(),
{
    lemma_auto_spec_u32_to_from_le_bytes();
    if cs.len() > 0 {
        lemma_encode_chars_len(cs.drop_first());
    }
}

/// Encoded list items take at least one byte each.
pub proof fn lemma_encode_items_min_len(et: TypeModel, items: Seq<ValueModel>)
    requires
        list_value_wf(items, et),
    ensures
        encode_items(et, items).len() >= items.len(),
    decreases items.len(),
{
    if items.len() > 0 {
        lemma_encode_head(et, items[0]);
        lemma_encode_items_min_len(et, items.drop_first());
    }
}


/// Splits a known subrange of `bytes` into its two concatenated parts.
proof fn lemma_split(bytes: Seq<u8>, pos: int, a: Seq<u8>, b: Seq<u8>)
    requires
        0 <= pos,
        pos + a.len() + b.len() <= bytes.len(),
        bytes.subrange(pos, pos + a.len() + b.len()) == a + b,
    ensures
        bytes.subrange(pos, pos + a.len() as int) == a,
        bytes.subrange(pos + a.len() as int, pos + a.len() + b.len()) == b,
{
    let whole = bytes.subrange(pos, pos + a.len() + b.len());
    assert forall|i: int|
        0 <= i < a.len() implies bytes.subrange(pos, pos + a.len() as int)[i] == a[i] by {
        assert(whole[i] == (a + b)[i]);
    }
    assert(bytes.subrange(pos, pos + a.len() as int) =~= a);
    assert forall|i: int|
        0 <= i < b.len() implies bytes.subrange(pos + a.len() as int, pos + a.len() + b.len())[i]
        == b[i] by {
        assert(whole[a.len() + i] == (a + b)[a.len() + i]);
    }
    assert(bytes.subrange(pos + a.len() as int, pos + a.len() + b.len()) =~= b);
}

/// Splits a known subrange of `bytes` into three concatenated parts.
proof fn lemma_split3(bytes: Seq<u8>, pos: int, a: Seq<u8>, b: Seq<u8>, c: Seq<u8>)
    requires
        0 <= pos,
        pos + a.len() + b.len() + c.len() <= bytes.len(),
        bytes.subrange(pos, pos + a.len() + b.len() + c.len()) == a + b + c,
    ensures
        bytes.subrange(pos, pos + a.len() as int) == a,
        bytes.subrange(pos + a.len() as int, pos + a.len() + b.len()) == b,
        bytes.subrange(pos + a.len() + b.len(), pos + a.len() + b.len() + c.len()) == c,
{
    assert((a + b) + c =~= a + (b + c));
    lemma_split(bytes, pos, a, b + c);
    lemma_split(bytes, pos + a.len() as int, b, c);
}

/// Decoding `cs.len()` characters from the encoding of `cs` yields `cs`.
proof fn lemma_chars_round_trip(cs: Seq<char>, bytes: Seq<u8>, pos: int)
    requires
        0 <= pos,
        pos + encode_chars(cs).len() <= bytes.len(),
        bytes.subrange(pos, pos + encode_chars(cs).len() as int) == encode_chars(cs),
    ensures
        decode_chars(bytes, pos, cs.len() as int) == Ok::<(Seq<char>, int), DecodeError>(
            (cs, pos + encode_chars(cs).len()),
        ),
    decreases cs.len(),
{
    lemma_auto_spec_u32_to_from_le_bytes();
    lemma_encode_chars_len(cs);
    if cs.len() > 0 {
        let c = cs[0];
        let enc = encode_chars(cs);
        let head = vstd::bytes::spec_u32_to_le_bytes(c as u32);
        let tail = encode_chars(cs.drop_first());
        assert(enc == head + tail);
        lemma_split(bytes, pos, head, tail);
        let u = vstd::bytes::spec_u32_from_le_bytes(bytes.subrange(pos, pos + 4));
        assert(bytes.subrange(pos, pos + 4) == head);
        assert(u == c as u32);
        assert(char_scalar(u)) by {
            vstd::utf8::char_is_scalar(c);
        }
        vstd::utf8::char_u32_cast(c, u);
        lemma_encode_chars_len(cs.drop_first());
        lemma_chars_round_trip(cs.drop_first(), bytes, pos + 4);
        assert(seq![u as char] + cs.drop_first() =~= cs);
    } else {
        assert(cs =~= Seq::<char>::empty());
    }
}

/// Decoding `comps.len()` path components from their encoding yields
/// `comps`.
proof fn lemma_comps_round_trip(comps: Seq<Seq<char>>, bytes: Seq<u8>, pos: int)
    requires
        0 <= pos,
        forall|i: int| 0 <= i < comps.len() ==> (#[trigger] comps[i]).len() <= u64::MAX,
        pos + encode_comps(comps).len() <= bytes.len(),
        bytes.subrange(pos, pos + encode_comps(comps).len() as int) == encode_comps(comps),
    ensures
        decode_comps(bytes, pos, comps.len() as int) == Ok::<(Seq<Seq<char>>, int), DecodeError>(
            (comps, pos + encode_comps(comps).len()),
        ),
    decreases comps.len(),
{
    lemma_auto_spec_u64_to_from_le_bytes();
    if comps.len() > 0 {
        let c0 = comps[0];
        let enc = encode_comps(comps);
        let lenb = encode_len(c0.len() as int);
        let charb = encode_chars(c0);
        let tail = encode_comps(comps.drop_first());
        assert(enc == lenb + charb + tail);
        lemma_encode_chars_len(c0);
        lemma_split3(bytes, pos, lenb, charb, tail);
        let m = vstd::bytes::spec_u64_from_le_bytes(bytes.subrange(pos, pos + 8));
        assert(m == c0.len() as u64);
        lemma_chars_round_trip(c0, bytes, pos + 8);
        let p2 = pos + 8 + charb.len() as int;
        assert(forall|i: int|
            0 <= i < comps.drop_first().len() ==> (#[trigger] comps.drop_first()[i]).len()
                <= u64::MAX) by {
            assert(forall|i: int|
                0 <= i < comps.drop_first().len() ==> comps.drop_first()[i] == comps[i + 1]);
        }
        lemma_comps_round_trip(comps.drop_first(), bytes, p2);
        assert(seq![c0] + comps.drop_first() =~= comps);
    } else {
        assert(comps =~= Seq::<Seq<char>>::empty());
    }
}

/// Decoding the encoding of a well-formed, bounded value yields exactly
/// that value and consumes exactly its bytes.
pub proof fn lemma_value_round_trip(t: TypeModel, v: ValueModel, bytes: Seq<u8>, pos: int)
    requires
        value_wf(v, t),
        value_bounded(v),
        0 <= pos,
        pos + encode_value(t, v).len() <= bytes.len(),
        bytes.subrange(pos, pos + encode_value(t, v).len() as int) == encode_value(t, v),
    ensures
        decode_value(t, bytes, pos) == Ok::<(ValueModel, int), DecodeError>(
            (v, pos + encode_value(t, v).len()),
        ),
    decreases v, 1int,
{
    lemma_auto_spec_u64_to_from_le_bytes();
    lemma_auto_spec_u32_to_from_le_bytes();
    lemma_auto_spec_u16_to_from_le_bytes();
    let enc = encode_value(t, v);
    lemma_encode_head(t, v);
    assert forall|k: int| 0 <= k < enc.len() implies bytes[pos + k] == enc[k] by {
        assert(bytes.subrange(pos, pos + enc.len() as int)[k] == bytes[pos + k]);
    }
    assert(bytes[pos] == enc[0]);
    let pos1 = pos + 1;
    match v {
        ValueModel::Trigger => {},
        ValueModel::Boolean(b) => {
            assert(bytes[pos1] == enc[1]);
        },
        ValueModel::Number(n) => {
            lemma_split(bytes, pos, seq![crate::codec::TAG_NUMBER], vstd::bytes::spec_u64_to_le_bytes(n));
        },
        ValueModel::String(cs) => {
            let lenb = encode_len(cs.len() as int);
            let charb = encode_chars(cs);
            assert(enc == seq![crate::codec::TAG_STRING] + lenb + charb);
            lemma_encode_chars_len(cs);
            lemma_split3(bytes, pos, seq![crate::codec::TAG_STRING], lenb, charb);
            lemma_chars_round_trip(cs, bytes, pos1 + 8);
        },
        ValueModel::Json(cs) => {
            let lenb = encode_len(cs.len() as int);
            let charb = encode_chars(cs);
            assert(enc == seq![crate::codec::TAG_JSON] + lenb + charb);
            lemma_encode_chars_len(cs);
            lemma_split3(bytes, pos, seq![crate::codec::TAG_JSON], lenb, charb);
            lemma_chars_round_trip(cs, bytes, pos1 + 8);
        },
        ValueModel::Svg(cs) => {
            let lenb = encode_len(cs.len() as int);
            let charb = encode_chars(cs);
            assert(enc == seq![crate::codec::TAG_SVG] + lenb + charb);
            lemma_encode_chars_len(cs);
            lemma_split3(bytes, pos, seq![crate::codec::TAG_SVG], lenb, charb);
            lemma_chars_round_trip(cs, bytes, pos1 + 8);
        },
        ValueModel::Bytes(bs) => {
            let lenb = encode_len(bs.len() as int);
            assert(enc == seq![crate::codec::TAG_BYTES] + lenb + bs);
            lemma_split3(bytes, pos, seq![crate::codec::TAG_BYTES], lenb, bs);
        },
        ValueModel::Color { r, g, b, a } => {
            let r2 = vstd::bytes::spec_u16_to_le_bytes(r);
            let g2 = vstd::bytes::spec_u16_to_le_bytes(g);
            let b2 = vstd::bytes::spec_u16_to_le_bytes(b);
            let a2 = vstd::bytes::spec_u16_to_le_bytes(a);
            assert(enc =~= seq![crate::codec::TAG_COLOR] + (r2 + g2 + b2 + a2));
            lemma_split(bytes, pos, seq![crate::codec::TAG_COLOR], r2 + g2 + b2 + a2);
            assert(r2 + g2 + b2 + a2 =~= r2 + (g2 + b2 + a2));
            lemma_split(bytes, pos1, r2, g2 + b2 + a2);
            assert(g2 + b2 + a2 =~= g2 + (b2 + a2));
            lemma_split(bytes, pos1 + 2, g2, b2 + a2);
            lemma_split(bytes, pos1 + 4, b2, a2);
        },
        ValueModel::Path(comps) => {
            let lenb = encode_len(comps.len() as int);
            let compb = encode_comps(comps);
            assert(enc == seq![crate::codec::TAG_PATH] + lenb + compb);
            lemma_split3(bytes, pos, seq![crate::codec::TAG_PATH], lenb, compb);
            lemma_comps_round_trip(comps, bytes, pos1 + 8);
        },
        ValueModel::Enum { name, ordinal } => {
            lemma_split(bytes, pos, seq![crate::codec::TAG_ENUM], vstd::bytes::spec_u32_to_le_bytes(ordinal));
        },
        ValueModel::Struct(entries) => {
            let fields = t->Struct_fields;
            let lenb = encode_len(entries.len() as int);
            let entb = encode_entries(fields, entries);
            assert(enc == seq![crate::codec::TAG_STRUCT] + lenb + entb);
            lemma_split3(bytes, pos, seq![crate::codec::TAG_STRUCT], lenb, entb);
            lemma_entries_round_trip(fields, entries, bytes, pos1 + 8);
        },
        ValueModel::List(items) => {
            let elem = *t->List_elem;
            let lenb = encode_len(items.len() as int);
            let itemb = encode_items(elem, items);
            assert(enc == seq![crate::codec::TAG_LIST] + lenb + itemb);
            lemma_split3(bytes, pos, seq![crate::codec::TAG_LIST], lenb, itemb);
            lemma_encode_items_min_len(elem, items);
            lemma_items_round_trip(elem, items, bytes, pos1 + 8);
        },
    }
}

/// Decoding `items.len()` items from their encoding yields `items`.
proof fn lemma_items_round_trip(et: TypeModel, items: Seq<ValueModel>, bytes: Seq<u8>, pos: int)
    requires
        list_value_wf(items, et),
        items_bounded(items),
        0 <= pos,
        pos + encode_items(et, items).len() <= bytes.len(),
        bytes.subrange(pos, pos + encode_items(et, items).len() as int) == encode_items(et, items),
    ensures
        decode_items(et, bytes, pos, items.len() as int) == Ok::<(Seq<ValueModel>, int), DecodeError>(
            (items, pos + encode_items(et, items).len()),
        ),
    decreases items, 0int,
{
    if items.len() > 0 {
        let head = encode_value(et, items[0]);
        let tail = encode_items(et, items.drop_first());
        assert(encode_items(et, items) == head + tail);
        lemma_encode_head(et, items[0]);
        lemma_split(bytes, pos, head, tail);
        lemma_value_round_trip(et, items[0], bytes, pos);
        let p2 = pos + head.len() as int;
        lemma_items_round_trip(et, items.drop_first(), bytes, p2);
        assert(seq![items[0]] + items.drop_first() =~= items);
    } else {
        assert(items =~= Seq::<ValueModel>::empty());
    }
}

/// Decoding one value per declared field from the encoding of matching
/// entries yields those entries.
proof fn lemma_entries_round_trip(
    fields: Seq<FieldModel>,
    entries: Seq<FieldValueModel>,
    bytes: Seq<u8>,
    pos: int,
)
    requires
        struct_value_wf(entries, fields),
        entries_bounded(entries),
        0 <= pos,
        pos + encode_entries(fields, entries).len() <= bytes.len(),
        bytes.subrange(pos, pos + encode_entries(fields, entries).len() as int) == encode_entries(
            fields,
            entries,
        ),
    ensures
        decode_entries(fields, bytes, pos) == Ok::<(Seq<FieldValueModel>, int), DecodeError>(
            (entries, pos + encode_entries(fields, entries).len()),
        ),
    decreases entries, 0int,
{
    if entries.len() > 0 {
        let head = encode_value(fields[0].ty, entries[0].value);
        let tail = encode_entries(fields.drop_first(), entries.drop_first());
        assert(encode_entries(fields, entries) == head + tail);
        lemma_encode_head(fields[0].ty, entries[0].value);
        lemma_split(bytes, pos, head, tail);
        lemma_value_round_trip(fields[0].ty, entries[0].value, bytes, pos);
        let p2 = pos + head.len() as int;
        lemma_entries_round_trip(fields.drop_first(), entries.drop_first(), bytes, p2);
        assert(seq![FieldValueModel { name: fields[0].name, value: entries[0].value }]
            + entries.drop_first() =~= entries);
    } else {
        assert(entries =~= Seq::<FieldValueModel>::empty());
    }
}

/// For every type `t` and every value `v` well-formed against `t` whose
/// counts fit the 64-bit wire format, decoding the encoding of `v`
/// against `t` yields `v` again.
pub proof fn lemma_codec_round_trip(t: TypeModel, v: ValueModel)
    requires
        value_wf(v, t),
        value_bounded(v),
    ensures
        decode_full(t, encode_value(t, v)) == Ok::<ValueModel, DecodeError>(v),
{
    let enc = encode_value(t, v);
    assert(enc.subrange(0, enc.len() as int) =~= enc);
    lemma_value_round_trip(t, v, enc, 0);
}

/// A blob produced for a type of one kind never decodes against a type
/// of another kind: the tag bytes differ, so decoding rejects the blob.
pub proof fn lemma_cross_kind_decode_rejects(t1: TypeModel, t2: TypeModel, v: ValueModel)
    requires
        value_wf(v, t1),
        tag_of(t1) != tag_of(t2),
    ensures
        decode_full(t2, encode_value(t1, v)) == Err::<ValueModel, DecodeError>(
            DecodeError::TagMismatch,
        ),
{
    lemma_encode_head(t1, v);
}

} // verus!
