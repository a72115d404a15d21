//! The mathematical model of the type algebra and its values.
//!
//! Every executable data type of the crate has a view into these model
//! types, and every contract speaks about the models.

use vstd::prelude::*;

verus! {

/// A data type of the closed algebra, as contracts see it.
pub enum TypeModel {
    Trigger,
    Boolean,
    Number,
    String,
    Bytes,
    Color,
    Json,
    Svg,
    Path,
    Enum { name: Seq<char>, variants: Seq<Seq<char>> },
    Struct { name: Seq<char>, fields: Seq<FieldModel> },
    List { elem: Box<TypeModel> },
}

/// One declared field of a struct type: its name and its type.
pub struct FieldModel {
    pub name: Seq<char>,
    pub ty: TypeModel,
}

/// A value of the algebra, as contracts see it. A `number` is carried as
/// the bit pattern of its 64-bit floating point representation, so that
/// the model is exact.
pub enum ValueModel {
    Trigger,
    Boolean(bool),
    Number(u64),
    String(Seq<char>),
    Bytes(Seq<u8>),
    Color { r: u16, g: u16, b: u16, a: u16 },
    Json(Seq<char>),
    Svg(Seq<char>),
    Path(Seq<Seq<char>>),
    Enum { name: Seq<char>, ordinal: u32 },
    Struct(Seq<FieldValueModel>),
    List(Seq<ValueModel>),
}

/// One field of a struct value, in declared field order.
pub struct FieldValueModel {
    pub name: Seq<char>,
    pub value: ValueModel,
}

/// An ASCII letter.
pub open spec fn is_letter(c: char) -> bool {
    ('a' <= c && c <= 'z') || ('A' <= c && c <= 'Z')
}

/// An ASCII digit.
pub open spec fn is_digit(c: char) -> bool {
    '0' <= c && c <= '9'
}

/// A character that may continue an identifier.
pub open spec fn is_ident_char(c: char) -> bool {
    is_letter(c) || is_digit(c) || c == '_'
}

/// An identifier of the type grammar: a letter followed by letters,
/// digits, and underscores.
pub open spec fn is_ident(s: Seq<char>) -> bool {
    &&& s.len() > 0
    &&& is_letter(s[0])
    &&& forall|i: int| 0 <= i < s.len() ==> is_ident_char(#[trigger] s[i])
}

/// No two elements of the sequence are equal.
pub open spec fn seq_distinct<A>(s: Seq<A>) -> bool {
    forall|i: int, j: int| 0 <= i < j < s.len() ==> s[i] != s[j]
}

/// A well-formed data type: all names are identifiers, an enum has at
/// least one variant, variant and field names within one declaration are
/// distinct, and a list element is a static type (not `trigger`).
pub open spec fn type_wf(t: TypeModel) -> bool
    decreases t,
{
    match t {
        TypeModel::Enum { name, variants } => {
            &&& is_ident(name)
            &&& 0 < variants.len() <= u32::MAX
            &&& forall|i: int| 0 <= i < variants.len() ==> is_ident(#[trigger] variants[i])
            &&& seq_distinct(variants)
        },
        TypeModel::Struct { name, fields } => {
            &&& is_ident(name)
            &&& fields_wf(fields)
            &&& seq_distinct(fields.map_values(|f: FieldModel| f.name))
        },
        TypeModel::List { elem } => !(*elem is Trigger) && type_wf(*elem),
        _ => true,
    }
}

/// Every field has an identifier name and a well-formed type.
pub open spec fn fields_wf(fields: Seq<FieldModel>) -> bool
    decreases fields,
{
    fields.len() == 0 || {
        &&& is_ident(fields[0].name)
        &&& type_wf(fields[0].ty)
        &&& fields_wf(fields.drop_first())
    }
}

/// A value is well-formed against a type when its shape matches the
/// type's shape: an enum value's ordinal indexes a variant whose name it
/// carries, a struct value lists exactly the declared fields in declared
/// order, and list elements all match the element type.
pub open spec fn value_wf(v: ValueModel, t: TypeModel) -> bool
    decreases v,
{
    match t {
        TypeModel::Trigger => v is Trigger,
        TypeModel::Boolean => v is Boolean,
        TypeModel::Number => v is Number,
        TypeModel::String => v is String,
        TypeModel::Bytes => v is Bytes,
        TypeModel::Color => v is Color,
        TypeModel::Json => v is Json,
        TypeModel::Svg => v is Svg,
        TypeModel::Path => v is Path,
        TypeModel::Enum { name: _, variants } => {
            &&& v matches ValueModel::Enum { name: vn, ordinal }
            &&& (ordinal as int) < variants.len()
            &&& vn == variants[ordinal as int]
        },
        TypeModel::Struct { name: _, fields } => {
            &&& v matches ValueModel::Struct(entries)
            &&& struct_value_wf(entries, fields)
        },
        TypeModel::List { elem } => {
            &&& v matches ValueModel::List(items)
            &&& list_value_wf(items, *elem)
        },
    }
}

/// The entries of a struct value match the declared fields one to one,
/// in order.
pub open spec fn struct_value_wf(entries: Seq<FieldValueModel>, fields: Seq<FieldModel>) -> bool
    decreases entries,
{
    &&& entries.len() == fields.len()
    &&& (entries.len() == 0 || {
        &&& entries[0].name == fields[0].name
        &&& value_wf(entries[0].value, fields[0].ty)
        &&& struct_value_wf(entries.drop_first(), fields.drop_first())
    })
}

/// Every list element is well-formed against the element type.
pub open spec fn list_value_wf(items: Seq<ValueModel>, elem: TypeModel) -> bool
    decreases items,
{
    items.len() == 0 || {
        &&& value_wf(items[0], elem)
        &&& list_value_wf(items.drop_first(), elem)
    }
}

/// `list_value_wf` said element by element.
pub proof fn lemma_list_value_wf_index(items: Seq<ValueModel>, elem: TypeModel)
    ensures
        list_value_wf(items, elem) <==> forall|i: int|
            0 <= i < items.len() ==> value_wf(#[trigger] items[i], elem),
    decreases items.len(),
{
    if items.len() > 0 {
        lemma_list_value_wf_index(items.drop_first(), elem);
        if list_value_wf(items, elem) {
            assert forall|i: int| 0 <= i < items.len() implies value_wf(
                #[trigger] items[i],
                elem,
            ) by {
                if i > 0 {
                    assert(items[i] == items.drop_first()[i - 1]);
                }
            }
        }
        if forall|i: int| 0 <= i < items.len() ==> value_wf(#[trigger] items[i], elem) {
            assert forall|i: int| 0 <= i < items.drop_first().len() implies value_wf(
                #[trigger] items.drop_first()[i],
                elem,
            ) by {
                assert(items.drop_first()[i] == items[i + 1]);
            }
        }
    }
}

/// `fields_wf` said field by field.
pub proof fn lemma_fields_wf_index(fields: Seq<FieldModel>)
    ensures
        fields_wf(fields) <==> forall|i: int|
            0 <= i < fields.len() ==> is_ident((#[trigger] fields[i]).name) && type_wf(
                fields[i].ty,
            ),
    decreases fields.len(),
{
    if fields.len() > 0 {
        lemma_fields_wf_index(fields.drop_first());
        if fields_wf(fields) {
            assert forall|i: int| 0 <= i < fields.len() implies is_ident(
                (#[trigger] fields[i]).name,
            ) && type_wf(fields[i].ty) by {
                if i > 0 {
                    assert(fields[i] == fields.drop_first()[i - 1]);
                }
            }
        }
        if forall|i: int|
            0 <= i < fields.len() ==> is_ident((#[trigger] fields[i]).name) && type_wf(
                fields[i].ty,
            ) {
            assert forall|i: int| 0 <= i < fields.drop_first().len() implies is_ident(
                (#[trigger] fields.drop_first()[i]).name,
            ) && type_wf(fields.drop_first()[i].ty) by {
                assert(fields.drop_first()[i] == fields[i + 1]);
            }
        }
    }
}

} // verus!
