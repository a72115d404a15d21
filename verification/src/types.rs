//! The executable data types of the algebra and their values.

use vstd::prelude::*;

use crate::model::{
    fields_wf, is_ident, seq_distinct, type_wf, FieldModel, FieldValueModel, TypeModel, ValueModel,
};

verus! {

/// The `trigger` data type.
#[derive(Clone, Copy, Debug, Default)]
pub struct CommanderTriggerDataType {}

/// The `boolean` data type.
#[derive(Clone, Copy, Debug, Default)]
pub struct CommanderBooleanDataType {}

/// The `number` data type: a 64-bit floating point value, carried by its
/// bit pattern.
#[derive(Clone, Copy, Debug, Default)]
pub struct CommanderNumberDataType {}

/// The `string` data type.
#[derive(Clone, Copy, Debug, Default)]
pub struct CommanderStringDataType {}

/// The `bytes` data type.
#[derive(Clone, Copy, Debug, Default)]
pub struct CommanderBytesDataType {}

/// The `color` data type: four 16-bit channels.
#[derive(Clone, Copy, Debug, Default)]
pub struct CommanderColorDataType {}

/// The `json` data type: an opaque string.
#[derive(Clone, Copy, Debug, Default)]
pub struct CommanderJsonDataType {}

/// The `svg` data type: an opaque string.
#[derive(Clone, Copy, Debug, Default)]
pub struct CommanderSvgDataType {}

/// The `path` data type: an ordered sequence of string components.
#[derive(Clone, Copy, Debug, Default)]
pub struct CommanderPathDataType {}

/// One variant of an enum type: its name and its zero-based ordinal.
#[derive(Clone, Debug, PartialEq, Eq)]
pub struct CommanderEnumVariant {
    pub name: String,
    pub ordinal: u32,
}

impl CommanderEnumVariant {
    /// The name of the variant.
    pub fn get_name(&self) -> (r: &str)
        ensures
            r@ == self.name@,
    {
        self.name.as_str()
    }
}

/// An enum data type: a name and an ordered list of variants. The
/// ordinal of each variant is its index in the declaration list.
#[derive(Clone, Debug, Default)]
pub struct CommanderEnumDataType {
    pub name: String,
    pub variants: Vec<CommanderEnumVariant>,
}

/// One declared field of a struct type.
#[derive(Debug)]
pub struct CommanderStructField {
    pub name: String,
    pub data_type: CommanderDataType,
}

/// A struct data type: a name and an ordered list of named fields. Field
/// order is the encoding order.
#[derive(Debug)]
pub struct CommanderStructDataType {
    pub name: String,
    pub fields: Vec<CommanderStructField>,
}

/// A list data type: an ordered sequence of one element type.
#[derive(Debug)]
pub struct CommanderListDataType {
    pub element: Box<CommanderDataType>,
}

/// A data type of the closed algebra.
#[derive(Debug)]
pub enum CommanderDataType {
    Trigger(CommanderTriggerDataType),
    Boolean(CommanderBooleanDataType),
    Number(CommanderNumberDataType),
    String(CommanderStringDataType),
    Bytes(CommanderBytesDataType),
    Color(CommanderColorDataType),
    Json(CommanderJsonDataType),
    Svg(CommanderSvgDataType),
    Path(CommanderPathDataType),
    Enum(CommanderEnumDataType),
    Struct(CommanderStructDataType),
    List(CommanderListDataType),
}

/// A `json` value: an opaque string.
#[derive(Clone, Debug, PartialEq, Eq)]
pub struct JsonString(pub String);

/// An `svg` value: an opaque string.
#[derive(Clone, Debug, PartialEq, Eq)]
pub struct SvgString(pub String);

/// A `color` value: four 16-bit channels.
#[derive(Clone, Copy, Debug, PartialEq, Eq, Structural)]
pub struct ColorValue {
    pub r: u16,
    pub g: u16,
    pub b: u16,
    pub a: u16,
}

/// One field of a struct value, in declared field order.
#[derive(Debug, PartialEq)]
pub struct StructFieldValue {
    pub name: String,
    pub value: CommanderValue,
}

/// A value of the algebra. Its tag must match its type; `value_wf` on
/// the views says when it does.
#[derive(Debug, PartialEq)]
pub enum CommanderValue {
    Trigger,
    Boolean(bool),
    Number(u64),
    String(String),
    Bytes(Vec<u8>),
    Color(ColorValue),
    Json(JsonString),
    Svg(SvgString),
    Path(Vec<String>),
    Enum(CommanderEnumVariant),
    Struct(Vec<StructFieldValue>),
    List(Vec<CommanderValue>),
}

/// The model of an executable enum variant: its name.
pub open spec fn variant_model(v: CommanderEnumVariant) -> Seq<char> {
    v.name@
}

/// The model of an executable data type.
pub open spec fn dt_model(t: CommanderDataType) -> TypeModel
    decreases t,
{
    match t {
        CommanderDataType::Trigger(_) => TypeModel::Trigger,
        CommanderDataType::Boolean(_) => TypeModel::Boolean,
        CommanderDataType::Number(_) => TypeModel::Number,
        CommanderDataType::String(_) => TypeModel::String,
        CommanderDataType::Bytes(_) => TypeModel::Bytes,
        CommanderDataType::Color(_) => TypeModel::Color,
        CommanderDataType::Json(_) => TypeModel::Json,
        CommanderDataType::Svg(_) => TypeModel::Svg,
        CommanderDataType::Path(_) => TypeModel::Path,
        CommanderDataType::Enum(e) => TypeModel::Enum {
            name: e.name@,
            variants: e.variants@.map_values(|v: CommanderEnumVariant| v.name@),
        },
        CommanderDataType::Struct(s) => TypeModel::Struct {
            name: s.name@,
            fields: fields_model(s.fields@),
        },
        CommanderDataType::List(l) => TypeModel::List { elem: Box::new(dt_model(*l.element)) },
    }
}

/// The model of a sequence of declared struct fields.
pub open spec fn fields_model(fs: Seq<CommanderStructField>) -> Seq<FieldModel>
    decreases fs,
{
    if fs.len() == 0 {
        Seq::empty()
    } else {
        seq![FieldModel { name: fs[0].name@, ty: dt_model(fs[0].data_type) }] + fields_model(
            fs.drop_first(),
        )
    }
}

/// The model of an executable value.
pub open spec fn value_model(v: CommanderValue) -> ValueModel
    decreases v,
{
    match v {
        CommanderValue::Trigger => ValueModel::Trigger,
        CommanderValue::Boolean(b) => ValueModel::Boolean(b),
        CommanderValue::Number(n) => ValueModel::Number(n),
        CommanderValue::String(s) => ValueModel::String(s@),
        CommanderValue::Bytes(b) => ValueModel::Bytes(b@),
        CommanderValue::Color(c) => ValueModel::Color { r: c.r, g: c.g, b: c.b, a: c.a },
        CommanderValue::Json(j) => ValueModel::Json(j.0@),
        CommanderValue::Svg(s) => ValueModel::Svg(s.0@),
        CommanderValue::Path(p) => ValueModel::Path(p@.map_values(|s: String| s@)),
        CommanderValue::Enum(v) => ValueModel::Enum { name: v.name@, ordinal: v.ordinal },
        CommanderValue::Struct(entries) => ValueModel::Struct(entries_model(entries@)),
        CommanderValue::List(items) => ValueModel::List(values_model(items@)),
    }
}

/// The model of a sequence of struct value fields.
pub open spec fn entries_model(es: Seq<StructFieldValue>) -> Seq<FieldValueModel>
    decreases es,
{
    if es.len() == 0 {
        Seq::empty()
    } else {
        seq![FieldValueModel { name: es[0].name@, value: value_model(es[0].value) }]
            + entries_model(es.drop_first())
    }
}

/// The model of a sequence of values.
pub open spec fn values_model(vs: Seq<CommanderValue>) -> Seq<ValueModel>
    decreases vs,
{
    if vs.len() == 0 {
        Seq::empty()
    } else {
        seq![value_model(vs[0])] + values_model(vs.drop_first())
    }
}

impl View for CommanderDataType {
    type V = TypeModel;

    open spec fn view(&self) -> TypeModel {
        dt_model(*self)
    }
}

impl View for CommanderEnumDataType {
    type V = TypeModel;

    open spec fn view(&self) -> TypeModel {
        TypeModel::Enum {
            name: self.name@,
            variants: self.variants@.map_values(|v: CommanderEnumVariant| v.name@),
        }
    }
}

impl View for CommanderStructDataType {
    type V = TypeModel;

    open spec fn view(&self) -> TypeModel {
        TypeModel::Struct { name: self.name@, fields: fields_model(self.fields@) }
    }
}

impl View for CommanderListDataType {
    type V = TypeModel;

    open spec fn view(&self) -> TypeModel {
        TypeModel::List { elem: Box::new(dt_model(*self.element)) }
    }
}

impl View for CommanderValue {
    type V = ValueModel;

    open spec fn view(&self) -> ValueModel {
        value_model(*self)
    }
}

/// `fields_model` element by element.
pub proof fn lemma_fields_model_index(fs: Seq<CommanderStructField>)
    ensures
        fields_model(fs).len() == fs.len(),
        forall|i: int|
            0 <= i < fs.len() ==> #[trigger] fields_model(fs)[i] == (FieldModel {
                name: fs[i].name@,
                ty: dt_model(fs[i].data_type),
            }),
    decreases fs.len(),
{
    if fs.len() > 0 {
        lemma_fields_model_index(fs.drop_first());
        assert forall|i: int| 0 <= i < fs.len() implies #[trigger] fields_model(fs)[i]
            == (FieldModel { name: fs[i].name@, ty: dt_model(fs[i].data_type) }) by {
            if i > 0 {
                assert(fs.drop_first()[i - 1] == fs[i]);
            }
        }
    }
}

/// `entries_model` element by element.
pub proof fn lemma_entries_model_index(es: Seq<StructFieldValue>)
    ensures
        entries_model(es).len() == es.len(),
        forall|i: int|
            0 <= i < es.len() ==> #[trigger] entries_model(es)[i] == (FieldValueModel {
                name: es[i].name@,
                value: value_model(es[i].value),
            }),
    decreases es.len(),
{
    if es.len() > 0 {
        lemma_entries_model_index(es.drop_first());
        assert forall|i: int| 0 <= i < es.len() implies #[trigger] entries_model(es)[i]
            == (FieldValueModel { name: es[i].name@, value: value_model(es[i].value) }) by {
            if i > 0 {
                assert(es.drop_first()[i - 1] == es[i]);
            }
        }
    }
}

/// `values_model` element by element.
pub proof fn lemma_values_model_index(vs: Seq<CommanderValue>)
    ensures
        values_model(vs).len() == vs.len(),
        forall|i: int|
            0 <= i < vs.len() ==> #[trigger] values_model(vs)[i] == value_model(vs[i]),
    decreases vs.len(),
{
    if vs.len() > 0 {
        lemma_values_model_index(vs.drop_first());
        assert forall|i: int| 0 <= i < vs.len() implies #[trigger] values_model(vs)[i]
            == value_model(vs[i]) by {
            if i > 0 {
                assert(vs.drop_first()[i - 1] == vs[i]);
            }
        }
    }
}

impl CommanderEnumDataType {
    /// Builds an enum type from a name and a variant name list, assigning
    /// each variant its index as its ordinal.
    pub fn new(name: String, variants: Vec<String>) -> (r: CommanderEnumDataType)
        requires
            variants@.len() <= u32::MAX,
        ensures
            r.name@ == name@,
            r@ == (TypeModel::Enum {
                name: name@,
                variants: variants@.map_values(|s: String| s@),
            }),
            r.wf(),
    {
        let mut vs: Vec<CommanderEnumVariant> = Vec::new();
        let mut i: usize = 0;
        while i < variants.len()
            invariant
                0 <= i <= variants.len(),
                variants@.len() <= u32::MAX,
                vs@.len() == i,
                forall|k: int|
                    0 <= k < i ==> (#[trigger] vs@[k]).name@ == variants@[k]@ && vs@[k].ordinal
                        == k,
            decreases variants.len() - i,
        {
            let v = CommanderEnumVariant { name: variants[i].clone(), ordinal: i as u32 };
            vs.push(v);
            i = i + 1;
        }
        let r = CommanderEnumDataType { name, variants: vs };
        proof {
            assert(r.variants@.map_values(|v: CommanderEnumVariant| v.name@) =~= variants@
                .map_values(|s: String| s@));
        }
        r
    }

    /// The executable invariant of an enum type: each variant's stored
    /// ordinal equals its index.
    pub open spec fn wf(&self) -> bool {
        forall|i: int|
            0 <= i < self.variants@.len() ==> (#[trigger] self.variants@[i]).ordinal == i
    }

    /// The name of the enum type.
    pub fn get_name(&self) -> (r: &str)
        ensures
            r@ == self.name@,
    {
        self.name.as_str()
    }

    /// The variant names, in declaration order.
    pub fn list_variants(&self) -> (r: Vec<String>)
        ensures
            r@.map_values(|s: String| s@) == self@->Enum_variants,
    {
        let mut out: Vec<String> = Vec::new();
        let mut i: usize = 0;
        while i < self.variants.len()
            invariant
                0 <= i <= self.variants@.len(),
                out@.len() == i,
                forall|k: int| 0 <= k < i ==> (#[trigger] out@[k])@ == self.variants@[k].name@,
            decreases self.variants@.len() - i,
        {
            out.push(self.variants[i].name.clone());
            i = i + 1;
        }
        proof {
            assert(out@.map_values(|s: String| s@) =~= self.variants@.map_values(
                |v: CommanderEnumVariant| v.name@,
            ));
        }
        out
    }

    /// Looks a variant up by name. Returns the variant with the given
    /// name if one exists.
    pub fn get_variant(&self, name: &str) -> (r: Option<CommanderEnumVariant>)
        ensures
            r is Some <==> exists|i: int|
                0 <= i < self.variants@.len() && (#[trigger] self.variants@[i]).name@ == name@,
            r matches Some(v) ==> exists|i: int|
                0 <= i < self.variants@.len() && self.variants@[i] == v && v.name@ == name@,
    {
        let mut i: usize = 0;
        while i < self.variants.len()
            invariant
                0 <= i <= self.variants@.len(),
                forall|k: int| 0 <= k < i ==> (#[trigger] self.variants@[k]).name@ != name@,
            decreases self.variants@.len() - i,
        {
            if crate::strings::str_eq(self.variants[i].name.as_str(), name) {
                let v = CommanderEnumVariant {
                    name: self.variants[i].name.clone(),
                    ordinal: self.variants[i].ordinal,
                };
                assert(v == self.variants@[i as int]);
                assert(self.variants@[i as int].name@ == name@);
                return Some(v);
            }
            i = i + 1;
        }
        None
    }
}

/// The executable invariant of a data type: every nested enum stores
/// index-matching ordinals.
pub open spec fn dt_wf(t: CommanderDataType) -> bool
    decreases t,
{
    match t {
        CommanderDataType::Enum(e) => e.wf(),
        CommanderDataType::Struct(s) => fields_exec_wf(s.fields@),
        CommanderDataType::List(l) => dt_wf(*l.element),
        _ => true,
    }
}

/// The executable invariant of a declared field list.
pub open spec fn fields_exec_wf(fs: Seq<CommanderStructField>) -> bool
    decreases fs,
{
    fs.len() == 0 || (dt_wf(fs[0].data_type) && fields_exec_wf(fs.drop_first()))
}

/// `fields_exec_wf` element by element.
pub proof fn lemma_fields_exec_wf_index(fs: Seq<CommanderStructField>)
    ensures
        fields_exec_wf(fs) <==> forall|i: int|
            0 <= i < fs.len() ==> dt_wf((#[trigger] fs[i]).data_type),
    decreases fs.len(),
{
    if fs.len() > 0 {
        lemma_fields_exec_wf_index(fs.drop_first());
        if fields_exec_wf(fs) {
            assert forall|i: int| 0 <= i < fs.len() implies dt_wf(
                (#[trigger] fs[i]).data_type,
            ) by {
                if i > 0 {
                    assert(fs[i] == fs.drop_first()[i - 1]);
                }
            }
        }
        if forall|i: int| 0 <= i < fs.len() ==> dt_wf((#[trigger] fs[i]).data_type) {
            assert forall|i: int| 0 <= i < fs.drop_first().len() implies dt_wf(
                (#[trigger] fs.drop_first()[i]).data_type,
            ) by {
                assert(fs.drop_first()[i] == fs[i + 1]);
            }
        }
    }
}

impl CommanderTriggerDataType {
    /// This primitive as a data type of the algebra.
    pub fn data_type(&self) -> (r: CommanderDataType)
        ensures
            r@ == TypeModel::Trigger,
            dt_wf(r),
    {
        CommanderDataType::Trigger(CommanderTriggerDataType {})
    }
}

impl CommanderBooleanDataType {
    /// This primitive as a data type of the algebra.
    pub fn data_type(&self) -> (r: CommanderDataType)
        ensures
            r@ == TypeModel::Boolean,
            dt_wf(r),
    {
        CommanderDataType::Boolean(CommanderBooleanDataType {})
    }
}

impl CommanderNumberDataType {
    /// This primitive as a data type of the algebra.
    pub fn data_type(&self) -> (r: CommanderDataType)
        ensures
            r@ == TypeModel::Number,
            dt_wf(r),
    {
        CommanderDataType::Number(CommanderNumberDataType {})
    }
}

impl CommanderStringDataType {
    /// This primitive as a data type of the algebra.
    pub fn data_type(&self) -> (r: CommanderDataType)
        ensures
            r@ == TypeModel::String,
            dt_wf(r),
    {
        CommanderDataType::String(CommanderStringDataType {})
    }
}

impl CommanderBytesDataType {
    /// This primitive as a data type of the algebra.
    pub fn data_type(&self) -> (r: CommanderDataType)
        ensures
            r@ == TypeModel::Bytes,
            dt_wf(r),
    {
        CommanderDataType::Bytes(CommanderBytesDataType {})
    }
}

impl CommanderColorDataType {
    /// This primitive as a data type of the algebra.
    pub fn data_type(&self) -> (r: CommanderDataType)
        ensures
            r@ == TypeModel::Color,
            dt_wf(r),
    {
        CommanderDataType::Color(CommanderColorDataType {})
    }
}

impl CommanderJsonDataType {
    /// This primitive as a data type of the algebra.
    pub fn data_type(&self) -> (r: CommanderDataType)
        ensures
            r@ == TypeModel::Json,
            dt_wf(r),
    {
        CommanderDataType::Json(CommanderJsonDataType {})
    }
}

impl CommanderSvgDataType {
    /// This primitive as a data type of the algebra.
    pub fn data_type(&self) -> (r: CommanderDataType)
        ensures
            r@ == TypeModel::Svg,
            dt_wf(r),
    {
        CommanderDataType::Svg(CommanderSvgDataType {})
    }
}

impl CommanderPathDataType {
    /// This primitive as a data type of the algebra.
    pub fn data_type(&self) -> (r: CommanderDataType)
        ensures
            r@ == TypeModel::Path,
            dt_wf(r),
    {
        CommanderDataType::Path(CommanderPathDataType {})
    }
}

impl CommanderDataType {
    /// The enum type inside this data type, if it is an enum.
    pub fn try_into_enum(self) -> (r: Result<CommanderEnumDataType, crate::errors::CommanderError>)
        ensures
            r matches Ok(e) ==> self == CommanderDataType::Enum(e),
            r is Err <==> !(self is Enum),
            r matches Err(e) ==> e.kind == crate::errors::ErrorKind::TypeMismatch,
    {
        match self {
            CommanderDataType::Enum(e) => Ok(e),
            _ => Err(
                crate::errors::CommanderError::new(
                    crate::errors::ErrorKind::TypeMismatch,
                    String::from_str("data type is not an enum"),
                ),
            ),
        }
    }

    /// The list type inside this data type, if it is a list.
    pub fn try_into_list(self) -> (r: Result<CommanderListDataType, crate::errors::CommanderError>)
        ensures
            r matches Ok(l) ==> self == CommanderDataType::List(l),
            r is Err <==> !(self is List),
            r matches Err(e) ==> e.kind == crate::errors::ErrorKind::TypeMismatch,
    {
        match self {
            CommanderDataType::List(l) => Ok(l),
            _ => Err(
                crate::errors::CommanderError::new(
                    crate::errors::ErrorKind::TypeMismatch,
                    String::from_str("data type is not a list"),
                ),
            ),
        }
    }
}

} // verus!

verus! {

/// Copies a value structurally. The copy has the same model.
pub fn clone_value(v: &CommanderValue) -> (r: CommanderValue)
    ensures
        value_model(r) == value_model(*v),
    decreases *v, 0int,
{
    match v {
        CommanderValue::Trigger => CommanderValue::Trigger,
        CommanderValue::Boolean(b) => CommanderValue::Boolean(*b),
        CommanderValue::Number(n) => CommanderValue::Number(*n),
        CommanderValue::String(s) => CommanderValue::String(s.clone()),
        CommanderValue::Bytes(bs) => CommanderValue::Bytes(clone_bytes(bs)),
        CommanderValue::Color(c) => CommanderValue::Color(*c),
        CommanderValue::Json(j) => CommanderValue::Json(JsonString(j.0.clone())),
        CommanderValue::Svg(s) => CommanderValue::Svg(SvgString(s.0.clone())),
        CommanderValue::Path(p) => {
            let copy = clone_strings(p);
            proof {
                assert(copy@.map_values(|s: String| s@) =~= p@.map_values(|s: String| s@));
            }
            CommanderValue::Path(copy)
        },
        CommanderValue::Enum(variant) => CommanderValue::Enum(
            CommanderEnumVariant { name: variant.name.clone(), ordinal: variant.ordinal },
        ),
        CommanderValue::Struct(entries) => {
            let copy = clone_entries(entries, 0);
            proof {
                lemma_entries_model_index(entries@);
                lemma_entries_model_index(copy@);
                assert(entries_model(copy@) =~= entries_model(entries@));
            }
            CommanderValue::Struct(copy)
        },
        CommanderValue::List(items) => {
            let copy = clone_values(items, 0);
            proof {
                lemma_values_model_index(items@);
                lemma_values_model_index(copy@);
                assert(values_model(copy@) =~= values_model(items@));
            }
            CommanderValue::List(copy)
        },
    }
}

/// Copies a byte vector.
pub fn clone_bytes(bs: &Vec<u8>) -> (r: Vec<u8>)
    ensures
        r@ == bs@,
{
    let mut out: Vec<u8> = Vec::new();
    let mut i: usize = 0;
    while i < bs.len()
        invariant
            0 <= i <= bs@.len(),
            out@ == bs@.take(i as int),
        decreases bs@.len() - i,
    {
        out.push(bs[i]);
        proof {
            assert(bs@.take(i as int + 1) =~= bs@.take(i as int).push(bs@[i as int]));
        }
        i = i + 1;
    }
    proof {
        assert(bs@.take(bs@.len() as int) =~= bs@);
    }
    out
}

/// Copies a string vector; the copies' views equal the originals'.
pub fn clone_strings(ss: &Vec<String>) -> (r: Vec<String>)
    ensures
        r@.len() == ss@.len(),
        forall|i: int| 0 <= i < ss@.len() ==> (#[trigger] r@[i])@ == ss@[i]@,
{
    let mut out: Vec<String> = Vec::new();
    let mut i: usize = 0;
    while i < ss.len()
        invariant
            0 <= i <= ss@.len(),
            out@.len() == i,
            forall|k: int| 0 <= k < i ==> (#[trigger] out@[k])@ == ss@[k]@,
        decreases ss@.len() - i,
    {
        out.push(ss[i].clone());
        i = i + 1;
    }
    out
}

/// Copies the struct value entries from index `x` on.
fn clone_entries(es: &Vec<StructFieldValue>, x: usize) -> (r: Vec<StructFieldValue>)
    requires
        x <= es@.len(),
    ensures
        r@.len() == es@.len() - x,
        forall|y: int|
            0 <= y < r@.len() ==> (#[trigger] r@[y]).name@ == es@[x + y].name@ && value_model(
                r@[y].value,
            ) == value_model(es@[x + y].value),
    decreases es, es@.len() - x, 1int,
{
    if x == es.len() {
        Vec::new()
    } else {
        let e = StructFieldValue { name: es[x].name.clone(), value: clone_value(&es[x].value) };
        let mut rest = clone_entries(es, x + 1);
        rest.insert(0, e);
        rest
    }
}

/// Copies the values from index `x` on.
fn clone_values(vs: &Vec<CommanderValue>, x: usize) -> (r: Vec<CommanderValue>)
    requires
        x <= vs@.len(),
    ensures
        r@.len() == vs@.len() - x,
        forall|y: int|
            0 <= y < r@.len() ==> value_model(#[trigger] r@[y]) == value_model(vs@[x + y]),
    decreases vs, vs@.len() - x, 1int,
{
    if x == vs.len() {
        Vec::new()
    } else {
        let v = clone_value(&vs[x]);
        let mut rest = clone_values(vs, x + 1);
        rest.insert(0, v);
        rest
    }
}

/// Copies a whole value list; the copy's models equal the originals'.
pub fn clone_value_vec(vs: &Vec<CommanderValue>) -> (r: Vec<CommanderValue>)
    ensures
        values_model(r@) == values_model(vs@),
{
    let r = clone_values(vs, 0);
    proof {
        lemma_values_model_index(vs@);
        lemma_values_model_index(r@);
        assert(values_model(r@) =~= values_model(vs@));
    }
    r
}

} // verus!

verus! {

/// Compares two data types structurally: true exactly when their models
/// are equal.
#[verifier::loop_isolation(false)]
pub fn type_eq(a: &CommanderDataType, b: &CommanderDataType) -> (r: bool)
    ensures
        r == (dt_model(*a) == dt_model(*b)),
    decreases *a, 0int,
{
    match (a, b) {
        (CommanderDataType::Trigger(_), CommanderDataType::Trigger(_)) => true,
        (CommanderDataType::Boolean(_), CommanderDataType::Boolean(_)) => true,
        (CommanderDataType::Number(_), CommanderDataType::Number(_)) => true,
        (CommanderDataType::String(_), CommanderDataType::String(_)) => true,
        (CommanderDataType::Bytes(_), CommanderDataType::Bytes(_)) => true,
        (CommanderDataType::Color(_), CommanderDataType::Color(_)) => true,
        (CommanderDataType::Json(_), CommanderDataType::Json(_)) => true,
        (CommanderDataType::Svg(_), CommanderDataType::Svg(_)) => true,
        (CommanderDataType::Path(_), CommanderDataType::Path(_)) => true,
        (CommanderDataType::Enum(x), CommanderDataType::Enum(y)) => {
            let ghost xm = x.variants@.map_values(|v: CommanderEnumVariant| v.name@);
            let ghost ym = y.variants@.map_values(|v: CommanderEnumVariant| v.name@);
            proof {
                assert(dt_model(*a) == TypeModel::Enum { name: x.name@, variants: xm });
                assert(dt_model(*b) == TypeModel::Enum { name: y.name@, variants: ym });
                assert(xm.len() == x.variants@.len());
                assert(ym.len() == y.variants@.len());
            }
            if !crate::strings::str_eq(x.name.as_str(), y.name.as_str()) {
                return false;
            }
            if x.variants.len() != y.variants.len() {
                return false;
            }
            let mut i: usize = 0;
            while i < x.variants.len()
                invariant
                    0 <= i <= x.variants@.len(),
                    x.variants@.len() == y.variants@.len(),
                    xm == x.variants@.map_values(|v: CommanderEnumVariant| v.name@),
                    ym == y.variants@.map_values(|v: CommanderEnumVariant| v.name@),
                    forall|k: int| 0 <= k < i ==> xm[k] == ym[k],
                decreases x.variants@.len() - i,
            {
                if !crate::strings::str_eq(
                    x.variants[i].name.as_str(),
                    y.variants[i].name.as_str(),
                ) {
                    assert(xm[i as int] != ym[i as int]);
                    return false;
                }
                i = i + 1;
            }
            proof {
                assert(xm =~= ym);
            }
            true
        },
        (CommanderDataType::Struct(x), CommanderDataType::Struct(y)) => {
            proof {
                assert(dt_model(*a) == TypeModel::Struct {
                    name: x.name@,
                    fields: fields_model(x.fields@),
                });
                assert(dt_model(*b) == TypeModel::Struct {
                    name: y.name@,
                    fields: fields_model(y.fields@),
                });
                lemma_fields_model_index(x.fields@);
                lemma_fields_model_index(y.fields@);
            }
            if !crate::strings::str_eq(x.name.as_str(), y.name.as_str()) {
                return false;
            }
            if x.fields.len() != y.fields.len() {
                return false;
            }
            let r = fields_eq(&x.fields, &y.fields, 0);
            proof {
                if r {
                    assert(fields_model(x.fields@) =~= fields_model(y.fields@));
                } else {
                    assert(fields_model(x.fields@) != fields_model(y.fields@));
                }
            }
            r
        },
        (CommanderDataType::List(x), CommanderDataType::List(y)) => {
            let r = type_eq(&x.element, &y.element);
            proof {
                if dt_model(*x.element) == dt_model(*y.element) {
                    assert(dt_model(*a) == dt_model(*b));
                }
            }
            r
        },
        _ => {
            proof {
                assert(dt_model(*a) != dt_model(*b));
            }
            false
        },
    }
}

/// Compares two declared field lists from index `i` on: true exactly
/// when names and types agree pairwise.
fn fields_eq(a: &Vec<CommanderStructField>, b: &Vec<CommanderStructField>, i: usize) -> (r: bool)
    requires
        i <= a@.len(),
        a@.len() == b@.len(),
    ensures
        r == (forall|k: int|
            i <= k < a@.len() ==> (#[trigger] fields_model(a@)[k]) == fields_model(b@)[k]),
    decreases a, a@.len() - i,
{
    proof {
        lemma_fields_model_index(a@);
        lemma_fields_model_index(b@);
    }
    if i == a.len() {
        true
    } else {
        if !crate::strings::str_eq(a[i].name.as_str(), b[i].name.as_str()) {
            assert(fields_model(a@)[i as int] != fields_model(b@)[i as int]);
            return false;
        }
        if !type_eq(&a[i].data_type, &b[i].data_type) {
            assert(fields_model(a@)[i as int] != fields_model(b@)[i as int]);
            return false;
        }
        let rest = fields_eq(a, b, i + 1);
        if rest {
            assert(fields_model(a@)[i as int] == fields_model(b@)[i as int]);
        }
        rest
    }
}

} // verus!
