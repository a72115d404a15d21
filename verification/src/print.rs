//! The canonical printed form of data types.

use vstd::prelude::*;
use vstd::string::StringExecFns;

use crate::model::{FieldModel, TypeModel};
use crate::types::{
    dt_model, fields_model, CommanderDataType, CommanderEnumDataType, CommanderEnumVariant,
    CommanderStructField,
};

verus! {

/// The canonical printed form of a type: the keyword for primitives,
/// `enum Name<V1, V2>` for enums, `struct Name<f1: T1, f2: T2>` for
/// structs, and `list<T>` for lists.
pub open spec fn print_type(t: TypeModel) -> Seq<char>
    decreases t, 0int,
{
    match t {
        TypeModel::Trigger => "trigger"@,
        TypeModel::Boolean => "boolean"@,
        TypeModel::Number => "number"@,
        TypeModel::String => "string"@,
        TypeModel::Bytes => "bytes"@,
        TypeModel::Color => "color"@,
        TypeModel::Json => "json"@,
        TypeModel::Svg => "svg"@,
        TypeModel::Path => "path"@,
        TypeModel::Enum { name, variants } => "enum "@ + name + "<"@ + print_names_from(
            variants,
            0,
        ) + ">"@,
        TypeModel::Struct { name, fields } => "struct "@ + name + "<"@ + print_fields_from(
            fields,
            0,
        ) + ">"@,
        TypeModel::List { elem } => "list<"@ + print_type(*elem) + ">"@,
    }
}

/// The variant names from index `i` on, joined by `", "`.
pub open spec fn print_names_from(vs: Seq<Seq<char>>, i: int) -> Seq<char>
    decreases vs.len() - i,
{
    if i < 0 || i >= vs.len() {
        Seq::empty()
    } else if i == vs.len() - 1 {
        vs[i]
    } else {
        vs[i] + ", "@ + print_names_from(vs, i + 1)
    }
}

/// The declared fields from index `i` on, each as `name: type`, joined
/// by `", "`.
pub open spec fn print_fields_from(fs: Seq<FieldModel>, i: int) -> Seq<char>
    decreases fs, fs.len() - i,
{
    if i < 0 || i >= fs.len() {
        Seq::empty()
    } else if i == fs.len() - 1 {
        print_field(fs[i])
    } else {
        print_field(fs[i]) + ", "@ + print_fields_from(fs, i + 1)
    }
}

/// One declared field as `name: type`.
pub open spec fn print_field(f: FieldModel) -> Seq<char>
    decreases f.ty, 1int,
{
    f.name + ": "@ + print_type(f.ty)
}

fn write_names(vs: &Vec<CommanderEnumVariant>, i: usize, out: &mut String)
    requires
        i <= vs@.len(),
    ensures
        final(out)@ == old(out)@ + print_names_from(
            vs@.map_values(|v: CommanderEnumVariant| v.name@),
            i as int,
        ),
    decreases vs@.len() - i,
{
    let ghost names = vs@.map_values(|v: CommanderEnumVariant| v.name@);
    if i < vs.len() {
        out.append(vs[i].name.as_str());
        if i + 1 < vs.len() {
            out.append(", ");
        }
        write_names(vs, i + 1, out);
        proof {
            assert(out@ =~= old(out)@ + print_names_from(names, i as int));
        }
    } else {
        proof {
            assert(out@ =~= old(out)@ + print_names_from(names, i as int));
        }
    }
}

fn write_fields(fs: &Vec<CommanderStructField>, i: usize, out: &mut String)
    requires
        i <= fs@.len(),
    ensures
        final(out)@ == old(out)@ + print_fields_from(fields_model(fs@), i as int),
    decreases fs, fs@.len() - i, 2int,
{
    let ghost fm = fields_model(fs@);
    proof {
        crate::types::lemma_fields_model_index(fs@);
    }
    if i < fs.len() {
        out.append(fs[i].name.as_str());
        out.append(": ");
        write_type(&fs[i].data_type, out);
        proof {
            assert(out@ =~= old(out)@ + print_field(fm[i as int]));
        }
        if i + 1 < fs.len() {
            out.append(", ");
        }
        write_fields(fs, i + 1, out);
        proof {
            if i + 1 < fs.len() {
                assert(out@ =~= old(out)@ + print_field(fm[i as int]) + ", "@
                    + print_fields_from(fm, i + 1));
            } else {
                assert(print_fields_from(fm, i + 1) =~= Seq::<char>::empty());
            }
            assert(out@ =~= old(out)@ + print_fields_from(fm, i as int));
        }
    } else {
        proof {
            assert(out@ =~= old(out)@ + print_fields_from(fm, i as int));
        }
    }
}

fn write_type(t: &CommanderDataType, out: &mut String)
    ensures
        final(out)@ == old(out)@ + print_type(dt_model(*t)),
    decreases *t, 0int, 0int,
{
    match t {
        CommanderDataType::Trigger(_) => out.append("trigger"),
        CommanderDataType::Boolean(_) => out.append("boolean"),
        CommanderDataType::Number(_) => out.append("number"),
        CommanderDataType::String(_) => out.append("string"),
        CommanderDataType::Bytes(_) => out.append("bytes"),
        CommanderDataType::Color(_) => out.append("color"),
        CommanderDataType::Json(_) => out.append("json"),
        CommanderDataType::Svg(_) => out.append("svg"),
        CommanderDataType::Path(_) => out.append("path"),
        CommanderDataType::Enum(e) => {
            out.append("enum ");
            out.append(e.name.as_str());
            out.append("<");
            write_names(&e.variants, 0, out);
            out.append(">");
            proof {
                assert(out@ =~= old(out)@ + print_type(dt_model(*t)));
            }
        },
        CommanderDataType::Struct(s) => {
            out.append("struct ");
            out.append(s.name.as_str());
            out.append("<");
            write_fields(&s.fields, 0, out);
            out.append(">");
            proof {
                assert(out@ =~= old(out)@ + print_type(dt_model(*t)));
            }
        },
        CommanderDataType::List(l) => {
            out.append("list<");
            write_type(&l.element, out);
            out.append(">");
            proof {
                assert(out@ =~= old(out)@ + print_type(dt_model(*t)));
            }
        },
    }
}

impl CommanderDataType {
    /// The canonical printed form of this type.
    pub fn type_string(&self) -> (r: String)
        ensures
            r@ == print_type(self@),
    {
        let mut out = String::new();
        write_type(self, &mut out);
        proof {
            assert(out@ =~= print_type(dt_model(*self)));
        }
        out
    }
}

impl CommanderEnumDataType {
    /// The canonical printed form of this enum type.
    pub fn type_string(&self) -> (r: String)
        ensures
            r@ == print_type(self@),
    {
        let dt = CommanderDataType::Enum(
            CommanderEnumDataType {
                name: self.name.clone(),
                variants: clone_variants(&self.variants),
            },
        );
        proof {
            assert(dt@ == self@);
        }
        dt.type_string()
    }
}

/// Copies a variant list.
pub fn clone_variants(vs: &Vec<CommanderEnumVariant>) -> (r: Vec<CommanderEnumVariant>)
    ensures
        r@ == vs@,
{
    let mut out: Vec<CommanderEnumVariant> = Vec::new();
    let mut i: usize = 0;
    while i < vs.len()
        invariant
            0 <= i <= vs@.len(),
            out@.len() == i,
            forall|k: int| 0 <= k < i ==> out@[k] == vs@[k],
        decreases vs@.len() - i,
    {
        out.push(CommanderEnumVariant { name: vs[i].name.clone(), ordinal: vs[i].ordinal });
        i = i + 1;
    }
    proof {
        assert(out@ =~= vs@);
    }
    out
}

} // verus!
