//! The law of the grammar: parsing the canonical printed form of any
//! well-formed type yields that type again.

use vstd::prelude::*;

use crate::model::{
    fields_wf, is_ident, is_ident_char, is_letter, seq_distinct, type_wf, FieldModel, TypeModel,
};
use crate::parse::{
    is_ws, lemma_skip_ws, parse_fields, parse_names, parse_spec, parse_static, parse_type,
    scan_ident_end, skip_ws,
};
use crate::print::{print_field, print_fields_from, print_names_from, print_type};

verus! {

/// Splits a known subrange of `s` into its two concatenated parts.
proof fn lemma_split(s: Seq<char>, pos: int, a: Seq<char>, b: Seq<char>)
    requires
        0 <= pos,
        pos + a.len() + b.len() <= s.len(),
        s.subrange(pos, pos + a.len() + b.len()) == a + b,
    ensures
        s.subrange(pos, pos + a.len() as int) == a,
        s.subrange(pos + a.len() as int, pos + a.len() + b.len()) == b,
{
    let whole = s.subrange(pos, pos + a.len() + b.len());
    assert forall|i: int| 0 <= i < a.len() implies s.subrange(pos, pos + a.len() as int)[i]
        == a[i] by {
        assert(whole[i] == (a + b)[i]);
    }
    assert(s.subrange(pos, pos + a.len() as int) =~= a);
    assert forall|i: int|
        0 <= i < b.len() implies s.subrange(pos + a.len() as int, pos + a.len() + b.len())[i]
        == b[i] by {
        assert(whole[a.len() + i] == (a + b)[a.len() + i]);
    }
    assert(s.subrange(pos + a.len() as int, pos + a.len() + b.len()) =~= b);
}

/// The characters of a subrange are the characters of the sequence.
proof fn lemma_sub_chars(s: Seq<char>, pos: int, a: Seq<char>)
    requires
        0 <= pos,
        pos + a.len() <= s.len(),
        s.subrange(pos, pos + a.len() as int) == a,
    ensures
        forall|k: int| 0 <= k < a.len() ==> s[pos + k] == #[trigger] a[k],
{
    assert forall|k: int| 0 <= k < a.len() implies s[pos + k] == #[trigger] a[k] by {
        assert(s.subrange(pos, pos + a.len() as int)[k] == s[pos + k]);
    }
}

/// Scanning an identifier run that is known exactly ends exactly after
/// it.
proof fn lemma_scan_exact(s: Seq<char>, i: int, w: Seq<char>)
    requires
        0 <= i,
        i + w.len() <= s.len(),
        s.subrange(i, i + w.len() as int) == w,
        forall|k: int| 0 <= k < w.len() ==> is_ident_char(#[trigger] w[k]),
        i + w.len() == s.len() || !is_ident_char(s[i + w.len()]),
    ensures
        scan_ident_end(s, i) == i + w.len(),
    decreases w.len(),
{
    lemma_sub_chars(s, i, w);
    if w.len() == 0 {
    } else {
        assert(s[i] == w[0]);
        let w2 = w.drop_first();
        assert(s.subrange(i + 1, i + 1 + w2.len() as int) =~= w2) by {
            lemma_sub_chars(s, i, w);
            assert forall|k: int| 0 <= k < w2.len() implies s.subrange(
                i + 1,
                i + 1 + w2.len() as int,
            )[k] == w2[k] by {
                assert(s[i + 1 + k] == w[k + 1]);
            }
        }
        assert forall|k: int| 0 <= k < w2.len() implies is_ident_char(#[trigger] w2[k]) by {
            assert(w2[k] == w[k + 1]);
        }
        lemma_scan_exact(s, i + 1, w2);
    }
}

/// Whitespace skipping does not move over a non-whitespace character.
proof fn lemma_skip_here(s: Seq<char>, i: int)
    requires
        0 <= i <= s.len(),
        i == s.len() || !is_ws(s[i]),
    ensures
        skip_ws(s, i) == i,
{
}

/// Whitespace skipping over exactly one space.
proof fn lemma_skip_one(s: Seq<char>, i: int)
    requires
        0 <= i,
        i + 1 <= s.len(),
        s[i] == ' ',
        i + 1 == s.len() || !is_ws(s[i + 1]),
    ensures
        skip_ws(s, i) == i + 1,
{
    lemma_skip_here(s, i + 1);
}

/// Every canonical printed type is nonempty and starts with a letter.
proof fn lemma_print_head(t: TypeModel)
    ensures
        print_type(t).len() > 0,
        is_letter(print_type(t)[0]),
        !is_ws(print_type(t)[0]),
{
    reveal_strlit("trigger");
    reveal_strlit("boolean");
    reveal_strlit("number");
    reveal_strlit("string");
    reveal_strlit("bytes");
    reveal_strlit("color");
    reveal_strlit("json");
    reveal_strlit("svg");
    reveal_strlit("path");
    reveal_strlit("enum ");
    reveal_strlit("struct ");
    reveal_strlit("list<");
    match t {
        TypeModel::Enum { name, variants } => {
            assert(print_type(t)[0] == "enum "@[0]);
        },
        TypeModel::Struct { name, fields } => {
            assert(print_type(t)[0] == "struct "@[0]);
        },
        TypeModel::List { elem } => {
            assert(print_type(t)[0] == "list<"@[0]);
        },
        _ => {},
    }
}

/// The names from an index shift with the sequence.
proof fn lemma_names_shift(vs: Seq<Seq<char>>, k: int)
    requires
        0 <= k,
        vs.len() > 0,
    ensures
        print_names_from(vs, k + 1) == print_names_from(vs.drop_first(), k),
    decreases vs.len() - k,
{
    let d = vs.drop_first();
    assert(d.len() == vs.len() - 1);
    if k + 1 >= vs.len() {
    } else if k + 1 == vs.len() - 1 {
        assert(d[k] == vs[k + 1]);
    } else {
        lemma_names_shift(vs, k + 1);
        assert(d[k] == vs[k + 1]);
    }
}

/// The fields from an index shift with the sequence.
proof fn lemma_fields_shift(fs: Seq<FieldModel>, k: int)
    requires
        0 <= k,
        fs.len() > 0,
    ensures
        print_fields_from(fs, k + 1) == print_fields_from(fs.drop_first(), k),
    decreases fs.len() - k,
{
    let d = fs.drop_first();
    assert(d.len() == fs.len() - 1);
    if k + 1 >= fs.len() {
    } else if k + 1 == fs.len() - 1 {
        assert(d[k] == fs[k + 1]);
    } else {
        lemma_fields_shift(fs, k + 1);
        assert(d[k] == fs[k + 1]);
    }
}

} // verus!

verus! {

/// The keywords of the grammar are pairwise distinct identifiers.
proof fn lemma_keywords()
    ensures
        "trigger"@ != "boolean"@,
        "list"@ != "boolean"@ && "list"@ != "number"@ && "list"@ != "string"@ && "list"@
            != "bytes"@ && "list"@ != "color"@ && "list"@ != "json"@ && "list"@ != "svg"@
            && "list"@ != "path"@ && "list"@ != "trigger"@,
        "enum"@ != "boolean"@ && "enum"@ != "number"@ && "enum"@ != "string"@ && "enum"@
            != "bytes"@ && "enum"@ != "color"@ && "enum"@ != "json"@ && "enum"@ != "svg"@
            && "enum"@ != "path"@ && "enum"@ != "list"@ && "enum"@ != "trigger"@,
        "struct"@ != "boolean"@ && "struct"@ != "number"@ && "struct"@ != "string"@ && "struct"@
            != "bytes"@ && "struct"@ != "color"@ && "struct"@ != "json"@ && "struct"@ != "svg"@
            && "struct"@ != "path"@ && "struct"@ != "list"@ && "struct"@ != "enum"@ && "struct"@
            != "trigger"@,
        "number"@ != "boolean"@ && "string"@ != "boolean"@ && "string"@ != "number"@ && "bytes"@
            != "boolean"@ && "bytes"@ != "number"@ && "bytes"@ != "string"@ && "color"@
            != "boolean"@ && "color"@ != "number"@ && "color"@ != "string"@ && "color"@
            != "bytes"@ && "json"@ != "boolean"@ && "json"@ != "number"@ && "json"@ != "string"@
            && "json"@ != "bytes"@ && "json"@ != "color"@ && "svg"@ != "boolean"@ && "svg"@
            != "number"@ && "svg"@ != "string"@ && "svg"@ != "bytes"@ && "svg"@ != "color"@
            && "svg"@ != "json"@ && "path"@ != "boolean"@ && "path"@ != "number"@ && "path"@
            != "string"@ && "path"@ != "bytes"@ && "path"@ != "color"@ && "path"@ != "json"@
            && "path"@ != "svg"@,
        "number"@ != "trigger"@ && "string"@ != "trigger"@ && "bytes"@ != "trigger"@ && "color"@
            != "trigger"@ && "json"@ != "trigger"@ && "svg"@ != "trigger"@ && "path"@
            != "trigger"@,
{
    reveal_strlit("trigger");
    reveal_strlit("boolean");
    reveal_strlit("number");
    reveal_strlit("string");
    reveal_strlit("bytes");
    reveal_strlit("color");
    reveal_strlit("json");
    reveal_strlit("svg");
    reveal_strlit("path");
    reveal_strlit("list");
    reveal_strlit("enum");
    reveal_strlit("struct");
    assert("trigger"@.len() == 7 && "boolean"@.len() == 7 && "number"@.len() == 6
        && "string"@.len() == 6 && "bytes"@.len() == 5 && "color"@.len() == 5
        && "json"@.len() == 4 && "svg"@.len() == 3 && "path"@.len() == 4 && "list"@.len() == 4
        && "enum"@.len() == 4 && "struct"@.len() == 6);
    assert("trigger"@[0] != "boolean"@[0]);
    assert("number"@[0] != "string"@[0]);
    assert("struct"@[3] != "string"@[3]);
    assert("struct"@[0] != "number"@[0]);
    assert("bytes"@[0] != "color"@[0]);
    assert("json"@[0] != "path"@[0]);
    assert("json"@[0] != "list"@[0]);
    assert("json"@[0] != "enum"@[0]);
    assert("path"@[0] != "list"@[0]);
    assert("path"@[0] != "enum"@[0]);
    assert("list"@[0] != "enum"@[0]);
}

/// A primitive keyword is a run of identifier characters.
proof fn lemma_keyword_chars()
    ensures
        forall|k: int| 0 <= k < "trigger"@.len() ==> is_ident_char(#[trigger] "trigger"@[k]),
        forall|k: int| 0 <= k < "boolean"@.len() ==> is_ident_char(#[trigger] "boolean"@[k]),
        forall|k: int| 0 <= k < "number"@.len() ==> is_ident_char(#[trigger] "number"@[k]),
        forall|k: int| 0 <= k < "string"@.len() ==> is_ident_char(#[trigger] "string"@[k]),
        forall|k: int| 0 <= k < "bytes"@.len() ==> is_ident_char(#[trigger] "bytes"@[k]),
        forall|k: int| 0 <= k < "color"@.len() ==> is_ident_char(#[trigger] "color"@[k]),
        forall|k: int| 0 <= k < "json"@.len() ==> is_ident_char(#[trigger] "json"@[k]),
        forall|k: int| 0 <= k < "svg"@.len() ==> is_ident_char(#[trigger] "svg"@[k]),
        forall|k: int| 0 <= k < "path"@.len() ==> is_ident_char(#[trigger] "path"@[k]),
        forall|k: int| 0 <= k < "list"@.len() ==> is_ident_char(#[trigger] "list"@[k]),
        forall|k: int| 0 <= k < "enum"@.len() ==> is_ident_char(#[trigger] "enum"@[k]),
        forall|k: int| 0 <= k < "struct"@.len() ==> is_ident_char(#[trigger] "struct"@[k]),
{
    reveal_strlit("trigger");
    reveal_strlit("boolean");
    reveal_strlit("number");
    reveal_strlit("string");
    reveal_strlit("bytes");
    reveal_strlit("color");
    reveal_strlit("json");
    reveal_strlit("svg");
    reveal_strlit("path");
    reveal_strlit("list");
    reveal_strlit("enum");
    reveal_strlit("struct");
}

/// Parsing at the canonical print of a well-formed type, embedded in
/// any surrounding text that does not extend its trailing identifier,
/// yields exactly that type and stops exactly after it.
#[verifier::rlimit(100)]
#[verifier::spinoff_prover]
pub proof fn lemma_parse_type_at(s: Seq<char>, i: int, t: TypeModel)
    requires
        type_wf(t),
        0 <= i <= s.len(),
        skip_ws(s, i) + print_type(t).len() <= s.len(),
        s.subrange(skip_ws(s, i), skip_ws(s, i) + print_type(t).len() as int) == print_type(t),
        skip_ws(s, i) + print_type(t).len() == s.len() || !is_ident_char(
            s[skip_ws(s, i) + print_type(t).len()],
        ),
    ensures
        parse_type(s, i) == Some((t, skip_ws(s, i) + print_type(t).len())),
        !(t is Trigger) ==> parse_static(s, i) == Some(
            (t, skip_ws(s, i) + print_type(t).len()),
        ),
    decreases t, 1int,
{
    lemma_skip_ws(s, i);
    let i0 = skip_ws(s, i);
    let p = print_type(t);
    lemma_print_head(t);
    lemma_sub_chars(s, i0, p);
    lemma_keywords();
    lemma_keyword_chars();
    reveal_strlit("trigger");
    reveal_strlit("boolean");
    reveal_strlit("number");
    reveal_strlit("string");
    reveal_strlit("bytes");
    reveal_strlit("color");
    reveal_strlit("json");
    reveal_strlit("svg");
    reveal_strlit("path");
    reveal_strlit("list");
    reveal_strlit("enum");
    reveal_strlit("struct");
    reveal_strlit("enum ");
    reveal_strlit("struct ");
    reveal_strlit("list<");
    reveal_strlit("<");
    reveal_strlit(">");
    match t {
        TypeModel::Trigger => {
            lemma_scan_exact(s, i0, p);
            assert(s.subrange(i0, i0 + 7) == "trigger"@);
        },
        TypeModel::Boolean => {
            lemma_scan_exact(s, i0, p);
        },
        TypeModel::Number => {
            lemma_scan_exact(s, i0, p);
        },
        TypeModel::String => {
            lemma_scan_exact(s, i0, p);
        },
        TypeModel::Bytes => {
            lemma_scan_exact(s, i0, p);
        },
        TypeModel::Color => {
            lemma_scan_exact(s, i0, p);
        },
        TypeModel::Json => {
            lemma_scan_exact(s, i0, p);
        },
        TypeModel::Svg => {
            lemma_scan_exact(s, i0, p);
        },
        TypeModel::Path => {
            lemma_scan_exact(s, i0, p);
        },
        TypeModel::List { elem } => {
            let pe = print_type(*elem);
            assert(p =~= "list<"@ + (pe + ">"@));
            lemma_split(s, i0, "list<"@, pe + ">"@);
            lemma_split(s, i0 + 5, pe, ">"@);
            lemma_sub_chars(s, i0, "list<"@);
            lemma_sub_chars(s, i0 + 5 + pe.len(), ">"@);
            assert(s.subrange(i0, i0 + 4) =~= "list"@) by {
                lemma_sub_chars(s, i0, "list<"@);
                assert forall|k: int| 0 <= k < 4 implies s.subrange(i0, i0 + 4)[k]
                    == "list"@[k] by {
                    assert(s[i0 + k] == "list<"@[k]);
                }
            }
            assert(s[i0 + 4] == "list<"@[4]);
            assert(!is_ident_char('<'));
            lemma_scan_exact(s, i0, "list"@);
            let j = i0 + 4;
            lemma_skip_here(s, j);
            lemma_print_head(*elem);
            assert(s[j + 1] == pe[0]);
            lemma_skip_here(s, j + 1);
            assert(skip_ws(s, j + 1) == j + 1);
            assert(s.subrange(j + 1, j + 1 + pe.len() as int) == pe);
            assert(">"@.len() == 1 && ">"@[0] == '>');
            lemma_sub_chars(s, i0 + 5 + pe.len(), ">"@);
            assert(s[i0 + 5 + pe.len() + 0] == ">"@[0]);
            assert(s[j + 1 + pe.len()] == '>');
            assert(!is_ident_char('>'));
            lemma_parse_type_at(s, j + 1, *elem);
            let m = j + 1 + pe.len() as int;
            lemma_skip_here(s, m);
            assert(!is_ws('>'));
            assert(parse_static(s, j + 1) == Some((*elem, m)));
            assert(p.len() == 5 + pe.len() + 1);
        },
        TypeModel::Enum { name, variants } => {
            let names = print_names_from(variants, 0);
            assert(p =~= "enum "@ + (name + ("<"@ + (names + ">"@))));
            lemma_split(s, i0, "enum "@, name + ("<"@ + (names + ">"@)));
            lemma_split(s, i0 + 5, name, "<"@ + (names + ">"@));
            lemma_split(s, i0 + 5 + name.len(), "<"@, names + ">"@);
            lemma_sub_chars(s, i0, "enum "@);
            reveal_strlit("enum ");
            assert(s.subrange(i0, i0 + 4) =~= "enum"@) by {
                assert forall|k: int| 0 <= k < 4 implies s.subrange(i0, i0 + 4)[k]
                    == "enum"@[k] by {
                    assert(s[i0 + k] == "enum "@[k]);
                }
            }
            assert(s[i0 + 4] == "enum "@[4]);
            assert("enum "@[4] == ' ');
            assert(!is_ident_char(' '));
            lemma_scan_exact(s, i0, "enum"@);
            let j = i0 + 4;
            assert(s[j + 1] == name[0]) by {
                lemma_sub_chars(s, i0 + 5, name);
            }
            assert(is_letter(name[0]));
            lemma_skip_one(s, j);
            let k = j + 1;
            lemma_sub_chars(s, k, name);
            assert(s[k + name.len()] == '<') by {
                lemma_sub_chars(s, i0 + 5 + name.len(), "<"@);
                assert("<"@[0] == '<');
            }
            assert(!is_ident_char('<'));
            lemma_scan_exact(s, k, name);
            let k2 = k + name.len() as int;
            lemma_skip_here(s, k2);
            assert(!is_ws('<'));
            let k3 = k2;
            assert(s[k3] == '<');
            assert(names + ">"@ =~= names + seq!['>']) by {
                assert(">"@.len() == 1 && ">"@[0] == '>');
            }
            assert(s.subrange(k3 + 1, k3 + 1 + names.len() + 1) == names + seq!['>']);
            assert(names.len() > 0) by {
                assert(is_ident(variants[0]));
                if variants.len() == 1 {
                    assert(names == variants[0]);
                } else {
                    assert(names == variants[0] + ", "@ + print_names_from(variants, 1));
                }
            }
            assert(names[0] == variants[0][0]) by {
                if variants.len() == 1 {
                } else {
                    assert(names[0] == (variants[0] + ", "@ + print_names_from(variants, 1))[0]);
                }
            }
            assert(skip_ws(s, k3 + 1) == k3 + 1) by {
                assert(is_letter(variants[0][0]));
                assert(s[k3 + 1] == names[0]) by {
                    lemma_sub_chars(s, k3 + 1, names + seq!['>']);
                    assert((names + seq!['>'])[0] == names[0]);
                }
                lemma_skip_here(s, k3 + 1);
            }
            lemma_parse_names_at(s, k3 + 1, variants);
            assert(parse_names(s, k3 + 1) == Some((variants, k3 + 1 + names.len() + 1)));
            assert(p.len() == 5 + name.len() + 1 + names.len() + 1);
        },
        TypeModel::Struct { name, fields } => {
            let body = print_fields_from(fields, 0);
            assert(p =~= "struct "@ + (name + ("<"@ + (body + ">"@))));
            lemma_split(s, i0, "struct "@, name + ("<"@ + (body + ">"@)));
            lemma_split(s, i0 + 7, name, "<"@ + (body + ">"@));
            lemma_split(s, i0 + 7 + name.len(), "<"@, body + ">"@);
            lemma_sub_chars(s, i0, "struct "@);
            reveal_strlit("struct ");
            assert(s.subrange(i0, i0 + 6) =~= "struct"@) by {
                assert forall|k: int| 0 <= k < 6 implies s.subrange(i0, i0 + 6)[k]
                    == "struct"@[k] by {
                    assert(s[i0 + k] == "struct "@[k]);
                }
            }
            assert(s[i0 + 6] == "struct "@[6]);
            assert("struct "@[6] == ' ');
            assert(!is_ident_char(' '));
            lemma_scan_exact(s, i0, "struct"@);
            let j = i0 + 6;
            assert(s[j + 1] == name[0]) by {
                lemma_sub_chars(s, i0 + 7, name);
            }
            assert(is_letter(name[0]));
            lemma_skip_one(s, j);
            let k = j + 1;
            lemma_sub_chars(s, k, name);
            assert(s[k + name.len()] == '<') by {
                lemma_sub_chars(s, i0 + 7 + name.len(), "<"@);
                assert("<"@[0] == '<');
            }
            assert(!is_ident_char('<'));
            lemma_scan_exact(s, k, name);
            let k2 = k + name.len() as int;
            lemma_skip_here(s, k2);
            assert(!is_ws('<'));
            let k3 = k2;
            assert(s[k3] == '<');
            lemma_sub_chars(s, k3 + 1, body + ">"@);
            assert(s[k3 + 1 + body.len()] == '>') by {
                assert((body + ">"@)[body.len() as int] == ">"@[0]);
                assert(">"@[0] == '>');
            }
            if fields.len() == 0 {
                assert(body.len() == 0);
                assert(s[k3 + 1] == '>');
                assert(!is_ws('>'));
                lemma_skip_here(s, k3 + 1);
                assert(fields =~= Seq::<FieldModel>::empty());
                assert(p.len() == 7 + name.len() + 1 + 1);
            } else {
                crate::model::lemma_fields_wf_index(fields);
                assert(body.len() > 0 ==> body[0] == fields[0].name[0]) by {
                    assert(print_field(fields[0])[0] == fields[0].name[0]) by {
                        assert(print_field(fields[0]) == fields[0].name + ": "@ + print_type(
                            fields[0].ty,
                        ));
                        assert((fields[0].name + ": "@ + print_type(fields[0].ty))[0]
                            == fields[0].name[0]);
                    }
                    if fields.len() == 1 {
                    } else {
                        assert(body[0] == (print_field(fields[0]) + ", "@ + print_fields_from(
                            fields,
                            1,
                        ))[0]);
                    }
                }
                assert(is_ident(fields[0].name));
                assert(is_letter(fields[0].name[0]));
                assert(body.len() > 0) by {
                    assert(print_field(fields[0]) == fields[0].name + ": "@ + print_type(
                        fields[0].ty,
                    ));
                    assert(print_field(fields[0]).len() >= fields[0].name.len());
                    assert(fields[0].name.len() > 0);
                    if fields.len() == 1 {
                        assert(body == print_field(fields[0]));
                    } else {
                        assert(body == print_field(fields[0]) + ", "@ + print_fields_from(
                            fields,
                            1,
                        ));
                    }
                }
                assert(s[k3 + 1] == body[0]) by {
                    assert((body + ">"@)[0] == body[0]);
                }
                assert(!is_ws(s[k3 + 1]));
                lemma_skip_here(s, k3 + 1);
                assert(s[k3 + 1] != '>') by {
                    assert(is_letter(body[0]));
                }
                assert(body + ">"@ =~= body + seq!['>']) by {
                    assert(">"@.len() == 1 && ">"@[0] == '>');
                }
                lemma_parse_fields_at(s, k3 + 1, fields);
                assert(parse_fields(s, k3 + 1) == Some((fields, k3 + 1 + body.len() + 1)));
                assert(seq_distinct(fields.map_values(|f: FieldModel| f.name)));
                assert(p.len() == 7 + name.len() + 1 + body.len() + 1);
            }
        },
    }
}

/// Parsing at a printed variant-name list closed by `>` yields the
/// names and stops after the bracket.
#[verifier::rlimit(100)]
#[verifier::spinoff_prover]
proof fn lemma_parse_names_at(s: Seq<char>, i: int, vs: Seq<Seq<char>>)
    requires
        vs.len() > 0,
        forall|k: int| 0 <= k < vs.len() ==> is_ident(#[trigger] vs[k]),
        0 <= i <= s.len(),
        skip_ws(s, i) + print_names_from(vs, 0).len() + 1 <= s.len(),
        s.subrange(
            skip_ws(s, i),
            skip_ws(s, i) + print_names_from(vs, 0).len() + 1,
        ) == print_names_from(vs, 0) + seq!['>'],
    ensures
        parse_names(s, i) == Some((vs, skip_ws(s, i) + print_names_from(vs, 0).len() + 1)),
    decreases vs.len(),
{
    lemma_skip_ws(s, i);
    let i0 = skip_ws(s, i);
    let body = print_names_from(vs, 0);
    reveal_strlit(", ");
    assert(", "@.len() == 2 && ", "@[0] == ',' && ", "@[1] == ' ');
    lemma_sub_chars(s, i0, body + seq!['>']);
    let v0 = vs[0];
    assert(is_ident(v0));
    if vs.len() == 1 {
        assert(body == v0);
        assert(s.subrange(i0, i0 + v0.len() as int) =~= v0) by {
            assert forall|k: int| 0 <= k < v0.len() implies s.subrange(
                i0,
                i0 + v0.len() as int,
            )[k] == v0[k] by {
                assert(s[i0 + k] == (body + seq!['>'])[k]);
            }
        }
        assert(s[i0 + v0.len()] == '>') by {
            assert((body + seq!['>'])[v0.len() as int] == '>');
        }
        assert(!is_ident_char('>'));
        lemma_scan_exact(s, i0, v0);
        let j = i0 + v0.len() as int;
        lemma_skip_here(s, j);
        assert(!is_ws('>'));
        assert(s[j] != ',');
        assert(seq![v0] =~= vs);
    } else {
        let rest = print_names_from(vs, 1);
        assert(body == v0 + ", "@ + rest);
        assert(s.subrange(i0, i0 + v0.len() as int) =~= v0) by {
            assert forall|k: int| 0 <= k < v0.len() implies s.subrange(
                i0,
                i0 + v0.len() as int,
            )[k] == v0[k] by {
                assert(s[i0 + k] == (body + seq!['>'])[k]);
                assert((body + seq!['>'])[k] == body[k]);
                assert(body[k] == ((v0 + ", "@) + rest)[k]);
            }
        }
        let j = i0 + v0.len() as int;
        assert(s[j] == ',') by {
            assert(s[i0 + v0.len()] == (body + seq!['>'])[v0.len() as int]);
            assert(body[v0.len() as int] == ((v0 + ", "@) + rest)[v0.len() as int]);
        }
        assert(!is_ident_char(','));
        lemma_scan_exact(s, i0, v0);
        lemma_skip_here(s, j);
        assert(!is_ws(','));
        // the tail region starts after the comma and one space
        assert(s[j + 1] == ' ') by {
            assert(body[v0.len() as int + 1] == ((v0 + ", "@) + rest)[v0.len() as int + 1]);
            assert(s[i0 + (v0.len() + 1)] == (body + seq!['>'])[v0.len() as int + 1]);
        }
        let d = vs.drop_first();
        lemma_names_shift(vs, 0);
        assert(rest == print_names_from(d, 0));
        assert(d.len() > 0);
        assert(forall|k: int| 0 <= k < d.len() ==> is_ident(#[trigger] d[k])) by {
            assert(forall|k: int| 0 <= k < d.len() ==> d[k] == vs[k + 1]);
        }
        assert(rest.len() > 0 ==> rest[0] == d[0][0]) by {
            if d.len() == 1 {
                assert(rest == d[0]);
            } else {
                assert(rest[0] == ((d[0] + ", "@) + print_names_from(d, 1))[0]);
            }
        }
        assert(rest.len() > 0) by {
            if d.len() == 1 {
                assert(rest == d[0]);
                assert(is_ident(d[0]));
            }
        }
        assert(s[j + 2] == rest[0]) by {
            assert(s[i0 + (v0.len() + 2)] == (body + seq!['>'])[v0.len() as int + 2]);
            assert(body[v0.len() as int + 2] == ((v0 + ", "@) + rest)[v0.len() as int + 2]);
        }
        assert(is_letter(d[0][0]));
        lemma_skip_one(s, j + 1);
        assert(skip_ws(s, j + 1) == j + 2);
        assert(s.subrange(j + 2, j + 2 + rest.len() + 1) =~= rest + seq!['>']) by {
            assert forall|k: int| 0 <= k < rest.len() + 1 implies s.subrange(
                j + 2,
                j + 2 + rest.len() + 1,
            )[k] == (rest + seq!['>'])[k] by {
                assert(s[j + 2 + k] == (body + seq!['>'])[v0.len() + 2 + k]);
                if k < rest.len() {
                    assert((body + seq!['>'])[v0.len() + 2 + k] == body[v0.len() + 2 + k]);
                    assert(body[v0.len() + 2 + k] == rest[k]);
                }
            }
        }
        lemma_parse_names_at(s, j + 1, d);
        assert(parse_names(s, j + 1) == Some((d, j + 2 + rest.len() + 1)));
        assert(seq![v0] + d =~= vs);
        assert(i0 + body.len() + 1 == j + 2 + rest.len() + 1);
    }
}

/// Parsing at a printed field list closed by `>` yields the fields and
/// stops after the bracket.
#[verifier::rlimit(100)]
#[verifier::spinoff_prover]
proof fn lemma_parse_fields_at(s: Seq<char>, i: int, fs: Seq<FieldModel>)
    requires
        fs.len() > 0,
        fields_wf(fs),
        0 <= i <= s.len(),
        skip_ws(s, i) + print_fields_from(fs, 0).len() + 1 <= s.len(),
        s.subrange(
            skip_ws(s, i),
            skip_ws(s, i) + print_fields_from(fs, 0).len() + 1,
        ) == print_fields_from(fs, 0) + seq!['>'],
    ensures
        parse_fields(s, i) == Some((fs, skip_ws(s, i) + print_fields_from(fs, 0).len() + 1)),
    decreases fs, 2int,
{
    lemma_skip_ws(s, i);
    crate::model::lemma_fields_wf_index(fs);
    let i0 = skip_ws(s, i);
    let body = print_fields_from(fs, 0);
    reveal_strlit(", ");
    reveal_strlit(": ");
    assert(", "@.len() == 2 && ", "@[0] == ',' && ", "@[1] == ' ');
    assert(": "@.len() == 2 && ": "@[0] == ':' && ": "@[1] == ' ');
    lemma_sub_chars(s, i0, body + seq!['>']);
    let f0 = fs[0];
    let pf = print_field(f0);
    let pt = print_type(f0.ty);
    assert(pf == f0.name + ": "@ + pt);
    assert(is_ident(f0.name));
    lemma_print_head(f0.ty);
    let after = if fs.len() == 1 { seq!['>'] } else { ", "@ + print_fields_from(fs, 1) + seq!['>'] };
    assert(body + seq!['>'] =~= pf + after) by {
        if fs.len() == 1 {
            assert(body == pf);
        } else {
            assert(body == pf + ", "@ + print_fields_from(fs, 1));
        }
    }
    lemma_sub_chars(s, i0, body + seq!['>']);
    assert(forall|k: int| 0 <= k < pf.len() + after.len() ==> s[i0 + k] == #[trigger] (pf
        + after)[k]) by {
        assert(forall|k: int| 0 <= k < (body + seq!['>']).len() ==> s[i0 + k] == (body
            + seq!['>'])[k]);
    }
    // the field name, then the colon and one space
    assert(s.subrange(i0, i0 + f0.name.len() as int) =~= f0.name) by {
        assert forall|k: int| 0 <= k < f0.name.len() implies s.subrange(
            i0,
            i0 + f0.name.len() as int,
        )[k] == f0.name[k] by {
            assert(s[i0 + k] == (pf + after)[k]);
            assert((pf + after)[k] == pf[k]);
            assert(pf[k] == ((f0.name + ": "@) + pt)[k]);
        }
    }
    let j = i0 + f0.name.len() as int;
    assert(s[j] == ':') by {
        assert(s[i0 + f0.name.len()] == (pf + after)[f0.name.len() as int]);
        assert((pf + after)[f0.name.len() as int] == pf[f0.name.len() as int]);
        assert(pf[f0.name.len() as int] == ((f0.name + ": "@) + pt)[f0.name.len() as int]);
    }
    assert(!is_ident_char(':'));
    lemma_scan_exact(s, i0, f0.name);
    lemma_skip_here(s, j);
    assert(!is_ws(':'));
    assert(s[j + 1] == ' ') by {
        assert(s[i0 + (f0.name.len() + 1)] == (pf + after)[f0.name.len() as int + 1]);
        assert((pf + after)[f0.name.len() as int + 1] == pf[f0.name.len() as int + 1]);
        assert(pf[f0.name.len() as int + 1] == ((f0.name + ": "@) + pt)[f0.name.len() as int + 1]);
    }
    assert(s[j + 2] == pt[0]) by {
        assert(s[i0 + (f0.name.len() + 2)] == (pf + after)[f0.name.len() as int + 2]);
        assert((pf + after)[f0.name.len() as int + 2] == pf[f0.name.len() as int + 2]);
        assert(pf[f0.name.len() as int + 2] == ((f0.name + ": "@) + pt)[f0.name.len() as int + 2]);
    }
    lemma_skip_one(s, j + 1);
    assert(skip_ws(s, j + 1) == j + 2);
    assert(s.subrange(j + 2, j + 2 + pt.len() as int) =~= pt) by {
        assert forall|k: int| 0 <= k < pt.len() implies s.subrange(j + 2, j + 2 + pt.len() as int)[k]
            == pt[k] by {
            assert(s[i0 + (f0.name.len() + 2 + k)] == (pf + after)[f0.name.len() + 2 + k]);
            assert((pf + after)[f0.name.len() + 2 + k] == pf[f0.name.len() + 2 + k]);
            assert(pf[f0.name.len() + 2 + k] == ((f0.name + ": "@) + pt)[f0.name.len() + 2 + k]);
        }
    }
    let m = j + 2 + pt.len() as int;
    assert(s[m] == after[0]) by {
        assert(s[i0 + (pf.len() + 0)] == (pf + after)[pf.len() as int]);
    }
    assert(after[0] == ',' || after[0] == '>') by {
        if fs.len() == 1 {
        } else {
            assert(after[0] == (", "@ + print_fields_from(fs, 1) + seq!['>'])[0]);
        }
    }
    assert(!is_ident_char(s[m]));
    assert(type_wf(f0.ty));
    lemma_parse_type_at(s, j + 1, f0.ty);
    assert(parse_type(s, j + 1) == Some((f0.ty, m)));
    lemma_skip_here(s, m);
    assert(!is_ws(',') && !is_ws('>'));
    let field = FieldModel { name: f0.name, ty: f0.ty };
    assert(field == f0);
    if fs.len() == 1 {
        assert(s[m] == '>');
        assert(s[m] != ',');
        assert(seq![f0] =~= fs);
        assert(i0 + body.len() + 1 == m + 1);
    } else {
        assert(s[m] == ',');
        let rest = print_fields_from(fs, 1);
        assert(s[m + 1] == ' ') by {
            assert(s[i0 + (pf.len() + 1)] == (pf + after)[pf.len() as int + 1]);
            assert(after[1] == (", "@ + rest + seq!['>'])[1]);
        }
        let d = fs.drop_first();
        lemma_fields_shift(fs, 0);
        assert(rest == print_fields_from(d, 0));
        assert(d.len() > 0);
        assert(fields_wf(d)) by {
            crate::model::lemma_fields_wf_index(d);
            assert(forall|k: int| 0 <= k < d.len() ==> d[k] == fs[k + 1]);
        }
        assert(rest.len() > 0 ==> rest[0] == d[0].name[0]) by {
            assert(print_field(d[0])[0] == ((d[0].name + ": "@) + print_type(d[0].ty))[0]);
            if d.len() == 1 {
                assert(rest == print_field(d[0]));
            } else {
                assert(rest[0] == ((print_field(d[0]) + ", "@) + print_fields_from(d, 1))[0]);
            }
        }
        assert(rest.len() > 0) by {
            if d.len() == 1 {
                assert(rest == print_field(d[0]));
                assert(print_field(d[0]).len() >= d[0].name.len());
                assert(is_ident(d[0].name));
            }
        }
        assert(s[m + 2] == rest[0]) by {
            assert(s[i0 + (pf.len() + 2)] == (pf + after)[pf.len() as int + 2]);
            assert(after[2] == (", "@ + rest + seq!['>'])[2]);
            assert((", "@ + rest + seq!['>'])[2] == rest[0]);
        }
        assert(is_ident(d[0].name));
        assert(is_letter(d[0].name[0]));
        lemma_skip_one(s, m + 1);
        assert(skip_ws(s, m + 1) == m + 2);
        assert(s.subrange(m + 2, m + 2 + rest.len() + 1) =~= rest + seq!['>']) by {
            assert forall|k: int| 0 <= k < rest.len() + 1 implies s.subrange(
                m + 2,
                m + 2 + rest.len() + 1,
            )[k] == (rest + seq!['>'])[k] by {
                assert(s[i0 + (pf.len() + 2 + k)] == (pf + after)[pf.len() + 2 + k]);
                assert(after[2 + k] == (", "@ + rest + seq!['>'])[2 + k]);
                if k < rest.len() {
                    assert((", "@ + rest + seq!['>'])[2 + k] == rest[k]);
                } else {
                    assert((", "@ + rest + seq!['>'])[2 + k] == '>');
                }
            }
        }
        lemma_parse_fields_at(s, m + 1, d);
        assert(parse_fields(s, m + 1) == Some((d, m + 2 + rest.len() + 1)));
        assert(i < m + 1);
        assert(seq![f0] + d =~= fs);
        assert(i0 + body.len() + 1 == m + 2 + rest.len() + 1);
    }
}

/// For every well-formed type, parsing its canonical printed form
/// yields that type again.
pub proof fn lemma_parse_print_round_trip(t: TypeModel)
    requires
        type_wf(t),
    ensures
        parse_spec(print_type(t)) == Some(t),
{
    let s = print_type(t);
    lemma_print_head(t);
    lemma_skip_here(s, 0);
    assert(s.subrange(0, s.len() as int) =~= s);
    lemma_parse_type_at(s, 0, t);
    assert(parse_type(s, 0) == Some((t, s.len() as int)));
    lemma_skip_here(s, s.len() as int);
}

} // verus!
