//! The parser of the type grammar.
//!
//! The grammar is LL(1) on its tokens: after optional whitespace the
//! parser reads a maximal identifier and dispatches on it. `list`,
//! `enum` and `struct` open an angle-bracketed tail; every other known
//! keyword is a primitive type. Whitespace is insignificant everywhere
//! except inside names.

use vstd::prelude::*;

use crate::errors::{CommanderError, ErrorKind};
use crate::model::{is_ident_char, seq_distinct, FieldModel, TypeModel};
use crate::strings::{str_chars, string_from_chars};
use crate::types::{
    dt_model, dt_wf, fields_model, CommanderDataType, CommanderEnumDataType, CommanderEnumVariant,
    CommanderListDataType, CommanderStructDataType, CommanderStructField,
};

verus! {

broadcast use vstd::std_specs::vec::group_vec_axioms;

/// A whitespace character of the grammar.
pub open spec fn is_ws(c: char) -> bool {
    c == ' ' || c == '\t' || c == '\n' || c == '\r'
}

/// The first position at or after `i` that does not hold whitespace.
pub open spec fn skip_ws(s: Seq<char>, i: int) -> int
    decreases s.len() - i,
{
    if 0 <= i && i < s.len() && is_ws(s[i]) {
        skip_ws(s, i + 1)
    } else {
        i
    }
}

/// The first position at or after `i` that does not hold an identifier
/// character.
pub open spec fn scan_ident_end(s: Seq<char>, i: int) -> int
    decreases s.len() - i,
{
    if 0 <= i && i < s.len() && is_ident_char(s[i]) {
        scan_ident_end(s, i + 1)
    } else {
        i
    }
}

/// `skip_ws` stays within the string and skips exactly the whitespace run.
pub proof fn lemma_skip_ws(s: Seq<char>, i: int)
    requires
        0 <= i <= s.len(),
    ensures
        i <= skip_ws(s, i) <= s.len(),
        forall|k: int| i <= k < skip_ws(s, i) ==> is_ws(#[trigger] s[k]),
        skip_ws(s, i) == s.len() || !is_ws(s[skip_ws(s, i)]),
    decreases s.len() - i,
{
    if i < s.len() && is_ws(s[i]) {
        lemma_skip_ws(s, i + 1);
    }
}

/// `scan_ident_end` stays within the string and scans exactly the
/// identifier-character run.
pub proof fn lemma_scan_ident_end(s: Seq<char>, i: int)
    requires
        0 <= i <= s.len(),
    ensures
        i <= scan_ident_end(s, i) <= s.len(),
        forall|k: int| i <= k < scan_ident_end(s, i) ==> is_ident_char(#[trigger] s[k]),
        scan_ident_end(s, i) == s.len() || !is_ident_char(s[scan_ident_end(s, i)]),
    decreases s.len() - i,
{
    if i < s.len() && is_ident_char(s[i]) {
        lemma_scan_ident_end(s, i + 1);
    }
}

/// The parse of a `type` of the grammar starting at `i`: a type together
/// with the position after it, or nothing on malformed input.
pub open spec fn parse_type(s: Seq<char>, i: int) -> Option<(TypeModel, int)>
    decreases s.len() - i, 3int,
{
    let i1 = skip_ws(s, i);
    let j = scan_ident_end(s, i1);
    if 0 <= i && i <= i1 && i1 < j && j <= s.len() {
        let w = s.subrange(i1, j);
        if w == "trigger"@ {
            Some((TypeModel::Trigger, j))
        } else {
            parse_after_word(w, s, j)
        }
    } else {
        None
    }
}

/// The parse of a `static` type (any type but `trigger`) starting at `i`.
pub open spec fn parse_static(s: Seq<char>, i: int) -> Option<(TypeModel, int)>
    decreases s.len() - i, 3int,
{
    let i1 = skip_ws(s, i);
    let j = scan_ident_end(s, i1);
    if 0 <= i && i <= i1 && i1 < j && j <= s.len() {
        let w = s.subrange(i1, j);
        if w == "trigger"@ {
            None
        } else {
            parse_after_word(w, s, j)
        }
    } else {
        None
    }
}

/// The parse of a type whose leading identifier `w` ends at `j`.
pub open spec fn parse_after_word(w: Seq<char>, s: Seq<char>, j: int) -> Option<(TypeModel, int)>
    decreases s.len() - j, 2int,
{
    if w == "boolean"@ {
        Some((TypeModel::Boolean, j))
    } else if w == "number"@ {
        Some((TypeModel::Number, j))
    } else if w == "string"@ {
        Some((TypeModel::String, j))
    } else if w == "bytes"@ {
        Some((TypeModel::Bytes, j))
    } else if w == "color"@ {
        Some((TypeModel::Color, j))
    } else if w == "json"@ {
        Some((TypeModel::Json, j))
    } else if w == "svg"@ {
        Some((TypeModel::Svg, j))
    } else if w == "path"@ {
        Some((TypeModel::Path, j))
    } else if w == "list"@ {
        let k = skip_ws(s, j);
        if 0 <= j && j <= k && k < s.len() && s[k] == '<' {
            match parse_static(s, k + 1) {
                Some((elem, m)) => {
                    let n = skip_ws(s, m);
                    if m <= n && n < s.len() && s[n] == '>' {
                        Some((TypeModel::List { elem: Box::new(elem) }, n + 1))
                    } else {
                        None
                    }
                },
                None => None,
            }
        } else {
            None
        }
    } else if w == "enum"@ {
        let k = skip_ws(s, j);
        let k2 = scan_ident_end(s, k);
        if 0 <= j && j <= k && k < k2 && k2 <= s.len() {
            let name = s.subrange(k, k2);
            let k3 = skip_ws(s, k2);
            if k2 <= k3 && k3 < s.len() && s[k3] == '<' {
                match parse_names(s, k3 + 1) {
                    Some((vs, e)) => {
                        if seq_distinct(vs) && vs.len() <= u32::MAX {
                            Some((TypeModel::Enum { name, variants: vs }, e))
                        } else {
                            None
                        }
                    },
                    None => None,
                }
            } else {
                None
            }
        } else {
            None
        }
    } else if w == "struct"@ {
        let k = skip_ws(s, j);
        let k2 = scan_ident_end(s, k);
        if 0 <= j && j <= k && k < k2 && k2 <= s.len() {
            let name = s.subrange(k, k2);
            let k3 = skip_ws(s, k2);
            if k2 <= k3 && k3 < s.len() && s[k3] == '<' {
                let p = skip_ws(s, k3 + 1);
                if k3 < p && p < s.len() && s[p] == '>' {
                    Some((TypeModel::Struct { name, fields: Seq::empty() }, p + 1))
                } else {
                    match parse_fields(s, k3 + 1) {
                        Some((fs, e)) => {
                            if seq_distinct(fs.map_values(|f: FieldModel| f.name)) {
                                Some((TypeModel::Struct { name, fields: fs }, e))
                            } else {
                                None
                            }
                        },
                        None => None,
                    }
                }
            } else {
                None
            }
        } else {
            None
        }
    } else {
        None
    }
}

/// The parse of an enum's variant name list: identifiers separated by
/// commas, closed by `>`.
pub open spec fn parse_names(s: Seq<char>, i: int) -> Option<(Seq<Seq<char>>, int)>
    decreases s.len() - i, 3int,
{
    let i1 = skip_ws(s, i);
    let j = scan_ident_end(s, i1);
    if 0 <= i && i <= i1 && i1 < j && j <= s.len() {
        let v = s.subrange(i1, j);
        let j1 = skip_ws(s, j);
        if j <= j1 && j1 < s.len() && s[j1] == ',' {
            match parse_names(s, j1 + 1) {
                Some((rest, e)) => Some((seq![v] + rest, e)),
                None => None,
            }
        } else if j <= j1 && j1 < s.len() && s[j1] == '>' {
            Some((seq![v], j1 + 1))
        } else {
            None
        }
    } else {
        None
    }
}

/// The parse of a struct's field list: `name: type` pairs separated by
/// commas, closed by `>`.
pub open spec fn parse_fields(s: Seq<char>, i: int) -> Option<(Seq<FieldModel>, int)>
    decreases s.len() - i, 4int,
{
    let i1 = skip_ws(s, i);
    let j = scan_ident_end(s, i1);
    if 0 <= i && i <= i1 && i1 < j && j <= s.len() {
        let fname = s.subrange(i1, j);
        let j1 = skip_ws(s, j);
        if j <= j1 && j1 < s.len() && s[j1] == ':' {
            match parse_type(s, j1 + 1) {
                Some((ft, m)) => {
                    let m1 = skip_ws(s, m);
                    let field = FieldModel { name: fname, ty: ft };
                    if i < m1 + 1 && m1 < s.len() && s[m1] == ',' {
                        match parse_fields(s, m1 + 1) {
                            Some((rest, e)) => Some((seq![field] + rest, e)),
                            None => None,
                        }
                    } else if m <= m1 && m1 < s.len() && s[m1] == '>' {
                        Some((seq![field], m1 + 1))
                    } else {
                        None
                    }
                },
                None => None,
            }
        } else {
            None
        }
    } else {
        None
    }
}

/// The parse of a whole input string: one type, with nothing but
/// whitespace after it.
pub open spec fn parse_spec(s: Seq<char>) -> Option<TypeModel> {
    match parse_type(s, 0) {
        Some((t, j)) => {
            if skip_ws(s, j) == s.len() {
                Some(t)
            } else {
                None
            }
        },
        None => None,
    }
}

fn skip_ws_exec(s: &Vec<char>, i: usize) -> (r: usize)
    requires
        i <= s@.len(),
    ensures
        r == skip_ws(s@, i as int),
        i <= r <= s@.len(),
    decreases s@.len() - i,
{
    proof {
        lemma_skip_ws(s@, i as int);
    }
    if i < s.len() {
        let c = s[i];
        if c == ' ' || c == '\t' || c == '\n' || c == '\r' {
            return skip_ws_exec(s, i + 1);
        }
    }
    i
}

fn is_ident_char_exec(c: char) -> (r: bool)
    ensures
        r == is_ident_char(c),
{
    ('a' <= c && c <= 'z') || ('A' <= c && c <= 'Z') || ('0' <= c && c <= '9') || c == '_'
}

fn scan_ident_end_exec(s: &Vec<char>, i: usize) -> (r: usize)
    requires
        i <= s@.len(),
    ensures
        r == scan_ident_end(s@, i as int),
        i <= r <= s@.len(),
    decreases s@.len() - i,
{
    proof {
        lemma_scan_ident_end(s@, i as int);
    }
    if i < s.len() {
        if is_ident_char_exec(s[i]) {
            return scan_ident_end_exec(s, i + 1);
        }
    }
    i
}

/// Compares the segment `[a, b)` of `s` with a keyword.
fn word_eq(s: &Vec<char>, a: usize, b: usize, kw: &str) -> (r: bool)
    requires
        a <= b <= s@.len(),
    ensures
        r == (s@.subrange(a as int, b as int) == kw@),
{
    let klen = kw.unicode_len();
    if b - a != klen {
        proof {
            assert(s@.subrange(a as int, b as int).len() == b - a);
        }
        return false;
    }
    let mut k: usize = 0;
    while k < klen
        invariant
            a <= b <= s@.len(),
            b - a == klen,
            klen == kw@.len(),
            0 <= k <= klen,
            forall|x: int| 0 <= x < k ==> s@[a + x] == kw@[x],
        decreases klen - k,
    {
        if s[a + k] != kw.get_char(k) {
            proof {
                assert(s@.subrange(a as int, b as int)[k as int] != kw@[k as int]);
            }
            return false;
        }
        k = k + 1;
    }
    proof {
        assert(s@.subrange(a as int, b as int) =~= kw@);
    }
    true
}

/// Copies the segment `[a, b)` of `s` into an owned string.
fn seg_string(s: &Vec<char>, a: usize, b: usize) -> (r: String)
    requires
        a <= b <= s@.len(),
    ensures
        r@ == s@.subrange(a as int, b as int),
{
    let mut cs: Vec<char> = Vec::new();
    let mut k: usize = a;
    while k < b
        invariant
            a <= k <= b <= s@.len(),
            cs@.len() == k - a,
            forall|x: int| 0 <= x < k - a ==> cs@[x] == s@[a + x],
        decreases b - k,
    {
        cs.push(s[k]);
        k = k + 1;
    }
    proof {
        assert(cs@ =~= s@.subrange(a as int, b as int));
    }
    string_from_chars(&cs)
}

/// Checks that the strings in `vs` are pairwise distinct.
fn names_distinct(vs: &Vec<String>) -> (r: bool)
    ensures
        r == seq_distinct(vs@.map_values(|x: String| x@)),
{
    let ghost names = vs@.map_values(|x: String| x@);
    let mut i: usize = 0;
    while i < vs.len()
        invariant
            0 <= i <= vs@.len(),
            names == vs@.map_values(|x: String| x@),
            forall|x: int, y: int| 0 <= x < y < i ==> names[x] != names[y],
        decreases vs@.len() - i,
    {
        let mut j: usize = 0;
        while j < i
            invariant
                0 <= j <= i < vs@.len(),
                names == vs@.map_values(|x: String| x@),
                forall|y: int| 0 <= y < j ==> names[y] != names[i as int],
            decreases i - j,
        {
            if crate::strings::str_eq(vs[j].as_str(), vs[i].as_str()) {
                assert(names[j as int] == names[i as int]);
                return false;
            }
            j = j + 1;
        }
        i = i + 1;
    }
    true
}

fn parse_type_exec(s: &Vec<char>, i: usize) -> (r: Option<(CommanderDataType, usize)>)
    requires
        i <= s@.len(),
    ensures
        r is Some <==> parse_type(s@, i as int) is Some,
        r matches Some((t, j)) ==> parse_type(s@, i as int) == Some((dt_model(t), j as int))
            && dt_wf(t) && j <= s@.len(),
    decreases s@.len() - i, 3int,
{
    let i1 = skip_ws_exec(s, i);
    let j = scan_ident_end_exec(s, i1);
    if i1 < j {
        if word_eq(s, i1, j, "trigger") {
            Some((CommanderDataType::Trigger(crate::types::CommanderTriggerDataType {}), j))
        } else {
            parse_after_word_exec(s, i1, j)
        }
    } else {
        None
    }
}

fn parse_static_exec(s: &Vec<char>, i: usize) -> (r: Option<(CommanderDataType, usize)>)
    requires
        i <= s@.len(),
    ensures
        r is Some <==> parse_static(s@, i as int) is Some,
        r matches Some((t, j)) ==> parse_static(s@, i as int) == Some((dt_model(t), j as int))
            && dt_wf(t) && j <= s@.len(),
    decreases s@.len() - i, 3int,
{
    let i1 = skip_ws_exec(s, i);
    let j = scan_ident_end_exec(s, i1);
    if i1 < j {
        if word_eq(s, i1, j, "trigger") {
            None
        } else {
            parse_after_word_exec(s, i1, j)
        }
    } else {
        None
    }
}

fn parse_after_word_exec(s: &Vec<char>, i1: usize, j: usize) -> (r: Option<
    (CommanderDataType, usize),
>)
    requires
        i1 < j <= s@.len(),
    ensures
        r is Some <==> parse_after_word(s@.subrange(i1 as int, j as int), s@, j as int) is Some,
        r matches Some((t, e)) ==> parse_after_word(s@.subrange(i1 as int, j as int), s@, j as int)
            == Some((dt_model(t), e as int)) && dt_wf(t) && e <= s@.len(),
    decreases s@.len() - j, 2int,
{
    let ghost w = s@.subrange(i1 as int, j as int);
    if word_eq(s, i1, j, "boolean") {
        Some((CommanderDataType::Boolean(crate::types::CommanderBooleanDataType {}), j))
    } else if word_eq(s, i1, j, "number") {
        Some((CommanderDataType::Number(crate::types::CommanderNumberDataType {}), j))
    } else if word_eq(s, i1, j, "string") {
        Some((CommanderDataType::String(crate::types::CommanderStringDataType {}), j))
    } else if word_eq(s, i1, j, "bytes") {
        Some((CommanderDataType::Bytes(crate::types::CommanderBytesDataType {}), j))
    } else if word_eq(s, i1, j, "color") {
        Some((CommanderDataType::Color(crate::types::CommanderColorDataType {}), j))
    } else if word_eq(s, i1, j, "json") {
        Some((CommanderDataType::Json(crate::types::CommanderJsonDataType {}), j))
    } else if word_eq(s, i1, j, "svg") {
        Some((CommanderDataType::Svg(crate::types::CommanderSvgDataType {}), j))
    } else if word_eq(s, i1, j, "path") {
        Some((CommanderDataType::Path(crate::types::CommanderPathDataType {}), j))
    } else if word_eq(s, i1, j, "list") {
        let k = skip_ws_exec(s, j);
        if k < s.len() && s[k] == '<' {
            match parse_static_exec(s, k + 1) {
                Some((elem, m)) => {
                    let n = skip_ws_exec(s, m);
                    if n < s.len() && s[n] == '>' {
                        Some(
                            (
                                CommanderDataType::List(
                                    CommanderListDataType { element: Box::new(elem) },
                                ),
                                n + 1,
                            ),
                        )
                    } else {
                        None
                    }
                },
                None => None,
            }
        } else {
            None
        }
    } else if word_eq(s, i1, j, "enum") {
        let k = skip_ws_exec(s, j);
        let k2 = scan_ident_end_exec(s, k);
        if k < k2 {
            let k3 = skip_ws_exec(s, k2);
            if k3 < s.len() && s[k3] == '<' {
                match parse_names_exec(s, k3 + 1) {
                    Some((vs, e)) => {
                        if names_distinct(&vs) && vs.len() <= u32::MAX as usize {
                            let name = seg_string(s, k, k2);
                            let et = CommanderEnumDataType::new(name, vs);
                            Some((CommanderDataType::Enum(et), e))
                        } else {
                            None
                        }
                    },
                    None => None,
                }
            } else {
                None
            }
        } else {
            None
        }
    } else if word_eq(s, i1, j, "struct") {
        let k = skip_ws_exec(s, j);
        let k2 = scan_ident_end_exec(s, k);
        if k < k2 {
            let k3 = skip_ws_exec(s, k2);
            if k3 < s.len() && s[k3] == '<' {
                let p = skip_ws_exec(s, k3 + 1);
                if p < s.len() && s[p] == '>' {
                    let name = seg_string(s, k, k2);
                    let st = CommanderStructDataType { name, fields: Vec::new() };
                    proof {
                        assert(fields_model(st.fields@) =~= Seq::<FieldModel>::empty());
                        assert(crate::types::fields_exec_wf(st.fields@));
                    }
                    Some((CommanderDataType::Struct(st), p + 1))
                } else {
                    match parse_fields_exec(s, k3 + 1) {
                        Some((fs, e)) => {
                            let mut fnames: Vec<String> = Vec::new();
                            let mut x: usize = 0;
                            while x < fs.len()
                                invariant
                                    0 <= x <= fs@.len(),
                                    fnames@.len() == x,
                                    forall|y: int|
                                        0 <= y < x ==> (#[trigger] fnames@[y])@ == fs@[y].name@,
                                decreases fs@.len() - x,
                            {
                                fnames.push(fs[x].name.clone());
                                x = x + 1;
                            }
                            proof {
                                crate::types::lemma_fields_model_index(fs@);
                                assert(fnames@.map_values(|t: String| t@) =~= fields_model(fs@)
                                    .map_values(|f: FieldModel| f.name));
                            }
                            if names_distinct(&fnames) {
                                let name = seg_string(s, k, k2);
                                let st = CommanderStructDataType { name, fields: fs };
                                Some((CommanderDataType::Struct(st), e))
                            } else {
                                None
                            }
                        },
                        None => None,
                    }
                }
            } else {
                None
            }
        } else {
            None
        }
    } else {
        None
    }
}

fn parse_names_exec(s: &Vec<char>, i: usize) -> (r: Option<(Vec<String>, usize)>)
    requires
        i <= s@.len(),
    ensures
        r is Some <==> parse_names(s@, i as int) is Some,
        r matches Some((vs, e)) ==> parse_names(s@, i as int) == Some(
            (vs@.map_values(|x: String| x@), e as int),
        ) && e <= s@.len(),
    decreases s@.len() - i, 3int,
{
    let i1 = skip_ws_exec(s, i);
    let j = scan_ident_end_exec(s, i1);
    if i1 < j {
        let j1 = skip_ws_exec(s, j);
        if j1 < s.len() && s[j1] == ',' {
            match parse_names_exec(s, j1 + 1) {
                Some((mut vs, e)) => {
                    let ghost restm = vs@.map_values(|x: String| x@);
                    let v = seg_string(s, i1, j);
                    vs.insert(0, v);
                    proof {
                        assert(vs@.map_values(|x: String| x@) =~= seq![
                            s@.subrange(i1 as int, j as int),
                        ] + restm);
                    }
                    Some((vs, e))
                },
                None => None,
            }
        } else if j1 < s.len() && s[j1] == '>' {
            let v = seg_string(s, i1, j);
            let mut vs: Vec<String> = Vec::new();
            vs.push(v);
            proof {
                assert(vs@.map_values(|x: String| x@) =~= seq![
                    s@.subrange(i1 as int, j as int),
                ]);
            }
            Some((vs, j1 + 1))
        } else {
            None
        }
    } else {
        None
    }
}

fn parse_fields_exec(s: &Vec<char>, i: usize) -> (r: Option<(Vec<CommanderStructField>, usize)>)
    requires
        i <= s@.len(),
    ensures
        r is Some <==> parse_fields(s@, i as int) is Some,
        r matches Some((fs, e)) ==> parse_fields(s@, i as int) == Some(
            (fields_model(fs@), e as int),
        ) && crate::types::fields_exec_wf(fs@) && e <= s@.len(),
    decreases s@.len() - i, 4int,
{
    let i1 = skip_ws_exec(s, i);
    let j = scan_ident_end_exec(s, i1);
    if i1 < j {
        let j1 = skip_ws_exec(s, j);
        if j1 < s.len() && s[j1] == ':' {
            match parse_type_exec(s, j1 + 1) {
                Some((ft, m)) => {
                    let m1 = skip_ws_exec(s, m);
                    if i <= m1 && m1 < s.len() && s[m1] == ',' {
                        match parse_fields_exec(s, m1 + 1) {
                            Some((mut fs, e)) => {
                                let ghost restm = fields_model(fs@);
                                let ghost restv = fs@;
                                let fname = seg_string(s, i1, j);
                                let ghost ftm = dt_model(ft);
                                let ghost ftwf = crate::types::dt_wf(ft);
                                fs.insert(0, CommanderStructField { name: fname, data_type: ft });
                                proof {
                                    crate::types::lemma_fields_model_index(fs@);
                                    crate::types::lemma_fields_model_index(restv);
                                    crate::types::lemma_fields_exec_wf_index(fs@);
                                    crate::types::lemma_fields_exec_wf_index(restv);
                                    assert(fields_model(fs@) =~= seq![
                                        FieldModel {
                                            name: s@.subrange(i1 as int, j as int),
                                            ty: ftm,
                                        },
                                    ] + restm);
                                }
                                Some((fs, e))
                            },
                            None => None,
                        }
                    } else if m1 < s.len() && s[m1] == '>' {
                        let fname = seg_string(s, i1, j);
                        let mut fs: Vec<CommanderStructField> = Vec::new();
                        let ghost ftm = dt_model(ft);
                        fs.push(CommanderStructField { name: fname, data_type: ft });
                        proof {
                            crate::types::lemma_fields_model_index(fs@);
                            crate::types::lemma_fields_exec_wf_index(fs@);
                            assert(fields_model(fs@) =~= seq![
                                FieldModel { name: s@.subrange(i1 as int, j as int), ty: ftm },
                            ]);
                        }
                        Some((fs, m1 + 1))
                    } else {
                        None
                    }
                },
                None => None,
            }
        } else {
            None
        }
    } else {
        None
    }
}

/// Copies a data type structurally. The copy has the same model and
/// keeps the executable invariant.
pub fn clone_data_type(t: &CommanderDataType) -> (r: CommanderDataType)
    ensures
        dt_model(r) == dt_model(*t),
        dt_wf(*t) ==> dt_wf(r),
    decreases *t, 0int,
{
    match t {
        CommanderDataType::Trigger(x) => CommanderDataType::Trigger(*x),
        CommanderDataType::Boolean(x) => CommanderDataType::Boolean(*x),
        CommanderDataType::Number(x) => CommanderDataType::Number(*x),
        CommanderDataType::String(x) => CommanderDataType::String(*x),
        CommanderDataType::Bytes(x) => CommanderDataType::Bytes(*x),
        CommanderDataType::Color(x) => CommanderDataType::Color(*x),
        CommanderDataType::Json(x) => CommanderDataType::Json(*x),
        CommanderDataType::Svg(x) => CommanderDataType::Svg(*x),
        CommanderDataType::Path(x) => CommanderDataType::Path(*x),
        CommanderDataType::Enum(e) => {
            let copy = CommanderEnumDataType {
                name: e.name.clone(),
                variants: crate::print::clone_variants(&e.variants),
            };
            CommanderDataType::Enum(copy)
        },
        CommanderDataType::Struct(st) => {
            let fields = clone_fields(&st.fields, 0);
            proof {
                crate::types::lemma_fields_model_index(fields@);
                crate::types::lemma_fields_model_index(st.fields@);
                crate::types::lemma_fields_exec_wf_index(fields@);
                crate::types::lemma_fields_exec_wf_index(st.fields@);
                assert(fields_model(fields@) =~= fields_model(st.fields@));
            }
            CommanderDataType::Struct(CommanderStructDataType { name: st.name.clone(), fields })
        },
        CommanderDataType::List(l) => CommanderDataType::List(
            CommanderListDataType { element: Box::new(clone_data_type(&l.element)) },
        ),
    }
}

/// Copies the declared fields from index `x` on.
fn clone_fields(fs: &Vec<CommanderStructField>, x: usize) -> (r: Vec<CommanderStructField>)
    requires
        x <= fs@.len(),
    ensures
        r@.len() == fs@.len() - x,
        forall|y: int|
            0 <= y < r@.len() ==> (#[trigger] r@[y]).name@ == fs@[x + y].name@ && dt_model(
                r@[y].data_type,
            ) == dt_model(fs@[x + y].data_type) && (dt_wf(fs@[x + y].data_type) ==> dt_wf(
                r@[y].data_type,
            )),
    decreases fs, fs@.len() - x,
{
    if x == fs.len() {
        Vec::new()
    } else {
        let f = CommanderStructField {
            name: fs[x].name.clone(),
            data_type: clone_data_type(&fs[x].data_type),
        };
        let mut rest = clone_fields(fs, x + 1);
        rest.insert(0, f);
        rest
    }
}

/// Parses the canonical printed form of a type. Succeeds exactly on the
/// strings the grammar accepts; on malformed input it returns a
/// `TypeParse` error naming the failing construct.
pub fn parse(input: &str) -> (r: Result<CommanderDataType, CommanderError>)
    ensures
        r is Ok <==> parse_spec(input@) is Some,
        r matches Ok(t) ==> parse_spec(input@) == Some(dt_model(t)) && dt_wf(t),
        r matches Err(e) ==> e.kind == ErrorKind::TypeParse,
{
    let chars = str_chars(input);
    match parse_type_exec(&chars, 0) {
        Some((t, j)) => {
            let e = skip_ws_exec(&chars, j);
            if e == chars.len() {
                Ok(t)
            } else {
                Err(
                    CommanderError::new(
                        ErrorKind::TypeParse,
                        crate::strings::str_to_string("unexpected text after the type"),
                    ),
                )
            }
        },
        None => Err(CommanderError::new(ErrorKind::TypeParse, parse_failure_message(&chars))),
    }
}

/// Names the construct a failed parse was reading, by its leading
/// keyword.
fn parse_failure_message(chars: &Vec<char>) -> (r: String) {
    let i1 = skip_ws_exec(chars, 0);
    let j = scan_ident_end_exec(chars, i1);
    if i1 < j {
        if word_eq(chars, i1, j, "enum") {
            return crate::strings::str_to_string(
                "malformed enum: expected a name and at least one distinct variant in angle brackets",
            );
        }
        if word_eq(chars, i1, j, "struct") {
            return crate::strings::str_to_string(
                "malformed struct: expected a name and distinct name-and-type fields in angle brackets",
            );
        }
        if word_eq(chars, i1, j, "list") {
            return crate::strings::str_to_string(
                "malformed list: expected a static element type in angle brackets",
            );
        }
        return crate::strings::str_to_string("unknown type keyword");
    }
    crate::strings::str_to_string("expected a type keyword")
}

} // verus!
