use vstd::prelude::*;
use vstd::string::StringExecFns;

use crate::ident::NameError;
use crate::ident::is_valid_ident;
use crate::ident::sanitize;
use crate::ident::stem_of;
use crate::ident::dir_stem;
use crate::ident::dir_stem_of;
use crate::ident::upper_snake_of;
use crate::render::push_type;
use crate::render::push_value;
use crate::render::type_text;
use crate::render::value_text;
use crate::value::StaticType;
use crate::value::Value;
use crate::value::has_type;
use crate::value::value_wf;

verus! {

/// One field of a user-defined record: its name and the static type its
/// rendered values have.
pub struct FieldDescriptor {
    pub name: String,
    pub ty: StaticType,
}

/// One directory entry handed to the collector: the entry's file name and
/// the value its text parsed to, or `None` when the caller's parser made
/// nothing of it.
pub struct Entry {
    pub file_name: String,
    pub value: Option<Value>,
}

/// One emitted constant declaration: its derived name and its full text.
pub struct GeneratedDeclaration {
    pub name: String,
    pub text: String,
}

/// The field list of a generated record declaration, one `pub` field per
/// descriptor, in declared order, each closed by `, `.
pub open spec fn field_decls_text(fs: Seq<FieldDescriptor>) -> Seq<char>
    decreases fs,
{
    if fs.len() == 0 {
        Seq::<char>::empty()
    } else {
        field_decls_text(fs.drop_last()) + "pub "@ + fs.last().name@ + ": "@ + type_text(
            fs.last().ty,
        ) + ", "@
    }
}

/// The declaration of a record whose fields hold the static counterparts of
/// the runtime field types.
pub open spec fn struct_decl_text(name: Seq<char>, fs: Seq<FieldDescriptor>) -> Seq<char> {
    "#[derive(Clone, Debug, Default)] pub struct "@ + name + " { "@ + field_decls_text(fs) + "}"@
}

/// The text of one emitted constant declaration.
pub open spec fn decl_text(name: Seq<char>, ty: Seq<char>, val: Seq<char>) -> Seq<char> {
    "#[allow(non_upper_case_globals, dead_code)] pub const "@ + name + ": "@ + ty + " = "@ + val
        + ";"@
}

/// The constant name entry `e` yields: its file stem, case-converted.
pub open spec fn entry_ident(e: Entry) -> Seq<char> {
    upper_snake_of(stem_of(e.file_name@))
}

/// Whether every parsed entry's derived name is a valid identifier.
pub open spec fn names_ok(es: Seq<Entry>) -> bool {
    forall|i: int|
        0 <= i < es.len() ==> (#[trigger] es[i].value is Some ==> is_valid_ident(
            entry_ident(es[i]),
        ))
}

/// Every parsed entry holds a well-formed value of type `t`.
pub open spec fn entries_wf(es: Seq<Entry>, t: StaticType) -> bool {
    forall|i: int|
        0 <= i < es.len() ==> (#[trigger] es[i].value matches Option::Some(v) ==> value_wf(v)
            && has_type(v, t))
}

/// The text entry `e` contributes to the output: one declaration for a
/// parsed value, nothing for a skipped entry.
pub open spec fn entry_text(e: Entry, ty_text: Seq<char>) -> Seq<char> {
    match e.value {
        Option::Some(v) => decl_text(entry_ident(e), ty_text, value_text(v)),
        Option::None => Seq::<char>::empty(),
    }
}

/// The `(name, text)` pairs entry `e` contributes: one for a parsed value,
/// none for a skipped entry.
pub open spec fn entry_decls(e: Entry, ty_text: Seq<char>) -> Seq<(Seq<char>, Seq<char>)> {
    match e.value {
        Option::Some(v) => seq![
            (entry_ident(e), decl_text(entry_ident(e), ty_text, value_text(v))),
        ],
        Option::None => Seq::<(Seq<char>, Seq<char>)>::empty(),
    }
}

/// The declarations a sweep over `es` emits, in entry order: exactly one
/// per parsed entry.
pub open spec fn decl_pairs(es: Seq<Entry>, ty_text: Seq<char>) -> Seq<(Seq<char>, Seq<char>)>
    decreases es,
{
    if es.len() == 0 {
        Seq::<(Seq<char>, Seq<char>)>::empty()
    } else {
        decl_pairs(es.drop_last(), ty_text) + entry_decls(es.last(), ty_text)
    }
}

/// The concatenated output text of a sweep over `es`.
pub open spec fn dir_text(es: Seq<Entry>, ty_text: Seq<char>) -> Seq<char>
    decreases es,
{
    if es.len() == 0 {
        Seq::<char>::empty()
    } else {
        dir_text(es.drop_last(), ty_text) + entry_text(es.last(), ty_text)
    }
}

/// The `(name, text)` pairs of already-built declarations.
pub open spec fn gen_pairs(ds: Seq<GeneratedDeclaration>) -> Seq<(Seq<char>, Seq<char>)> {
    ds.map_values(|d: GeneratedDeclaration| (d.name@, d.text@))
}

/// Emits the declaration of record `name` with the given fields, each field
/// typed by its static counterpart.
#[verifier::loop_isolation(false)]
pub fn static_struct(name: &str, fields: &Vec<FieldDescriptor>) -> (r: String)
    ensures
        r@ == struct_decl_text(name@, fields@),
{
    let mut s = String::new();
    s.append("#[derive(Clone, Debug, Default)] pub struct ");
    s.append(name);
    s.append(" { ");
    let mut i: usize = 0;
    while i < fields.len()
        invariant
            i <= fields.len(),
            s@ == "#[derive(Clone, Debug, Default)] pub struct "@ + name@ + " { "@
                + field_decls_text(fields@.take(i as int)),
        decreases fields.len() - i,
    {
        let f: &FieldDescriptor = &fields[i];
        s.append("pub ");
        s.append(f.name.as_str());
        s.append(": ");
        push_type(&mut s, &f.ty);
        s.append(", ");
        proof {
            let pre = fields@.take(i as int + 1);
            assert(pre.drop_last() =~= fields@.take(i as int));
            assert(pre.last() == fields@[i as int]);
            assert(s@ =~= "#[derive(Clone, Debug, Default)] pub struct "@ + name@ + " { "@
                + field_decls_text(pre));
        }
        i = i + 1;
    }
    s.append("}");
    proof {
        assert(fields@.take(fields@.len() as int) =~= fields@);
    }
    s
}

/// Appends the declaration of one parsed entry to `out`.
fn push_declaration(out: &mut String, name: &str, ty: &StaticType, v: &Value)
    ensures
        final(out)@ == old(out)@ + decl_text(name@, type_text(*ty), value_text(*v)),
{
    out.append("#[allow(non_upper_case_globals, dead_code)] pub const ");
    out.append(name);
    out.append(": ");
    push_type(out, ty);
    out.append(" = ");
    push_value(out, v);
    out.append(";");
    assert(out@ =~= old(out)@ + decl_text(name@, type_text(*ty), value_text(*v)));
}

/// Sweeps the already-read entries of one directory and emits one constant
/// declaration per parsed value, in entry order.  A parsed entry whose
/// derived name is not a valid identifier is a fatal error; an entry whose
/// value is `None` is skipped silently.
#[verifier::loop_isolation(false)]
pub fn convert_dir(entries: &Vec<Entry>, ty: &StaticType) -> (r: Result<String, NameError>)
    requires
        entries_wf(entries@, *ty),
    ensures
        match r {
            Ok(s) => names_ok(entries@) && s@ == dir_text(entries@, type_text(*ty)),
            Err(e) => !names_ok(entries@) && (match e {
                NameError::NonIdentifier(bad) => !is_valid_ident(bad@) && exists|i: int|
                    0 <= i < entries@.len() && entries@[i].value is Some && bad@ == entry_ident(
                        entries@[i],
                    ),
            }),
        },
{
    let mut out = String::new();
    let mut i: usize = 0;
    while i < entries.len()
        invariant
            i <= entries.len(),
            out@ == dir_text(entries@.take(i as int), type_text(*ty)),
            names_ok(entries@.take(i as int)),
        decreases entries.len() - i,
    {
        let e: &Entry = &entries[i];
        match &e.value {
            Option::Some(v) => {
                match sanitize(e.file_name.as_str()) {
                    Ok(name) => {
                        push_declaration(&mut out, name.as_str(), ty, v);
                    },
                    Err(err) => {
                        proof {
                            assert(entries@.take(i as int + 1)[i as int] == entries@[i as int]);
                        }
                        return Err(err);
                    },
                }
            },
            Option::None => {},
        }
        proof {
            let pre = entries@.take(i as int + 1);
            assert(pre.drop_last() =~= entries@.take(i as int));
            assert(pre.last() == entries@[i as int]);
            assert(out@ =~= dir_text(pre, type_text(*ty)));
        }
        i = i + 1;
    }
    proof {
        assert(entries@.take(entries@.len() as int) =~= entries@);
    }
    Ok(out)
}

/// Sweeps the entries and returns the emitted declarations one by one, each
/// with its derived name, instead of one concatenated stream.
#[verifier::loop_isolation(false)]
pub fn collect_declarations(entries: &Vec<Entry>, ty: &StaticType) -> (r: Result<
    Vec<GeneratedDeclaration>,
    NameError,
>)
    requires
        entries_wf(entries@, *ty),
    ensures
        match r {
            Ok(ds) => names_ok(entries@) && gen_pairs(ds@) == decl_pairs(
                entries@,
                type_text(*ty),
            ),
            Err(e) => !names_ok(entries@) && (match e {
                NameError::NonIdentifier(bad) => !is_valid_ident(bad@) && exists|i: int|
                    0 <= i < entries@.len() && entries@[i].value is Some && bad@ == entry_ident(
                        entries@[i],
                    ),
            }),
        },
{
    let mut ds: Vec<GeneratedDeclaration> = Vec::new();
    let mut i: usize = 0;
    while i < entries.len()
        invariant
            i <= entries.len(),
            gen_pairs(ds@) == decl_pairs(entries@.take(i as int), type_text(*ty)),
            names_ok(entries@.take(i as int)),
        decreases entries.len() - i,
    {
        let e: &Entry = &entries[i];
        match &e.value {
            Option::Some(v) => {
                match sanitize(e.file_name.as_str()) {
                    Ok(name) => {
                        let mut text = String::new();
                        push_declaration(&mut text, name.as_str(), ty, v);
                        ds.push(GeneratedDeclaration { name, text });
                    },
                    Err(err) => {
                        proof {
                            assert(entries@.take(i as int + 1)[i as int] == entries@[i as int]);
                        }
                        return Err(err);
                    },
                }
            },
            Option::None => {},
        }
        proof {
            let pre = entries@.take(i as int + 1);
            assert(pre.drop_last() =~= entries@.take(i as int));
            assert(pre.last() == entries@[i as int]);
            assert(gen_pairs(ds@) =~= decl_pairs(pre, type_text(*ty)));
        }
        i = i + 1;
    }
    proof {
        assert(entries@.take(entries@.len() as int) =~= entries@);
    }
    Ok(ds)
}

/// Every parsed entry holds a well-formed composite value of the record
/// named `name`.
pub open spec fn entries_wf_named(es: Seq<Entry>, name: Seq<char>) -> bool {
    forall|i: int|
        0 <= i < es.len() ==> (#[trigger] es[i].value matches Option::Some(v) ==> value_wf(v)
            && (v matches Value::Composite(n, _) && n@ == name))
}

/// Emits the record's declaration once, then the directory's constants
/// wrapped in a grouping module named after the directory itself.  The
/// grouping name is taken from the path verbatim, not sanitized, which
/// mirrors how per-directory modules are commonly addressed from code.
#[verifier::loop_isolation(false)]
pub fn convert_dir_as_mod(
    record_name: &str,
    fields: &Vec<FieldDescriptor>,
    dir_path: &str,
    entries: &Vec<Entry>,
) -> (r: Result<String, NameError>)
    requires
        dir_stem_of(dir_path@).len() > 0,
        entries_wf_named(entries@, record_name@),
    ensures
        match r {
            Ok(s) => names_ok(entries@) && s@ == struct_decl_text(record_name@, fields@)
                + " pub mod "@ + dir_stem_of(dir_path@)
                + " { #[allow(unused_imports)] use super::*;"@ + dir_text(entries@, record_name@)
                + "}"@,
            Err(e) => !names_ok(entries@) && (match e {
                NameError::NonIdentifier(bad) => !is_valid_ident(bad@) && exists|i: int|
                    0 <= i < entries@.len() && entries@[i].value is Some && bad@ == entry_ident(
                        entries@[i],
                    ),
            }),
        },
{
    let mut out = static_struct(record_name, fields);
    out.append(" pub mod ");
    let stem: String = dir_stem(dir_path);
    out.append(stem.as_str());
    out.append(" { #[allow(unused_imports)] use super::*;");
    let ty = StaticType::Named(String::from_str(record_name));
    proof {
        assert(entries_wf(entries@, ty)) by {
            assert forall|i: int|
                0 <= i < entries@.len() implies (#[trigger] entries@[i].value matches Option::Some(
                v,
            ) ==> value_wf(v) && has_type(v, ty)) by {
                assert(entries@[i].value matches Option::Some(v) ==> value_wf(v) && (v
                    matches Value::Composite(n, _) && n@ == record_name@));
            }
        }
    }
    match convert_dir(entries, &ty) {
        Ok(decls) => {
            out.append(decls.as_str());
            out.append("}");
            assert(out@ =~= struct_decl_text(record_name@, fields@) + " pub mod "@ + dir_stem_of(
                dir_path@,
            ) + " { #[allow(unused_imports)] use super::*;"@ + dir_text(entries@, record_name@)
                + "}"@);
            Ok(out)
        },
        Err(e) => Err(e),
    }
}

} // verus!
