use sucrose::emit::Entry;
use sucrose::emit::FieldDescriptor;
use sucrose::emit::collect_declarations;
use sucrose::emit::convert_dir;
use sucrose::emit::convert_dir_as_mod;
use sucrose::emit::static_struct;
use sucrose::value::Field;
use sucrose::value::IntWidth;
use sucrose::value::StaticType;
use sucrose::value::Value;

#[test]
fn struct_declaration_uses_static_field_types() {
    let fields = vec![
        FieldDescriptor { name: String::from("name"), ty: StaticType::Str },
        FieldDescriptor { name: String::from("hp"), ty: StaticType::UInt(IntWidth::W32) },
    ];
    assert_eq!(
        static_struct("Goblin", &fields).as_str(),
        "#[derive(Clone, Debug, Default)] pub struct Goblin { pub name: &'static str, pub hp: u32, }"
    );
}

#[test]
fn struct_declaration_with_no_fields() {
    let fields: Vec<FieldDescriptor> = vec![];
    assert_eq!(
        static_struct("Empty", &fields).as_str(),
        "#[derive(Clone, Debug, Default)] pub struct Empty { }"
    );
}

#[test]
fn one_declaration_per_parsed_file() {
    // One parseable file and one file of another format: exactly one
    // declaration comes out, for the parseable file.
    let entries = vec![
        Entry {
            file_name: String::from("res/goblin.toml"),
            value: Some(Value::UInt(IntWidth::W8, 5)),
        },
        Entry { file_name: String::from("res/notes.json"), value: None },
    ];
    let ty = StaticType::UInt(IntWidth::W8);
    let out = convert_dir(&entries, &ty).unwrap();
    assert_eq!(
        out.as_str(),
        "#[allow(non_upper_case_globals, dead_code)] pub const GOBLIN: u8 = 5u8;"
    );
    let ds = collect_declarations(&entries, &ty).unwrap();
    assert_eq!(ds.len(), 1);
    assert_eq!(ds[0].name.as_str(), "GOBLIN");
}

#[test]
fn declarations_concatenate_in_entry_order() {
    let entries = vec![
        Entry {
            file_name: String::from("a.toml"),
            value: Some(Value::Bool(true)),
        },
        Entry {
            file_name: String::from("b.toml"),
            value: Some(Value::Bool(false)),
        },
    ];
    let out = convert_dir(&entries, &StaticType::Bool).unwrap();
    assert_eq!(
        out.as_str(),
        "#[allow(non_upper_case_globals, dead_code)] pub const A: bool = true;\
         #[allow(non_upper_case_globals, dead_code)] pub const B: bool = false;"
    );
}

#[test]
fn bad_name_is_fatal_not_skipped() {
    let entries = vec![
        Entry {
            file_name: String::from("123.toml"),
            value: Some(Value::Bool(true)),
        },
    ];
    assert!(convert_dir(&entries, &StaticType::Bool).is_err());
    assert!(collect_declarations(&entries, &StaticType::Bool).is_err());
}

#[test]
fn unparsed_entry_with_bad_name_is_still_skipped() {
    // The fatal naming rule applies only to parsed values; an unparseable
    // file with an awkward name is silently ignored.
    let entries = vec![
        Entry { file_name: String::from("123.bin"), value: None },
    ];
    let out = convert_dir(&entries, &StaticType::Bool).unwrap();
    assert_eq!(out.as_str(), "");
}

#[test]
fn same_entries_in_any_order_give_same_declaration_set() {
    let e1 = vec![
        Entry {
            file_name: String::from("a.toml"),
            value: Some(Value::UInt(IntWidth::W8, 1)),
        },
        Entry { file_name: String::from("skip.me"), value: None },
        Entry {
            file_name: String::from("b.toml"),
            value: Some(Value::UInt(IntWidth::W8, 2)),
        },
    ];
    let e2 = vec![
        Entry {
            file_name: String::from("b.toml"),
            value: Some(Value::UInt(IntWidth::W8, 2)),
        },
        Entry { file_name: String::from("skip.me"), value: None },
        Entry {
            file_name: String::from("a.toml"),
            value: Some(Value::UInt(IntWidth::W8, 1)),
        },
    ];
    let ty = StaticType::UInt(IntWidth::W8);
    let d1 = collect_declarations(&e1, &ty).unwrap();
    let d2 = collect_declarations(&e2, &ty).unwrap();
    let mut t1: Vec<(String, String)> =
        d1.into_iter().map(|d| (d.name, d.text)).collect();
    let mut t2: Vec<(String, String)> =
        d2.into_iter().map(|d| (d.name, d.text)).collect();
    t1.sort();
    t2.sort();
    assert_eq!(t1, t2);
}

#[test]
fn repeated_runs_give_identical_text() {
    let entries = vec![
        Entry {
            file_name: String::from("goblin.toml"),
            value: Some(Value::UInt(IntWidth::W8, 5)),
        },
    ];
    let ty = StaticType::UInt(IntWidth::W8);
    let once = convert_dir(&entries, &ty).unwrap();
    let twice = convert_dir(&entries, &ty).unwrap();
    assert_eq!(once, twice);
}

#[test]
fn module_wrapper_emits_struct_then_wrapped_constants() {
    let fields = vec![
        FieldDescriptor { name: String::from("hp"), ty: StaticType::UInt(IntWidth::W8) },
    ];
    let entries = vec![
        Entry {
            file_name: String::from("res/characters/goblin.toml"),
            value: Some(Value::Composite(
                String::from("Goblin"),
                vec![Field { name: String::from("hp"), value: Value::UInt(IntWidth::W8, 3) }],
            )),
        },
    ];
    let out = convert_dir_as_mod("Goblin", &fields, "res/characters", &entries).unwrap();
    assert_eq!(
        out.as_str(),
        "#[derive(Clone, Debug, Default)] pub struct Goblin { pub hp: u8, } \
         pub mod characters { #[allow(unused_imports)] use super::*;\
         #[allow(non_upper_case_globals, dead_code)] pub const GOBLIN: Goblin = Goblin { hp: 3u8, };}"
    );
}
