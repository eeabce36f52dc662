use sucrose::value::IntWidth;
use sucrose::value::StaticType;
use sucrose::value::Field;
use sucrose::value::Value;

#[test]
fn scalar_values_render_as_suffixed_literals() {
    assert_eq!(Value::UInt(IntWidth::W8, 5).static_value().as_str(), "5u8");
    assert_eq!(Value::UInt(IntWidth::W64, 0).static_value().as_str(), "0u64");
    assert_eq!(
        Value::UInt(IntWidth::W64, u64::MAX).static_value().as_str(),
        "18446744073709551615u64"
    );
    assert_eq!(Value::SInt(IntWidth::W8, -5).static_value().as_str(), "-5i8");
    assert_eq!(Value::SInt(IntWidth::W32, 123).static_value().as_str(), "123i32");
    assert_eq!(
        Value::SInt(IntWidth::W64, i64::MIN).static_value().as_str(),
        "-9223372036854775808i64"
    );
    assert_eq!(Value::Bool(true).static_value().as_str(), "true");
    assert_eq!(Value::Bool(false).static_value().as_str(), "false");
}

#[test]
fn nonzero_values_render_with_bypass_constructor() {
    assert_eq!(
        Value::NonZeroUInt(IntWidth::W16, 300).static_value().as_str(),
        "unsafe { ::core::num::NonZeroU16::new_unchecked(300u16) }"
    );
    assert_eq!(
        Value::NonZeroSInt(IntWidth::W8, -3).static_value().as_str(),
        "unsafe { ::core::num::NonZeroI8::new_unchecked(-3i8) }"
    );
}

#[test]
fn nonzero_numeral_is_never_zero() {
    for n in [1u64, 7, 10, 250] {
        let text = Value::NonZeroUInt(IntWidth::W64, n).static_value();
        assert!(!text.contains("(0u64)"));
    }
    let one = Value::NonZeroUInt(IntWidth::W8, 1).static_value();
    assert_eq!(one.as_str(), "unsafe { ::core::num::NonZeroU8::new_unchecked(1u8) }");
}

#[test]
fn text_renders_as_quoted_literal() {
    assert_eq!(
        Value::Text(String::from("Hello, world!")).static_value().as_str(),
        "\"Hello, world!\""
    );
}

#[test]
fn text_escapes_quotes_backslashes_and_controls() {
    let v = Value::Text(String::from("a\"b\\c\nd\r"));
    assert_eq!(v.static_value().as_str(), "\"a\\\"b\\\\c\\u{0a}d\\u{0d}\"");
}

#[test]
fn escaped_literal_decodes_back_to_original() {
    let original = "say \"hi\\there\"\n\u{1}";
    let rendered = Value::Text(String::from(original)).static_value();
    // Strip the surrounding quotes, then undo the escapes by the literal's
    // own rules: the result must be the exact original text.
    let body: Vec<char> = rendered[1..rendered.len() - 1].chars().collect();
    let mut decoded = String::new();
    let mut i: usize = 0;
    while i < body.len() {
        if body[i] != '\\' {
            decoded.push(body[i]);
            i += 1;
        } else if body[i + 1] == '"' || body[i + 1] == '\\' {
            decoded.push(body[i + 1]);
            i += 2;
        } else {
            assert_eq!(body[i + 1], 'u');
            assert_eq!(body[i + 2], '{');
            assert_eq!(body[i + 5], '}');
            let hi = body[i + 3].to_digit(16).unwrap();
            let lo = body[i + 4].to_digit(16).unwrap();
            decoded.push(char::from_u32(16 * hi + lo).unwrap());
            i += 6;
        }
    }
    assert_eq!(decoded.as_str(), original);
}

#[test]
fn sequences_render_in_order_with_all_elements() {
    let elems = vec![
        Value::UInt(IntWidth::W8, 1),
        Value::UInt(IntWidth::W8, 2),
        Value::UInt(IntWidth::W8, 3),
    ];
    let v = Value::List(StaticType::UInt(IntWidth::W8), elems);
    assert_eq!(v.static_value().as_str(), "&[1u8, 2u8, 3u8]");
    let empty = Value::List(StaticType::UInt(IntWidth::W8), vec![]);
    assert_eq!(empty.static_value().as_str(), "&[]");
}

#[test]
fn optionals_render_as_fixed_wrapper_or_token() {
    let some = Value::Optional(
        StaticType::Str,
        Some(Box::new(Value::Text(String::from("x")))),
    );
    assert_eq!(some.static_value().as_str(), "Some(\"x\")");
    let none = Value::Optional(StaticType::Str, None);
    assert_eq!(none.static_value().as_str(), "None");
    let some_num = Value::Optional(
        StaticType::UInt(IntWidth::W32),
        Some(Box::new(Value::UInt(IntWidth::W32, 9))),
    );
    assert_eq!(some_num.static_value().as_str(), "Some(9u32)");
}

#[test]
fn composites_render_fields_in_declared_order() {
    let v = Value::Composite(
        String::from("Goblin"),
        vec![
            Field { name: String::from("name"), value: Value::Text(String::from("Bob")) },
            Field { name: String::from("hp"), value: Value::UInt(IntWidth::W32, 10) },
        ],
    );
    assert_eq!(v.static_value().as_str(), "Goblin { name: \"Bob\", hp: 10u32, }");
}

#[test]
fn static_types_render_their_source_names() {
    assert_eq!(StaticType::Bool.static_type().as_str(), "bool");
    assert_eq!(StaticType::UInt(IntWidth::W16).static_type().as_str(), "u16");
    assert_eq!(StaticType::SInt(IntWidth::W64).static_type().as_str(), "i64");
    assert_eq!(
        StaticType::NonZeroUInt(IntWidth::W8).static_type().as_str(),
        "::core::num::NonZeroU8"
    );
    assert_eq!(
        StaticType::NonZeroSInt(IntWidth::W32).static_type().as_str(),
        "::core::num::NonZeroI32"
    );
    assert_eq!(StaticType::Str.static_type().as_str(), "&'static str");
    assert_eq!(
        StaticType::Slice(Box::new(StaticType::Optional(Box::new(StaticType::Str))))
            .static_type()
            .as_str(),
        "&'static [Option<&'static str>]"
    );
    assert_eq!(StaticType::Named(String::from("Goblin")).static_type().as_str(), "Goblin");
}

#[test]
fn well_formedness_checks_widths_and_nonzero() {
    assert!(Value::UInt(IntWidth::W8, 255).is_well_formed());
    assert!(!Value::UInt(IntWidth::W8, 256).is_well_formed());
    assert!(!Value::NonZeroUInt(IntWidth::W8, 0).is_well_formed());
    assert!(Value::NonZeroSInt(IntWidth::W8, -128).is_well_formed());
    assert!(!Value::NonZeroSInt(IntWidth::W8, 128).is_well_formed());
    let bad_list = Value::List(
        StaticType::UInt(IntWidth::W8),
        vec![Value::UInt(IntWidth::W8, 1), Value::UInt(IntWidth::W16, 2)],
    );
    assert!(!bad_list.is_well_formed());
    let good_list = Value::List(
        StaticType::UInt(IntWidth::W8),
        vec![Value::UInt(IntWidth::W8, 1), Value::UInt(IntWidth::W8, 2)],
    );
    assert!(good_list.is_well_formed());
    assert!(good_list.has_type_exec(&StaticType::Slice(Box::new(StaticType::UInt(IntWidth::W8)))));
}
