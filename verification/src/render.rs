use vstd::prelude::*;
use vstd::string::StrSliceExecFns;
use vstd::string::StringExecFns;

use crate::value::Field;
use crate::value::IntWidth;
use crate::value::StaticType;
use crate::value::Value;

verus! {

/// Relies on `String::push`: appends exactly the given character at the end.
pub assume_specification[ String::push ](s: &mut String, ch: char)
    ensures
        final(s)@ == old(s)@.push(ch),
;

/// Suffix of an unsigned integer literal of width `w`; also its type name.
pub open spec fn uint_suffix(w: IntWidth) -> Seq<char> {
    match w {
        IntWidth::W8 => "u8"@,
        IntWidth::W16 => "u16"@,
        IntWidth::W32 => "u32"@,
        IntWidth::W64 => "u64"@,
    }
}

/// Suffix of a signed integer literal of width `w`; also its type name.
pub open spec fn sint_suffix(w: IntWidth) -> Seq<char> {
    match w {
        IntWidth::W8 => "i8"@,
        IntWidth::W16 => "i16"@,
        IntWidth::W32 => "i32"@,
        IntWidth::W64 => "i64"@,
    }
}

/// Full path of the non-zero wrapper around an unsigned integer of width `w`.
pub open spec fn nz_uint_path(w: IntWidth) -> Seq<char> {
    match w {
        IntWidth::W8 => "::core::num::NonZeroU8"@,
        IntWidth::W16 => "::core::num::NonZeroU16"@,
        IntWidth::W32 => "::core::num::NonZeroU32"@,
        IntWidth::W64 => "::core::num::NonZeroU64"@,
    }
}

/// Full path of the non-zero wrapper around a signed integer of width `w`.
pub open spec fn nz_sint_path(w: IntWidth) -> Seq<char> {
    match w {
        IntWidth::W8 => "::core::num::NonZeroI8"@,
        IntWidth::W16 => "::core::num::NonZeroI16"@,
        IntWidth::W32 => "::core::num::NonZeroI32"@,
        IntWidth::W64 => "::core::num::NonZeroI64"@,
    }
}

pub open spec fn digit_char(d: nat) -> char {
    if d == 0 {
        '0'
    } else if d == 1 {
        '1'
    } else if d == 2 {
        '2'
    } else if d == 3 {
        '3'
    } else if d == 4 {
        '4'
    } else if d == 5 {
        '5'
    } else if d == 6 {
        '6'
    } else if d == 7 {
        '7'
    } else if d == 8 {
        '8'
    } else {
        '9'
    }
}

/// Decimal numeral of `n`, most significant digit first, no sign and no
/// leading zeros (the numeral of zero is the single digit `0`).
pub open spec fn dec_digits(n: nat) -> Seq<char>
    decreases n,
{
    if n < 10 {
        seq![digit_char(n)]
    } else {
        dec_digits(n / 10).push(digit_char(n % 10))
    }
}

/// Unsigned integer literal: numeral plus width suffix, as in `7u8`.
pub open spec fn uint_text(w: IntWidth, n: u64) -> Seq<char> {
    dec_digits(n as nat) + uint_suffix(w)
}

/// Signed integer literal: optional minus sign, numeral of the magnitude,
/// width suffix, as in `-7i8`.
pub open spec fn sint_text(w: IntWidth, m: i64) -> Seq<char> {
    if m >= 0 {
        dec_digits(m as nat) + sint_suffix(w)
    } else {
        seq!['-'] + dec_digits((-(m as int)) as nat) + sint_suffix(w)
    }
}

pub open spec fn hex_char(d: nat) -> char {
    if d < 10 {
        digit_char(d)
    } else if d == 10 {
        'a'
    } else if d == 11 {
        'b'
    } else if d == 12 {
        'c'
    } else if d == 13 {
        'd'
    } else if d == 14 {
        'e'
    } else {
        'f'
    }
}

/// How one character appears inside a generated string literal: quotes and
/// backslashes take a backslash escape, control characters take a two-digit
/// hexadecimal escape, and every other character stands for itself.
pub open spec fn esc_char(c: char) -> Seq<char> {
    if c == '"' {
        seq!['\\', '"']
    } else if c == '\\' {
        seq!['\\', '\\']
    } else if (c as u32) < 32 {
        seq!['\\', 'u', '{', hex_char((c as u32) as nat / 16), hex_char((c as u32) as nat % 16), '}']
    } else {
        seq![c]
    }
}

/// Body of a generated string literal: each character escaped in turn.
pub open spec fn escape_text(s: Seq<char>) -> Seq<char>
    decreases s.len(),
{
    if s.len() == 0 {
        Seq::<char>::empty()
    } else {
        esc_char(s[0]) + escape_text(s.drop_first())
    }
}

/// Escaping a string one character longer appends that character's escape.
pub proof fn lemma_escape_push(s: Seq<char>, c: char)
    ensures
        escape_text(s.push(c)) == escape_text(s) + esc_char(c),
    decreases s.len(),
{
    if s.len() == 0 {
        assert(s.push(c)[0] == c);
        assert(s.push(c).drop_first() =~= Seq::<char>::empty());
        assert(escape_text(s.push(c)) == esc_char(c) + escape_text(Seq::<char>::empty()));
        assert(escape_text(s.push(c)) =~= escape_text(s) + esc_char(c));
    } else {
        assert(s.push(c)[0] == s[0]);
        assert(s.push(c).drop_first() =~= s.drop_first().push(c));
        lemma_escape_push(s.drop_first(), c);
        assert(escape_text(s.push(c)) == esc_char(s[0]) + (escape_text(s.drop_first())
            + esc_char(c)));
        assert(escape_text(s.push(c)) =~= escape_text(s) + esc_char(c));
    }
}

/// Source text of the compile-time type `t`.
pub open spec fn type_text(t: StaticType) -> Seq<char>
    decreases t,
{
    match t {
        StaticType::Bool => "bool"@,
        StaticType::UInt(w) => uint_suffix(w),
        StaticType::SInt(w) => sint_suffix(w),
        StaticType::NonZeroUInt(w) => nz_uint_path(w),
        StaticType::NonZeroSInt(w) => nz_sint_path(w),
        StaticType::Str => "&'static str"@,
        StaticType::Slice(inner) => "&'static ["@ + type_text(*inner) + "]"@,
        StaticType::Optional(inner) => "Option<"@ + type_text(*inner) + ">"@,
        StaticType::Named(n) => n@,
    }
}

/// Source text of the constant expression for value `v`.
pub open spec fn value_text(v: Value) -> Seq<char>
    decreases v,
{
    match v {
        Value::Bool(b) => if b {
            "true"@
        } else {
            "false"@
        },
        Value::UInt(w, n) => uint_text(w, n),
        Value::SInt(w, m) => sint_text(w, m),
        Value::NonZeroUInt(w, n) => "unsafe { "@ + nz_uint_path(w) + "::new_unchecked("@
            + uint_text(w, n) + ") }"@,
        Value::NonZeroSInt(w, m) => "unsafe { "@ + nz_sint_path(w) + "::new_unchecked("@
            + sint_text(w, m) + ") }"@,
        Value::Text(t) => seq!['"'] + escape_text(t@) + seq!['"'],
        Value::List(_, vs) => "&["@ + elems_text(vs@) + "]"@,
        Value::Optional(_, o) => match o {
            Option::Some(b) => "Some("@ + value_text(*b) + ")"@,
            Option::None => "None"@,
        },
        Value::Composite(n, fs) => n@ + " { "@ + fields_text(fs@) + "}"@,
    }
}

/// Elements of an array literal, in order, separated by `, `.
pub open spec fn elems_text(vs: Seq<Value>) -> Seq<char>
    decreases vs,
{
    if vs.len() == 0 {
        Seq::<char>::empty()
    } else if vs.len() == 1 {
        value_text(vs[0])
    } else {
        elems_text(vs.drop_last()) + ", "@ + value_text(vs.last())
    }
}

/// Fields of a composite literal, in declared order, each closed by `, `.
pub open spec fn fields_text(fs: Seq<Field>) -> Seq<char>
    decreases fs,
{
    if fs.len() == 0 {
        Seq::<char>::empty()
    } else {
        fields_text(fs.drop_last()) + fs.last().name@ + ": "@ + value_text(fs.last().value)
            + ", "@
    }
}

fn digit_to_char(d: u64) -> (c: char)
    requires
        d < 10,
    ensures
        c == digit_char(d as nat),
{
    match d {
        0u64 => '0',
        1u64 => '1',
        2u64 => '2',
        3u64 => '3',
        4u64 => '4',
        5u64 => '5',
        6u64 => '6',
        7u64 => '7',
        8u64 => '8',
        _ => '9',
    }
}

fn hex_to_char(d: u32) -> (c: char)
    requires
        d < 16,
    ensures
        c == hex_char(d as nat),
{
    match d {
        0u32 => '0',
        1u32 => '1',
        2u32 => '2',
        3u32 => '3',
        4u32 => '4',
        5u32 => '5',
        6u32 => '6',
        7u32 => '7',
        8u32 => '8',
        9u32 => '9',
        10u32 => 'a',
        11u32 => 'b',
        12u32 => 'c',
        13u32 => 'd',
        14u32 => 'e',
        _ => 'f',
    }
}

/// Appends the decimal numeral of `n` to `s`.
fn push_dec(s: &mut String, n: u64)
    ensures
        final(s)@ == old(s)@ + dec_digits(n as nat),
    decreases n,
{
    if n >= 10 {
        push_dec(s, n / 10);
        let d: char = digit_to_char(n % 10);
        s.push(d);
        assert(s@ =~= old(s)@ + dec_digits(n as nat));
    } else {
        let d: char = digit_to_char(n);
        s.push(d);
        assert(s@ =~= old(s)@ + dec_digits(n as nat));
    }
}

fn push_uint_suffix(s: &mut String, w: IntWidth)
    ensures
        final(s)@ == old(s)@ + uint_suffix(w),
{
    match w {
        IntWidth::W8 => s.append("u8"),
        IntWidth::W16 => s.append("u16"),
        IntWidth::W32 => s.append("u32"),
        IntWidth::W64 => s.append("u64"),
    }
}

fn push_sint_suffix(s: &mut String, w: IntWidth)
    ensures
        final(s)@ == old(s)@ + sint_suffix(w),
{
    match w {
        IntWidth::W8 => s.append("i8"),
        IntWidth::W16 => s.append("i16"),
        IntWidth::W32 => s.append("i32"),
        IntWidth::W64 => s.append("i64"),
    }
}

fn push_nz_uint_path(s: &mut String, w: IntWidth)
    ensures
        final(s)@ == old(s)@ + nz_uint_path(w),
{
    match w {
        IntWidth::W8 => s.append("::core::num::NonZeroU8"),
        IntWidth::W16 => s.append("::core::num::NonZeroU16"),
        IntWidth::W32 => s.append("::core::num::NonZeroU32"),
        IntWidth::W64 => s.append("::core::num::NonZeroU64"),
    }
}

fn push_nz_sint_path(s: &mut String, w: IntWidth)
    ensures
        final(s)@ == old(s)@ + nz_sint_path(w),
{
    match w {
        IntWidth::W8 => s.append("::core::num::NonZeroI8"),
        IntWidth::W16 => s.append("::core::num::NonZeroI16"),
        IntWidth::W32 => s.append("::core::num::NonZeroI32"),
        IntWidth::W64 => s.append("::core::num::NonZeroI64"),
    }
}

fn push_uint(s: &mut String, w: IntWidth, n: u64)
    ensures
        final(s)@ == old(s)@ + uint_text(w, n),
{
    push_dec(s, n);
    push_uint_suffix(s, w);
}

fn push_sint(s: &mut String, w: IntWidth, m: i64)
    ensures
        final(s)@ == old(s)@ + sint_text(w, m),
{
    if m < 0 {
        s.push('-');
        let mag: u64 = ((-(m + 1)) as u64) + 1;
        assert(mag as nat == (-(m as int)) as nat);
        push_dec(s, mag);
        push_sint_suffix(s, w);
        assert(s@ =~= old(s)@ + sint_text(w, m));
    } else {
        push_dec(s, m as u64);
        push_sint_suffix(s, w);
    }
}

/// Appends the escaped form of `t` (without the surrounding quotes) to `s`.
#[verifier::loop_isolation(false)]
fn push_escaped(s: &mut String, t: &str)
    ensures
        final(s)@ == old(s)@ + escape_text(t@),
{
    let n: usize = t.unicode_len();
    let mut i: usize = 0;
    while i < n
        invariant
            i <= n,
            s@ == old(s)@ + escape_text(t@.take(i as int)),
        decreases n - i,
    {
        let c: char = t.get_char(i);
        proof {
            lemma_escape_push(t@.take(i as int), c);
            assert(t@.take(i as int + 1) =~= t@.take(i as int).push(c));
        }
        if c == '"' {
            s.push('\\');
            s.push('"');
        } else if c == '\\' {
            s.push('\\');
            s.push('\\');
        } else if (c as u32) < 32 {
            let code: u32 = c as u32;
            s.push('\\');
            s.push('u');
            s.push('{');
            let h: char = hex_to_char(code / 16);
            s.push(h);
            let l: char = hex_to_char(code % 16);
            s.push(l);
            s.push('}');
        } else {
            s.push(c);
        }
        assert(s@ =~= old(s)@ + escape_text(t@.take(i as int + 1)));
        i = i + 1;
    }
    proof {
        assert(t@.take(n as int) =~= t@);
    }
}

/// Appends the source text of type `t` to `s`.
pub(crate) fn push_type(s: &mut String, t: &StaticType)
    ensures
        final(s)@ == old(s)@ + type_text(*t),
    decreases *t,
{
    match t {
        StaticType::Bool => s.append("bool"),
        StaticType::UInt(w) => push_uint_suffix(s, *w),
        StaticType::SInt(w) => push_sint_suffix(s, *w),
        StaticType::NonZeroUInt(w) => push_nz_uint_path(s, *w),
        StaticType::NonZeroSInt(w) => push_nz_sint_path(s, *w),
        StaticType::Str => s.append("&'static str"),
        StaticType::Slice(inner) => {
            s.append("&'static [");
            push_type(s, inner);
            s.append("]");
            assert(s@ =~= old(s)@ + type_text(*t));
        },
        StaticType::Optional(inner) => {
            s.append("Option<");
            push_type(s, inner);
            s.append(">");
            assert(s@ =~= old(s)@ + type_text(*t));
        },
        StaticType::Named(n) => s.append(n.as_str()),
    }
}

/// Appends the constant expression for `v` to `s`.
#[verifier::loop_isolation(false)]
pub(crate) fn push_value(s: &mut String, v: &Value)
    ensures
        final(s)@ == old(s)@ + value_text(*v),
    decreases *v,
{
    match v {
        Value::Bool(b) => {
            if *b {
                s.append("true");
            } else {
                s.append("false");
            }
        },
        Value::UInt(w, n) => push_uint(s, *w, *n),
        Value::SInt(w, m) => push_sint(s, *w, *m),
        Value::NonZeroUInt(w, n) => {
            s.append("unsafe { ");
            push_nz_uint_path(s, *w);
            s.append("::new_unchecked(");
            push_uint(s, *w, *n);
            s.append(") }");
            assert(s@ =~= old(s)@ + value_text(*v));
        },
        Value::NonZeroSInt(w, m) => {
            s.append("unsafe { ");
            push_nz_sint_path(s, *w);
            s.append("::new_unchecked(");
            push_sint(s, *w, *m);
            s.append(") }");
            assert(s@ =~= old(s)@ + value_text(*v));
        },
        Value::Text(t) => {
            s.push('"');
            push_escaped(s, t.as_str());
            s.push('"');
            assert(s@ =~= old(s)@ + value_text(*v));
        },
        Value::List(_, vs) => {
            s.append("&[");
            let mut i: usize = 0;
            while i < vs.len()
                invariant
                    i <= vs.len(),
                    s@ == old(s)@ + "&["@ + elems_text(vs@.take(i as int)),
                decreases vs.len() - i,
            {
                if i > 0 {
                    s.append(", ");
                }
                proof {
                    assert(decreases_to!(*v => *vs));
                    assert(decreases_to!(*vs => vs@));
                    assert(decreases_to!(vs@ => vs@[i as int]));
                }
                push_value(s, &vs[i]);
                proof {
                    let pre = vs@.take(i as int + 1);
                    assert(pre.drop_last() =~= vs@.take(i as int));
                    assert(pre.last() == vs@[i as int]);
                    assert(s@ =~= old(s)@ + "&["@ + elems_text(pre));
                }
                i = i + 1;
            }
            s.append("]");
            proof {
                assert(vs@.take(vs@.len() as int) =~= vs@);
                assert(s@ =~= old(s)@ + value_text(*v));
            }
        },
        Value::Optional(_, o) => {
            match o {
                Option::Some(b) => {
                    s.append("Some(");
                    push_value(s, b);
                    s.append(")");
                    assert(s@ =~= old(s)@ + value_text(*v));
                },
                Option::None => s.append("None"),
            }
        },
        Value::Composite(n, fs) => {
            s.append(n.as_str());
            s.append(" { ");
            let mut i: usize = 0;
            while i < fs.len()
                invariant
                    i <= fs.len(),
                    s@ == old(s)@ + n@ + " { "@ + fields_text(fs@.take(i as int)),
                decreases fs.len() - i,
            {
                let f: &Field = &fs[i];
                s.append(f.name.as_str());
                s.append(": ");
                proof {
                    assert(decreases_to!(*v => *fs));
                    assert(decreases_to!(*fs => fs@));
                    assert(decreases_to!(fs@ => fs@[i as int]));
                    assert(decreases_to!(fs@[i as int] => fs@[i as int].value));
                }
                push_value(s, &f.value);
                s.append(", ");
                proof {
                    let pre = fs@.take(i as int + 1);
                    assert(pre.drop_last() =~= fs@.take(i as int));
                    assert(pre.last() == fs@[i as int]);
                    assert(s@ =~= old(s)@ + n@ + " { "@ + fields_text(pre));
                }
                i = i + 1;
            }
            s.append("}");
            proof {
                assert(fs@.take(fs@.len() as int) =~= fs@);
                assert(s@ =~= old(s)@ + value_text(*v));
            }
        },
    }
}

impl StaticType {
    /// The source text naming this compile-time type.
    pub fn static_type(&self) -> (r: String)
        ensures
            r@ == type_text(*self),
    {
        let mut s = String::new();
        push_type(&mut s, self);
        s
    }
}

impl Value {
    /// The source text of the constant expression producing this value.
    pub fn static_value(&self) -> (r: String)
        ensures
            r@ == value_text(*self),
    {
        let mut s = String::new();
        push_value(&mut s, self);
        s
    }
}

} // verus!
