use vstd::prelude::*;

use crate::render::dec_digits;
use crate::render::digit_char;
use crate::render::esc_char;
use crate::render::escape_text;
use crate::render::hex_char;
use crate::render::nz_sint_path;
use crate::render::nz_uint_path;
use crate::render::sint_suffix;
use crate::render::sint_text;
use crate::render::uint_suffix;
use crate::render::uint_text;
use crate::render::value_text;
use crate::emit::Entry;
use crate::emit::decl_pairs;
use crate::emit::entry_decls;
use crate::render::elems_text;
use crate::value::IntWidth;
use crate::value::Value;
use crate::value::value_wf;

verus! {

pub open spec fn digit_val(c: char) -> nat {
    if c == '0' {
        0
    } else if c == '1' {
        1
    } else if c == '2' {
        2
    } else if c == '3' {
        3
    } else if c == '4' {
        4
    } else if c == '5' {
        5
    } else if c == '6' {
        6
    } else if c == '7' {
        7
    } else if c == '8' {
        8
    } else if c == '9' {
        9
    } else {
        10
    }
}

pub open spec fn all_digits(s: Seq<char>) -> bool {
    forall|i: int| 0 <= i < s.len() ==> #[trigger] digit_val(s[i]) < 10
}

/// The number a digit string denotes, most significant digit first.
pub open spec fn parse_dec(s: Seq<char>) -> nat
    decreases s.len(),
{
    if s.len() == 0 {
        0
    } else {
        parse_dec(s.drop_last()) * 10 + digit_val(s.last())
    }
}

proof fn lemma_dec_digits_are_digits(n: nat)
    ensures
        dec_digits(n).len() >= 1,
        all_digits(dec_digits(n)),
    decreases n,
{
    if n >= 10 {
        lemma_dec_digits_are_digits(n / 10);
    }
}

/// Reading the rendered numeral of `n` back yields `n`.
pub proof fn lemma_parse_dec_digits(n: nat)
    ensures
        parse_dec(dec_digits(n)) == n,
    decreases n,
{
    if n < 10 {
        let d = dec_digits(n);
        assert(d == seq![digit_char(n)]);
        assert(d.len() == 1);
        assert(d.drop_last() =~= Seq::<char>::empty());
        assert(parse_dec(d.drop_last()) == 0);
        assert(d.last() == digit_char(n));
        assert(digit_val(digit_char(n)) == n);
    } else {
        lemma_parse_dec_digits(n / 10);
        let d = dec_digits(n);
        assert(d == dec_digits(n / 10).push(digit_char(n % 10)));
        assert(d.drop_last() =~= dec_digits(n / 10));
        assert(d.last() == digit_char(n % 10));
        assert(digit_val(digit_char(n % 10)) == n % 10);
        assert(parse_dec(d) == (n / 10) * 10 + n % 10);
        vstd::arithmetic::div_mod::lemma_fundamental_div_mod(n as int, 10);
        assert((n / 10) * 10 + n % 10 == n);
    }
}

/// What a rendered unsigned literal reads back as: the digits before the
/// width suffix, as a number.
pub open spec fn decode_uint(s: Seq<char>, w: IntWidth) -> Option<u64> {
    let sl = uint_suffix(w).len() as int;
    let k = s.len() - sl;
    if k >= 1 && s.subrange(k, s.len() as int) == uint_suffix(w) && all_digits(s.take(k))
        && parse_dec(s.take(k)) <= u64::MAX {
        Option::Some(parse_dec(s.take(k)) as u64)
    } else {
        Option::None
    }
}

/// What a rendered signed literal reads back as: an optional minus sign,
/// digits, then the width suffix.
pub open spec fn decode_sint(s: Seq<char>, w: IntWidth) -> Option<i64> {
    let sl = sint_suffix(w).len() as int;
    let k = s.len() - sl;
    if k >= 1 && s.subrange(k, s.len() as int) == sint_suffix(w) {
        let num = s.take(k);
        if num[0] == '-' {
            let mag = num.drop_first();
            if mag.len() >= 1 && all_digits(mag) && -(parse_dec(mag) as int) >= i64::MIN {
                Option::Some((-(parse_dec(mag) as int)) as i64)
            } else {
                Option::None
            }
        } else {
            if all_digits(num) && parse_dec(num) <= i64::MAX {
                Option::Some(parse_dec(num) as i64)
            } else {
                Option::None
            }
        }
    } else {
        Option::None
    }
}

/// What a rendered boolean literal reads back as.
pub open spec fn decode_bool(s: Seq<char>) -> Option<bool> {
    if s == "true"@ {
        Option::Some(true)
    } else if s == "false"@ {
        Option::Some(false)
    } else {
        Option::None
    }
}

/// Reading a rendered scalar literal back against its own type yields the
/// original value: the rendering loses nothing.
pub proof fn lemma_scalar_round_trip(v: Value)
    requires
        value_wf(v),
    ensures
        v matches Value::Bool(b) ==> decode_bool(value_text(v)) == Option::Some(b),
        v matches Value::UInt(w, n) ==> decode_uint(value_text(v), w) == Option::Some(n),
        v matches Value::SInt(w, m) ==> decode_sint(value_text(v), w) == Option::Some(m),
{
    match v {
        Value::Bool(b) => {
            reveal_strlit("true");
            reveal_strlit("false");
            assert("true"@.len() != "false"@.len());
        },
        Value::UInt(w, n) => {
            lemma_decode_uint_text(w, n);
        },
        Value::SInt(w, m) => {
            lemma_decode_sint_text(w, m);
        },
        _ => {},
    }
}

/// An unsigned literal reads back as the number it was rendered from.
pub proof fn lemma_decode_uint_text(w: IntWidth, n: u64)
    ensures
        decode_uint(uint_text(w, n), w) == Option::Some(n),
{
    let d = dec_digits(n as nat);
    let sfx = uint_suffix(w);
    lemma_dec_digits_are_digits(n as nat);
    lemma_parse_dec_digits(n as nat);
    let s = uint_text(w, n);
    let k = s.len() - sfx.len();
    assert(s.subrange(k as int, s.len() as int) =~= sfx);
    assert(s.take(k as int) =~= d);
}

/// A signed literal reads back as the number it was rendered from.
pub proof fn lemma_decode_sint_text(w: IntWidth, m: i64)
    ensures
        decode_sint(sint_text(w, m), w) == Option::Some(m),
{
    let sfx = sint_suffix(w);
    let s = sint_text(w, m);
    let k = s.len() - sfx.len();
    if m >= 0 {
        let d = dec_digits(m as nat);
        lemma_dec_digits_are_digits(m as nat);
        lemma_parse_dec_digits(m as nat);
        assert(s.subrange(k as int, s.len() as int) =~= sfx);
        assert(s.take(k as int) =~= d);
        assert(digit_val(d[0]) < 10);
        assert(d[0] != '-');
    } else {
        let mag = (-(m as int)) as nat;
        let d = dec_digits(mag);
        lemma_dec_digits_are_digits(mag);
        lemma_parse_dec_digits(mag);
        assert(s.subrange(k as int, s.len() as int) =~= sfx);
        assert(s.take(k as int) =~= seq!['-'] + d);
        let num = s.take(k as int);
        assert(num[0] == '-');
        assert(num.drop_first() =~= d);
    }
}

/// The numeral of zero, for comparison.
pub open spec fn zero_numeral() -> Seq<char> {
    seq!['0']
}

/// A non-zero wrapper's rendering is the invariant-bypassing constructor
/// around the literal of its value, whose numeral is never the numeral of
/// zero.
pub proof fn lemma_nonzero_never_zero(v: Value)
    requires
        value_wf(v),
    ensures
        v matches Value::NonZeroUInt(w, n) ==> value_text(v) == "unsafe { "@ + nz_uint_path(w)
            + "::new_unchecked("@ + uint_text(w, n) + ") }"@ && dec_digits(n as nat)
            != zero_numeral(),
        v matches Value::NonZeroSInt(w, m) ==> value_text(v) == "unsafe { "@ + nz_sint_path(w)
            + "::new_unchecked("@ + sint_text(w, m) + ") }"@ && (m >= 0 ==> dec_digits(m as nat)
            != zero_numeral()) && (m < 0 ==> dec_digits((-(m as int)) as nat) != zero_numeral()),
{
    assert(parse_dec(zero_numeral()) == 0) by {
        let z = zero_numeral();
        assert(z.len() == 1);
        assert(z.drop_last() =~= Seq::<char>::empty());
        assert(parse_dec(z.drop_last()) == 0);
        assert(z.last() == '0');
        assert(digit_val('0') == 0);
    }
    match v {
        Value::NonZeroUInt(w, n) => {
            lemma_parse_dec_digits(n as nat);
        },
        Value::NonZeroSInt(w, m) => {
            if m >= 0 {
                lemma_parse_dec_digits(m as nat);
            } else {
                lemma_parse_dec_digits((-(m as int)) as nat);
            }
        },
        _ => {},
    }
}


/// Value of a lowercase hexadecimal digit; 16 marks a non-digit.
pub open spec fn hex_val(c: char) -> nat {
    if c == 'a' {
        10
    } else if c == 'b' {
        11
    } else if c == 'c' {
        12
    } else if c == 'd' {
        13
    } else if c == 'e' {
        14
    } else if c == 'f' {
        15
    } else if digit_val(c) < 10 {
        digit_val(c)
    } else {
        16
    }
}

pub open spec fn is_hex(c: char) -> bool {
    hex_val(c) < 16
}

/// How the body of a string literal reads back: the inverse of the escaping
/// the renderer applies, following the literal's own escape rules.
pub open spec fn unescape_text(s: Seq<char>) -> Option<Seq<char>>
    decreases s.len(),
{
    if s.len() == 0 {
        Option::Some(Seq::<char>::empty())
    } else if s[0] != '\\' {
        match unescape_text(s.drop_first()) {
            Option::Some(r) => Option::Some(seq![s[0]] + r),
            Option::None => Option::None,
        }
    } else if s.len() >= 2 && (s[1] == '"' || s[1] == '\\') {
        match unescape_text(s.skip(2)) {
            Option::Some(r) => Option::Some(seq![s[1]] + r),
            Option::None => Option::None,
        }
    } else if s.len() >= 6 && s[1] == 'u' && s[2] == '{' && is_hex(s[3]) && is_hex(s[4]) && s[5]
        == '}' {
        match unescape_text(s.skip(6)) {
            Option::Some(r) => Option::Some(
                seq![(((16 * hex_val(s[3]) + hex_val(s[4])) as u32) as char)] + r,
            ),
            Option::None => Option::None,
        }
    } else {
        Option::None
    }
}

/// The escaped body of a generated string literal decodes back to exactly
/// the original text, for every string, quotes, backslashes and control
/// characters included.
pub proof fn lemma_escape_round_trip(s: Seq<char>)
    ensures
        unescape_text(escape_text(s)) == Option::Some(s),
    decreases s.len(),
{
    if s.len() == 0 {
    } else {
        let c = s[0];
        let rest = s.drop_first();
        lemma_escape_round_trip(rest);
        let e = escape_text(s);
        assert(e == esc_char(c) + escape_text(rest));
        if c == '"' {
            assert(e[0] == '\\' && e[1] == '"');
            assert(e.skip(2) =~= escape_text(rest));
            assert(seq![c] + rest =~= s);
        } else if c == '\\' {
            assert(e[0] == '\\' && e[1] == '\\');
            assert(e.skip(2) =~= escape_text(rest));
            assert(seq![c] + rest =~= s);
        } else if (c as u32) < 32 {
            let cu = (c as u32) as nat;
            assert(e[0] == '\\' && e[1] == 'u' && e[2] == '{' && e[3] == hex_char(cu / 16) && e[4]
                == hex_char(cu % 16) && e[5] == '}');
            assert(hex_val(hex_char(cu / 16)) == cu / 16);
            assert(hex_val(hex_char(cu % 16)) == cu % 16);
            assert(e.skip(6) =~= escape_text(rest));
            vstd::arithmetic::div_mod::lemma_fundamental_div_mod(cu as int, 16);
            assert(16 * (cu / 16) + cu % 16 == cu);
            assert(cu as u32 == c as u32);
            vstd::utf8::char_u32_cast(c, c as u32);
            assert(((cu as u32) as char) == c);
            assert(seq![c] + rest =~= s);
        } else {
            assert(e[0] == c);
            assert(e.drop_first() =~= escape_text(rest));
            assert(seq![c] + rest =~= s);
        }
    }
}

/// What a full rendered string literal reads back as: the unescaped body
/// between the surrounding quotes.
pub open spec fn decode_text_literal(s: Seq<char>) -> Option<Seq<char>> {
    if s.len() >= 2 && s[0] == '"' && s.last() == '"' {
        unescape_text(s.subrange(1, s.len() - 1))
    } else {
        Option::None
    }
}

/// A rendered string literal reads back as exactly the original text.
pub proof fn lemma_text_round_trip(v: Value)
    ensures
        v matches Value::Text(t) ==> decode_text_literal(value_text(v)) == Option::Some(t@),
{
    match v {
        Value::Text(t) => {
            let s = value_text(v);
            assert(s == seq!['"'] + escape_text(t@) + seq!['"']);
            assert(s[0] == '"');
            assert(s.last() == '"');
            assert(s.subrange(1, s.len() - 1) =~= escape_text(t@));
            lemma_escape_round_trip(t@);
        },
        _ => {},
    }
}

/// What a rendered non-zero wrapper reads back as: the inner literal between
/// the constructor call's fixed opening and closing text.
pub open spec fn decode_nonzero_uint(s: Seq<char>, w: IntWidth) -> Option<u64> {
    let pre = "unsafe { "@ + nz_uint_path(w) + "::new_unchecked("@;
    let post = ") }"@;
    if s.len() > pre.len() + post.len() && s.take(pre.len() as int) == pre && s.subrange(
        s.len() - post.len(),
        s.len() as int,
    ) == post {
        decode_uint(s.subrange(pre.len() as int, s.len() - post.len()), w)
    } else {
        Option::None
    }
}

pub open spec fn decode_nonzero_sint(s: Seq<char>, w: IntWidth) -> Option<i64> {
    let pre = "unsafe { "@ + nz_sint_path(w) + "::new_unchecked("@;
    let post = ") }"@;
    if s.len() > pre.len() + post.len() && s.take(pre.len() as int) == pre && s.subrange(
        s.len() - post.len(),
        s.len() as int,
    ) == post {
        decode_sint(s.subrange(pre.len() as int, s.len() - post.len()), w)
    } else {
        Option::None
    }
}

/// A rendered non-zero wrapper reads back as the original non-zero value:
/// the constructor argument is the value's own literal.
pub proof fn lemma_nonzero_round_trip(v: Value)
    requires
        value_wf(v),
    ensures
        v matches Value::NonZeroUInt(w, n) ==> decode_nonzero_uint(value_text(v), w)
            == Option::Some(n) && n != 0,
        v matches Value::NonZeroSInt(w, m) ==> decode_nonzero_sint(value_text(v), w)
            == Option::Some(m) && m != 0,
{
    match v {
        Value::NonZeroUInt(w, n) => {
            let pre = "unsafe { "@ + nz_uint_path(w) + "::new_unchecked("@;
            let post = ") }"@;
            let s = value_text(v);
            assert(s == pre + uint_text(w, n) + post);
            lemma_dec_digits_are_digits(n as nat);
            assert(s.take(pre.len() as int) =~= pre);
            assert(s.subrange(s.len() - post.len(), s.len() as int) =~= post);
            assert(s.subrange(pre.len() as int, s.len() - post.len()) =~= uint_text(w, n));
            lemma_decode_uint_text(w, n);
        },
        Value::NonZeroSInt(w, m) => {
            let pre = "unsafe { "@ + nz_sint_path(w) + "::new_unchecked("@;
            let post = ") }"@;
            let s = value_text(v);
            assert(s == pre + sint_text(w, m) + post);
            lemma_dec_digits_are_digits(if m >= 0 {
                m as nat
            } else {
                (-(m as int)) as nat
            });
            assert(s.take(pre.len() as int) =~= pre);
            assert(s.subrange(s.len() - post.len(), s.len() as int) =~= post);
            assert(s.subrange(pre.len() as int, s.len() - post.len()) =~= sint_text(w, m));
            lemma_decode_sint_text(w, m);
        },
        _ => {},
    }
}

/// The renderings of the elements of a sequence, in order.
pub open spec fn rendered_elems(vs: Seq<Value>) -> Seq<Seq<char>> {
    vs.map_values(|x: Value| value_text(x))
}

/// Pieces joined with a separator between each two.
pub open spec fn joined(parts: Seq<Seq<char>>, sep: Seq<char>) -> Seq<char>
    decreases parts,
{
    if parts.len() == 0 {
        Seq::<char>::empty()
    } else if parts.len() == 1 {
        parts[0]
    } else {
        joined(parts.drop_last(), sep) + sep + parts.last()
    }
}

proof fn lemma_elems_joined(vs: Seq<Value>)
    ensures
        elems_text(vs) == joined(rendered_elems(vs), ", "@),
    decreases vs.len(),
{
    let parts = rendered_elems(vs);
    if vs.len() == 0 {
    } else if vs.len() == 1 {
        assert(parts[0] == value_text(vs[0]));
    } else {
        lemma_elems_joined(vs.drop_last());
        assert(rendered_elems(vs.drop_last()) =~= parts.drop_last());
        assert(parts.last() == value_text(vs.last()));
    }
}

/// An array literal holds exactly one rendering per element of the
/// sequence, in the original order, joined by `, ` between `&[` and `]`:
/// `rendered_elems` has one piece per element, and piece `i` is the
/// rendering of element `i`.
pub proof fn lemma_list_rendering(v: Value)
    ensures
        v matches Value::List(t, vs) ==> value_text(v) == "&["@ + joined(
            rendered_elems(vs@),
            ", "@,
        ) + "]"@,
        v matches Value::List(t, vs) ==> rendered_elems(vs@).len() == vs@.len(),
        v matches Value::List(t, vs) ==> forall|i: int|
            0 <= i < vs@.len() ==> rendered_elems(vs@)[i] == value_text(vs@[i]),
{
    match v {
        Value::List(t, vs) => {
            lemma_elems_joined(vs@);
        },
        _ => {},
    }
}

/// An absent optional renders as the fixed token `None`; a present one as
/// the fixed wrapper `Some(` and `)` around the inner rendering, whatever
/// the element type.
pub proof fn lemma_optional_rendering(v: Value)
    ensures
        v matches Value::Optional(t, o) ==> (match o {
            Option::Some(b) => value_text(v) == "Some("@ + value_text(*b) + ")"@,
            Option::None => value_text(v) == "None"@,
        }),
{
}

/// Number of entries of a sweep that parsed to a value.
pub open spec fn parsed_count(es: Seq<Entry>) -> nat
    decreases es,
{
    if es.len() == 0 {
        0
    } else {
        parsed_count(es.drop_last()) + (if es.last().value is Some {
            1nat
        } else {
            0nat
        })
    }
}

/// A sweep emits exactly one declaration per successfully parsed entry;
/// entries that parsed to nothing contribute nothing.
pub proof fn lemma_one_declaration_per_parsed_entry(es: Seq<Entry>, ty_text: Seq<char>)
    ensures
        decl_pairs(es, ty_text).len() == parsed_count(es),
    decreases es.len(),
{
    if es.len() > 0 {
        lemma_one_declaration_per_parsed_entry(es.drop_last(), ty_text);
    }
}

proof fn lemma_decl_pairs_concat(a: Seq<Entry>, b: Seq<Entry>, ty_text: Seq<char>)
    ensures
        decl_pairs(a + b, ty_text) == decl_pairs(a, ty_text) + decl_pairs(b, ty_text),
    decreases b.len(),
{
    if b.len() == 0 {
        assert(a + b =~= a);
        assert(decl_pairs(a, ty_text) + decl_pairs(b, ty_text) =~= decl_pairs(a, ty_text));
    } else {
        lemma_decl_pairs_concat(a, b.drop_last(), ty_text);
        assert((a + b).drop_last() =~= a + b.drop_last());
        assert((a + b).last() == b.last());
        assert(decl_pairs(a + b, ty_text) =~= decl_pairs(a, ty_text) + decl_pairs(b, ty_text));
    }
}

/// Two sweeps that see the same entries, in whatever order the directory
/// yields them, emit the same set of declarations, and each declaration's
/// name and text are identical between the two runs.
pub proof fn lemma_declaration_set_deterministic(
    e1: Seq<Entry>,
    e2: Seq<Entry>,
    ty_text: Seq<char>,
)
    requires
        e1.to_multiset() == e2.to_multiset(),
    ensures
        decl_pairs(e1, ty_text).to_multiset() == decl_pairs(e2, ty_text).to_multiset(),
    decreases e1.len(),
{
    e1.to_multiset_ensures();
    e2.to_multiset_ensures();
    if e1.len() == 0 {
        assert(e2.len() == 0);
    } else {
        let x = e1.last();
        let dl = e1.drop_last();
        dl.to_multiset_ensures();
        assert(dl.push(x) =~= e1);
        assert(e1.to_multiset() == dl.to_multiset().insert(x));
        assert(e2.to_multiset().count(x) > 0);
        assert(e2.contains(x));
        let i = choose|i: int| 0 <= i < e2.len() && e2[i] == x;
        let e2r = e2.remove(i);
        assert(e2r.to_multiset() == e2.to_multiset().remove(x));
        assert(dl.to_multiset() =~= e2r.to_multiset());
        lemma_declaration_set_deterministic(dl, e2r, ty_text);
        let single = seq![x];
        let sk = e2.skip(i + 1);
        let tk = e2.take(i);
        assert(e1 =~= dl + single);
        lemma_decl_pairs_concat(dl, single, ty_text);
        assert(single.len() == 1);
        assert(single.last() == x);
        assert(single.drop_last() =~= Seq::<Entry>::empty());
        assert(decl_pairs(single.drop_last(), ty_text) == Seq::<(Seq<char>, Seq<char>)>::empty());
        assert(decl_pairs(single, ty_text) == Seq::<(Seq<char>, Seq<char>)>::empty() + entry_decls(
            x,
            ty_text,
        ));
        assert(decl_pairs(single, ty_text) =~= entry_decls(x, ty_text));
        assert(e2 =~= tk + (single + sk));
        lemma_decl_pairs_concat(tk, single + sk, ty_text);
        lemma_decl_pairs_concat(single, sk, ty_text);
        assert(e2r =~= tk + sk);
        lemma_decl_pairs_concat(tk, sk, ty_text);
        vstd::seq_lib::lemma_multiset_commutative(decl_pairs(dl, ty_text), decl_pairs(single, ty_text));
        vstd::seq_lib::lemma_multiset_commutative(decl_pairs(tk, ty_text), decl_pairs(single + sk, ty_text));
        vstd::seq_lib::lemma_multiset_commutative(decl_pairs(single, ty_text), decl_pairs(sk, ty_text));
        vstd::seq_lib::lemma_multiset_commutative(decl_pairs(tk, ty_text), decl_pairs(sk, ty_text));
        assert(decl_pairs(e1, ty_text).to_multiset() =~= decl_pairs(e2, ty_text).to_multiset());
    }
}

} // verus!
