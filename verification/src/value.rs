use vstd::prelude::*;

verus! {

/// Width of a fixed-size integer type that a baked value may carry.
#[derive(Clone, Copy, PartialEq, Eq, Structural, Debug)]
pub enum IntWidth {
    W8,
    W16,
    W32,
    W64,
}

/// Descriptor of the compile-time type a rendered value is meant to have:
/// identity for scalars, structural for slices and optionals, nominal for
/// user-defined composites.
pub enum StaticType {
    Bool,
    UInt(IntWidth),
    SInt(IntWidth),
    NonZeroUInt(IntWidth),
    NonZeroSInt(IntWidth),
    Str,
    Slice(Box<StaticType>),
    Optional(Box<StaticType>),
    Named(String),
}

/// One named field of a composite value, in declaration order.
pub struct Field {
    pub name: String,
    pub value: Value,
}

/// A runtime value of one of the closed set of bakeable kinds.  Collections
/// carry their element type so that an empty collection still renders against
/// a definite compile-time type.
pub enum Value {
    Bool(bool),
    UInt(IntWidth, u64),
    SInt(IntWidth, i64),
    NonZeroUInt(IntWidth, u64),
    NonZeroSInt(IntWidth, i64),
    Text(String),
    List(StaticType, Vec<Value>),
    Optional(StaticType, Option<Box<Value>>),
    Composite(String, Vec<Field>),
}

/// Largest value an unsigned integer of width `w` can hold.
pub open spec fn uint_max(w: IntWidth) -> nat {
    match w {
        IntWidth::W8 => u8::MAX as nat,
        IntWidth::W16 => u16::MAX as nat,
        IntWidth::W32 => u32::MAX as nat,
        IntWidth::W64 => u64::MAX as nat,
    }
}

/// Smallest value a signed integer of width `w` can hold.
pub open spec fn sint_min(w: IntWidth) -> int {
    match w {
        IntWidth::W8 => i8::MIN as int,
        IntWidth::W16 => i16::MIN as int,
        IntWidth::W32 => i32::MIN as int,
        IntWidth::W64 => i64::MIN as int,
    }
}

/// Largest value a signed integer of width `w` can hold.
pub open spec fn sint_max(w: IntWidth) -> int {
    match w {
        IntWidth::W8 => i8::MAX as int,
        IntWidth::W16 => i16::MAX as int,
        IntWidth::W32 => i32::MAX as int,
        IntWidth::W64 => i64::MAX as int,
    }
}

pub open spec fn uint_fits(w: IntWidth, n: u64) -> bool {
    n <= uint_max(w)
}

pub open spec fn sint_fits(w: IntWidth, m: i64) -> bool {
    sint_min(w) <= m <= sint_max(w)
}

/// Structural equality of type descriptors; nominal types compare by name.
pub open spec fn type_matches(a: StaticType, b: StaticType) -> bool
    decreases a,
{
    match (a, b) {
        (StaticType::Bool, StaticType::Bool) => true,
        (StaticType::UInt(w1), StaticType::UInt(w2)) => w1 == w2,
        (StaticType::SInt(w1), StaticType::SInt(w2)) => w1 == w2,
        (StaticType::NonZeroUInt(w1), StaticType::NonZeroUInt(w2)) => w1 == w2,
        (StaticType::NonZeroSInt(w1), StaticType::NonZeroSInt(w2)) => w1 == w2,
        (StaticType::Str, StaticType::Str) => true,
        (StaticType::Slice(t1), StaticType::Slice(t2)) => type_matches(*t1, *t2),
        (StaticType::Optional(t1), StaticType::Optional(t2)) => type_matches(*t1, *t2),
        (StaticType::Named(n1), StaticType::Named(n2)) => n1@ == n2@,
        _ => false,
    }
}

/// Whether value `v` belongs to type `t` at the top level; typing of the
/// children of a collection is part of `value_wf`.
pub open spec fn has_type(v: Value, t: StaticType) -> bool {
    match (v, t) {
        (Value::Bool(_), StaticType::Bool) => true,
        (Value::UInt(w1, _), StaticType::UInt(w2)) => w1 == w2,
        (Value::SInt(w1, _), StaticType::SInt(w2)) => w1 == w2,
        (Value::NonZeroUInt(w1, _), StaticType::NonZeroUInt(w2)) => w1 == w2,
        (Value::NonZeroSInt(w1, _), StaticType::NonZeroSInt(w2)) => w1 == w2,
        (Value::Text(_), StaticType::Str) => true,
        (Value::List(et, _), StaticType::Slice(bt)) => type_matches(et, *bt),
        (Value::Optional(et, _), StaticType::Optional(bt)) => type_matches(et, *bt),
        (Value::Composite(n, _), StaticType::Named(m)) => n@ == m@,
        _ => false,
    }
}

/// Well-formedness of a value: every integer fits its width, non-zero
/// wrappers are non-zero, and every element of a collection is itself
/// well formed and of the collection's element type.
pub open spec fn value_wf(v: Value) -> bool
    decreases v,
{
    match v {
        Value::Bool(_) => true,
        Value::UInt(w, n) => uint_fits(w, n),
        Value::SInt(w, m) => sint_fits(w, m),
        Value::NonZeroUInt(w, n) => uint_fits(w, n) && n != 0,
        Value::NonZeroSInt(w, m) => sint_fits(w, m) && m != 0,
        Value::Text(_) => true,
        Value::List(et, vs) => values_wf(vs@, et),
        Value::Optional(et, o) => match o {
            Option::Some(b) => value_wf(*b) && has_type(*b, et),
            Option::None => true,
        },
        Value::Composite(_, fs) => fields_wf(fs@),
    }
}

/// Every value of `vs` is well formed and belongs to element type `et`.
pub open spec fn values_wf(vs: Seq<Value>, et: StaticType) -> bool
    decreases vs,
{
    vs.len() == 0 || (values_wf(vs.drop_last(), et) && value_wf(vs.last()) && has_type(
        vs.last(),
        et,
    ))
}

/// Every field value of `fs` is well formed.
pub open spec fn fields_wf(fs: Seq<Field>) -> bool
    decreases fs,
{
    fs.len() == 0 || (fields_wf(fs.drop_last()) && value_wf(fs.last().value))
}

/// Well-formedness of a value sequence covers each of its values.
pub proof fn lemma_values_wf_index(vs: Seq<Value>, et: StaticType, i: int)
    requires
        values_wf(vs, et),
        0 <= i < vs.len(),
    ensures
        value_wf(vs[i]) && has_type(vs[i], et),
    decreases vs.len(),
{
    if i == vs.len() - 1 {
    } else {
        lemma_values_wf_index(vs.drop_last(), et, i);
        assert(vs.drop_last()[i] == vs[i]);
    }
}

/// Well-formedness of a field sequence covers each of its field values.
pub proof fn lemma_fields_wf_index(fs: Seq<Field>, i: int)
    requires
        fields_wf(fs),
        0 <= i < fs.len(),
    ensures
        value_wf(fs[i].value),
    decreases fs.len(),
{
    if i == fs.len() - 1 {
    } else {
        lemma_fields_wf_index(fs.drop_last(), i);
        assert(fs.drop_last()[i] == fs[i]);
    }
}


/// Whether `n` fits in an unsigned integer of width `w`.
pub fn uint_fits_exec(w: IntWidth, n: u64) -> (r: bool)
    ensures
        r == uint_fits(w, n),
{
    match w {
        IntWidth::W8 => n <= 0xff,
        IntWidth::W16 => n <= 0xffff,
        IntWidth::W32 => n <= 0xffff_ffff,
        IntWidth::W64 => true,
    }
}

/// Whether `m` fits in a signed integer of width `w`.
pub fn sint_fits_exec(w: IntWidth, m: i64) -> (r: bool)
    ensures
        r == sint_fits(w, m),
{
    match w {
        IntWidth::W8 => -0x80 <= m && m <= 0x7f,
        IntWidth::W16 => -0x8000 <= m && m <= 0x7fff,
        IntWidth::W32 => -0x8000_0000 <= m && m <= 0x7fff_ffff,
        IntWidth::W64 => true,
    }
}

impl StaticType {
    /// Structural equality with another type descriptor.
    pub fn matches(&self, other: &StaticType) -> (r: bool)
        ensures
            r == type_matches(*self, *other),
        decreases *self,
    {
        match (self, other) {
            (StaticType::Bool, StaticType::Bool) => true,
            (StaticType::UInt(w1), StaticType::UInt(w2)) => *w1 == *w2,
            (StaticType::SInt(w1), StaticType::SInt(w2)) => *w1 == *w2,
            (StaticType::NonZeroUInt(w1), StaticType::NonZeroUInt(w2)) => *w1 == *w2,
            (StaticType::NonZeroSInt(w1), StaticType::NonZeroSInt(w2)) => *w1 == *w2,
            (StaticType::Str, StaticType::Str) => true,
            (StaticType::Slice(t1), StaticType::Slice(t2)) => t1.matches(t2),
            (StaticType::Optional(t1), StaticType::Optional(t2)) => t1.matches(t2),
            (StaticType::Named(n1), StaticType::Named(n2)) => n1.eq(n2),
            _ => false,
        }
    }
}

impl Value {
    /// Whether this value belongs to type `t` at the top level.
    pub fn has_type_exec(&self, t: &StaticType) -> (r: bool)
        ensures
            r == has_type(*self, *t),
    {
        match (self, t) {
            (Value::Bool(_), StaticType::Bool) => true,
            (Value::UInt(w1, _), StaticType::UInt(w2)) => *w1 == *w2,
            (Value::SInt(w1, _), StaticType::SInt(w2)) => *w1 == *w2,
            (Value::NonZeroUInt(w1, _), StaticType::NonZeroUInt(w2)) => *w1 == *w2,
            (Value::NonZeroSInt(w1, _), StaticType::NonZeroSInt(w2)) => *w1 == *w2,
            (Value::Text(_), StaticType::Str) => true,
            (Value::List(et, _), StaticType::Slice(bt)) => et.matches(bt),
            (Value::Optional(et, _), StaticType::Optional(bt)) => et.matches(bt),
            (Value::Composite(n, _), StaticType::Named(m)) => n.eq(m),
            _ => false,
        }
    }

    /// Whether this value is well formed: run-time validation of exactly the
    /// invariants the renderer's callers are asked to establish.
    #[verifier::loop_isolation(false)]
    pub fn is_well_formed(&self) -> (r: bool)
        ensures
            r == value_wf(*self),
        decreases *self,
    {
        match self {
            Value::Bool(_) => true,
            Value::UInt(w, n) => uint_fits_exec(*w, *n),
            Value::SInt(w, m) => sint_fits_exec(*w, *m),
            Value::NonZeroUInt(w, n) => uint_fits_exec(*w, *n) && *n != 0,
            Value::NonZeroSInt(w, m) => sint_fits_exec(*w, *m) && *m != 0,
            Value::Text(_) => true,
            Value::List(et, vs) => {
                let mut i: usize = 0;
                while i < vs.len()
                    invariant
                        i <= vs.len(),
                        values_wf(vs@.take(i as int), *et),
                    decreases vs.len() - i,
                {
                    proof {
                        assert(decreases_to!(*self => *vs));
                        assert(decreases_to!(*vs => vs@));
                        assert(decreases_to!(vs@ => vs@[i as int]));
                    }
                    if !(vs[i].is_well_formed() && vs[i].has_type_exec(et)) {
                        proof {
                            assert(*self == Value::List(*et, *vs));
                            if values_wf(vs@, *et) {
                                lemma_values_wf_index(vs@, *et, i as int);
                            }
                        }
                        return false;
                    }
                    proof {
                        let pre = vs@.take(i as int + 1);
                        assert(pre.drop_last() =~= vs@.take(i as int));
                        assert(pre.last() == vs@[i as int]);
                    }
                    i = i + 1;
                }
                proof {
                    assert(vs@.take(vs@.len() as int) =~= vs@);
                }
                true
            },
            Value::Optional(et, o) => match o {
                Option::Some(b) => b.is_well_formed() && b.has_type_exec(et),
                Option::None => true,
            },
            Value::Composite(_, fs) => {
                let mut i: usize = 0;
                while i < fs.len()
                    invariant
                        i <= fs.len(),
                        fields_wf(fs@.take(i as int)),
                    decreases fs.len() - i,
                {
                    proof {
                        assert(decreases_to!(*self => *fs));
                        assert(decreases_to!(*fs => fs@));
                        assert(decreases_to!(fs@ => fs@[i as int]));
                        assert(decreases_to!(fs@[i as int] => fs@[i as int].value));
                    }
                    if !fs[i].value.is_well_formed() {
                        proof {
                            assert(self matches Value::Composite(_, f2) && *f2 == *fs);
                            if fields_wf(fs@) {
                                lemma_fields_wf_index(fs@, i as int);
                            }
                        }
                        return false;
                    }
                    proof {
                        let pre = fs@.take(i as int + 1);
                        assert(pre.drop_last() =~= fs@.take(i as int));
                        assert(pre.last() == fs@[i as int]);
                    }
                    i = i + 1;
                }
                proof {
                    assert(fs@.take(fs@.len() as int) =~= fs@);
                }
                true
            },
        }
    }
}

} // verus!

