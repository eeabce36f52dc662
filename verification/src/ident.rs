use vstd::prelude::*;
use vstd::string::StrSliceExecFns;

verus! {

/// What `convert_case` turns a piece of text into under its upper-snake
/// convention.  The conversion is involved (it splits on case, digit and
/// delimiter boundaries), so it is left uninterpreted here; the trusted
/// wrapper below ties it to the real implementation.
pub uninterp spec fn upper_snake_of(s: Seq<char>) -> Seq<char>;

/// Whether a character has the Unicode `Alphabetic` property.
pub uninterp spec fn char_alphabetic(c: char) -> bool;

/// Whether a character is Unicode alphanumeric.
pub uninterp spec fn char_alphanumeric(c: char) -> bool;

/// Relies on `char::is_alphabetic`: a property of the character alone.
pub assume_specification[ char::is_alphabetic ](c: char) -> (r: bool)
    ensures
        r == char_alphabetic(c),
;

/// Relies on `char::is_alphanumeric`: a property of the character alone.
pub assume_specification[ char::is_alphanumeric ](c: char) -> (r: bool)
    ensures
        r == char_alphanumeric(c),
;

/// Relies on `convert_case::Casing::to_case` with `Case::UpperSnake`: a pure
/// conversion whose result depends on the input text alone.
#[verifier::external_body]
fn to_upper_snake(s: &str) -> (r: String)
    ensures
        r@ == upper_snake_of(s@),
{
    convert_case::Casing::to_case(&s, convert_case::Case::UpperSnake)
}

/// The stem of a file name: the final `/`-separated component of the path,
/// cut before its first dot, so every extension is discarded.
pub open spec fn stem_of(path: Seq<char>) -> Seq<char> {
    before_first_dot(last_component(path))
}

/// The part of `path` after its last `/`; the whole of it when it has none.
pub open spec fn last_component(path: Seq<char>) -> Seq<char>
    decreases path.len(),
{
    if path.len() == 0 {
        path
    } else if path[path.len() - 1] == '/' {
        Seq::<char>::empty()
    } else {
        last_component(path.drop_last()).push(path[path.len() - 1])
    }
}

/// The part of `name` before its first `.`; the whole of it when it has none.
pub open spec fn before_first_dot(name: Seq<char>) -> Seq<char>
    decreases name.len(),
{
    if name.len() == 0 {
        name
    } else if name[0] == '.' {
        Seq::<char>::empty()
    } else {
        seq![name[0]] + before_first_dot(name.drop_first())
    }
}

/// `name` shorn of its last dot and everything after it; empty when it has
/// no dot at all.
pub open spec fn cut_from_last_dot(name: Seq<char>) -> Seq<char>
    decreases name.len(),
{
    if name.len() == 0 {
        name
    } else if name[name.len() - 1] == '.' {
        name.drop_last()
    } else {
        cut_from_last_dot(name.drop_last())
    }
}

/// The grouping name a directory yields: its final path component before the
/// last dot, or the whole component when the part before the last dot is
/// empty (as in a dot-file) or there is no dot.
pub open spec fn dir_stem_of(path: Seq<char>) -> Seq<char> {
    let comp = last_component(path);
    let cut = cut_from_last_dot(comp);
    if cut.len() == 0 {
        comp
    } else {
        cut
    }
}

/// A valid derived constant name: non-empty, alphabetic first character,
/// then alphanumerics or underscores.
pub open spec fn is_valid_ident(s: Seq<char>) -> bool {
    &&& s.len() > 0
    &&& char_alphabetic(s[0])
    &&& forall|i: int| 1 <= i < s.len() ==> (s[i] == '_' || #[trigger] char_alphanumeric(s[i]))
}

/// A suffix of `s` that starts right after a `/`, or at the very start, and
/// holds no `/` itself, is what `last_component` returns.
proof fn lemma_last_component_at(s: Seq<char>, k: int)
    requires
        0 <= k <= s.len(),
        forall|i: int| k <= i < s.len() ==> s[i] != '/',
        k == 0 || s[k - 1] == '/',
    ensures
        last_component(s) == s.subrange(k, s.len() as int),
    decreases s.len(),
{
    if s.len() == 0 {
        assert(last_component(s) =~= s.subrange(k, s.len() as int));
    } else if s[s.len() - 1] == '/' {
        assert(k == s.len());
        assert(last_component(s) =~= s.subrange(k, s.len() as int));
    } else {
        assert(k < s.len());
        let d = s.drop_last();
        lemma_last_component_at(d, k);
        assert(last_component(s) =~= s.subrange(k, s.len() as int));
    }
}

/// A prefix of `s` that holds no dot and ends at a dot, or at the end of
/// `s`, is what `before_first_dot` returns.
proof fn lemma_before_first_dot_at(s: Seq<char>, j: int)
    requires
        0 <= j <= s.len(),
        forall|i: int| 0 <= i < j ==> s[i] != '.',
        j == s.len() || s[j] == '.',
    ensures
        before_first_dot(s) == s.take(j),
    decreases s.len(),
{
    if s.len() == 0 {
        assert(before_first_dot(s) =~= s.take(j));
    } else if s[0] == '.' {
        assert(j == 0);
        assert(before_first_dot(s) =~= s.take(j));
    } else {
        assert(j >= 1);
        let d = s.drop_first();
        lemma_before_first_dot_at(d, j - 1);
        assert(before_first_dot(s) =~= s.take(j));
    }
}

/// When the last dot of `s` sits at position `j`, cutting from it keeps the
/// first `j` characters.
proof fn lemma_cut_from_last_dot_at(s: Seq<char>, j: int)
    requires
        0 <= j < s.len(),
        s[j] == '.',
        forall|i: int| j < i < s.len() ==> s[i] != '.',
    ensures
        cut_from_last_dot(s) == s.take(j),
    decreases s.len(),
{
    if j == s.len() - 1 {
        assert(cut_from_last_dot(s) =~= s.take(j));
    } else {
        let d = s.drop_last();
        lemma_cut_from_last_dot_at(d, j);
        assert(cut_from_last_dot(s) =~= s.take(j));
    }
}

/// Without any dot in `s`, cutting from the last dot leaves nothing.
proof fn lemma_cut_no_dot(s: Seq<char>)
    requires
        forall|i: int| 0 <= i < s.len() ==> s[i] != '.',
    ensures
        cut_from_last_dot(s) == Seq::<char>::empty(),
    decreases s.len(),
{
    if s.len() > 0 {
        lemma_cut_no_dot(s.drop_last());
    }
    assert(cut_from_last_dot(s) =~= Seq::<char>::empty());
}

fn str_chars(t: &str) -> (r: Vec<char>)
    ensures
        r@ == t@,
{
    let n: usize = t.unicode_len();
    let mut r: Vec<char> = Vec::new();
    let mut i: usize = 0;
    while i < n
        invariant
            i <= n,
            n == t@.len(),
            r@ == t@.take(i as int),
        decreases n - i,
    {
        let c: char = t.get_char(i);
        r.push(c);
        proof {
            assert(r@ =~= t@.take(i as int + 1));
        }
        i = i + 1;
    }
    proof {
        assert(t@.take(n as int) =~= t@);
    }
    r
}

fn chars_to_string(c: &Vec<char>, from: usize, to: usize) -> (r: String)
    requires
        from <= to <= c@.len(),
    ensures
        r@ == c@.subrange(from as int, to as int),
{
    let mut r = String::new();
    let mut i: usize = from;
    while i < to
        invariant
            from <= i <= to <= c@.len(),
            r@ == c@.subrange(from as int, i as int),
        decreases to - i,
    {
        r.push(c[i]);
        proof {
            assert(r@ =~= c@.subrange(from as int, i as int + 1));
        }
        i = i + 1;
    }
    r
}

/// Index right after the last `/` of `c`, or zero.
#[verifier::loop_isolation(false)]
fn component_start(c: &Vec<char>) -> (k: usize)
    ensures
        0 <= k <= c@.len(),
        forall|i: int| k <= i < c@.len() ==> c@[i] != '/',
        k == 0 || c@[k - 1] == '/',
{
    let n: usize = c.len();
    let mut k: usize = 0;
    let mut i: usize = 0;
    while i < n
        invariant
            0 <= k <= i <= n,
            forall|j: int| k <= j < i ==> c@[j] != '/',
            k == 0 || c@[k - 1] == '/',
        decreases n - i,
    {
        if c[i] == '/' {
            k = i + 1;
        }
        i = i + 1;
    }
    k
}

/// Index of the first `.` of `c` at or after `from`, or the length.
#[verifier::loop_isolation(false)]
fn first_dot_from(c: &Vec<char>, from: usize) -> (j: usize)
    requires
        from <= c@.len(),
    ensures
        from <= j <= c@.len(),
        forall|i: int| from <= i < j ==> c@[i] != '.',
        j == c@.len() || c@[j as int] == '.',
{
    let n: usize = c.len();
    let mut i: usize = from;
    while i < n
        invariant
            from <= i <= n,
            forall|j: int| from <= j < i ==> c@[j] != '.',
        decreases n - i,
    {
        if c[i] == '.' {
            return i;
        }
        i = i + 1;
    }
    n
}

/// The stem of file name `t`: its last path component before the first dot.
pub fn file_stem(t: &str) -> (r: String)
    ensures
        r@ == stem_of(t@),
{
    let c: Vec<char> = str_chars(t);
    let start: usize = component_start(&c);
    let end: usize = first_dot_from(&c, start);
    proof {
        lemma_last_component_at(t@, start as int);
        let comp = t@.subrange(start as int, t@.len() as int);
        lemma_before_first_dot_at(comp, end as int - start as int);
        assert(comp.take(end as int - start as int) =~= t@.subrange(start as int, end as int));
    }
    chars_to_string(&c, start, end)
}

/// The grouping name of directory path `t`: its last component, shorn of a
/// final extension.
pub fn dir_stem(t: &str) -> (r: String)
    ensures
        r@ == dir_stem_of(t@),
{
    let c: Vec<char> = str_chars(t);
    let start: usize = component_start(&c);
    let n: usize = c.len();
    proof {
        lemma_last_component_at(t@, start as int);
    }
    let comp_is = Ghost(t@.subrange(start as int, t@.len() as int));
    match last_dot_in_range(&c, start) {
        Option::Some(j) => {
            if j == start {
                // A dot-file: the part before the dot is empty, keep it whole.
                proof {
                    lemma_cut_from_last_dot_at(comp_is@, 0);
                    assert(comp_is@.take(0) =~= Seq::<char>::empty());
                }
                chars_to_string(&c, start, n)
            } else {
                proof {
                    lemma_cut_from_last_dot_at(comp_is@, j as int - start as int);
                    assert(comp_is@.take(j as int - start as int) =~= t@.subrange(
                        start as int,
                        j as int,
                    ));
                }
                chars_to_string(&c, start, j)
            }
        },
        Option::None => {
            proof {
                lemma_cut_no_dot(comp_is@);
            }
            chars_to_string(&c, start, n)
        },
    }
}

/// Index of the last `.` of `c` at or after `from`, or `None`.
#[verifier::loop_isolation(false)]
fn last_dot_in_range(c: &Vec<char>, from: usize) -> (r: Option<usize>)
    requires
        from <= c@.len(),
    ensures
        match r {
            Option::Some(j) => from <= j < c@.len() && c@[j as int] == '.' && forall|i: int|
                j < i < c@.len() ==> c@[i] != '.',
            Option::None => forall|i: int| from <= i < c@.len() ==> c@[i] != '.',
        },
{
    let n: usize = c.len();
    let mut found: Option<usize> = Option::None;
    let mut i: usize = from;
    while i < n
        invariant
            from <= i <= n,
            match found {
                Option::Some(j) => from <= j < i && c@[j as int] == '.' && forall|t: int|
                    j < t < i ==> c@[t] != '.',
                Option::None => forall|t: int| from <= t < i ==> c@[t] != '.',
            },
        decreases n - i,
    {
        if c[i] == '.' {
            found = Option::Some(i);
        }
        i = i + 1;
    }
    found
}

/// Whether `name` is a valid derived constant name.
#[verifier::loop_isolation(false)]
pub fn check_ident(name: &str) -> (r: bool)
    ensures
        r == is_valid_ident(name@),
{
    let n: usize = name.unicode_len();
    if n == 0 {
        return false;
    }
    let c0: char = name.get_char(0);
    if !c0.is_alphabetic() {
        return false;
    }
    let mut i: usize = 1;
    while i < n
        invariant
            1 <= i <= n,
            forall|j: int| 1 <= j < i ==> (name@[j] == '_' || #[trigger] char_alphanumeric(
                name@[j],
            )),
        decreases n - i,
    {
        let c: char = name.get_char(i);
        if !(c == '_' || c.is_alphanumeric()) {
            return false;
        }
        i = i + 1;
    }
    true
}

/// The reason a derived name was rejected: it was not a valid identifier.
/// Carries the offending name.
#[derive(Debug)]
pub enum NameError {
    NonIdentifier(String),
}

/// Derives the constant name for file name `t`: the stem is case-converted
/// to upper snake, then every character is validated.  An invalid result is
/// a fatal naming error, never a silent skip.
pub fn sanitize(t: &str) -> (r: Result<String, NameError>)
    ensures
        match r {
            Ok(name) => name@ == upper_snake_of(stem_of(t@)) && is_valid_ident(name@),
            Err(e) => !is_valid_ident(upper_snake_of(stem_of(t@))) && (match e {
                NameError::NonIdentifier(bad) => bad@ == upper_snake_of(stem_of(t@)),
            }),
        },
{
    let stem: String = file_stem(t);
    let name: String = to_upper_snake(stem.as_str());
    if check_ident(name.as_str()) {
        Ok(name)
    } else {
        Err(NameError::NonIdentifier(name))
    }
}

} // verus!
