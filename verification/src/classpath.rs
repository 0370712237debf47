//! The identifier normalizer: converts a type path between its dotted
//! spelling (`java.lang.Object`, `int[]`) and the slash/descriptor spelling
//! a runtime uses (`java/lang/Object`, `[I`), and proves the conversion
//! round-trip invertible on every legal spelling of either dialect.

use vstd::prelude::*;

use crate::text::{push_copied, str_eq};

verus! {

/// One textual spelling of a type path, tagged with its dialect.
#[derive(Debug, Clone, PartialEq, Eq)]
pub enum ClassPath {
    /// Dotted spelling with `[]` array suffixes, e.g. `java.lang.Object`.
    Java(String),
    /// Slash spelling with descriptor array prefixes, e.g. `[Ljava/lang/Object;`.
    JNI(String),
}

/// Dots become slashes; every other character is kept.
pub open spec fn dot_to_slash(c: char) -> char {
    if c == '.' {
        '/'
    } else {
        c
    }
}

/// Slashes become dots; every other character is kept.
pub open spec fn slash_to_dot(c: char) -> char {
    if c == '/' {
        '.'
    } else {
        c
    }
}

/// The slash spelling of a plain (non-array) dotted name.
pub open spec fn java_name_to_jni(s: Seq<char>) -> Seq<char> {
    s.map_values(|c: char| dot_to_slash(c))
}

/// The dotted spelling of a plain (non-array) slash name.
pub open spec fn jni_name_to_java(s: Seq<char>) -> Seq<char> {
    s.map_values(|c: char| slash_to_dot(c))
}

/// The single-letter descriptor of a primitive type name, if `name` is one.
pub open spec fn primitive_descriptor(name: Seq<char>) -> Option<char> {
    if name == "void"@ {
        Some('V')
    } else if name == "boolean"@ {
        Some('Z')
    } else if name == "byte"@ {
        Some('B')
    } else if name == "char"@ {
        Some('C')
    } else if name == "short"@ {
        Some('S')
    } else if name == "int"@ {
        Some('I')
    } else if name == "long"@ {
        Some('J')
    } else if name == "float"@ {
        Some('F')
    } else if name == "double"@ {
        Some('D')
    } else {
        None
    }
}

/// The primitive type name a single-letter descriptor stands for, if any.
pub open spec fn primitive_name(d: char) -> Option<Seq<char>> {
    if d == 'V' {
        Some("void"@)
    } else if d == 'Z' {
        Some("boolean"@)
    } else if d == 'B' {
        Some("byte"@)
    } else if d == 'C' {
        Some("char"@)
    } else if d == 'S' {
        Some("short"@)
    } else if d == 'I' {
        Some("int"@)
    } else if d == 'J' {
        Some("long"@)
    } else if d == 'F' {
        Some("float"@)
    } else if d == 'D' {
        Some("double"@)
    } else {
        None
    }
}

/// How many `[]` pairs the dotted spelling ends with.
pub open spec fn java_array_dim(s: Seq<char>) -> nat
    decreases s.len(),
{
    if s.len() >= 2 && s[s.len() - 2] == '[' && s[s.len() - 1] == ']' {
        1 + java_array_dim(s.take(s.len() - 2))
    } else {
        0
    }
}

/// The dotted spelling with its `[]` suffixes removed.
pub open spec fn java_base(s: Seq<char>) -> Seq<char> {
    s.take(s.len() - 2 * java_array_dim(s))
}

/// How many `[` markers the slash spelling starts with.
pub open spec fn jni_array_dim(s: Seq<char>) -> nat
    decreases s.len(),
{
    if s.len() >= 1 && s[0] == '[' {
        1 + jni_array_dim(s.skip(1))
    } else {
        0
    }
}

/// The slash spelling with its leading `[` markers removed.
pub open spec fn jni_rest(s: Seq<char>) -> Seq<char> {
    s.skip(jni_array_dim(s) as int)
}

/// `n` copies of one character.
pub open spec fn repeat_char(c: char, n: nat) -> Seq<char>
    decreases n,
{
    if n == 0 {
        Seq::empty()
    } else {
        repeat_char(c, (n - 1) as nat).push(c)
    }
}

/// `n` copies of the `[]` pair.
pub open spec fn repeat_brackets(n: nat) -> Seq<char>
    decreases n,
{
    if n == 0 {
        Seq::empty()
    } else {
        repeat_brackets((n - 1) as nat) + seq!['[', ']']
    }
}

/// The slash/descriptor spelling of a dotted spelling.
pub open spec fn java_to_jni(s: Seq<char>) -> Seq<char> {
    let dim = java_array_dim(s);
    let base = java_base(s);
    if dim == 0 {
        java_name_to_jni(s)
    } else {
        match primitive_descriptor(base) {
            Some(d) => repeat_char('[', dim) + seq![d],
            None => repeat_char('[', dim) + seq!['L'] + java_name_to_jni(base) + seq![';'],
        }
    }
}

/// The dotted spelling of a slash/descriptor spelling.
pub open spec fn jni_to_java(s: Seq<char>) -> Seq<char> {
    let dim = jni_array_dim(s);
    let rest = jni_rest(s);
    if dim == 0 {
        jni_name_to_java(s)
    } else if rest.len() == 1 && primitive_name(rest[0]) is Some {
        primitive_name(rest[0])->0 + repeat_brackets(dim)
    } else if rest.len() >= 2 && rest[0] == 'L' && rest.last() == ';' {
        jni_name_to_java(rest.subrange(1, rest.len() - 1)) + repeat_brackets(dim)
    } else {
        jni_name_to_java(rest) + repeat_brackets(dim)
    }
}

/// A well-formed dotted name: nonempty, free of the characters the slash
/// dialect reserves.
pub open spec fn legal_java_name(s: Seq<char>) -> bool {
    s.len() > 0 && forall|i: int|
        0 <= i < s.len() ==> s[i] != '/' && s[i] != '[' && s[i] != ']' && s[i] != ';'
}

/// A legal dotted spelling: a well-formed name followed by zero or more `[]`.
pub open spec fn legal_java(s: Seq<char>) -> bool {
    legal_java_name(java_base(s))
}

/// A well-formed slash name: nonempty, free of dots and of the array and
/// envelope markers.
pub open spec fn legal_jni_name(s: Seq<char>) -> bool {
    s.len() > 0 && forall|i: int|
        0 <= i < s.len() ==> s[i] != '.' && s[i] != '[' && s[i] != ']' && s[i] != ';'
}

/// A legal slash/descriptor spelling: either a plain slash name, or array
/// markers over a primitive descriptor or an `L...;` envelope whose name
/// does not dot back to a primitive name.
pub open spec fn legal_jni(s: Seq<char>) -> bool {
    let dim = jni_array_dim(s);
    let rest = jni_rest(s);
    if dim == 0 {
        legal_jni_name(s)
    } else {
        (rest.len() == 1 && primitive_name(rest[0]) is Some) || (rest.len() >= 2 && rest[0] == 'L'
            && rest.last() == ';' && legal_jni_name(rest.subrange(1, rest.len() - 1))
            && primitive_descriptor(jni_name_to_java(rest.subrange(1, rest.len() - 1))) is None)
    }
}

proof fn lemma_repeat_char_len(c: char, n: nat)
    ensures
        repeat_char(c, n).len() == n,
        forall|i: int| 0 <= i < n ==> repeat_char(c, n)[i] == c,
    decreases n,
{
    if n > 0 {
        lemma_repeat_char_len(c, (n - 1) as nat);
    }
}

proof fn lemma_repeat_brackets_len(n: nat)
    ensures
        repeat_brackets(n).len() == 2 * n,
    decreases n,
{
    if n > 0 {
        lemma_repeat_brackets_len((n - 1) as nat);
    }
}

proof fn lemma_java_decompose(s: Seq<char>)
    ensures
        2 * java_array_dim(s) <= s.len(),
        s =~= java_base(s) + repeat_brackets(java_array_dim(s)),
    decreases s.len(),
{
    lemma_repeat_brackets_len(java_array_dim(s));
    if s.len() >= 2 && s[s.len() - 2] == '[' && s[s.len() - 1] == ']' {
        let t = s.take(s.len() - 2);
        lemma_java_decompose(t);
        lemma_repeat_brackets_len(java_array_dim(t));
        assert(java_base(s) =~= java_base(t));
        assert(s =~= t + seq!['[', ']']);
        assert(java_base(t) + repeat_brackets(java_array_dim(s)) =~= (java_base(t)
            + repeat_brackets(java_array_dim(t))) + seq!['[', ']']);
    } else {
        assert(java_base(s) =~= s);
        assert(s =~= java_base(s) + repeat_brackets(0));
    }
}

proof fn lemma_java_dim_append(base: Seq<char>, n: nat)
    requires
        base.len() > 0 ==> base.last() != ']',
    ensures
        java_array_dim(base + repeat_brackets(n)) == n,
        java_base(base + repeat_brackets(n)) =~= base,
    decreases n,
{
    let s = base + repeat_brackets(n);
    lemma_repeat_brackets_len(n);
    if n == 0 {
        assert(s =~= base);
        if s.len() >= 2 && s[s.len() - 2] == '[' && s[s.len() - 1] == ']' {
            assert(false);
        }
        assert(java_base(s) =~= base);
    } else {
        lemma_java_dim_append(base, (n - 1) as nat);
        lemma_repeat_brackets_len((n - 1) as nat);
        let t = base + repeat_brackets((n - 1) as nat);
        assert(repeat_brackets(n) =~= repeat_brackets((n - 1) as nat) + seq!['[', ']']);
        assert(s =~= t + seq!['[', ']']);
        assert(s.len() == t.len() + 2);
        assert(s[s.len() - 2] == '[' && s[s.len() - 1] == ']');
        assert(s.take(s.len() - 2) =~= t);
        assert(java_array_dim(s) == 1 + java_array_dim(t));
        assert(java_base(s) =~= base);
    }
}

proof fn lemma_jni_decompose(s: Seq<char>)
    ensures
        jni_array_dim(s) <= s.len(),
        s =~= repeat_char('[', jni_array_dim(s)) + jni_rest(s),
        jni_rest(s).len() > 0 ==> jni_rest(s)[0] != '[',
    decreases s.len(),
{
    if s.len() >= 1 && s[0] == '[' {
        let t = s.skip(1);
        lemma_jni_decompose(t);
        let d = jni_array_dim(s);
        lemma_repeat_char_len('[', d);
        lemma_repeat_char_len('[', jni_array_dim(t));
        assert(jni_rest(s) =~= jni_rest(t));
        assert(repeat_char('[', d) =~= seq!['['] + repeat_char('[', (d - 1) as nat)) by {
            lemma_repeat_char_unfold_front('[', d);
        }
        assert(s =~= seq!['['] + t);
        assert(s =~= repeat_char('[', d) + jni_rest(s));
    } else {
        assert(jni_rest(s) =~= s);
        assert(s =~= repeat_char('[', 0) + s);
    }
}

proof fn lemma_repeat_char_unfold_front(c: char, n: nat)
    requires
        n >= 1,
    ensures
        repeat_char(c, n) =~= seq![c] + repeat_char(c, (n - 1) as nat),
    decreases n,
{
    if n == 1 {
        assert(repeat_char(c, 1) =~= seq![c] + repeat_char(c, 0));
    } else {
        lemma_repeat_char_unfold_front(c, (n - 1) as nat);
        assert(repeat_char(c, n) =~= (seq![c] + repeat_char(c, (n - 2) as nat)).push(c));
        assert((seq![c] + repeat_char(c, (n - 2) as nat)).push(c) =~= seq![c] + repeat_char(
            c,
            (n - 1) as nat,
        ));
    }
}

proof fn lemma_jni_dim_prepend(t: Seq<char>, n: nat)
    requires
        t.len() > 0 ==> t[0] != '[',
    ensures
        jni_array_dim(repeat_char('[', n) + t) == n,
        jni_rest(repeat_char('[', n) + t) =~= t,
    decreases n,
{
    let s = repeat_char('[', n) + t;
    lemma_repeat_char_len('[', n);
    if n == 0 {
        assert(s =~= t);
        if s.len() >= 1 && s[0] == '[' {
            assert(false);
        }
        assert(jni_rest(s) =~= t);
    } else {
        lemma_jni_dim_prepend(t, (n - 1) as nat);
        lemma_repeat_char_unfold_front('[', n);
        lemma_repeat_char_len('[', (n - 1) as nat);
        let u = repeat_char('[', (n - 1) as nat) + t;
        assert(s =~= seq!['['] + u);
        assert(s[0] == '[');
        assert(s.skip(1) =~= u);
        assert(jni_array_dim(s) == 1 + jni_array_dim(u));
        assert(jni_rest(s) =~= t);
    }
}

/// Length and leading character of each primitive type name literal; no two
/// share both, so the literals are pairwise distinct.
proof fn lemma_primitive_literals()
    ensures
        "void"@.len() == 4 && "void"@[0] == 'v' && "void"@[3] == 'd',
        "boolean"@.len() == 7 && "boolean"@[0] == 'b' && "boolean"@[6] == 'n',
        "byte"@.len() == 4 && "byte"@[0] == 'b' && "byte"@[3] == 'e',
        "char"@.len() == 4 && "char"@[0] == 'c' && "char"@[3] == 'r',
        "short"@.len() == 5 && "short"@[0] == 's' && "short"@[4] == 't',
        "int"@.len() == 3 && "int"@[0] == 'i' && "int"@[2] == 't',
        "long"@.len() == 4 && "long"@[0] == 'l' && "long"@[3] == 'g',
        "float"@.len() == 5 && "float"@[0] == 'f' && "float"@[4] == 't',
        "double"@.len() == 6 && "double"@[0] == 'd' && "double"@[5] == 'e',
{
    reveal_strlit("void");
    reveal_strlit("boolean");
    reveal_strlit("byte");
    reveal_strlit("char");
    reveal_strlit("short");
    reveal_strlit("int");
    reveal_strlit("long");
    reveal_strlit("float");
    reveal_strlit("double");
}

/// A primitive type name is nonempty, does not end with the array suffix
/// character, maps back from its descriptor, and its descriptor is not the
/// array marker.
proof fn lemma_primitive_name_facts(name: Seq<char>)
    requires
        primitive_descriptor(name) is Some,
    ensures
        name.len() > 0,
        name.last() != ']',
        primitive_name(primitive_descriptor(name)->0) == Some(name),
        primitive_descriptor(name)->0 != '[',
{
    lemma_primitive_literals();
}

proof fn lemma_primitive_descriptor_of_name(d: char)
    requires
        primitive_name(d) is Some,
    ensures
        primitive_descriptor(primitive_name(d)->0) == Some(d),
        primitive_name(d)->0.len() > 0,
        primitive_name(d)->0.last() != ']',
{
    lemma_primitive_literals();
}

proof fn lemma_name_map_inverse_java(s: Seq<char>)
    requires
        forall|i: int| 0 <= i < s.len() ==> s[i] != '/',
    ensures
        jni_name_to_java(java_name_to_jni(s)) =~= s,
{
}

proof fn lemma_name_map_inverse_jni(s: Seq<char>)
    requires
        forall|i: int| 0 <= i < s.len() ==> s[i] != '.',
    ensures
        java_name_to_jni(jni_name_to_java(s)) =~= s,
{
}

/// Law: normalizing a legal dotted spelling to the slash dialect and back
/// returns it unchanged.
pub proof fn lemma_java_round_trip(s: Seq<char>)
    requires
        legal_java(s),
    ensures
        jni_to_java(java_to_jni(s)) == s,
{
    let dim = java_array_dim(s);
    let base = java_base(s);
    lemma_java_decompose(s);
    if dim == 0 {
        assert(base =~= s);
        let out = java_name_to_jni(s);
        assert(out.len() == s.len());
        assert(out[0] != '[') by {
            assert(s[0] != '[' && s[0] != '/');
        }
        assert(jni_array_dim(out) == 0);
        lemma_name_map_inverse_java(s);
        assert(jni_to_java(out) =~= s);
        assert(jni_to_java(java_to_jni(s)) == s);
    } else {
        match primitive_descriptor(base) {
            Some(d) => {
                let out = repeat_char('[', dim) + seq![d];
                lemma_primitive_name_facts(base);
                lemma_jni_dim_prepend(seq![d], dim);
                assert(jni_array_dim(out) == dim);
                let rest = jni_rest(out);
                assert(rest =~= seq![d]);
                assert(primitive_name(d) == Some(base));
                assert(jni_to_java(out) =~= base + repeat_brackets(dim));
                assert(jni_to_java(java_to_jni(s)) == s);
            },
            None => {
                let mapped = java_name_to_jni(base);
                let env = seq!['L'] + mapped + seq![';'];
                let out = repeat_char('[', dim) + env;
                assert(java_to_jni(s) =~= out);
                assert(env[0] == 'L' && env[0] != '[');
                lemma_jni_dim_prepend(env, dim);
                let rest = jni_rest(out);
                assert(rest =~= env);
                assert(rest.len() == base.len() + 2);
                assert(rest.len() >= 2 && rest[0] == 'L' && rest.last() == ';');
                if rest.len() == 1 && primitive_name(rest[0]) is Some {
                    assert(false);
                }
                assert(rest.subrange(1, rest.len() - 1) =~= mapped);
                lemma_name_map_inverse_java(base);
                assert(jni_name_to_java(mapped) =~= base);
                assert(jni_to_java(out) =~= base + repeat_brackets(dim));
                assert(jni_to_java(java_to_jni(s)) == s);
            },
        }
    }
}

/// Law: normalizing a legal slash/descriptor spelling to the dotted dialect
/// and back returns it unchanged.
pub proof fn lemma_jni_round_trip(s: Seq<char>)
    requires
        legal_jni(s),
    ensures
        java_to_jni(jni_to_java(s)) == s,
{
    let dim = jni_array_dim(s);
    let rest = jni_rest(s);
    lemma_jni_decompose(s);
    if dim == 0 {
        let out = jni_name_to_java(s);
        assert(out.len() == s.len());
        assert(forall|i: int| 0 <= i < out.len() ==> out[i] != ']' && out[i] != '[') by {
            assert(forall|i: int| 0 <= i < s.len() ==> s[i] != ']' && s[i] != '[');
        }
        if out.len() >= 2 && out[out.len() - 2] == '[' && out[out.len() - 1] == ']' {
            assert(false);
        }
        assert(java_array_dim(out) == 0);
        assert(java_base(out) =~= out);
        lemma_name_map_inverse_jni(s);
        assert(java_to_jni(out) =~= s);
        assert(java_to_jni(jni_to_java(s)) == s);
    } else if rest.len() == 1 && primitive_name(rest[0]) is Some {
        let d = rest[0];
        let name = primitive_name(d)->0;
        lemma_primitive_descriptor_of_name(d);
        lemma_primitive_name_facts(name);
        let out = name + repeat_brackets(dim);
        assert(jni_to_java(s) =~= out);
        assert(name.last() != ']');
        lemma_java_dim_append(name, dim);
        assert(java_array_dim(out) == dim);
        assert(java_base(out) =~= name);
        assert(java_to_jni(out) =~= repeat_char('[', dim) + seq![d]);
        assert(rest =~= seq![d]);
        assert(java_to_jni(jni_to_java(s)) == s);
    } else {
        assert(rest.len() >= 2 && rest[0] == 'L' && rest.last() == ';');
        let inner = rest.subrange(1, rest.len() - 1);
        let dotted = jni_name_to_java(inner);
        let out = dotted + repeat_brackets(dim);
        assert(jni_to_java(s) =~= out);
        assert(dotted.len() == inner.len());
        assert(forall|i: int| 0 <= i < dotted.len() ==> dotted[i] != ']') by {
            assert(forall|i: int| 0 <= i < inner.len() ==> inner[i] != ']');
        }
        assert(dotted.len() > 0);
        assert(dotted.last() != ']');
        lemma_java_dim_append(dotted, dim);
        assert(java_array_dim(out) == dim);
        assert(java_base(out) =~= dotted);
        assert(primitive_descriptor(dotted) is None);
        lemma_name_map_inverse_jni(inner);
        assert(java_name_to_jni(dotted) =~= inner);
        assert(java_to_jni(out) =~= repeat_char('[', dim) + seq!['L'] + inner + seq![';']);
        assert(rest =~= seq!['L'] + inner + seq![';']);
        assert(repeat_char('[', dim) + seq!['L'] + inner + seq![';'] =~= repeat_char('[', dim)
            + rest);
        assert(java_to_jni(jni_to_java(s)) == s);
    }
}

fn map_dots_to_slashes(s: &str) -> (r: String)
    ensures
        r@ == java_name_to_jni(s@),
{
    let n = s.unicode_len();
    let mut out = String::new();
    let mut i: usize = 0;
    while i < n
        invariant
            i <= n,
            n == s@.len(),
            out@ == java_name_to_jni(s@.take(i as int)),
        decreases n - i,
    {
        let c = s.get_char(i);
        if c == '.' {
            out.append("/");
            proof {
                reveal_strlit("/");
                assert("/"@ =~= seq!['/']);
            }
        } else {
            push_copied(&mut out, s, i);
        }
        proof {
            assert(s@.take(i + 1 as int) =~= s@.take(i as int).push(s@[i as int]));
            assert(java_name_to_jni(s@.take(i + 1 as int)) =~= java_name_to_jni(
                s@.take(i as int),
            ).push(dot_to_slash(s@[i as int])));
        }
        i += 1;
    }
    proof {
        assert(s@.take(n as int) =~= s@);
    }
    out
}

fn map_slashes_to_dots(s: &str) -> (r: String)
    ensures
        r@ == jni_name_to_java(s@),
{
    let n = s.unicode_len();
    let mut out = String::new();
    let mut i: usize = 0;
    while i < n
        invariant
            i <= n,
            n == s@.len(),
            out@ == jni_name_to_java(s@.take(i as int)),
        decreases n - i,
    {
        let c = s.get_char(i);
        if c == '/' {
            out.append(".");
            proof {
                reveal_strlit(".");
                assert("."@ =~= seq!['.']);
            }
        } else {
            push_copied(&mut out, s, i);
        }
        proof {
            assert(s@.take(i + 1 as int) =~= s@.take(i as int).push(s@[i as int]));
            assert(jni_name_to_java(s@.take(i + 1 as int)) =~= jni_name_to_java(
                s@.take(i as int),
            ).push(slash_to_dot(s@[i as int])));
        }
        i += 1;
    }
    proof {
        assert(s@.take(n as int) =~= s@);
    }
    out
}

pub(crate) fn primitive_descriptor_exec(name: &str) -> (r: Option<&'static str>)
    ensures
        match r {
            Some(d) => primitive_descriptor(name@) is Some && d@ == seq![
                primitive_descriptor(name@)->0,
            ],
            None => primitive_descriptor(name@) is None,
        },
{
    proof {
        reveal_strlit("V");
        reveal_strlit("Z");
        reveal_strlit("B");
        reveal_strlit("C");
        reveal_strlit("S");
        reveal_strlit("I");
        reveal_strlit("J");
        reveal_strlit("F");
        reveal_strlit("D");
        assert("V"@ =~= seq!['V']);
        assert("Z"@ =~= seq!['Z']);
        assert("B"@ =~= seq!['B']);
        assert("C"@ =~= seq!['C']);
        assert("S"@ =~= seq!['S']);
        assert("I"@ =~= seq!['I']);
        assert("J"@ =~= seq!['J']);
        assert("F"@ =~= seq!['F']);
        assert("D"@ =~= seq!['D']);
    }
    if str_eq(name, "void") {
        Some("V")
    } else if str_eq(name, "boolean") {
        Some("Z")
    } else if str_eq(name, "byte") {
        Some("B")
    } else if str_eq(name, "char") {
        Some("C")
    } else if str_eq(name, "short") {
        Some("S")
    } else if str_eq(name, "int") {
        Some("I")
    } else if str_eq(name, "long") {
        Some("J")
    } else if str_eq(name, "float") {
        Some("F")
    } else if str_eq(name, "double") {
        Some("D")
    } else {
        None
    }
}

fn primitive_name_exec(d: char) -> (r: Option<&'static str>)
    ensures
        match r {
            Some(nm) => primitive_name(d) == Some(nm@),
            None => primitive_name(d) is None,
        },
{
    if d == 'V' {
        Some("void")
    } else if d == 'Z' {
        Some("boolean")
    } else if d == 'B' {
        Some("byte")
    } else if d == 'C' {
        Some("char")
    } else if d == 'S' {
        Some("short")
    } else if d == 'I' {
        Some("int")
    } else if d == 'J' {
        Some("long")
    } else if d == 'F' {
        Some("float")
    } else if d == 'D' {
        Some("double")
    } else {
        None
    }
}

fn append_brackets(out: &mut String, dim: usize)
    ensures
        final(out)@ == old(out)@ + repeat_brackets(dim as nat),
{
    let mut k: usize = 0;
    while k < dim
        invariant
            k <= dim,
            out@ == old(out)@ + repeat_brackets(k as nat),
        decreases dim - k,
    {
        out.append("[]");
        proof {
            reveal_strlit("[]");
            assert("[]"@ =~= seq!['[', ']']);
            assert((old(out)@ + repeat_brackets(k as nat)) + seq!['[', ']'] =~= old(out)@
                + repeat_brackets((k + 1) as nat));
        }
        k += 1;
    }
}

impl ClassPath {
    /// The spelled path inside this value, whatever its dialect.
    pub open spec fn path_view(&self) -> Seq<char> {
        match self {
            ClassPath::Java(s) => s@,
            ClassPath::JNI(s) => s@,
        }
    }

    /// The slash/descriptor spelling this value canonicalizes to.
    pub open spec fn canonical(&self) -> Seq<char> {
        match self {
            ClassPath::Java(s) => java_to_jni(s@),
            ClassPath::JNI(s) => s@,
        }
    }

    /// Rewrites the path into the other dialect.
    pub fn convert(&self) -> (r: Self)
        ensures
            self matches ClassPath::Java(cp) ==> r matches ClassPath::JNI(out) && out@
                == java_to_jni(cp@),
            self matches ClassPath::JNI(cp) ==> r matches ClassPath::Java(out) && out@
                == jni_to_java(cp@),
    {
        match self {
            ClassPath::Java(cp) => ClassPath::JNI(Self::convert_java(cp.as_str())),
            ClassPath::JNI(cp) => ClassPath::Java(Self::convert_jni(cp.as_str())),
        }
    }

    fn convert_java(s: &str) -> (r: String)
        ensures
            r@ == java_to_jni(s@),
    {
        let n = s.unicode_len();
        let mut base_len = n;
        let mut dim: usize = 0;
        proof {
            assert(s@.take(n as int) =~= s@);
        }
        while base_len >= 2 && s.get_char(base_len - 2) == '[' && s.get_char(base_len - 1) == ']'
            invariant
                base_len <= n,
                n == s@.len(),
                base_len + 2 * dim == n,
                java_array_dim(s@) == dim + java_array_dim(s@.take(base_len as int)),
            decreases base_len,
        {
            proof {
                let prefix = s@.take(base_len as int);
                assert(prefix[base_len - 2] == s@[base_len - 2]);
                assert(prefix[base_len - 1] == s@[base_len - 1]);
                assert(prefix.take(base_len - 2) =~= s@.take(base_len - 2));
                assert(java_array_dim(prefix) == 1 + java_array_dim(s@.take(base_len - 2)));
            }
            base_len -= 2;
            dim += 1;
        }
        proof {
            let prefix = s@.take(base_len as int);
            if prefix.len() >= 2 && prefix[prefix.len() - 2] == '[' && prefix[prefix.len() - 1]
                == ']' {
                assert(s@[base_len - 2] == prefix[base_len - 2]);
                assert(s@[base_len - 1] == prefix[base_len - 1]);
                assert(false);
            }
            assert(java_array_dim(prefix) == 0);
            assert(java_array_dim(s@) == dim);
            assert(java_base(s@) =~= prefix);
        }
        if dim == 0 {
            return map_dots_to_slashes(s);
        }
        let base = s.substring_char(0, base_len);
        let mut out = String::new();
        let mut k: usize = 0;
        while k < dim
            invariant
                k <= dim,
                out@ == repeat_char('[', k as nat),
            decreases dim - k,
        {
            out.append("[");
            proof {
                reveal_strlit("[");
                assert("["@ =~= seq!['[']);
                assert(repeat_char('[', k as nat) + seq!['['] =~= repeat_char(
                    '[',
                    (k + 1) as nat,
                ));
            }
            k += 1;
        }
        match primitive_descriptor_exec(base) {
            Some(d) => {
                out.append(d);
                proof {
                    assert(out@ =~= repeat_char('[', dim as nat) + seq![
                        primitive_descriptor(java_base(s@))->0,
                    ]);
                }
                out
            },
            None => {
                out.append("L");
                let mapped = map_dots_to_slashes(base);
                out.append(mapped.as_str());
                out.append(";");
                proof {
                    reveal_strlit("L");
                    reveal_strlit(";");
                    assert("L"@ =~= seq!['L']);
                    assert(";"@ =~= seq![';']);
                    assert(out@ =~= repeat_char('[', dim as nat) + seq!['L'] + java_name_to_jni(
                        java_base(s@),
                    ) + seq![';']);
                }
                out
            },
        }
    }

    fn convert_jni(s: &str) -> (r: String)
        ensures
            r@ == jni_to_java(s@),
    {
        let n = s.unicode_len();
        let mut dim: usize = 0;
        while dim < n && s.get_char(dim) == '['
            invariant
                dim <= n,
                n == s@.len(),
                forall|k: int| 0 <= k < dim ==> s@[k] == '[',
            decreases n - dim,
        {
            dim += 1;
        }
        proof {
            lemma_jni_dim_from_prefix(s@, dim as int);
            assert(jni_rest(s@) == s@.skip(dim as int));
        }
        if dim == 0 {
            return map_slashes_to_dots(s);
        }
        let rest = s.substring_char(dim, n);
        proof {
            assert(rest@ =~= jni_rest(s@));
        }
        let rest_len = n - dim;
        if rest_len == 1 {
            let d0 = rest.get_char(0);
            if let Some(nm) = primitive_name_exec(d0) {
                let mut out = nm.to_owned();
                append_brackets(&mut out, dim);
                proof {
                    assert(rest@ =~= seq![rest@[0]]);
                }
                return out;
            }
        }
        if rest_len >= 2 && rest.get_char(0) == 'L' && rest.get_char(rest_len - 1) == ';' {
            let inner = rest.substring_char(1, rest_len - 1);
            let mut out = map_slashes_to_dots(inner);
            append_brackets(&mut out, dim);
            proof {
                assert(inner@ =~= jni_rest(s@).subrange(1, jni_rest(s@).len() - 1));
                assert(rest@.last() == ';');
            }
            out
        } else {
            let mut out = map_slashes_to_dots(rest);
            append_brackets(&mut out, dim);
            proof {
                if rest@.len() == 1 && primitive_name(rest@[0]) is Some {
                    assert(false);
                }
                if rest@.len() >= 2 && rest@[0] == 'L' && rest@.last() == ';' {
                    assert(false);
                }
            }
            out
        }
    }

    /// The same path in the slash/descriptor dialect; a value already in it
    /// is returned unchanged.
    pub fn as_jni(self) -> (r: Self)
        ensures
            r is JNI,
            r.path_view() == self.canonical(),
    {
        match self {
            ClassPath::Java(_) => self.convert(),
            _ => self,
        }
    }

    /// The same path in the dotted dialect; a value already in it is
    /// returned unchanged.
    pub fn as_java(self) -> (r: Self)
        ensures
            r is Java,
            self matches ClassPath::JNI(cp) ==> r.path_view() == jni_to_java(cp@),
            self matches ClassPath::Java(cp) ==> r.path_view() == cp@,
    {
        match self {
            ClassPath::JNI(_) => self.convert(),
            _ => self,
        }
    }

    /// Unwraps the spelled path.
    pub fn into_string(self) -> (r: String)
        ensures
            r@ == self.path_view(),
    {
        match self {
            ClassPath::Java(cp) => cp,
            ClassPath::JNI(cp) => cp,
        }
    }
}

proof fn lemma_jni_dim_from_prefix(s: Seq<char>, d: int)
    requires
        0 <= d <= s.len(),
        forall|k: int| 0 <= k < d ==> s[k] == '[',
        d < s.len() ==> s[d] != '[',
    ensures
        jni_array_dim(s) == d,
    decreases s.len(),
{
    if d == 0 {
        if s.len() >= 1 && s[0] == '[' {
            assert(false);
        }
    } else {
        assert(s[0] == '[');
        let t = s.skip(1);
        assert(forall|k: int| 0 <= k < d - 1 ==> t[k] == '[');
        lemma_jni_dim_from_prefix(t, d - 1);
    }
}

} // verus!
