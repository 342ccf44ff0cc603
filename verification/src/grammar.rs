//! The language of profile path values: what each value expands to, or what is wrong with it.
//!
//! A value is text in which every `$` opens a variable reference `${NAME}`. Everything else that
//! a `$` could stand for is a fault, so that a vocabulary with more variables gives the values
//! accepted today the meaning they have today.

use vstd::prelude::*;

verus! {

/// The variables of the vocabulary.
pub const VARS: [&'static str; 1] = ["HOME"];

/// The variables of the vocabulary, as text.
pub open spec fn var_names() -> Seq<Seq<char>> {
    VARS@.map_values(|name: &str| name@)
}

/// What each variable of the vocabulary stands for, given the home directory.
pub open spec fn vocabulary(home: Seq<char>) -> Map<Seq<char>, Seq<char>> {
    map!["HOME"@ => home]
}

/// An ASCII letter or an underscore.
pub open spec fn is_name_start(c: char) -> bool {
    ('A' <= c <= 'Z') || ('a' <= c <= 'z') || c == '_'
}

/// An ASCII letter, an ASCII digit or an underscore.
pub open spec fn is_name_char(c: char) -> bool {
    is_name_start(c) || ('0' <= c <= '9')
}

/// Names match `[A-Za-z_][A-Za-z0-9_]*`.
pub open spec fn well_formed(name: Seq<char>) -> bool {
    &&& name.len() > 0
    &&& is_name_start(name[0])
    &&& forall|i: int| 0 <= i < name.len() ==> is_name_char(#[trigger] name[i])
}

/// The longest prefix of `s` that consists of name characters.
pub open spec fn name_prefix(s: Seq<char>) -> Seq<char>
    decreases s.len(),
{
    if s.len() > 0 && is_name_char(s[0]) {
        seq![s[0]] + name_prefix(s.drop_first())
    } else {
        seq![]
    }
}

/// The prefix of `s` that ends before the first `c`, or all of `s` where it has none.
pub open spec fn until(s: Seq<char>, c: char) -> Seq<char>
    decreases s.len(),
{
    if s.len() > 0 && s[0] != c {
        seq![s[0]] + until(s.drop_first(), c)
    } else {
        seq![]
    }
}

/// What can be wrong with a value.
pub enum Fault {
    /// The value starts with `~`.
    Tilde,
    /// A `${` has no `}` after it.
    Unterminated,
    /// The text between `${` and `}` is not a name.
    Malformed(Seq<char>),
    /// The name between `${` and `}` is not in the vocabulary.
    Unknown(Seq<char>),
    /// A `$` has no `{` after it, but these name characters (perhaps none).
    Bare(Seq<char>),
}

/// What the reference `${name}` stands for.
pub open spec fn variable(vars: Map<Seq<char>, Seq<char>>, name: Seq<char>) -> Result<
    Seq<char>,
    Fault,
> {
    if !well_formed(name) {
        Err(Fault::Malformed(name))
    } else if vars.dom().contains(name) {
        Ok(vars[name])
    } else {
        Err(Fault::Unknown(name))
    }
}

/// `text` put in front of what came out well; a fault stays as it is.
pub open spec fn prefixed(text: Seq<char>, rest: Result<Seq<char>, Fault>) -> Result<
    Seq<char>,
    Fault,
> {
    match rest {
        Ok(s) => Ok(text + s),
        Err(fault) => Err(fault),
    }
}

/// The text `s` with its references replaced from left to right, or its first fault.
///
/// What a reference is replaced by is not read again.
pub open spec fn substituted(vars: Map<Seq<char>, Seq<char>>, s: Seq<char>) -> Result<
    Seq<char>,
    Fault,
>
    decreases s.len(),
{
    if s.len() == 0 {
        Ok(seq![])
    } else if s[0] != '$' {
        prefixed(seq![s[0]], substituted(vars, s.drop_first()))
    } else if s.len() == 1 || s[1] != '{' {
        Err(Fault::Bare(name_prefix(s.drop_first())))
    } else if !s.skip(2).contains('}') {
        Err(Fault::Unterminated)
    } else {
        proof {
            lemma_until(s.skip(2), '}');
        }
        let name = until(s.skip(2), '}');
        match variable(vars, name) {
            Ok(replacement) => prefixed(
                replacement,
                substituted(vars, s.skip(name.len() as int + 3)),
            ),
            Err(fault) => Err(fault),
        }
    }
}

/// What a value expands to, or the fault for which it is refused.
pub open spec fn expansion(vars: Map<Seq<char>, Seq<char>>, value: Seq<char>) -> Result<
    Seq<char>,
    Fault,
> {
    if value.len() > 0 && value[0] == '~' {
        Err(Fault::Tilde)
    } else {
        substituted(vars, value)
    }
}

/// `until` stops at the first occurrence.
pub proof fn lemma_until(s: Seq<char>, c: char)
    ensures
        until(s, c).len() <= s.len(),
        until(s, c) == s.take(until(s, c).len() as int),
        !until(s, c).contains(c),
        s.contains(c) ==> until(s, c).len() < s.len() && s[until(s, c).len() as int] == c,
        !s.contains(c) ==> until(s, c) == s,
    decreases s.len(),
{
    if s.len() > 0 && s[0] != c {
        let tail = s.drop_first();
        lemma_until(tail, c);
        let u = until(tail, c);
        assert(until(s, c) =~= seq![s[0]] + u);
        assert(s.take(u.len() as int + 1) =~= seq![s[0]] + tail.take(u.len() as int));
        if until(s, c).contains(c) {
            let k = choose|k: int| 0 <= k < until(s, c).len() && until(s, c)[k] == c;
            assert(u[k - 1] == c);
        }
        if s.contains(c) {
            let k = choose|k: int| 0 <= k < s.len() && s[k] == c;
            assert(tail[k - 1] == c);
        } else {
            if tail.contains(c) {
                let k = choose|k: int| 0 <= k < tail.len() && tail[k] == c;
                assert(s[k + 1] == c);
            }
            assert(seq![s[0]] + tail =~= s);
        }
    } else if s.len() > 0 {
        assert(s.take(0) =~= seq![]);
    } else {
        assert(s =~= seq![]);
    }
}

/// A prefix without `c` that is followed by `c` is what `until` gives.
pub proof fn lemma_until_unique(before: Seq<char>, c: char, after: Seq<char>)
    requires
        !before.contains(c),
    ensures
        until(before + seq![c] + after, c) == before,
    decreases before.len(),
{
    let s = before + seq![c] + after;
    if before.len() == 0 {
        assert(s[0] == c);
        assert(before =~= seq![]);
    } else {
        let tail = before.drop_first();
        assert(before.contains(before[0]));
        assert(s.drop_first() =~= tail + seq![c] + after);
        assert forall|x: char| tail.contains(x) implies before.contains(x) by {
            let k = choose|k: int| 0 <= k < tail.len() && tail[k] == x;
            assert(before[k + 1] == x);
        }
        lemma_until_unique(tail, c, after);
        assert(seq![before[0]] + tail =~= before);
    }
}

/// Text without `$` passes through unchanged.
pub proof fn lemma_literal_prefix(
    vars: Map<Seq<char>, Seq<char>>,
    literal: Seq<char>,
    rest: Seq<char>,
)
    requires
        !literal.contains('$'),
    ensures
        substituted(vars, literal + rest) == prefixed(literal, substituted(vars, rest)),
    decreases literal.len(),
{
    if literal.len() == 0 {
        assert(literal + rest =~= rest);
        if let Ok(s) = substituted(vars, rest) {
            assert(literal + s =~= s);
        }
    } else {
        let tail = literal.drop_first();
        assert(literal.contains(literal[0]));
        assert forall|x: char| tail.contains(x) implies literal.contains(x) by {
            let k = choose|k: int| 0 <= k < tail.len() && tail[k] == x;
            assert(literal[k + 1] == x);
        }
        lemma_literal_prefix(vars, tail, rest);
        assert((literal + rest).drop_first() =~= tail + rest);
        if let Ok(s) = substituted(vars, rest) {
            assert(seq![literal[0]] + (tail + s) =~= literal + s);
        }
    }
}

/// Text without `$` is left as it is.
pub proof fn lemma_literal(vars: Map<Seq<char>, Seq<char>>, text: Seq<char>)
    requires
        !text.contains('$'),
    ensures
        substituted(vars, text) == Ok::<Seq<char>, Fault>(text),
{
    lemma_literal_prefix(vars, text, seq![]);
    assert(text + Seq::<char>::empty() =~= text);
}

/// A reference in front gives what it stands for.
pub proof fn lemma_reference_prefix(
    vars: Map<Seq<char>, Seq<char>>,
    name: Seq<char>,
    rest: Seq<char>,
)
    requires
        !name.contains('}'),
    ensures
        substituted(vars, seq!['$', '{'] + name + seq!['}'] + rest) == match variable(vars, name) {
            Ok(replacement) => prefixed(replacement, substituted(vars, rest)),
            Err(fault) => Err(fault),
        },
{
    let s = seq!['$', '{'] + name + seq!['}'] + rest;
    assert(s.skip(2) =~= name + seq!['}'] + rest);
    assert(s.skip(2)[name.len() as int] == '}');
    lemma_until_unique(name, '}', rest);
    assert(s.skip(name.len() as int + 3) =~= rest);
}

/// A prefix of name characters that does not go on is what `name_prefix` gives.
pub proof fn lemma_name_prefix(s: Seq<char>, n: int)
    requires
        0 <= n <= s.len(),
        forall|i: int| 0 <= i < n ==> is_name_char(#[trigger] s[i]),
        n < s.len() ==> !is_name_char(s[n]),
    ensures
        name_prefix(s) == s.take(n),
    decreases n,
{
    if n == 0 {
        assert(s.take(0) =~= seq![]);
    } else {
        let tail = s.drop_first();
        assert forall|i: int| 0 <= i < n - 1 implies is_name_char(#[trigger] tail[i]) by {
            assert(tail[i] == s[i + 1]);
        }
        lemma_name_prefix(tail, n - 1);
        assert(is_name_char(s[0]));
        assert(s.take(n) =~= seq![s[0]] + tail.take(n - 1));
    }
}

} // verus!
