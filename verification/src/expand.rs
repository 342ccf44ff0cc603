//! Expansion of `${HOME}` in profile path values.
//!
//! Every unrecognised form is an error rather than a literal, so adding a variable later cannot
//! silently reinterpret a grant written today.

use crate::error::invalid;
use crate::error::SandlockError;
use crate::grammar;
use crate::message;
use crate::quote;
use crate::quote::debug_quoted;
use crate::text::same_text;
use crate::text::split_at_char;
use crate::text::strip_char;
use vstd::prelude::*;

verus! {

/// Whether `c` can start a name.
fn starts_name(c: char) -> (b: bool)
    ensures
        b == grammar::is_name_start(c),
{
    ('A' <= c && c <= 'Z') || ('a' <= c && c <= 'z') || c == '_'
}

/// Whether `c` can stand in a name.
fn continues_name(c: char) -> (b: bool)
    ensures
        b == grammar::is_name_char(c),
{
    starts_name(c) || ('0' <= c && c <= '9')
}

/// Whether `name` is a variable name.
pub fn is_well_formed(name: &str) -> (b: bool)
    ensures
        b == grammar::well_formed(name@),
{
    let mut first = true;
    for c in it: name.chars()
        invariant
            it.seq() == name@,
            first == (it.index() == 0),
            it.index() > 0 ==> grammar::is_name_start(name@[0]),
            forall|i: int|
                0 <= i < it.index() ==> grammar::is_name_char(#[trigger] name@[i]),
    {
        assert(c == name@[it.index() as int]);
        if first && !starts_name(c) {
            return false;
        }
        if !continues_name(c) {
            return false;
        }
        first = false;
    }
    !first
}

/// The name characters that `s` starts with.
fn leading_name(s: &str) -> (name: &str)
    ensures
        name@ == grammar::name_prefix(s@),
{
    let mut n: usize = 0;
    let len = s.unicode_len();
    for c in it: s.chars()
        invariant
            it.seq() == s@,
            n == it.index(),
            len == s@.len(),
            forall|i: int| 0 <= i < n ==> grammar::is_name_char(#[trigger] s@[i]),
    {
        assert(c == s@[n as int]);
        if !continues_name(c) {
            proof {
                grammar::lemma_name_prefix(s@, n as int);
            }
            return s.substring_char(0, n);
        }
        n += 1;
    }
    proof {
        grammar::lemma_name_prefix(s@, n as int);
    }
    s
}

/// The message for a `$` in `value` that no `{` follows; `after` is what follows it.
pub fn bare_dollar_message(value: &str, after: &str) -> (msg: String)
    ensures
        msg@ == message::fault_message(
            grammar::Fault::Bare(grammar::name_prefix(after@)),
            quote::debug_text(value@),
        ),
{
    message::bare_dollar(debug_quoted(value).as_str(), leading_name(after))
}

/// What the reference `${name}` in `value` stands for.
pub fn lookup<'a>(name: &str, home: &'a str, value: &str) -> (found: Result<
    &'a str,
    SandlockError,
>)
    ensures
        match grammar::variable(grammar::vocabulary(home@), name@) {
            Ok(text) => found matches Ok(t) && t@ == text,
            Err(fault) => found matches Err(SandlockError::Sandbox(crate::error::SandboxError::Invalid(msg)))
                && msg@ == message::fault_message(fault, quote::debug_text(value@)),
        },
{
    if !is_well_formed(name) {
        return Err(invalid(message::malformed_name(debug_quoted(value).as_str(), name)));
    }
    if same_text(name, "HOME") {
        return Ok(home);
    }
    Err(invalid(message::unknown_variable(debug_quoted(value).as_str(), name)))
}

/// Expands `${HOME}` in one profile path value.
pub fn expand(value: &str, home: &str) -> (expanded: Result<String, SandlockError>)
    ensures
        match grammar::expansion(grammar::vocabulary(home@), value@) {
            Ok(text) => expanded matches Ok(s) && s@ == text,
            Err(fault) => expanded matches Err(SandlockError::Sandbox(crate::error::SandboxError::Invalid(msg)))
                && msg@ == message::fault_message(fault, quote::debug_text(value@)),
        },
{
    if strip_char(value, '~').is_some() {
        return Err(invalid(message::tilde(debug_quoted(value).as_str())));
    }
    let ghost vars = grammar::vocabulary(home@);
    let mut out = String::new();
    let mut rest = value;
    proof {
        lemma_nothing_prefixed(grammar::substituted(vars, rest@));
    }
    loop
        invariant
            vars == grammar::vocabulary(home@),
            grammar::expansion(vars, value@) == grammar::prefixed(
                out@,
                grammar::substituted(vars, rest@),
            ),
        decreases rest@.len(),
    {
        let ghost done = out@;
        match split_at_char(rest, '$') {
            None => {
                proof {
                    grammar::lemma_literal(vars, rest@);
                }
                out.append(rest);
                return Ok(out);
            },
            Some((literal, after)) => {
                proof {
                    grammar::lemma_literal_prefix(vars, literal@, seq!['$'] + after@);
                    assert(rest@ =~= literal@ + (seq!['$'] + after@));
                    assert((seq!['$'] + after@).drop_first() =~= after@);
                }
                out.append(literal);
                let Some(tail) = strip_char(after, '{') else {
                    return Err(invalid(bare_dollar_message(value, after)));
                };
                assert((seq!['$'] + after@).skip(2) =~= tail@);
                let Some((name, next)) = split_at_char(tail, '}') else {
                    return Err(invalid(message::unterminated(debug_quoted(value).as_str())));
                };
                proof {
                    grammar::lemma_reference_prefix(vars, name@, next@);
                    assert(seq!['$'] + after@ =~= seq!['$', '{'] + name@ + seq!['}'] + next@);
                }
                match lookup(name, home, value) {
                    Ok(replacement) => {
                        out.append(replacement);
                        rest = next;
                        proof {
                            if let Ok(s) = grammar::substituted(vars, next@) {
                                assert(done + (literal@ + (replacement@ + s)) =~= out@ + s);
                            }
                        }
                    },
                    Err(e) => {
                        return Err(e);
                    },
                }
            },
        }
    }
}

/// Nothing in front changes nothing.
proof fn lemma_nothing_prefixed(rest: Result<Seq<char>, grammar::Fault>)
    ensures
        grammar::prefixed(seq![], rest) == rest,
{
    if let Ok(s) = rest {
        assert(Seq::<char>::empty() + s =~= s);
    }
}

} // verus!
