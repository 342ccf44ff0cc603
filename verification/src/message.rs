//! The messages that refused values are answered with.
//!
//! Each function takes the refused value already quoted.

use crate::grammar;
use crate::grammar::Fault;
use crate::grammar::VARS;
use crate::text;
use crate::text::eq_ignore_ascii_case;
use vstd::prelude::*;

verus! {

/// The reference `${name}`.
pub open spec fn reference(name: Seq<char>) -> Seq<char> {
    "${"@ + name + "}"@
}

/// A hint at the first variable of `names` that `name` misspells in letter case alone.
pub open spec fn suggestion(names: Seq<Seq<char>>, name: Seq<char>) -> Seq<char>
    decreases names.len(),
{
    if names.len() == 0 {
        seq![]
    } else if text::same_but_for_ascii_case(names[0], name) {
        "; did you mean "@ + reference(names[0]) + "?"@
    } else {
        suggestion(names.drop_first(), name)
    }
}

/// The references to the variables of `names`, separated by commas.
pub open spec fn listing(names: Seq<Seq<char>>) -> Seq<char>
    decreases names.len(),
{
    if names.len() == 0 {
        seq![]
    } else if names.len() == 1 {
        reference(names[0])
    } else {
        listing(names.drop_last()) + ", "@ + reference(names.last())
    }
}

/// The message for `fault`, about the value that `quoted` quotes.
pub open spec fn fault_message(fault: Fault, quoted: Seq<char>) -> Seq<char> {
    match fault {
        Fault::Tilde => quoted + ": tilde is not expanded in profiles; write ${HOME} instead"@,
        Fault::Unterminated => quoted + ": unterminated ${"@,
        Fault::Malformed(name) => quoted + ": malformed variable name "@ + reference(name)
            + "; names match [A-Za-z_][A-Za-z0-9_]*"@,
        Fault::Unknown(name) => quoted + ": unknown variable "@ + reference(name) + suggestion(
            grammar::var_names(),
            name,
        ) + "; supported: "@ + listing(grammar::var_names()),
        Fault::Bare(name) => if name.len() == 0 {
            quoted
                + ": bare $ is not allowed; a literal $ cannot appear in a profile path"@
        } else {
            quoted + ": bare $ is not a variable; write "@ + reference(name) + " for a variable"@
        },
    }
}

/// Appends the reference `${name}`.
fn push_reference(out: &mut String, name: &str)
    ensures
        final(out)@ == old(out)@ + reference(name@),
{
    out.append("${");
    out.append(name);
    out.append("}");
    assert(out@ =~= old(out)@ + reference(name@));
}

/// The message for a value that starts with `~`.
pub fn tilde(quoted: &str) -> (msg: String)
    ensures
        msg@ == fault_message(Fault::Tilde, quoted@),
{
    let mut msg = quoted.to_owned();
    msg.append(": tilde is not expanded in profiles; write ${HOME} instead");
    msg
}

/// The message for a `${` without a `}` after it.
pub fn unterminated(quoted: &str) -> (msg: String)
    ensures
        msg@ == fault_message(Fault::Unterminated, quoted@),
{
    let mut msg = quoted.to_owned();
    msg.append(": unterminated ${");
    msg
}

/// The message for a `${name}` whose name is not well formed.
pub fn malformed_name(quoted: &str, name: &str) -> (msg: String)
    ensures
        msg@ == fault_message(Fault::Malformed(name@), quoted@),
{
    let mut msg = quoted.to_owned();
    msg.append(": malformed variable name ");
    push_reference(&mut msg, name);
    msg.append("; names match [A-Za-z_][A-Za-z0-9_]*");
    msg
}

/// The message for a `$` that is followed by `name` in place of a `{`.
pub fn bare_dollar(quoted: &str, name: &str) -> (msg: String)
    ensures
        msg@ == fault_message(Fault::Bare(name@), quoted@),
{
    let mut msg = quoted.to_owned();
    if name.is_empty() {
        msg.append(": bare $ is not allowed; a literal $ cannot appear in a profile path");
    } else {
        msg.append(": bare $ is not a variable; write ");
        push_reference(&mut msg, name);
        msg.append(" for a variable");
    }
    msg
}

/// The message for a `${name}` whose name is not in the vocabulary.
pub fn unknown_variable(quoted: &str, name: &str) -> (msg: String)
    ensures
        msg@ == fault_message(Fault::Unknown(name@), quoted@),
{
    let mut msg = quoted.to_owned();
    msg.append(": unknown variable ");
    push_reference(&mut msg, name);
    push_suggestion(&mut msg, name);
    msg.append("; supported: ");
    push_listing(&mut msg);
    msg
}

/// Appends the hint at the variable that `name` misspells in letter case alone, if there is one.
fn push_suggestion(out: &mut String, name: &str)
    ensures
        final(out)@ == old(out)@ + suggestion(grammar::var_names(), name@),
{
    let vars = VARS;
    let ghost names = grammar::var_names();
    let mut i: usize = 0;
    assert(names.skip(0) =~= names);
    while i < vars.len()
        invariant
            i <= vars@.len(),
            vars == VARS,
            names == grammar::var_names(),
            out@ == old(out)@,
            suggestion(names, name@) == suggestion(names.skip(i as int), name@),
        decreases vars@.len() - i,
    {
        assert(names.skip(i as int)[0] == vars@[i as int]@);
        if eq_ignore_ascii_case(vars[i], name) {
            out.append("; did you mean ");
            push_reference(out, vars[i]);
            out.append("?");
            assert(out@ =~= old(out)@ + suggestion(names, name@));
            return;
        }
        assert(names.skip(i as int).drop_first() =~= names.skip(i + 1));
        i += 1;
    }
    assert(out@ =~= old(out)@ + suggestion(names, name@));
}

/// Appends the list of the supported variables.
fn push_listing(out: &mut String)
    ensures
        final(out)@ == old(out)@ + listing(grammar::var_names()),
{
    let vars = VARS;
    let ghost names = grammar::var_names();
    let mut i: usize = 0;
    while i < vars.len()
        invariant
            i <= vars@.len(),
            vars == VARS,
            names == grammar::var_names(),
            out@ == old(out)@ + listing(names.take(i as int)),
        decreases vars@.len() - i,
    {
        if i > 0 {
            out.append(", ");
        }
        push_reference(out, vars[i]);
        assert(names.take(i + 1).drop_last() =~= names.take(i as int));
        assert(out@ =~= old(out)@ + listing(names.take(i + 1)));
        i += 1;
    }
    assert(names.take(i as int) =~= names);
}

} // verus!
