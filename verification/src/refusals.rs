//! Which values are refused, and what they are answered.
//!
//! The laws speak of a value as text that is accepted, followed by what is wrong, followed by
//! anything: the first fault decides.

use crate::error::SandboxError;
use crate::error::SandlockError;
use crate::grammar;
use crate::grammar::Fault;
use crate::laws;
use crate::message;
use crate::text;
use vstd::prelude::*;

verus! {

/// The vocabulary is `HOME` alone.
proof fn lemma_only_home()
    ensures
        grammar::var_names().len() == 1,
        grammar::var_names()[0] == "HOME"@,
        grammar::var_names().drop_first() =~= seq![],
        message::reference("HOME"@) == "${HOME}"@,
        message::listing(grammar::var_names()) == "${HOME}"@,
{
    reveal_strlit("${");
    reveal_strlit("HOME");
    reveal_strlit("}");
    reveal_strlit("${HOME}");
    assert(message::reference("HOME"@) =~= "${HOME}"@);
}

/// Letter case aside, only four letters spell `HOME`.
proof fn lemma_spells_home(name: Seq<char>)
    ensures
        text::same_but_for_ascii_case("HOME"@, name) <==> {
            &&& name.len() == 4
            &&& name[0] == 'H' || name[0] == 'h'
            &&& name[1] == 'O' || name[1] == 'o'
            &&& name[2] == 'M' || name[2] == 'm'
            &&& name[3] == 'E' || name[3] == 'e'
        },
{
    laws::lemma_home_reference();
    let home = "HOME"@;
    if text::same_but_for_ascii_case(home, name) {
        assert(text::ascii_lower(home[0]) == text::ascii_lower(name[0]));
        assert(text::ascii_lower(home[1]) == text::ascii_lower(name[1]));
        assert(text::ascii_lower(home[2]) == text::ascii_lower(name[2]));
        assert(text::ascii_lower(home[3]) == text::ascii_lower(name[3]));
    }
}

/// The message for a leading `~`.
pub proof fn message_for_a_tilde(quoted: Seq<char>)
    ensures
        message::fault_message(Fault::Tilde, quoted) == quoted
            + ": tilde is not expanded in profiles; write ${HOME} instead"@,
{
}

/// The message for a `${` that is not closed.
pub proof fn message_for_an_unterminated_reference(quoted: Seq<char>)
    ensures
        message::fault_message(Fault::Unterminated, quoted) == quoted + ": unterminated ${"@,
{
}

/// The message for a text in braces that is no name repeats the text.
pub proof fn message_for_a_malformed_name(name: Seq<char>, quoted: Seq<char>)
    ensures
        message::fault_message(Fault::Malformed(name), quoted) == quoted
            + ": malformed variable name "@ + ("${"@ + name + "}"@)
            + "; names match [A-Za-z_][A-Za-z0-9_]*"@,
{
}

/// The message for an unknown variable repeats its name, hints at `${HOME}` if the name spells it
/// but for letter case, and lists `${HOME}` as what is supported.
pub proof fn message_for_an_unknown_variable(name: Seq<char>, quoted: Seq<char>)
    ensures
        message::fault_message(Fault::Unknown(name), quoted) == quoted + ": unknown variable "@ + (
        "${"@ + name + "}"@) + (if {
            &&& name.len() == 4
            &&& name[0] == 'H' || name[0] == 'h'
            &&& name[1] == 'O' || name[1] == 'o'
            &&& name[2] == 'M' || name[2] == 'm'
            &&& name[3] == 'E' || name[3] == 'e'
        } {
            "; did you mean "@ + "${HOME}"@ + "?"@
        } else {
            seq![]
        }) + "; supported: "@ + "${HOME}"@,
{
    lemma_only_home();
    lemma_spells_home(name);
    reveal_with_fuel(message::suggestion, 2);
}

/// The message for a bare `$` offers the reference that the name after it may have meant, and says
/// that a `$` cannot be literal where no name follows.
pub proof fn message_for_a_bare_dollar(name: Seq<char>, quoted: Seq<char>)
    ensures
        message::fault_message(Fault::Bare(name), quoted) == if name.len() == 0 {
            quoted + ": bare $ is not allowed; a literal $ cannot appear in a profile path"@
        } else {
            quoted + ": bare $ is not a variable; write "@ + ("${"@ + name + "}"@)
                + " for a variable"@
        },
{
}

/// The text of an error is the message that it was made with.
pub proof fn errors_carry_their_message(msg: String)
    ensures
        SandlockError::Sandbox(SandboxError::Invalid(msg)).text() == msg@,
{
}

/// A value with a `~` in front is refused for it, whatever comes after.
pub proof fn a_leading_tilde_is_refused(
    vars: Map<Seq<char>, Seq<char>>,
    rest: Seq<char>,
)
    ensures
        grammar::expansion(vars, seq!['~'] + rest) == Err::<Seq<char>, Fault>(Fault::Tilde),
{
}

/// A `${` without a `}` anywhere after it is refused, whatever accepted text stands before it.
pub proof fn an_unclosed_reference_is_refused(
    before: Seq<char>,
    rest: Seq<char>,
    vars: Map<Seq<char>, Seq<char>>,
)
    requires
        grammar::expansion(vars, before) is Ok,
        !rest.contains('}'),
    ensures
        grammar::expansion(vars, before + (seq!['$', '{'] + rest)) == Err::<Seq<char>, Fault>(
            Fault::Unterminated,
        ),
{
    let s = seq!['$', '{'] + rest;
    laws::lemma_concatenation(vars, before, s);
    assert(s.skip(2) =~= rest);
    lemma_no_new_tilde(before, s);
}

/// Text that is not a tilde in front keeps the value from starting with one.
proof fn lemma_no_new_tilde(before: Seq<char>, s: Seq<char>)
    requires
        before.len() > 0 ==> before[0] != '~',
        s.len() > 0,
        s[0] == '$',
    ensures
        (before + s)[0] != '~',
{
    if before.len() > 0 {
        assert((before + s)[0] == before[0]);
    } else {
        assert((before + s)[0] == s[0]);
    }
}

/// A reference gives an error or what it stands for, whatever accepted text stands before it.
proof fn lemma_reference(
    before: Seq<char>,
    name: Seq<char>,
    rest: Seq<char>,
    vars: Map<Seq<char>, Seq<char>>,
)
    requires
        grammar::expansion(vars, before) is Ok,
        !name.contains('}'),
        grammar::variable(vars, name) is Err,
    ensures
        grammar::expansion(vars, before + (seq!['$', '{'] + name + seq!['}'] + rest))
            == grammar::variable(vars, name),
{
    let s = seq!['$', '{'] + name + seq!['}'] + rest;
    laws::lemma_concatenation(vars, before, s);
    grammar::lemma_reference_prefix(vars, name, rest);
    lemma_no_new_tilde(before, s);
}

/// What is empty, starts with something other than a letter or an underscore, or holds something
/// other than letters, digits and underscores, a `}` included, is looked up in vain: it is no name,
/// whatever the vocabulary.
pub proof fn what_is_no_name_is_malformed(name: Seq<char>, vars: Map<Seq<char>, Seq<char>>)
    requires
        ({
            ||| name.len() == 0
            ||| !(('A' <= name[0] <= 'Z') || ('a' <= name[0] <= 'z') || name[0] == '_')
            ||| exists|i: int|
                0 <= i < name.len() && !(('A' <= #[trigger] name[i] <= 'Z') || ('a' <= name[i]
                    <= 'z') || ('0' <= name[i] <= '9') || name[i] == '_')
        }),
    ensures
        grammar::variable(vars, name) == Err::<Seq<char>, Fault>(Fault::Malformed(name)),
{
    assert(!grammar::well_formed(name)) by {
        if grammar::well_formed(name) {
            assert(forall|i: int| 0 <= i < name.len() ==> grammar::is_name_char(#[trigger] name[i]));
        }
    }
}

/// Text in braces that is empty, starts with something other than a letter or an underscore, or
/// holds something other than letters, digits and underscores is refused as no name, whatever the
/// vocabulary and whatever accepted text stands before it.
pub proof fn a_malformed_name_is_refused(
    before: Seq<char>,
    name: Seq<char>,
    rest: Seq<char>,
    vars: Map<Seq<char>, Seq<char>>,
)
    requires
        grammar::expansion(vars, before) is Ok,
        !name.contains('}'),
        ({
            ||| name.len() == 0
            ||| !(('A' <= name[0] <= 'Z') || ('a' <= name[0] <= 'z') || name[0] == '_')
            ||| exists|i: int|
                0 <= i < name.len() && !(('A' <= #[trigger] name[i] <= 'Z') || ('a' <= name[i]
                    <= 'z') || ('0' <= name[i] <= '9') || name[i] == '_')
        }),
    ensures
        grammar::expansion(vars, before + (seq!['$', '{'] + name + seq!['}'] + rest)) == Err::<
            Seq<char>,
            Fault,
        >(Fault::Malformed(name)),
{
    what_is_no_name_is_malformed(name, vars);
    lemma_reference(before, name, rest, vars);
}

/// A letter or underscore followed by letters, digits and underscores is a name: one other than
/// `HOME` is refused as unknown, whatever accepted text stands before it.
pub proof fn an_unknown_variable_is_refused(
    before: Seq<char>,
    name: Seq<char>,
    rest: Seq<char>,
    home: Seq<char>,
)
    requires
        grammar::expansion(grammar::vocabulary(home), before) is Ok,
        name != "HOME"@,
        name.len() > 0,
        ('A' <= name[0] <= 'Z') || ('a' <= name[0] <= 'z') || name[0] == '_',
        forall|i: int|
            0 <= i < name.len() ==> ('A' <= #[trigger] name[i] <= 'Z') || ('a' <= name[i] <= 'z')
                || ('0' <= name[i] <= '9') || name[i] == '_',
    ensures
        grammar::variable(grammar::vocabulary(home), name) == Err::<Seq<char>, Fault>(
            Fault::Unknown(name),
        ),
        grammar::expansion(
            grammar::vocabulary(home),
            before + (seq!['$', '{'] + name + seq!['}'] + rest),
        ) == Err::<Seq<char>, Fault>(Fault::Unknown(name)),
{
    assert(!name.contains('}'));
    lemma_reference(before, name, rest, grammar::vocabulary(home));
}

/// The variable `HOME` stands for the home directory, character for character.
pub proof fn home_stands_for_the_home_directory(home: Seq<char>)
    ensures
        grammar::variable(grammar::vocabulary(home), "HOME"@) == Ok::<Seq<char>, Fault>(home),
{
    laws::lemma_home_reference();
}

/// The characters after a `$` that a name may consist of are the longest run of letters, digits and
/// underscores there.
pub proof fn name_after_a_dollar_is_the_longest(name: Seq<char>, rest: Seq<char>)
    requires
        forall|i: int|
            0 <= i < name.len() ==> ('A' <= #[trigger] name[i] <= 'Z') || ('a' <= name[i] <= 'z')
                || ('0' <= name[i] <= '9') || name[i] == '_',
        rest.len() > 0 ==> !(('A' <= rest[0] <= 'Z') || ('a' <= rest[0] <= 'z') || ('0' <= rest[0]
            <= '9') || rest[0] == '_'),
    ensures
        grammar::name_prefix(name + rest) == name,
{
    let s = name + rest;
    assert forall|i: int| 0 <= i < name.len() implies grammar::is_name_char(#[trigger] s[i]) by {
        assert(s[i] == name[i]);
    }
    grammar::lemma_name_prefix(s, name.len() as int);
    assert(s.take(name.len() as int) =~= name);
}

/// A `$` that no `{` follows is refused together with the name that follows it, if any, whatever
/// accepted text stands before it.
pub proof fn a_bare_dollar_is_refused(
    before: Seq<char>,
    name: Seq<char>,
    rest: Seq<char>,
    vars: Map<Seq<char>, Seq<char>>,
)
    requires
        grammar::expansion(vars, before) is Ok,
        forall|i: int|
            0 <= i < name.len() ==> ('A' <= #[trigger] name[i] <= 'Z') || ('a' <= name[i] <= 'z')
                || ('0' <= name[i] <= '9') || name[i] == '_',
        rest.len() > 0 ==> !(('A' <= rest[0] <= 'Z') || ('a' <= rest[0] <= 'z') || ('0' <= rest[0]
            <= '9') || rest[0] == '_'),
        name.len() == 0 && rest.len() > 0 ==> rest[0] != '{',
    ensures
        grammar::expansion(vars, before + (seq!['$'] + (name + rest))) == Err::<Seq<char>, Fault>(
            Fault::Bare(name),
        ),
{
    let s = seq!['$'] + (name + rest);
    laws::lemma_concatenation(vars, before, s);
    assert(s.drop_first() =~= name + rest);
    if s.len() > 1 {
        assert(s[1] == (name + rest)[0]);
    }
    name_after_a_dollar_is_the_longest(name, rest);
    lemma_no_new_tilde(before, s);
}

/// Names grow by letters, digits and underscores: nothing is no name, one character is a name
/// exactly if it is a letter or an underscore, and a name stays one exactly with a letter, a digit
/// or an underscore behind it.
pub proof fn names_grow_character_by_character(name: Seq<char>, c: char)
    ensures
        !grammar::well_formed(seq![]),
        grammar::well_formed(seq![c]) <==> ('A' <= c <= 'Z') || ('a' <= c <= 'z') || c == '_',
        name.len() > 0 ==> (grammar::well_formed(name.push(c)) <==> grammar::well_formed(name) && ((
        'A' <= c <= 'Z') || ('a' <= c <= 'z') || ('0' <= c <= '9') || c == '_')),
{
    if name.len() > 0 {
        let longer = name.push(c);
        assert(longer[0] == name[0]);
        assert(longer[name.len() as int] == c);
        if grammar::well_formed(longer) {
            assert forall|i: int| 0 <= i < name.len() implies grammar::is_name_char(
                #[trigger] name[i],
            ) by {
                assert(longer[i] == name[i]);
            }
        }
    }
}

/// Texts that are equal but for ASCII case have the same length, and in each place either the same
/// character or the two cases of one ASCII letter.
pub proof fn ascii_case_is_all_that_is_ignored(a: Seq<char>, b: Seq<char>)
    ensures
        text::same_but_for_ascii_case(a, b) <==> a.len() == b.len() && forall|i: int|
            0 <= i < a.len() ==> {
                ||| #[trigger] a[i] == b[i]
                ||| 'A' <= a[i] <= 'Z' && b[i] as u32 == a[i] as u32 + 32
                ||| 'A' <= b[i] <= 'Z' && a[i] as u32 == b[i] as u32 + 32
            },
{
    if text::same_but_for_ascii_case(a, b) {
        assert forall|i: int| 0 <= i < a.len() implies {
            ||| #[trigger] a[i] == b[i]
            ||| 'A' <= a[i] <= 'Z' && b[i] as u32 == a[i] as u32 + 32
            ||| 'A' <= b[i] <= 'Z' && a[i] as u32 == b[i] as u32 + 32
        } by {
            assert(text::ascii_lower(a[i]) == text::ascii_lower(b[i]));
        }
    }
}

} // verus!
