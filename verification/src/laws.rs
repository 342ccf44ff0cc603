//! What holds of expansion and of home directories as a whole.

use crate::grammar;
use crate::grammar::Fault;
use crate::home;
use vstd::prelude::*;

verus! {

/// A reference to the home directory starts at position `i` of `s`.
pub open spec fn opens_home(s: Seq<char>, i: int) -> bool {
    &&& 0 <= i <= s.len() - 7
    &&& s.subrange(i, i + 7) == "${HOME}"@
}

/// Whether a value starts with `~`.
pub open spec fn starts_with_tilde(s: Seq<char>) -> bool {
    s.len() > 0 && s[0] == '~'
}

/// The pieces of text in `parts`, with `separator` between every two of them.
pub open spec fn joined(parts: Seq<Seq<char>>, separator: Seq<char>) -> Seq<char>
    decreases parts.len(),
{
    if parts.len() == 0 {
        seq![]
    } else if parts.len() == 1 {
        parts[0]
    } else {
        parts[0] + separator + joined(parts.drop_first(), separator)
    }
}

/// No piece of text in `parts` holds a `$`.
pub open spec fn free_of_dollars(parts: Seq<Seq<char>>) -> bool {
    forall|i: int| 0 <= i < parts.len() ==> !(#[trigger] parts[i]).contains('$')
}

/// The reference to the home directory, character by character.
pub(crate) proof fn lemma_home_reference()
    ensures
        "HOME"@ =~= seq!['H', 'O', 'M', 'E'],
        "${HOME}"@ =~= seq!['$', '{', 'H', 'O', 'M', 'E', '}'],
        "${HOME}"@ == seq!['$', '{'] + "HOME"@ + seq!['}'],
        grammar::well_formed("HOME"@),
        !"HOME"@.contains('}'),
{
    reveal_strlit("HOME");
    reveal_strlit("${HOME}");
    assert("${HOME}"@ =~= seq!['$', '{'] + "HOME"@ + seq!['}']);
}

/// A `$` in front either opens a reference to the home directory or is a fault.
proof fn lemma_leading_dollar(home: Seq<char>, s: Seq<char>)
    requires
        s.len() > 0,
        s[0] == '$',
    ensures
        opens_home(s, 0) ==> grammar::substituted(grammar::vocabulary(home), s)
            == grammar::prefixed(
            home,
            grammar::substituted(grammar::vocabulary(home), s.skip(7)),
        ),
        !opens_home(s, 0) ==> grammar::substituted(grammar::vocabulary(home), s) is Err,
{
    lemma_home_reference();
    let vars = grammar::vocabulary(home);
    if opens_home(s, 0) {
        grammar::lemma_reference_prefix(vars, "HOME"@, s.skip(7));
        assert(s =~= s.subrange(0, 7) + s.skip(7));
    } else if grammar::substituted(vars, s) is Ok {
        let name = grammar::until(s.skip(2), '}');
        grammar::lemma_until(s.skip(2), '}');
        assert(name == "HOME"@);
        assert(s.subrange(2, 6) =~= s.skip(2).take(4));
        assert(s[6] == s.skip(2)[4]);
        assert(s.subrange(0, 7) =~= seq!['$', '{'] + s.subrange(2, 6) + seq!['}']);
    }
}

/// Every position of a tail is a position of the whole.
proof fn lemma_opens_home_shift(s: Seq<char>, n: int, i: int)
    requires
        0 <= n <= s.len(),
        0 <= i,
    ensures
        opens_home(s.skip(n), i) == opens_home(s, n + i),
{
    if i <= s.len() - n - 7 {
        assert(s.skip(n).subrange(i, i + 7) =~= s.subrange(n + i, n + i + 7));
    }
}

/// The text `s` has no faults exactly if every `$` in it opens a reference to the home directory.
proof fn lemma_faultless(s: Seq<char>, home: Seq<char>)
    ensures
        grammar::substituted(grammar::vocabulary(home), s) is Ok <==> forall|i: int|
            0 <= i < s.len() && s[i] == '$' ==> #[trigger] opens_home(s, i),
    decreases s.len(),
{
    let vars = grammar::vocabulary(home);
    if s.len() > 0 {
        let n: int = if s[0] == '$' { 7 } else { 1 };
        if s[0] == '$' {
            lemma_leading_dollar(home, s);
        } else {
            assert(s.drop_first() =~= s.skip(1));
        }
        if s[0] != '$' || opens_home(s, 0) {
            let tail = s.skip(n);
            lemma_faultless(tail, home);
            assert(grammar::substituted(vars, s) is Ok <==> grammar::substituted(vars, tail) is Ok);
            if grammar::substituted(vars, tail) is Ok {
                assert forall|i: int| 0 <= i < s.len() && s[i] == '$' implies #[trigger] opens_home(
                    s,
                    i,
                ) by {
                    if i >= n {
                        assert(tail[i - n] == '$');
                        assert(opens_home(tail, i - n));
                        lemma_opens_home_shift(s, n, i - n);
                    } else if i > 0 {
                        lemma_home_reference();
                        assert(s[i] == s.subrange(0, 7)[i]);
                    }
                }
            } else {
                let i = choose|i: int|
                    0 <= i < tail.len() && tail[i] == '$' && !#[trigger] opens_home(tail, i);
                lemma_opens_home_shift(s, n, i);
                assert(s[n + i] == '$' && !opens_home(s, n + i));
            }
        }
    }
}

/// A value is accepted exactly if it does not start with `~` and every `$` in it opens a reference
/// to the home directory; every other form is an error, never a literal.
pub proof fn accepted_iff_every_dollar_opens_home(value: Seq<char>, home: Seq<char>)
    ensures
        grammar::expansion(grammar::vocabulary(home), value) is Ok <==> !starts_with_tilde(value)
            && forall|i: int| 0 <= i < value.len() && value[i] == '$' ==> #[trigger] opens_home(
            value,
            i,
        ),
{
    lemma_faultless(value, home);
}

/// Text without faults is followed by whatever follows it.
pub(crate) proof fn lemma_concatenation(vars: Map<Seq<char>, Seq<char>>, first: Seq<char>, second: Seq<char>)
    requires
        grammar::substituted(vars, first) is Ok,
    ensures
        grammar::substituted(vars, first + second) == grammar::prefixed(
            grammar::substituted(vars, first)->Ok_0,
            grammar::substituted(vars, second),
        ),
    decreases first.len(),
{
    if first.len() == 0 {
        grammar::lemma_literal_prefix(vars, first, second);
    } else if first[0] != '$' {
        let tail = first.drop_first();
        lemma_concatenation(vars, tail, second);
        assert((first + second).drop_first() =~= tail + second);
        if let Ok(s) = grammar::substituted(vars, second) {
            let t = grammar::substituted(vars, tail)->Ok_0;
            assert(seq![first[0]] + (t + s) =~= (seq![first[0]] + t) + s);
        }
    } else {
        let name = grammar::until(first.skip(2), '}');
        grammar::lemma_until(first.skip(2), '}');
        let tail = first.skip(name.len() as int + 3);
        lemma_concatenation(vars, tail, second);
        assert(first =~= seq!['$', '{'] + name + seq!['}'] + tail) by {
            assert(first.skip(2) =~= first.skip(2).take(name.len() as int) + first.skip(2).skip(
                name.len() as int,
            ));
            assert(first.skip(2).skip(name.len() as int) =~= seq!['}'] + tail);
            assert(first =~= seq!['$', '{'] + first.skip(2));
        }
        grammar::lemma_reference_prefix(vars, name, tail + second);
        assert(first + second =~= seq!['$', '{'] + name + seq!['}'] + (tail + second));
        if let Ok(s) = grammar::substituted(vars, second) {
            let t = grammar::substituted(vars, tail)->Ok_0;
            let r = grammar::variable(vars, name)->Ok_0;
            assert(r + (t + s) =~= (r + t) + s);
        }
    }
}

/// Expansion works piece by piece: what an accepted, non-empty value expands to is followed by
/// what the text appended to it gives, which is also where the first fault then is.
pub proof fn expansion_of_concatenation(
    vars: Map<Seq<char>, Seq<char>>,
    first: Seq<char>,
    second: Seq<char>,
)
    requires
        first.len() > 0,
        grammar::expansion(vars, first) is Ok,
    ensures
        grammar::expansion(vars, first + second) == grammar::prefixed(
            grammar::expansion(vars, first)->Ok_0,
            grammar::substituted(vars, second),
        ),
        grammar::expansion(vars, second) matches Ok(text) ==> grammar::expansion(
            vars,
            first + second,
        ) == Ok::<Seq<char>, Fault>(grammar::expansion(vars, first)->Ok_0 + text),
        !starts_with_tilde(second) && grammar::expansion(vars, second) is Err
            ==> grammar::expansion(vars, first + second) == grammar::expansion(vars, second),
{
    lemma_concatenation(vars, first, second);
    assert((first + second)[0] == first[0]);
}

/// A value without `$` that does not start with `~` expands to itself, whatever the vocabulary.
pub proof fn literal_values_are_unchanged(vars: Map<Seq<char>, Seq<char>>, value: Seq<char>)
    requires
        !value.contains('$'),
        value.len() > 0 ==> value[0] != '~',
    ensures
        grammar::expansion(vars, value) == Ok::<Seq<char>, Fault>(value),
{
    grammar::lemma_literal(vars, value);
}

/// Joined text without `$` expands to the same text joined by the home directory.
proof fn lemma_joined(parts: Seq<Seq<char>>, home: Seq<char>)
    requires
        parts.len() > 0,
        free_of_dollars(parts),
    ensures
        grammar::substituted(grammar::vocabulary(home), joined(parts, "${HOME}"@)) == Ok::<
            Seq<char>,
            Fault,
        >(joined(parts, home)),
    decreases parts.len(),
{
    let vars = grammar::vocabulary(home);
    assert(!parts[0].contains('$'));
    if parts.len() == 1 {
        grammar::lemma_literal(vars, parts[0]);
    } else {
        lemma_home_reference();
        let others = parts.drop_first();
        assert forall|i: int| 0 <= i < others.len() implies !(#[trigger] others[i]).contains(
            '$',
        ) by {
            assert(others[i] == parts[i + 1]);
        }
        lemma_joined(others, home);
        let rest = joined(others, "${HOME}"@);
        grammar::lemma_literal_prefix(vars, parts[0], "${HOME}"@ + rest);
        grammar::lemma_reference_prefix(vars, "HOME"@, rest);
        assert(parts[0] + "${HOME}"@ + rest =~= parts[0] + ("${HOME}"@ + rest));
        assert(parts[0] + home + joined(others, home) =~= parts[0] + (home + joined(others, home)));
    }
}

/// Text that has no faults is pieces without `$` joined by references to the home directory.
proof fn lemma_split(s: Seq<char>, home: Seq<char>) -> (parts: Seq<Seq<char>>)
    requires
        grammar::substituted(grammar::vocabulary(home), s) is Ok,
    ensures
        parts.len() > 0,
        free_of_dollars(parts),
        s == joined(parts, "${HOME}"@),
    decreases s.len(),
{
    if s.len() == 0 {
        let parts = seq![Seq::<char>::empty()];
        assert(s =~= joined(parts, "${HOME}"@));
        parts
    } else if s[0] != '$' {
        let others = lemma_split(s.drop_first(), home);
        let head = seq![s[0]] + others[0];
        let parts = others.update(0, head);
        assert forall|i: int| 0 <= i < parts.len() implies !(#[trigger] parts[i]).contains('$') by {
            assert(!others[i].contains('$'));
            if i == 0 && head.contains('$') {
                let k = choose|k: int| 0 <= k < head.len() && head[k] == '$';
                assert(others[0][k - 1] == '$');
            }
        }
        assert(parts.drop_first() =~= others.drop_first());
        assert(s =~= seq![s[0]] + s.drop_first());
        assert(s =~= joined(parts, "${HOME}"@));
        parts
    } else {
        lemma_leading_dollar(home, s);
        let others = lemma_split(s.skip(7), home);
        let parts = seq![Seq::<char>::empty()] + others;
        assert(parts.drop_first() =~= others);
        assert(s =~= s.subrange(0, 7) + s.skip(7));
        assert(s =~= joined(parts, "${HOME}"@));
        assert forall|i: int| 0 <= i < parts.len() implies !(#[trigger] parts[i]).contains('$') by {
            if i > 0 {
                assert(parts[i] == others[i - 1]);
            }
        }
        parts
    }
}

/// Expansion puts the home directory in the place of every reference to it and changes nothing
/// else: pieces of text joined by references expand to the same pieces joined by the directory.
pub proof fn references_become_the_home_directory(parts: Seq<Seq<char>>, home: Seq<char>)
    requires
        parts.len() > 0,
        free_of_dollars(parts),
        !starts_with_tilde(joined(parts, "${HOME}"@)),
    ensures
        grammar::expansion(grammar::vocabulary(home), joined(parts, "${HOME}"@)) == Ok::<
            Seq<char>,
            Fault,
        >(joined(parts, home)),
{
    lemma_joined(parts, home);
}

/// Every accepted value is pieces of text without `$` joined by references to the home directory,
/// and expands to those pieces joined by the directory.
pub proof fn accepted_values_are_joined_pieces(value: Seq<char>, home: Seq<char>)
    requires
        grammar::expansion(grammar::vocabulary(home), value) is Ok,
    ensures
        exists|parts: Seq<Seq<char>>|
            {
                &&& parts.len() > 0
                &&& free_of_dollars(parts)
                &&& value == #[trigger] joined(parts, "${HOME}"@)
                &&& grammar::expansion(grammar::vocabulary(home), value) == Ok::<Seq<char>, Fault>(
                    joined(parts, home),
                )
            },
{
    let parts = lemma_split(value, home);
    lemma_joined(parts, home);
    assert(value == joined(parts, "${HOME}"@));
}

/// Text without `$` behind an accepted, non-empty value stays as it is, a `~` included.
pub proof fn literal_text_is_appended(
    value: Seq<char>,
    literal: Seq<char>,
    vars: Map<Seq<char>, Seq<char>>,
)
    requires
        value.len() > 0,
        grammar::expansion(vars, value) is Ok,
        !literal.contains('$'),
    ensures
        grammar::expansion(vars, value + literal) == Ok::<Seq<char>, Fault>(
            grammar::expansion(vars, value)->Ok_0 + literal,
        ),
{
    lemma_concatenation(vars, value, literal);
    grammar::lemma_literal(vars, literal);
    assert((value + literal)[0] == value[0]);
}

/// A reference between accepted text and text that is accepted or holds no `$` gives the home
/// directory between what the two give.
pub proof fn a_reference_is_replaced_in_place(
    before: Seq<char>,
    after: Seq<char>,
    home: Seq<char>,
)
    requires
        grammar::expansion(grammar::vocabulary(home), before) is Ok,
    ensures
        !after.contains('$') ==> grammar::expansion(
            grammar::vocabulary(home),
            before + ("${HOME}"@ + after),
        ) == Ok::<Seq<char>, Fault>(
            grammar::expansion(grammar::vocabulary(home), before)->Ok_0 + (home + after),
        ),
        grammar::expansion(grammar::vocabulary(home), after) matches Ok(text)
            ==> grammar::expansion(grammar::vocabulary(home), before + ("${HOME}"@ + after)) == Ok::<
            Seq<char>,
            Fault,
        >(grammar::expansion(grammar::vocabulary(home), before)->Ok_0 + (home + text)),
{
    lemma_home_reference();
    let vars = grammar::vocabulary(home);
    let s = "${HOME}"@ + after;
    lemma_concatenation(vars, before, s);
    grammar::lemma_reference_prefix(vars, "HOME"@, after);
    if !after.contains('$') {
        grammar::lemma_literal(vars, after);
    }
    if before.len() > 0 {
        assert((before + s)[0] == before[0]);
    } else {
        assert((before + s)[0] == '$');
    }
}

/// More variables change nothing before the first unknown one.
proof fn lemma_larger_vocabulary(
    vars: Map<Seq<char>, Seq<char>>,
    larger: Map<Seq<char>, Seq<char>>,
    s: Seq<char>,
)
    requires
        vars.submap_of(larger),
    ensures
        ({
            ||| grammar::substituted(larger, s) == grammar::substituted(vars, s)
            ||| (grammar::substituted(vars, s) matches Err(Fault::Unknown(name))
                && !vars.dom().contains(name) && larger.dom().contains(name))
        }),
    decreases s.len(),
{
    if s.len() == 0 {
    } else if s[0] != '$' {
        lemma_larger_vocabulary(vars, larger, s.drop_first());
    } else if s.len() > 1 && s[1] == '{' && s.skip(2).contains('}') {
        grammar::lemma_until(s.skip(2), '}');
        let name = grammar::until(s.skip(2), '}');
        if grammar::variable(vars, name) is Ok {
            lemma_larger_vocabulary(vars, larger, s.skip(name.len() as int + 3));
        }
    }
}

/// Adding variables to the vocabulary cannot reinterpret a value: one that was accepted keeps its
/// meaning, and one that was refused stays refused for the same reason, unless the reason was a
/// variable that was unknown then and is known now.
pub proof fn larger_vocabularies_do_not_reinterpret(
    vars: Map<Seq<char>, Seq<char>>,
    larger: Map<Seq<char>, Seq<char>>,
    value: Seq<char>,
)
    requires
        vars.submap_of(larger),
    ensures
        grammar::expansion(vars, value) is Ok ==> grammar::expansion(larger, value)
            == grammar::expansion(vars, value),
        grammar::expansion(larger, value) != grammar::expansion(vars, value) ==> (
        grammar::expansion(vars, value) matches Err(Fault::Unknown(name)) && !vars.dom().contains(
            name,
        ) && larger.dom().contains(name)),
{
    lemma_larger_vocabulary(vars, larger, value);
}

/// What a concatenation contains, one of its halves contains.
proof fn lemma_contains_concat(a: Seq<char>, b: Seq<char>, c: char)
    ensures
        (a + b).contains(c) <==> a.contains(c) || b.contains(c),
{
    if a.contains(c) {
        let k = choose|k: int| 0 <= k < a.len() && a[k] == c;
        assert((a + b)[k] == c);
    }
    if b.contains(c) {
        let k = choose|k: int| 0 <= k < b.len() && b[k] == c;
        assert((a + b)[a.len() + k] == c);
    }
    if (a + b).contains(c) {
        let k = choose|k: int| 0 <= k < (a + b).len() && (a + b)[k] == c;
        if k < a.len() {
            assert(a[k] == c);
        } else {
            assert(b[k - a.len()] == c);
        }
    }
}

/// A reference brings every character of the home directory along; only a home directory with a
/// `$` brings a `$` along.
proof fn lemma_result_characters(s: Seq<char>, home: Seq<char>, c: char)
    requires
        grammar::substituted(grammar::vocabulary(home), s) is Ok,
    ensures
        s.contains('$') && home.contains(c) ==> (grammar::substituted(
            grammar::vocabulary(home),
            s,
        )->Ok_0).contains(c),
        c == '$' && (grammar::substituted(grammar::vocabulary(home), s)->Ok_0).contains(c)
            ==> s.contains('$') && home.contains('$'),
    decreases s.len(),
{
    if s.len() > 0 {
        let vars = grammar::vocabulary(home);
        if s[0] != '$' {
            let tail = s.drop_first();
            lemma_result_characters(tail, home, c);
            lemma_contains_concat(seq![s[0]], grammar::substituted(vars, tail)->Ok_0, c);
            lemma_contains_concat(seq![s[0]], tail, '$');
            assert(s =~= seq![s[0]] + tail);
            assert(!seq![s[0]].contains('$'));
        } else {
            lemma_leading_dollar(home, s);
            let tail = s.skip(7);
            lemma_result_characters(tail, home, c);
            lemma_contains_concat(home, grammar::substituted(vars, tail)->Ok_0, c);
            assert(s.contains(s[0]));
        }
    }
}

/// What a value expands to holds a `$` exactly if the home directory does and is referred to: no
/// `$` of a value is left standing.
pub proof fn dollars_come_from_the_home_directory(value: Seq<char>, home: Seq<char>)
    requires
        grammar::expansion(grammar::vocabulary(home), value) is Ok,
    ensures
        (grammar::expansion(grammar::vocabulary(home), value)->Ok_0).contains('$') <==> (
        value.contains('$') && home.contains('$')),
{
    lemma_result_characters(value, home, '$');
}

/// Unless the home directory is empty or starts with `~` itself, nothing expands to text that
/// starts with `~`.
pub proof fn expansions_do_not_start_with_tilde(value: Seq<char>, home: Seq<char>)
    requires
        home.len() > 0,
        home[0] != '~',
        grammar::expansion(grammar::vocabulary(home), value) is Ok,
    ensures
        !starts_with_tilde(grammar::expansion(grammar::vocabulary(home), value)->Ok_0),
{
    if value.len() > 0 && value[0] == '$' {
        lemma_leading_dollar(home, value);
    }
}

/// Expanding is done once and for all: what a value expands to expands to itself, whatever the
/// vocabulary, unless the home directory is empty or starts with `~`, or the value brings in a `$`
/// that the home directory holds.
pub proof fn expanding_again_changes_nothing(
    value: Seq<char>,
    home: Seq<char>,
    vars: Map<Seq<char>, Seq<char>>,
)
    requires
        home.len() > 0,
        home[0] != '~',
        !(value.contains('$') && home.contains('$')),
        grammar::expansion(grammar::vocabulary(home), value) is Ok,
    ensures
        grammar::expansion(vars, grammar::expansion(grammar::vocabulary(home), value)->Ok_0)
            == grammar::expansion(grammar::vocabulary(home), value),
{
    dollars_come_from_the_home_directory(value, home);
    expansions_do_not_start_with_tilde(value, home);
    literal_values_are_unchanged(
        vars,
        grammar::expansion(grammar::vocabulary(home), value)->Ok_0,
    );
}

/// A value that refers to a home directory other than the root never expands to the root: there
/// is something besides slashes in the result.
pub proof fn home_references_never_give_the_root(value: Seq<char>, home: Seq<char>)
    requires
        exists|i: int| 0 <= i < home.len() && home[i] != '/',
        value.contains('$'),
        grammar::expansion(grammar::vocabulary(home), value) is Ok,
    ensures
        exists|c: char|
            c != '/' && #[trigger] (grammar::expansion(
                grammar::vocabulary(home),
                value,
            )->Ok_0).contains(c),
{
    let k = choose|k: int| 0 <= k < home.len() && home[k] != '/';
    assert(home.contains(home[k]));
    lemma_result_characters(value, home, home[k]);
}

/// What a value that starts with a reference expands to starts with the home directory.
pub proof fn expansions_start_with_what_is_referred_to(value: Seq<char>, home: Seq<char>)
    requires
        value.len() > 0,
        value[0] == '$',
        grammar::expansion(grammar::vocabulary(home), value) is Ok,
    ensures
        home.is_prefix_of(grammar::expansion(grammar::vocabulary(home), value)->Ok_0),
{
    lemma_leading_dollar(home, value);
    let text = grammar::expansion(grammar::vocabulary(home), value)->Ok_0;
    assert(text.subrange(0, home.len() as int) =~= home);
}

/// What a value that starts with a reference to an absolute home directory other than the root
/// expands to starts with `/` and holds something besides slashes.
pub proof fn paths_below_home_are_absolute(value: Seq<char>, home: Seq<char>)
    requires
        home.len() > 0,
        home[0] == '/',
        exists|i: int| 0 <= i < home.len() && home[i] != '/',
        value.len() > 0,
        value[0] == '$',
        grammar::expansion(grammar::vocabulary(home), value) is Ok,
    ensures
        ({
            let text = grammar::expansion(grammar::vocabulary(home), value)->Ok_0;
            &&& text.len() > 0
            &&& text[0] == '/'
            &&& exists|i: int| 0 <= i < text.len() && text[i] != '/'
            &&& home::usable_home(text)
        }),
{
    lemma_leading_dollar(home, value);
    let k = choose|k: int| 0 <= k < home.len() && home[k] != '/';
    let text = grammar::expansion(grammar::vocabulary(home), value)->Ok_0;
    assert(text[k] == home[k]);
}

/// The reference alone stands for the home directory as it is.
pub proof fn the_reference_alone_gives_the_home_directory(home: Seq<char>)
    ensures
        grammar::expansion(grammar::vocabulary(home), "${HOME}"@) == Ok::<Seq<char>, Fault>(home),
{
    lemma_home_reference();
    let parts = seq![Seq::<char>::empty(), Seq::<char>::empty()];
    assert(parts.drop_first() =~= seq![Seq::<char>::empty()]);
    assert(joined(parts.drop_first(), "${HOME}"@) =~= seq![]);
    assert(joined(parts.drop_first(), home) =~= seq![]);
    assert(joined(parts, "${HOME}"@) =~= "${HOME}"@);
    assert(joined(parts, home) =~= home);
    references_become_the_home_directory(parts, home);
}

/// The variables that messages list are the variables that resolve.
pub proof fn listed_variables_are_those_that_resolve(home: Seq<char>, name: Seq<char>)
    ensures
        grammar::var_names().contains(name) <==> grammar::variable(
            grammar::vocabulary(home),
            name,
        ) is Ok,
{
    lemma_home_reference();
    assert(grammar::var_names().len() == 1);
    assert(grammar::var_names()[0] == "HOME"@);
}

/// A path is usable as a home directory exactly if it starts with `/` and holds a character other
/// than `/`.
pub proof fn usable_homes_are_absolute_and_not_the_root(dir: Seq<char>)
    ensures
        home::usable_home(dir) <==> dir.len() > 0 && dir[0] == '/' && exists|i: int|
            0 <= i < dir.len() && dir[i] != '/',
{
}

/// Whether a directory is usable does not change with a slash more behind it.
pub proof fn trailing_slashes_do_not_matter(dir: Seq<char>)
    requires
        dir.len() > 0,
    ensures
        home::usable_home(dir.push('/')) <==> home::usable_home(dir),
{
    if home::usable_home(dir) {
        let k = choose|k: int| 0 <= k < dir.len() && dir[k] != '/';
        assert(dir.push('/')[k] == dir[k]);
    }
    if home::usable_home(dir.push('/')) {
        let k = choose|k: int| 0 <= k < dir.push('/').len() && dir.push('/')[k] != '/';
        assert(dir[k] != '/');
        assert(dir.push('/')[0] == dir[0]);
    }
}

/// Everything below a usable directory is usable.
pub proof fn directories_below_usable_ones_are_usable(dir: Seq<char>, below: Seq<char>)
    requires
        home::usable_home(dir),
    ensures
        home::usable_home(dir + below),
{
    let k = choose|k: int| 0 <= k < dir.len() && dir[k] != '/';
    assert((dir + below)[k] == dir[k]);
}

/// A resolved home directory starts with `/`, holds something besides slashes, and is the text of
/// the environment or of the passwd entry as it stands.
pub proof fn resolved_homes_are_usable(env: Option<&str>, passwd: Option<&str>)
    ensures
        home::home_of(env, passwd) matches Some(dir) ==> {
            &&& home::usable_home(dir)
            &&& dir.len() > 0
            &&& dir[0] == '/'
            &&& exists|i: int| 0 <= i < dir.len() && dir[i] != '/'
            &&& (env matches Some(e) && e@ == dir) || (passwd matches Some(p) && p@ == dir)
        },
{
}

/// The environment wins: where it names an absolute directory other than the root, that is the
/// home directory, whatever the passwd entry says.
pub proof fn the_environment_wins(env: &str, passwd: Option<&str>)
    requires
        env@.len() > 0,
        env@[0] == '/',
        exists|i: int| 0 <= i < env@.len() && env@[i] != '/',
    ensures
        home::home_of(Some(env), passwd) == Some(env@),
{
}

/// The passwd entry is the fallback: where the environment is unset, or names a path that is
/// empty, relative or the root, a passwd entry with an absolute directory other than the root
/// gives the home directory.
pub proof fn the_passwd_entry_is_the_fallback(env: Option<&str>, passwd: &str)
    requires
        env matches Some(e) ==> e@.len() == 0 || e@[0] != '/' || forall|i: int|
            0 <= i < e@.len() ==> e@[i] == '/',
        passwd@.len() > 0,
        passwd@[0] == '/',
        exists|i: int| 0 <= i < passwd@.len() && passwd@[i] != '/',
    ensures
        home::home_of(env, Some(passwd)) == Some(passwd@),
{
}

/// There is no home directory where neither the environment nor the passwd entry names an absolute
/// directory other than the root, and the message then says so.
pub proof fn no_candidate_no_home(env: Option<&str>, passwd: Option<&str>)
    requires
        env matches Some(e) ==> e@.len() == 0 || e@[0] != '/' || forall|i: int|
            0 <= i < e@.len() ==> e@[i] == '/',
        passwd matches Some(p) ==> p@.len() == 0 || p@[0] != '/' || forall|i: int|
            0 <= i < p@.len() ==> p@[i] == '/',
    ensures
        home::home_of(env, passwd) is None,
        home::no_home_message()
            == "cannot resolve ${HOME}: $HOME is unset, not absolute, or is the filesystem root, and this uid has no passwd entry with a usable home directory"@,
{
}

/// An environment that is empty, relative or the root is as good as none.
pub proof fn unusable_environments_are_ignored(env: &str, passwd: Option<&str>)
    requires
        env@.len() == 0 || env@[0] != '/' || forall|i: int|
            0 <= i < env@.len() ==> env@[i] == '/',
    ensures
        home::home_of(Some(env), passwd) == home::home_of(None, passwd),
{
}

} // verus!
