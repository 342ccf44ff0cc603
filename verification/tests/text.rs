use sandlock_expand::message;
use sandlock_expand::text::{eq_ignore_ascii_case, same_text, split_at_char, strip_char};

#[test]
fn split_at_first_occurrence() {
    assert_eq!(split_at_char("a$b$c", '$'), Some(("a", "b$c")));
    assert_eq!(split_at_char("$", '$'), Some(("", "")));
    assert_eq!(split_at_char("é🦀}x", '}'), Some(("é🦀", "x")));
    assert_eq!(split_at_char("é🦀", '}'), None);
    assert_eq!(split_at_char("", '$'), None);
}

#[test]
fn strip_first_character() {
    assert_eq!(strip_char("{x", '{'), Some("x"));
    assert_eq!(strip_char("{", '{'), Some(""));
    assert_eq!(strip_char("x{", '{'), None);
    assert_eq!(strip_char("", '{'), None);
    assert_eq!(strip_char("é", '{'), None);
}

#[test]
fn text_comparison() {
    assert!(same_text("é", "é"));
    assert!(!same_text("HOME", "HOM"));
    assert!(!same_text("HOME", "HOMe"));
    assert!(eq_ignore_ascii_case("HoMe_1é", "hOmE_1é"));
    assert!(!eq_ignore_ascii_case("é", "É"));
    assert!(!eq_ignore_ascii_case("@", "`"));
    assert!(!eq_ignore_ascii_case("[", "{"));
    assert!(!eq_ignore_ascii_case("HOME", "HOM"));
    assert!(!eq_ignore_ascii_case("HOM", "HOME"));
}

#[test]
fn messages_take_the_quoted_value() {
    assert_eq!(message::unterminated("Q"), "Q: unterminated ${");
    assert_eq!(
        message::tilde("Q"),
        "Q: tilde is not expanded in profiles; write ${HOME} instead"
    );
    assert_eq!(
        message::malformed_name("Q", "a b"),
        "Q: malformed variable name ${a b}; names match [A-Za-z_][A-Za-z0-9_]*"
    );
    assert_eq!(
        message::unknown_variable("Q", "Home"),
        "Q: unknown variable ${Home}; did you mean ${HOME}?; supported: ${HOME}"
    );
    assert_eq!(
        message::bare_dollar("Q", "x"),
        "Q: bare $ is not a variable; write ${x} for a variable"
    );
}
