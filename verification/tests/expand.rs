use sandlock_expand::expand::{bare_dollar_message, expand, is_well_formed, lookup};

const HOME: &str = "/home/user";

fn refusal(value: &str) -> String {
    expand(value, HOME).unwrap_err().message()
}

#[test]
fn values_with_references() {
    let cases = [
        ("${HOME}", "/home/user"),
        ("${HOME}/.cache", "/home/user/.cache"),
        ("/mnt${HOME}/x", "/mnt/home/user/x"),
        ("${HOME}:${HOME}", "/home/user:/home/user"),
        ("${HOME}${HOME}", "/home/user/home/user"),
        ("é${HOME}ü", "é/home/userü"),
        ("}{${HOME}}", "}{/home/user}"),
    ];
    for (value, expected) in cases {
        assert_eq!(expand(value, HOME).unwrap(), expected, "{value:?}");
    }
}

#[test]
fn values_without_references_are_unchanged() {
    for value in ["", "/etc/hosts", "relative/path", "/a/~b", "{HOME}", "/é/日本/🦀", "a b"] {
        assert_eq!(expand(value, HOME).unwrap(), value);
    }
}

#[test]
fn replacement_is_not_read_again() {
    assert_eq!(expand("${HOME}/x", "/a${HOME}$b").unwrap(), "/a${HOME}$b/x");
    assert_eq!(expand("x${HOME}", "~").unwrap(), "x~");
    assert_eq!(expand("${HOME}", "").unwrap(), "");
}

#[test]
fn tilde_is_refused() {
    assert_eq!(
        refusal("~/x"),
        "\"~/x\": tilde is not expanded in profiles; write ${HOME} instead"
    );
    assert_eq!(
        refusal("~${"),
        "\"~${\": tilde is not expanded in profiles; write ${HOME} instead"
    );
}

#[test]
fn value_is_quoted_with_escapes() {
    assert_eq!(
        refusal("~\"\n\\"),
        "\"~\\\"\\n\\\\\": tilde is not expanded in profiles; write ${HOME} instead"
    );
}

#[test]
fn unterminated_reference_is_refused() {
    assert_eq!(refusal("/a/${HOME"), "\"/a/${HOME\": unterminated ${");
    assert_eq!(refusal("${"), "\"${\": unterminated ${");
    assert_eq!(refusal("}${HOME}${"), "\"}${HOME}${\": unterminated ${");
}

#[test]
fn malformed_name_is_refused() {
    assert_eq!(
        refusal("${}"),
        "\"${}\": malformed variable name ${}; names match [A-Za-z_][A-Za-z0-9_]*"
    );
    assert_eq!(
        refusal("${1A}"),
        "\"${1A}\": malformed variable name ${1A}; names match [A-Za-z_][A-Za-z0-9_]*"
    );
    assert_eq!(
        refusal("${HOME:-/x}"),
        "\"${HOME:-/x}\": malformed variable name ${HOME:-/x}; names match [A-Za-z_][A-Za-z0-9_]*"
    );
    assert_eq!(
        refusal("${é}"),
        "\"${é}\": malformed variable name ${é}; names match [A-Za-z_][A-Za-z0-9_]*"
    );
}

#[test]
fn unknown_variable_is_refused() {
    assert_eq!(
        refusal("${USER}"),
        "\"${USER}\": unknown variable ${USER}; supported: ${HOME}"
    );
    assert_eq!(
        refusal("${HOMES}"),
        "\"${HOMES}\": unknown variable ${HOMES}; supported: ${HOME}"
    );
    assert_eq!(
        refusal("${HOM}"),
        "\"${HOM}\": unknown variable ${HOM}; supported: ${HOME}"
    );
}

#[test]
fn misspelt_case_gets_a_hint() {
    for name in ["home", "Home", "hOmE"] {
        assert_eq!(
            refusal(&format!("${{{name}}}")),
            format!("\"${{{name}}}\": unknown variable ${{{name}}}; did you mean ${{HOME}}?; supported: ${{HOME}}")
        );
    }
}

#[test]
fn bare_dollar_is_refused() {
    assert_eq!(
        refusal("/a/$HOME/b"),
        "\"/a/$HOME/b\": bare $ is not a variable; write ${HOME} for a variable"
    );
    assert_eq!(
        refusal("$1_x-y"),
        "\"$1_x-y\": bare $ is not a variable; write ${1_x} for a variable"
    );
    for value in ["$", "a$", "$$", "$-", "$é", "$}"] {
        assert_eq!(
            refusal(value),
            format!("{value:?}: bare $ is not allowed; a literal $ cannot appear in a profile path")
        );
    }
}

#[test]
fn first_fault_is_reported() {
    assert_eq!(
        refusal("${HOME}/$x${"),
        "\"${HOME}/$x${\": bare $ is not a variable; write ${x} for a variable"
    );
    assert_eq!(
        refusal("${X}$"),
        "\"${X}$\": unknown variable ${X}; supported: ${HOME}"
    );
}

#[test]
fn expanding_again_changes_nothing() {
    for value in ["${HOME}", "/x/${HOME}/y", "plain"] {
        let once = expand(value, HOME).unwrap();
        assert_eq!(expand(&once, "/elsewhere").unwrap(), once);
    }
}

#[test]
fn concatenated_values_expand_piece_by_piece() {
    let pieces = ["/a", "${HOME}", "/b${HOME}c"];
    let mut whole = String::new();
    let mut expected = String::new();
    for piece in pieces {
        whole.push_str(piece);
        expected.push_str(&expand(piece, HOME).unwrap());
    }
    assert_eq!(expand(&whole, HOME).unwrap(), expected);
}

#[test]
fn lookup_gives_home_for_home_only() {
    assert_eq!(lookup("HOME", "/h", "v").unwrap(), "/h");
    assert_eq!(
        lookup("home", "/h", "v").unwrap_err().message(),
        "\"v\": unknown variable ${home}; did you mean ${HOME}?; supported: ${HOME}"
    );
    assert_eq!(
        lookup("a-b", "/h", "v").unwrap_err().message(),
        "\"v\": malformed variable name ${a-b}; names match [A-Za-z_][A-Za-z0-9_]*"
    );
}

#[test]
fn well_formed_names() {
    for name in ["HOME", "_", "a", "Z9", "_0", "a_b"] {
        assert!(is_well_formed(name), "{name:?}");
    }
    for name in ["", "9", "0a", "-", "a-b", "a b", "é", "aé", "a$"] {
        assert!(!is_well_formed(name), "{name:?}");
    }
}

#[test]
fn bare_dollar_message_names_the_longest_name() {
    assert_eq!(
        bare_dollar_message("v", "abc_1/d"),
        "\"v\": bare $ is not a variable; write ${abc_1} for a variable"
    );
    assert_eq!(
        bare_dollar_message("v", "abc"),
        "\"v\": bare $ is not a variable; write ${abc} for a variable"
    );
    assert_eq!(
        bare_dollar_message("v", ""),
        "\"v\": bare $ is not allowed; a literal $ cannot appear in a profile path"
    );
}
