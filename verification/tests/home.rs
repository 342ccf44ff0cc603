use sandlock_expand::error::{SandboxError, SandlockError};
use sandlock_expand::expand::expand;
use sandlock_expand::home::{is_usable_home, resolve_home_from};

#[test]
fn resolve_home_prefers_absolute_env() {
    assert_eq!(
        resolve_home_from(Some("/env/home"), Some("/passwd/home")).unwrap(),
        "/env/home"
    );
}

#[test]
fn resolve_home_falls_back_to_passwd() {
    // Unset, empty, and relative all fail the absolute test, so passwd wins.
    for env in [None, Some(""), Some("relative/home")] {
        assert_eq!(
            resolve_home_from(env, Some("/passwd/home")).unwrap(),
            "/passwd/home",
            "env {env:?}"
        );
    }
}

#[test]
fn resolve_home_refuses_the_filesystem_root() {
    // `/` is absolute but is nobody's home, and expanding it would turn
    // `write = ["${HOME}"]` into a grant over the whole filesystem.
    for env in [Some("/"), Some("//")] {
        assert_eq!(
            resolve_home_from(env, Some("/passwd/home")).unwrap(),
            "/passwd/home",
            "env {env:?}"
        );
        assert!(resolve_home_from(env, Some("/")).is_err(), "env {env:?}");
    }
}

#[test]
fn resolve_home_keeps_a_trailing_slash_home() {
    // Only the all-slashes case is meaningless; `/root/` is a real home.
    assert_eq!(resolve_home_from(Some("/root/"), None).unwrap(), "/root/");
}

#[test]
fn resolve_home_errors_when_neither_is_absolute() {
    let err = resolve_home_from(None, None).unwrap_err().message();
    assert!(err.contains("cannot resolve ${HOME}"), "error was {err:?}");
    assert!(resolve_home_from(Some("rel"), Some("also-rel")).is_err());
}

#[test]
fn missing_home_message_in_full() {
    let err = resolve_home_from(Some("///"), Some("")).unwrap_err();
    assert_eq!(
        err.message(),
        "cannot resolve ${HOME}: $HOME is unset, not absolute, or is the \
         filesystem root, and this uid has no passwd entry with a usable home \
         directory"
    );
    assert!(matches!(err, SandlockError::Sandbox(SandboxError::Invalid(_))));
}

#[test]
fn usable_homes() {
    for dir in ["/h", "/root/", "//srv", "/é", "/ ", "///a///"] {
        assert!(is_usable_home(dir), "{dir:?}");
    }
    for dir in ["", "/", "//", "home", "~", "é/", " /h"] {
        assert!(!is_usable_home(dir), "{dir:?}");
    }
}

#[test]
fn resolved_home_is_not_the_root_once_expanded() {
    let home = resolve_home_from(Some("/"), Some("/passwd/home")).unwrap();
    assert_eq!(expand("${HOME}", &home).unwrap(), "/passwd/home");
    assert!(is_usable_home(&expand("${HOME}/x", &home).unwrap()));
}
