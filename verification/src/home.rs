//! Which directory `${HOME}` stands for.

use crate::error::invalid;
use crate::error::SandlockError;
use crate::text::strip_char;
use vstd::prelude::*;

verus! {

/// An absolute path other than the filesystem root, however many slashes the root is written with.
pub open spec fn usable_home(dir: Seq<char>) -> bool {
    &&& dir.len() > 0
    &&& dir[0] == '/'
    &&& exists|i: int| 0 <= i < dir.len() && dir[i] != '/'
}

/// The directory that a candidate offers, if it is usable.
pub open spec fn offered(candidate: Option<&str>) -> Option<Seq<char>> {
    match candidate {
        Some(dir) if usable_home(dir@) => Some(dir@),
        _ => None,
    }
}

/// The home directory: that of the environment, else that of the passwd entry.
pub open spec fn home_of(env: Option<&str>, passwd: Option<&str>) -> Option<Seq<char>> {
    match offered(env) {
        Some(dir) => Some(dir),
        None => offered(passwd),
    }
}

/// The message for want of a usable home directory.
pub open spec fn no_home_message() -> Seq<char> {
    "cannot resolve ${HOME}: $HOME is unset, not absolute, or is the filesystem root, and this uid has no passwd entry with a usable home directory"@
}

/// Whether `dir` can be somebody's home directory.
///
/// The filesystem root is refused along with relative and empty paths: it is nobody's home, and
/// expanding it would turn a grant for `${HOME}` into one over the whole filesystem.
pub fn is_usable_home(dir: &str) -> (usable: bool)
    ensures
        usable == usable_home(dir@),
{
    if strip_char(dir, '/').is_none() {
        return false;
    }
    for c in it: dir.chars()
        invariant
            it.seq() == dir@,
            dir@.len() > 0,
            dir@[0] == '/',
            forall|i: int| 0 <= i < it.index() ==> #[trigger] dir@[i] == '/',
    {
        if c != '/' {
            assert(dir@[it.index() as int] != '/');
            return true;
        }
    }
    false
}

/// Picks the home directory among the two candidates.
///
/// The environment wins over the passwd entry because the sandboxed program resolves its own `~`
/// through `$HOME`: a grant derived from the passwd entry would cover a directory that the program
/// never opens while denying the one it does.
pub fn resolve_home_from(env: Option<&str>, passwd: Option<&str>) -> (home: Result<
    String,
    SandlockError,
>)
    ensures
        match home_of(env, passwd) {
            Some(dir) => home matches Ok(h) && h@ == dir,
            None => home matches Err(SandlockError::Sandbox(crate::error::SandboxError::Invalid(msg)))
                && msg@ == no_home_message(),
        },
{
    if let Some(dir) = env {
        if is_usable_home(dir) {
            return Ok(dir.to_owned());
        }
    }
    if let Some(dir) = passwd {
        if is_usable_home(dir) {
            return Ok(dir.to_owned());
        }
    }
    Err(
        invalid(
            "cannot resolve ${HOME}: $HOME is unset, not absolute, or is the filesystem root, and this uid has no passwd entry with a usable home directory".to_owned(),
        ),
    )
}

} // verus!
