//! Variable expansion for sandbox profile path values.
//!
//! A profile names the paths that it grants. Such a path value may refer to the home directory as
//! `${HOME}`; any other use of `$`, and a leading `~`, is refused with a message.
//!
//! - [`expand`] expands one value.
//! - [`home`] decides which directory `${HOME}` stands for.
//! - [`grammar`] is the meaning of values, [`message`] the text of refusals.
//! - [`laws`] and [`refusals`] hold what follows from them.

pub mod error;
pub mod expand;
pub mod grammar;
pub mod home;
pub mod laws;
pub mod message;
pub mod quote;
pub mod refusals;
pub mod text;
