//! Caesar-family substitution ciphers over ASCII letters, with the
//! argument joining used by the command-line front end.

pub mod args;
pub mod cipher;

pub use args::{parse_args, ArgsError, MESSAGE_MISSING_ARGS, MESSAGE_NO_ARGS};
pub use cipher::{caesar, rot13, CipherError, Translator};
