//! Decides how secrets held in a remote store reach the environment of a
//! command: which secrets a declaration file asks for, which requests resolve
//! them, how failures are retried, and which environment the command starts in.
//!
//! The crate performs no input or output. Callers send the requests that the
//! functions here describe and hand the replies back.
//!
//! - [`secrets`]: the declaration file and the names of the variables.
//! - [`args`]: the settings of a run and the method of authentication.
//! - [`vault`]: requests, replies and the documents in them.
//! - [`token`]: the login that yields the token.
//! - [`fetch`]: the fetch of the secrets, in chunks and with retries.
//! - [`retry`]: the count of attempts.
//! - [`process`]: the environment and the arguments of the command.
//! - [`json`], [`text`], [`error`]: documents, characters, failures.

pub mod args;
pub mod error;
pub mod fetch;
pub mod json;
pub mod process;
pub mod retry;
pub mod secrets;
pub mod text;
pub mod token;
pub mod vault;
