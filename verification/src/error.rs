use vstd::prelude::*;

verus! {

/// Errors raised by the library.
#[derive(Debug, PartialEq, Eq)]
pub enum Error {
    /// The configuration is invalid or unsupported.
    Config(String),
    /// An adapter failed; `adapter` names it.
    Adapter { adapter: String, message: String },
    /// Reading or writing a file failed.
    Io(String),
}

} // verus!

verus! {

/// `r` is `Ok` when `expected` is `None`, and otherwise a configuration error whose
/// message is the one `expected` holds.
pub open spec fn config_outcome<T>(r: Result<T, Error>, expected: Option<Seq<char>>) -> bool {
    match expected {
        None => r is Ok,
        Some(m) => r matches Err(Error::Config(s)) && s@ == m,
    }
}

/// `r` is an adapter error of `adapter` with message `message`.
pub open spec fn is_adapter_error<T>(r: Result<T, Error>, adapter: Seq<char>, message: Seq<char>) -> bool {
    r matches Err(Error::Adapter { adapter: a, message: m }) && a@ == adapter && m@ == message
}

/// A configuration error holding `message`.
pub fn config_error(message: String) -> (e: Error)
    ensures
        e matches Error::Config(m) && m@ == message@,
{
    Error::Config(message)
}

} // verus!
