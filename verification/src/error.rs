//! The error taxonomy shared by the codec, the snapshot decoder and the
//! command handlers.

use vstd::prelude::*;

verus! {

/// One error value for the whole crate.
///
/// `InvalidResp` marks malformed wire framing, `InvalidRdb` a malformed
/// snapshot, `Unsupported` a recognized form the core does not handle,
/// `ArgsMissing` a command with too few arguments, `IO` a truncated or
/// closed byte stream, `Parser` a malformed decimal integer, and
/// `SystemTime` a clock conversion failure.
#[derive(Debug)]
pub enum Error {
    InvalidResp,
    ArgsMissing(String),
    InvalidRdb(String),
    Unsupported(String),
    IO,
    Parser,
    SystemTime,
}

/// The shape of a parse failure, free of any message text; contracts
/// speak of these kinds and map them onto `Error` variants.
#[derive(Debug, PartialEq, Eq, Structural, Clone, Copy)]
pub enum Fault {
    /// The input ended before the construct did.
    Eof,
    /// The bytes do not fit the grammar.
    Invalid,
    /// A decimal integer was expected and not found, or overflowed.
    BadInt,
    /// A recognized but unsupported form.
    Unsup,
    /// A command arrived with too few arguments.
    Missing,
    /// A malformed snapshot.
    Rdb,
}

/// How each failure kind surfaces as an `Error`.
pub open spec fn fault_matches(e: Error, f: Fault) -> bool {
    match f {
        Fault::Eof => e is IO,
        Fault::Invalid => e is InvalidResp,
        Fault::BadInt => e is Parser,
        Fault::Unsup => e is Unsupported,
        Fault::Missing => e is ArgsMissing,
        Fault::Rdb => e is InvalidRdb,
    }
}

} // verus!
