use vstd::prelude::*;
use crate::key::DescriptorKey;

verus! {

/// A violation of the segwit-v0 script context rules, found at construction
/// or by a later sanity check.
#[derive(Debug, Clone, PartialEq, Eq)]
pub enum ScriptContextError {
    /// A key that is not usable in compressed form stood where the context
    /// demands compressed keys; carries the hex text of the offending key.
    CompressedOnly(Vec<u8>),
    /// A multisig listed more keys than the context permits; carries the count.
    MultisigTooManyKeys(usize),
    /// A multisig threshold was zero or exceeded the number of keys;
    /// carries the threshold and the key count.
    InvalidThreshold(usize, usize),
}

/// An error of the descriptor layer.
#[derive(Debug, Clone, PartialEq, Eq)]
pub enum Error {
    /// A script-context rule was broken.
    ContextError(ScriptContextError),
    /// A parsed node had the wrong name or argument count; carries the
    /// observed node name and its argument count.
    Unexpected(Vec<u8>, usize),
    /// The oracle had no signature for the named key.
    MissingSig(DescriptorKey),
    /// The spending condition could not be satisfied with the signatures
    /// the oracle offered.
    CouldNotSatisfy,
    /// A token could not be read as a public key; carries the token.
    BadKey(Vec<u8>),
    /// A token could not be read as a decimal number; carries the token.
    BadNumber(Vec<u8>),
    /// The descriptor text was not a well-formed expression tree.
    BadTree,
}

/// An error reported by a caller-supplied key-mapping function.
#[derive(Debug, Clone, PartialEq, Eq)]
pub struct TranslatorError {
    /// A code chosen by the mapping function's author.
    pub code: u64,
}

/// The outcome of a failed key translation, telling a failure of the
/// caller's mapping function apart from a failure of the descriptor's
/// own re-validation of the mapped result.
#[derive(Debug, Clone, PartialEq, Eq)]
pub enum TranslateErr {
    /// The caller's mapping function failed on some key.
    TranslatorErr(TranslatorError),
    /// Every key mapped, but the mapped descriptor failed re-validation.
    OuterError(Error),
}

/// Holds when `e` is the compressed-only context violation carrying
/// the key text `t`.
pub open spec fn is_compressed_only_err(e: Error, t: Seq<u8>) -> bool {
    match e {
        Error::ContextError(ce) => match ce {
            ScriptContextError::CompressedOnly(v) => v@ == t,
            _ => false,
        },
        _ => false,
    }
}

/// Holds when `e` reports a parse-shape mismatch with node name `n` and
/// argument count `c`.
pub open spec fn is_unexpected_err(e: Error, n: Seq<u8>, c: int) -> bool {
    match e {
        Error::Unexpected(v, m) => v@ == n && m == c,
        _ => false,
    }
}

/// Holds when `e` reports a missing signature for the key whose bytes are `k`.
pub open spec fn is_missing_sig_err(e: Error, k: Seq<u8>) -> bool {
    match e {
        Error::MissingSig(pk) => pk@ == k,
        _ => false,
    }
}

/// Holds when `e` reports a token that is not a number, carrying the token `t`.
pub open spec fn is_bad_number_err(e: Error, t: Seq<u8>) -> bool {
    match e {
        Error::BadNumber(v) => v@ == t,
        _ => false,
    }
}

/// Holds when `e` reports a threshold `k` out of bounds for `n` keys.
pub open spec fn is_invalid_threshold_err(e: Error, k: int, n: int) -> bool {
    match e {
        Error::ContextError(ce) => match ce {
            ScriptContextError::InvalidThreshold(kk, nn) => kk == k && nn == n,
            _ => false,
        },
        _ => false,
    }
}

/// Holds when `e` reports a multisig of `n` keys over the limit.
pub open spec fn is_too_many_err(e: Error, n: int) -> bool {
    match e {
        Error::ContextError(ce) => match ce {
            ScriptContextError::MultisigTooManyKeys(nn) => nn == n,
            _ => false,
        },
        _ => false,
    }
}

/// Holds when `e` is a compressed-only context violation, whatever key
/// text it carries.
pub open spec fn is_compressed_only_kind(e: Error) -> bool {
    match e {
        Error::ContextError(ce) => ce is CompressedOnly,
        _ => false,
    }
}

/// Holds when `e` reports a token that is not a key, carrying the token `t`.
pub open spec fn is_bad_key_err(e: Error, t: Seq<u8>) -> bool {
    match e {
        Error::BadKey(v) => v@ == t,
        _ => false,
    }
}

} // verus!
