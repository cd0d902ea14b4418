//! The ways in which a block response can fail to be filtered.

use vstd::prelude::*;

verus! {

/// The parts of a transaction record that classification reads.
#[derive(Clone, Copy, Debug, PartialEq, Eq, Structural)]
pub enum Field {
    /// `meta.preBalances`
    PreBalances,
    /// `meta.postBalances`
    PostBalances,
    /// `meta.preTokenBalances`
    PreTokenBalances,
    /// `meta.postTokenBalances`
    PostTokenBalances,
    /// `uiTokenAmount.amount` of an entry of `meta.preTokenBalances`
    PreTokenAmount,
    /// `uiTokenAmount.amount` of an entry of `meta.postTokenBalances`
    PostTokenAmount,
}

/// Why a block response could not be filtered.
#[derive(Clone, Copy, Debug, PartialEq, Eq, Structural)]
pub enum FilterError {
    /// The envelope has no `result`, or a `null` one.
    MissingResult,
    /// The result has no `transactions`, or a `null` one.
    MissingTransactions,
    /// `transactions` is present and is not an array.
    TransactionsNotArray,
    /// A part of a transaction record is absent or `null`.
    MissingField(Field),
    /// A part of a transaction record has the wrong type: an array was
    /// expected, and for its elements an unsigned integer or a string.
    TypeMismatch(Field),
    /// `meta.preBalances` and `meta.postBalances` differ in length.
    LengthMismatch,
    /// A token amount is a string that denotes no unsigned 64-bit integer.
    ParseError,
}

/// The broad kinds of failure that the proxy tells apart in its diagnostics.
#[derive(Clone, Copy, Debug, PartialEq, Eq, Structural)]
pub enum ErrorKind {
    /// The upstream node could not be reached, or did not answer in JSON.
    UpstreamError,
    /// The answer is JSON without a usable `result` or `transactions`.
    MalformedResponse,
    /// A transaction record cannot be classified.
    TransactionShapeError,
}

impl FilterError {
    /// The kind of failure that the error belongs to.
    pub open spec fn spec_kind(&self) -> ErrorKind {
        match self {
            FilterError::MissingResult
            | FilterError::MissingTransactions
            | FilterError::TransactionsNotArray => ErrorKind::MalformedResponse,
            _ => ErrorKind::TransactionShapeError,
        }
    }

    /// The kind of failure that the error belongs to.
    #[verifier::when_used_as_spec(spec_kind)]
    pub fn kind(&self) -> (kind: ErrorKind)
        ensures
            kind == self.spec_kind(),
    {
        match self {
            FilterError::MissingResult => ErrorKind::MalformedResponse,
            FilterError::MissingTransactions => ErrorKind::MalformedResponse,
            FilterError::TransactionsNotArray => ErrorKind::MalformedResponse,
            FilterError::MissingField(_) => ErrorKind::TransactionShapeError,
            FilterError::TypeMismatch(_) => ErrorKind::TransactionShapeError,
            FilterError::LengthMismatch => ErrorKind::TransactionShapeError,
            FilterError::ParseError => ErrorKind::TransactionShapeError,
        }
    }
}

/// `k` is the position of the first failure in `results`.
pub open spec fn is_first_error<T>(results: Seq<Result<T, FilterError>>, k: int) -> bool {
    &&& 0 <= k < results.len()
    &&& results[k] is Err
    &&& forall|j: int| 0 <= j < k ==> (#[trigger] results[j]) is Ok
}

/// The first failure in `results`, if any of them failed.
pub open spec fn first_error<T>(results: Seq<Result<T, FilterError>>) -> Option<FilterError> {
    if exists|k: int| is_first_error(results, k) {
        Some(results[choose|k: int| is_first_error(results, k)]->Err_0)
    } else {
        None
    }
}

/// Where some result failed, one of them is the first to fail.
pub proof fn lemma_first_error_exists<T>(results: Seq<Result<T, FilterError>>, k: int)
    requires
        0 <= k < results.len(),
        results[k] is Err,
    ensures
        exists|f: int| is_first_error(results, f),
    decreases k,
{
    if exists|j: int| 0 <= j < k && (#[trigger] results[j]) is Err {
        let j = choose|j: int| 0 <= j < k && (#[trigger] results[j]) is Err;
        lemma_first_error_exists(results, j);
    } else {
        assert(is_first_error(results, k));
    }
}

/// No result failed exactly when there is no first failure.
pub proof fn lemma_first_error_none<T>(results: Seq<Result<T, FilterError>>)
    ensures
        first_error(results) is None <==> forall|i: int|
            0 <= i < results.len() ==> (#[trigger] results[i]) is Ok,
{
    if !(forall|i: int| 0 <= i < results.len() ==> (#[trigger] results[i]) is Ok) {
        let k = choose|k: int| 0 <= k < results.len() && !((#[trigger] results[k]) is Ok);
        lemma_first_error_exists(results, k);
    }
}

} // verus!
