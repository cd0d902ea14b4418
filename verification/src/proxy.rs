//! What the proxy answers, given what the upstream node returned.

use vstd::prelude::*;
use crate::error::{ErrorKind, FilterError};
use crate::filter::{filter_block, filter_outcome, moving, transactions_of, Filtered};
use crate::json::{Json, JsonModel};

verus! {

/// The status of an answer that carries a filtered block.
pub const STATUS_OK: u16 = 200;

/// The status of every failed request, whatever went wrong.
pub const STATUS_SERVER_ERROR: u16 = 500;

/// Why the upstream node gave no usable answer.
#[derive(Clone, Copy, Debug, PartialEq, Eq, Structural)]
pub enum UpstreamError {
    /// The request failed: it could not be delivered, no answer came back,
    /// or the node answered with an error status.
    Unreachable,
    /// The answer's body is not JSON.
    NotJson,
}

/// Why a request failed.
#[derive(Clone, Copy, Debug, PartialEq, Eq, Structural)]
pub enum ProxyError {
    /// The upstream node gave no usable answer.
    Upstream(UpstreamError),
    /// The upstream answer could not be filtered.
    Filter(FilterError),
}

impl ProxyError {
    /// The kind of failure, for diagnostics.
    pub open spec fn spec_kind(&self) -> ErrorKind {
        match self {
            ProxyError::Upstream(_) => ErrorKind::UpstreamError,
            ProxyError::Filter(e) => e.spec_kind(),
        }
    }

    /// The kind of failure, for diagnostics.
    #[verifier::when_used_as_spec(spec_kind)]
    pub fn kind(&self) -> (kind: ErrorKind)
        ensures
            kind == self.spec_kind(),
    {
        match self {
            ProxyError::Upstream(_) => ErrorKind::UpstreamError,
            ProxyError::Filter(e) => e.kind(),
        }
    }
}

/// The proxy's answer to one request.
#[derive(Debug, PartialEq)]
pub enum Reply {
    /// The filtered block, sent with [`STATUS_OK`].
    Filtered(Filtered),
    /// No body, sent with [`STATUS_SERVER_ERROR`]. The cause is kept for
    /// diagnostics and is not part of what the caller sees.
    Failed(ProxyError),
}

impl Reply {
    /// The status that the answer is sent with.
    pub open spec fn spec_status(&self) -> u16 {
        match self {
            Reply::Filtered(_) => STATUS_OK,
            Reply::Failed(_) => STATUS_SERVER_ERROR,
        }
    }

    /// The status that the answer is sent with: one status for success, and
    /// one for every failure.
    #[verifier::when_used_as_spec(spec_status)]
    pub fn status(&self) -> (status: u16)
        ensures
            status == self.spec_status(),
    {
        match self {
            Reply::Filtered(_) => STATUS_OK,
            Reply::Failed(_) => STATUS_SERVER_ERROR,
        }
    }
}

/// The answer owed for what the upstream node returned.
pub open spec fn reply_outcome(upstream: Result<JsonModel, UpstreamError>) -> Result<
    JsonModel,
    ProxyError,
> {
    match upstream {
        Err(e) => Err(ProxyError::Upstream(e)),
        Ok(block) => match filter_outcome(block) {
            Ok(response) => Ok(response),
            Err(e) => Err(ProxyError::Filter(e)),
        },
    }
}

/// Decides the answer to a request from what the upstream node returned: the
/// filtered block where there is one, and otherwise a failure that names its
/// cause. Nothing is retried and nothing partial is answered.
pub fn respond(upstream: Result<Json, UpstreamError>) -> (reply: Reply)
    ensures
        reply_outcome(
            match upstream {
                Ok(block) => Ok(block@),
                Err(e) => Err(e),
            },
        ) == (match reply {
            Reply::Filtered(filtered) => Ok(filtered.response@),
            Reply::Failed(e) => Err(e),
        }),
        reply matches Reply::Filtered(filtered) ==> upstream matches Ok(block) && {
            &&& filtered.considered == transactions_of(block@).len()
            &&& filtered.retained == transactions_of(block@).filter(moving()).len()
        },
        reply.status() == STATUS_OK || reply.status() == STATUS_SERVER_ERROR,
        reply.status() == STATUS_OK <==> reply is Filtered,
{
    match upstream {
        Err(e) => Reply::Failed(ProxyError::Upstream(e)),
        Ok(block) => match filter_block(&block) {
            Ok(filtered) => Reply::Filtered(filtered),
            Err(e) => Reply::Failed(ProxyError::Filter(e)),
        },
    }
}

} // verus!
