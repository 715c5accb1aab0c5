//! Why a request failed, with the stable code and the retry advice that go with it.
//! No error carries a tenant's data.

use crate::text::{decimal, decimal_text};
use crate::types::EndpointKind;
use vstd::prelude::*;
use vstd::string::*;

verus! {

/// The stable code of a failure.
#[derive(Clone, Copy, Debug, PartialEq, Eq, Structural)]
pub enum ErrorCode {
    PartitionUnresolved,
    PlacementMissing,
    PlacementBackendUnavailable,
    UnsupportedEndpoint,
    UpstreamFailed,
    StaleEpoch,
    CursorUnresolvable,
    PayloadTooLarge,
    Other,
}

/// What went wrong while routing.
#[derive(Debug)]
pub enum SpiFault {
    PartitionUnresolved,
    PlacementMissing { partition: String },
    PlacementBackend,
    UnsupportedEndpoint { endpoint: EndpointKind },
    IdRuleMissingPartition,
    PrincipalAttrMissing,
    Other,
}

/// A routing failure as the router reports it.
#[derive(Debug)]
pub struct SpiError {
    pub fault: SpiFault,
    pub code: ErrorCode,
    pub retryable: bool,
}

/// A document or query that cannot be rewritten.
#[derive(Clone, Copy, Debug, PartialEq, Eq, Structural)]
pub enum RewriteError {
    InvalidJson,
    NotAnObject,
    ReservedFieldCollision,
    IrreversibleId,
    MalformedBulkAction,
    Other,
}

/// A delivery failure as the sink reports it.
#[derive(Clone, Copy, Debug, PartialEq, Eq, Structural)]
pub struct SinkError {
    pub code: ErrorCode,
    pub retryable: bool,
}

/// A failure anywhere on the request path.
#[derive(Debug)]
#[non_exhaustive]
pub enum RequestError {
    /// Routing failed.
    Spi(SpiError),
    /// A body could not be rewritten.
    Rewrite(RewriteError),
    /// The operation was not delivered, or was rejected upstream.
    Sink(SinkError),
    /// The write was stamped with a placement epoch that a migration has passed.
    StaleEpoch { stamped: u64 },
    /// A scroll or point-in-time cursor cannot be routed.
    Cursor { reason: &'static str },
    /// The request is larger than the proxy holds.
    PayloadTooLarge { reason: &'static str },
    /// An invariant of the proxy itself does not hold.
    Internal { reason: &'static str },
}

impl SpiError {
    /// The endpoint is not served.
    pub fn unsupported(endpoint: EndpointKind) -> (r: Self)
        ensures
            r.fault == (SpiFault::UnsupportedEndpoint { endpoint }),
            r.code is UnsupportedEndpoint,
            !r.retryable,
    {
        SpiError {
            fault: SpiFault::UnsupportedEndpoint { endpoint },
            code: ErrorCode::UnsupportedEndpoint,
            retryable: false,
        }
    }
}

impl RequestError {
    /// The code of the failure.
    pub open spec fn spec_code(self) -> ErrorCode {
        match self {
            RequestError::Spi(e) => e.code,
            RequestError::Sink(e) => e.code,
            RequestError::StaleEpoch { .. } => ErrorCode::StaleEpoch,
            RequestError::Cursor { .. } => ErrorCode::CursorUnresolvable,
            RequestError::PayloadTooLarge { .. } => ErrorCode::PayloadTooLarge,
            RequestError::Rewrite(_) | RequestError::Internal { .. } => ErrorCode::UnsupportedEndpoint,
        }
    }

    /// Whether trying again can help.
    pub open spec fn spec_retryable(self) -> bool {
        match self {
            RequestError::Spi(e) => e.retryable,
            RequestError::Sink(e) => e.retryable,
            RequestError::StaleEpoch { .. } => true,
            _ => false,
        }
    }

    /// The stable code of the failure.
    pub fn code(&self) -> (r: ErrorCode)
        ensures
            r == self.spec_code(),
    {
        match self {
            RequestError::Spi(e) => e.code,
            RequestError::Sink(e) => e.code,
            RequestError::StaleEpoch { .. } => ErrorCode::StaleEpoch,
            RequestError::Cursor { .. } => ErrorCode::CursorUnresolvable,
            RequestError::PayloadTooLarge { .. } => ErrorCode::PayloadTooLarge,
            RequestError::Rewrite(_) | RequestError::Internal { .. } => ErrorCode::UnsupportedEndpoint,
        }
    }

    /// Whether the caller may retry.
    pub fn retryable(&self) -> (r: bool)
        ensures
            r == self.spec_retryable(),
    {
        match self {
            RequestError::Spi(e) => e.retryable,
            RequestError::Sink(e) => e.retryable,
            RequestError::StaleEpoch { .. } => true,
            RequestError::Cursor { .. }
            | RequestError::PayloadTooLarge { .. }
            | RequestError::Rewrite(_)
            | RequestError::Internal { .. } => false,
        }
    }

    /// The failure in words; `cause` is the text of the failure it was built from.
    pub open spec fn text(self, cause: Seq<char>) -> Seq<char> {
        match self {
            RequestError::Spi(_) => "routing failed: "@ + cause,
            RequestError::Rewrite(_) => "rewrite failed: "@ + cause,
            RequestError::Sink(_) => "sink failed: "@ + cause,
            RequestError::StaleEpoch { stamped } => "stale placement epoch "@ + decimal_text(
                stamped as nat,
            ) + " for a migrating partition"@,
            RequestError::Cursor { reason } => "cursor unresolvable: "@ + reason@,
            RequestError::PayloadTooLarge { reason } => "payload too large: "@ + reason@,
            RequestError::Internal { reason } => "internal invariant violated: "@ + reason@,
        }
    }

    /// The failure in words. `cause` is the text of the routing, rewriting or sink failure it
    /// was built from.
    pub fn message(&self, cause: &str) -> (r: String)
        ensures
            r@ == self.text(cause@),
    {
        let (head, middle, tail) = match self {
            RequestError::Spi(_) => ("routing failed: ", cause.to_owned(), ""),
            RequestError::Rewrite(_) => ("rewrite failed: ", cause.to_owned(), ""),
            RequestError::Sink(_) => ("sink failed: ", cause.to_owned(), ""),
            RequestError::StaleEpoch { stamped } => (
                "stale placement epoch ",
                decimal(*stamped),
                " for a migrating partition",
            ),
            RequestError::Cursor { reason } => ("cursor unresolvable: ", (*reason).to_owned(), ""),
            RequestError::PayloadTooLarge { reason } => (
                "payload too large: ",
                (*reason).to_owned(),
                "",
            ),
            RequestError::Internal { reason } => (
                "internal invariant violated: ",
                (*reason).to_owned(),
                "",
            ),
        };
        let mut out = head.to_owned();
        out.append(middle.as_str());
        out.append(tail);
        proof {
            reveal_strlit("");
            assert(out@ =~= self.text(cause@));
        }
        out
    }
}

} // verus!
