//! Administrative pass-through. Administrative endpoints carry no tenancy, so they
//! are rejected unless an operator allows a path through to a named cluster.

use crate::error::{RequestError, SpiError, SpiFault};
use crate::pipeline::PipelineResponse;
use crate::text::{contains, split, split_at, starts_with, views};
use crate::types::{clone_bytes, clone_text, opt, CursorOp, CursorOutcome, RequestCtx};
use vstd::prelude::*;

verus! {

/// Which administrative paths are let through, and to which cluster.
#[derive(Debug)]
pub struct AdminPolicy {
    cluster: String,
    allowed_prefixes: Vec<String>,
    endpoint: Option<String>,
}

impl AdminPolicy {
    pub closed spec fn cluster(self) -> Seq<char> {
        self.cluster@
    }

    pub closed spec fn prefixes(self) -> Seq<Seq<char>> {
        views(self.allowed_prefixes@)
    }

    pub closed spec fn endpoint(self) -> Option<Seq<char>> {
        opt(self.endpoint)
    }

    /// A path that may pass: under an allowed prefix, and without a `..` segment that
    /// could lead out of it.
    pub open spec fn permits(self, path: Seq<char>) -> bool {
        &&& !split(path, '/').contains(".."@)
        &&& exists|i: int|
            0 <= i < self.prefixes().len() && (#[trigger] self.prefixes()[i]).is_prefix_of(path)
    }

    /// Lets paths under one of `allowed_prefixes` through to `cluster`.
    pub fn new(cluster: String, allowed_prefixes: Vec<String>) -> (r: Self)
        ensures
            r.cluster() == cluster@,
            r.prefixes() == views(allowed_prefixes@),
            r.endpoint() is None,
    {
        AdminPolicy { cluster, allowed_prefixes, endpoint: None }
    }

    /// The policy with the cluster's base URL.
    pub fn with_endpoint(self, endpoint: String) -> (r: Self)
        ensures
            r.cluster() == self.cluster(),
            r.prefixes() == self.prefixes(),
            r.endpoint() == Some(endpoint@),
    {
        AdminPolicy {
            cluster: self.cluster,
            allowed_prefixes: self.allowed_prefixes,
            endpoint: Some(endpoint),
        }
    }

    /// The cluster that answers administrative requests.
    pub fn target_cluster(&self) -> (r: &str)
        ensures
            r@ == self.cluster(),
    {
        self.cluster.as_str()
    }

    /// Whether `path` may pass.
    pub fn allows(&self, path: &str) -> (r: bool)
        ensures
            r == self.permits(path@),
    {
        if contains(split_at(path, '/').as_slice(), "..") {
            return false;
        }
        let mut i: usize = 0;
        while i < self.allowed_prefixes.len()
            invariant
                0 <= i <= self.allowed_prefixes@.len(),
                !split(path@, '/').contains(".."@),
                forall|j: int| 0 <= j < i ==> !(#[trigger] self.prefixes()[j]).is_prefix_of(path@),
            decreases self.allowed_prefixes@.len() - i,
        {
            assert(self.prefixes()[i as int] == self.allowed_prefixes@[i as int]@);
            if starts_with(path, self.allowed_prefixes[i].as_str()) {
                return true;
            }
            i += 1;
        }
        assert(self.prefixes().len() == self.allowed_prefixes@.len());
        false
    }
}

/// The request is refused as an endpoint that is not served.
pub open spec fn is_unsupported(e: RequestError, ctx: RequestCtx) -> bool {
    &&& e is Spi
    &&& e->Spi_0.fault == (SpiFault::UnsupportedEndpoint { endpoint: ctx.endpoint })
    &&& e->Spi_0.code is UnsupportedEndpoint
    &&& !e->Spi_0.retryable
}

/// The request goes to `cluster` as it came: method, path, body and query.
pub open spec fn is_verbatim(op: CursorOp, ctx: RequestCtx, cluster: Seq<char>) -> bool {
    &&& op.cluster@ == cluster
    &&& op.method@ == ctx.method@
    &&& op.path@ == ctx.path@
    &&& op.body@ == ctx.body@
    &&& opt(op.query) == opt(ctx.query)
}

/// The first of two optional texts that is there.
pub open spec fn either(a: Option<Seq<char>>, b: Option<Seq<char>>) -> Option<Seq<char>> {
    if a is Some {
        a
    } else {
        b
    }
}

/// Forwards an administrative request that the policy permits, and refuses every
/// other one. `known_endpoint` is the base URL the router knows for the policy's
/// cluster; the policy's own one goes first.
pub fn admin(
    policy: Option<&AdminPolicy>,
    ctx: &RequestCtx,
    known_endpoint: Option<String>,
) -> (r: Result<CursorOp, RequestError>)
    ensures
        match policy {
            Some(p) if p.permits(ctx.path@) => {
                &&& r is Ok
                &&& is_verbatim(r->Ok_0, *ctx, p.cluster())
                &&& opt(r->Ok_0.endpoint) == either(p.endpoint(), opt(known_endpoint))
                &&& r->Ok_0.protocol is None
            },
            _ => r is Err && is_unsupported(r->Err_0, *ctx),
        },
{
    if let Some(p) = policy {
        if p.allows(ctx.path.as_str()) {
            let endpoint = match &p.endpoint {
                Some(url) => Some(url.clone()),
                None => known_endpoint,
            };
            return Ok(
                CursorOp {
                    cluster: p.cluster.clone(),
                    method: ctx.method.clone(),
                    path: ctx.path.clone(),
                    body: clone_bytes(ctx.body.as_slice()),
                    endpoint,
                    query: clone_text(&ctx.query),
                    protocol: None,
                },
            );
        }
    }
    Err(RequestError::Spi(SpiError::unsupported(ctx.endpoint)))
}

/// The answer to a forwarded request: the upstream's, its content type included.
pub fn forwarded(outcome: CursorOutcome) -> (r: PipelineResponse)
    ensures
        r == (PipelineResponse {
            status: outcome.status,
            body: outcome.body,
            content_type: outcome.content_type,
        }),
{
    PipelineResponse::json(outcome.status, outcome.body).with_content_type(outcome.content_type)
}

/// A path with a `..` segment never passes, whatever the policy allows.
pub proof fn law_no_path_climbs_out(policy: AdminPolicy, path: Seq<char>)
    requires
        split(path, '/').contains(".."@),
    ensures
        !policy.permits(path),
{
}

/// A policy without prefixes lets nothing through.
pub proof fn law_no_prefix_permits_nothing(policy: AdminPolicy, path: Seq<char>)
    requires
        policy.prefixes().len() == 0,
    ensures
        !policy.permits(path),
{
}

} // verus!
