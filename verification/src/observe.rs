//! What is recorded of a request: the shape of each stage and of a failure. Everything
//! here is an id, a name, a label or a size, never a value of a document.

use crate::error::{ErrorCode, RequestError, SpiFault};
use crate::pipeline::PipelineResponse;
use crate::text::views;
use crate::types::{
    field_names, injected, injected_fields, names, opt, BodyTransform, DocOp, DocView, EndpointKind,
    MigrationPhase, RequestCtx, Resolved, WriteAck, WriteOp,
};
use vstd::prelude::*;

verus! {

/// What a request was classified as.
#[derive(Debug)]
pub struct ClassifyInfo {
    pub endpoint: EndpointKind,
    pub logical_index: String,
}

/// The routing decision of a request.
#[derive(Debug)]
pub struct ResolveInfo {
    pub partition: String,
    pub placement_kind: &'static str,
    pub cluster: String,
    pub index: String,
    pub epoch: u64,
    pub inject_fields: Vec<String>,
    pub routing: bool,
    pub migration: MigrationPhase,
}

/// What was done to the document of a request.
#[derive(Debug)]
pub struct RewriteInfo {
    pub transform_kind: &'static str,
    pub body_bytes: usize,
}

/// Where a request was sent and how that went.
#[derive(Debug)]
pub struct DispatchInfo {
    pub cluster: String,
    pub upstream_status: u16,
    pub pool_reuse: bool,
}

/// What was answered.
#[derive(Clone, Copy, Debug, PartialEq, Eq, Structural)]
pub struct EgressInfo {
    pub status: u16,
    pub response_bytes: usize,
}

/// A failure: its code, whether to retry, what to do about it, and the partition where it
/// is known.
#[derive(Debug)]
pub struct ErrorContext {
    pub code: ErrorCode,
    pub retryable: bool,
    pub remediation: &'static str,
    pub partition: Option<String>,
}

/// How a request ended.
#[derive(Debug)]
pub enum Ending {
    Egress(EgressInfo),
    Failure(ErrorContext),
}

/// The classification of a request.
pub fn classify_info(ctx: &RequestCtx) -> (r: ClassifyInfo)
    ensures
        r.endpoint == ctx.endpoint,
        r.logical_index@ == ctx.logical_index@,
{
    ClassifyInfo { endpoint: ctx.endpoint, logical_index: ctx.logical_index.clone() }
}

/// The kind of placement: an index of its own, or one shared with other partitions, which
/// is what injected fields are for.
pub open spec fn placement_kind(t: BodyTransform) -> Seq<char> {
    if injected(t).len() == 0 {
        "dedicated"@
    } else {
        "shared_index"@
    }
}

/// Whether a transform sets `_routing`.
pub open spec fn sets_routing(t: BodyTransform) -> bool {
    match t {
        BodyTransform::ConstructId(rule) => rule.set_routing,
        BodyTransform::Both { id, .. } => id.set_routing,
        _ => false,
    }
}

fn routing_enabled(transform: &BodyTransform) -> (r: bool)
    ensures
        r == sets_routing(*transform),
{
    match transform {
        BodyTransform::ConstructId(rule) => rule.set_routing,
        BodyTransform::Both { id, .. } => id.set_routing,
        BodyTransform::Verbatim | BodyTransform::Inject(_) => false,
    }
}

/// The record of a routing decision.
pub fn resolve_info(resolved: &Resolved) -> (r: ResolveInfo)
    ensures
        r.partition@ == resolved.partition@,
        r.placement_kind@ == placement_kind(resolved.decision.body_transform),
        r.cluster@ == resolved.decision.target.cluster@,
        r.index@ == resolved.decision.target.index@,
        r.epoch == resolved.decision.epoch,
        views(r.inject_fields@) == names(injected(resolved.decision.body_transform)),
        r.routing == sets_routing(resolved.decision.body_transform),
        r.migration == resolved.migration,
{
    let decision = &resolved.decision;
    let fields = injected_fields(&decision.body_transform);
    ResolveInfo {
        partition: resolved.partition.clone(),
        placement_kind: if fields.len() == 0 {
            "dedicated"
        } else {
            "shared_index"
        },
        cluster: decision.target.cluster.clone(),
        index: decision.target.index.clone(),
        epoch: decision.epoch,
        inject_fields: field_names(fields),
        routing: routing_enabled(&decision.body_transform),
        migration: resolved.migration,
    }
}

/// The label of a migration phase.
pub open spec fn phase_label(phase: MigrationPhase) -> Seq<char> {
    match phase {
        MigrationPhase::Settled => "settled"@,
        MigrationPhase::Draining => "draining"@,
        MigrationPhase::Cutover => "cutover"@,
    }
}

impl MigrationPhase {
    /// The label of the phase.
    pub fn label(self) -> (r: &'static str)
        ensures
            r@ == phase_label(self),
    {
        match self {
            MigrationPhase::Settled => "settled",
            MigrationPhase::Draining => "draining",
            MigrationPhase::Cutover => "cutover",
        }
    }
}

/// The label of a transform.
pub open spec fn kind_of(t: BodyTransform) -> Seq<char> {
    match t {
        BodyTransform::Verbatim => "none"@,
        BodyTransform::Inject(_) => "inject"@,
        BodyTransform::ConstructId(_) => "construct_id"@,
        BodyTransform::Both { .. } => "inject+construct_id"@,
    }
}

fn transform_kind(transform: &BodyTransform) -> (r: &'static str)
    ensures
        r@ == kind_of(*transform),
{
    match transform {
        BodyTransform::Verbatim => "none",
        BodyTransform::Inject(_) => "inject",
        BodyTransform::ConstructId(_) => "construct_id",
        BodyTransform::Both { .. } => "inject+construct_id",
    }
}

/// The length of the body a document operation sends.
pub open spec fn body_len(d: DocView) -> nat {
    match d {
        DocView::Index { body, .. } => body.len(),
        DocView::Create { body, .. } => body.len(),
        DocView::Update { body, .. } => body.len(),
        DocView::Delete { .. } => 0,
    }
}

/// The record of a rewrite: the kind of transform and the size of the first document.
pub fn rewrite_info(resolved: &Resolved, batch: &[WriteOp]) -> (r: RewriteInfo)
    ensures
        r.transform_kind@ == kind_of(resolved.decision.body_transform),
        r.body_bytes == (if batch@.len() == 0 {
            0
        } else {
            body_len(batch@[0].doc@)
        }),
{
    let body_bytes: usize = if batch.len() == 0 {
        0
    } else {
        match &batch[0].doc {
            DocOp::Index { body, .. } => body.len(),
            DocOp::Create { body, .. } => body.len(),
            DocOp::Update { body, .. } => body.len(),
            DocOp::Delete { .. } => 0,
        }
    };
    RewriteInfo { transform_kind: transform_kind(&resolved.decision.body_transform), body_bytes }
}

/// The record of a write that was sent: the status of its first operation.
pub fn dispatch_info(resolved: &Resolved, ack: &WriteAck) -> (r: DispatchInfo)
    ensures
        r.cluster@ == resolved.decision.target.cluster@,
        r.upstream_status == (if ack.results@.len() == 0 {
            0
        } else {
            ack.results@[0].status
        }),
        r.pool_reuse == ack.pool_reuse,
{
    DispatchInfo {
        cluster: resolved.decision.target.cluster.clone(),
        upstream_status: if ack.results.len() == 0 {
            0
        } else {
            ack.results[0].status
        },
        pool_reuse: ack.pool_reuse,
    }
}

/// The record of a read that was sent.
pub fn read_dispatch_info(resolved: &Resolved, upstream_status: u16, pool_reuse: bool) -> (r: DispatchInfo)
    ensures
        r.cluster@ == resolved.decision.target.cluster@,
        r.upstream_status == upstream_status,
        r.pool_reuse == pool_reuse,
{
    DispatchInfo {
        cluster: resolved.decision.target.cluster.clone(),
        upstream_status,
        pool_reuse,
    }
}

/// What to do about a failure.
pub open spec fn advice(e: RequestError) -> Seq<char> {
    match e {
        RequestError::Spi(spi) => match spi.fault {
            SpiFault::PartitionUnresolved => "ensure the request carries the configured partition key"@,
            SpiFault::PlacementMissing { .. } => "register a placement for the partition"@,
            SpiFault::PlacementBackend => "retry; the placement backend is unavailable"@,
            SpiFault::UnsupportedEndpoint { .. } => "endpoint is not supported for tenancy rewrite in this version"@,
            SpiFault::IdRuleMissingPartition => "fix the tenancy configuration"@,
            SpiFault::PrincipalAttrMissing => "fix the tenancy configuration"@,
            SpiFault::Other => "routing failed; consult the error code reference"@,
        },
        RequestError::Rewrite(_) => "the document body is malformed or collides with a reserved field"@,
        RequestError::Sink(_) => "the upstream cluster failed; retry if retryable"@,
        RequestError::StaleEpoch { .. } => "the partition is migrating; retry to re-resolve the new placement"@,
        RequestError::Cursor { .. } => "re-issue the search to open a new cursor"@,
        RequestError::PayloadTooLarge { .. } => "split the request into smaller ones"@,
        RequestError::Internal { .. } => "internal error; inspect logs"@,
    }
}

/// A short hint what to do about a failure.
pub fn remediation(err: &RequestError) -> (r: &'static str)
    ensures
        r@ == advice(*err),
{
    match err {
        RequestError::Spi(spi) => match spi.fault {
            SpiFault::PartitionUnresolved => "ensure the request carries the configured partition key",
            SpiFault::PlacementMissing { .. } => "register a placement for the partition",
            SpiFault::PlacementBackend => "retry; the placement backend is unavailable",
            SpiFault::UnsupportedEndpoint { .. } => "endpoint is not supported for tenancy rewrite in this version",
            SpiFault::IdRuleMissingPartition | SpiFault::PrincipalAttrMissing => "fix the tenancy configuration",
            SpiFault::Other => "routing failed; consult the error code reference",
        },
        RequestError::Rewrite(_) => "the document body is malformed or collides with a reserved field",
        RequestError::Sink(_) => "the upstream cluster failed; retry if retryable",
        RequestError::StaleEpoch { .. } => "the partition is migrating; retry to re-resolve the new placement",
        RequestError::Cursor { .. } => "re-issue the search to open a new cursor",
        RequestError::PayloadTooLarge { .. } => "split the request into smaller ones",
        RequestError::Internal { .. } => "internal error; inspect logs",
    }
}

/// The partition a failure names: the one without a placement.
pub open spec fn failed_partition(e: RequestError) -> Option<Seq<char>> {
    match e {
        RequestError::Spi(spi) => match spi.fault {
            SpiFault::PlacementMissing { partition } => Some(partition@),
            _ => None,
        },
        _ => None,
    }
}

/// The record of a failure.
pub fn error_context(err: &RequestError) -> (r: ErrorContext)
    ensures
        r.code == err.spec_code(),
        r.retryable == err.spec_retryable(),
        r.remediation@ == advice(*err),
        opt(r.partition) == failed_partition(*err),
{
    let partition = match err {
        RequestError::Spi(spi) => match &spi.fault {
            SpiFault::PlacementMissing { partition } => Some(partition.clone()),
            _ => None,
        },
        _ => None,
    };
    ErrorContext {
        code: err.code(),
        retryable: err.retryable(),
        remediation: remediation(err),
        partition,
    }
}

/// The record of how a buffered request ended.
pub fn ending(result: &Result<PipelineResponse, RequestError>) -> (r: Ending)
    ensures
        match result {
            Ok(response) => r == Ending::Egress(
                EgressInfo { status: response.status, response_bytes: response.body@.len() as usize },
            ),
            Err(e) => r is Failure && r->Failure_0.code == e.spec_code() && r->Failure_0.retryable
                == e.spec_retryable() && r->Failure_0.remediation@ == advice(*e) && opt(
                r->Failure_0.partition,
            ) == failed_partition(*e),
        },
{
    match result {
        Ok(response) => Ending::Egress(
            EgressInfo { status: response.status, response_bytes: response.body.len() },
        ),
        Err(e) => Ending::Failure(error_context(e)),
    }
}

/// The record of how a streamed request ended: the length of its body is not known until
/// it has flowed, and counts as zero.
pub fn streamed_ending(result: Result<u16, &RequestError>) -> (r: Ending)
    ensures
        match result {
            Ok(status) => r == Ending::Egress(EgressInfo { status, response_bytes: 0 }),
            Err(e) => r is Failure && r->Failure_0.code == e.spec_code() && r->Failure_0.retryable
                == e.spec_retryable() && r->Failure_0.remediation@ == advice(*e) && opt(
                r->Failure_0.partition,
            ) == failed_partition(*e),
        },
{
    match result {
        Ok(status) => Ending::Egress(EgressInfo { status, response_bytes: 0 }),
        Err(e) => Ending::Failure(error_context(e)),
    }
}

/// Every failure comes with a hint what to do about it.
pub proof fn law_every_failure_has_advice(e: RequestError)
    ensures
        advice(e).len() > 0,
{
    reveal_strlit("ensure the request carries the configured partition key");
    reveal_strlit("register a placement for the partition");
    reveal_strlit("retry; the placement backend is unavailable");
    reveal_strlit("endpoint is not supported for tenancy rewrite in this version");
    reveal_strlit("fix the tenancy configuration");
    reveal_strlit("routing failed; consult the error code reference");
    reveal_strlit("the document body is malformed or collides with a reserved field");
    reveal_strlit("the upstream cluster failed; retry if retryable");
    reveal_strlit("the partition is migrating; retry to re-resolve the new placement");
    reveal_strlit("re-issue the search to open a new cursor");
    reveal_strlit("split the request into smaller ones");
    reveal_strlit("internal error; inspect logs");
}

} // verus!
