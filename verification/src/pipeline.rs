//! The response of a handled request, and the decisions that span endpoints.

use crate::admin::{is_unsupported, is_verbatim, AdminPolicy};
use crate::asyncwrite::WriteMode;
use crate::error::{RequestError, SpiError};
use crate::observe::{advice, ending, failed_partition, EgressInfo, Ending};
use crate::passthrough::PassthroughPolicy;
use crate::retry::RetryPolicy;
use crate::types::{
    clone_text, header, header_of, opt, CursorOp, EndpointKind, Protocol, RequestCtx, TraceContext,
};
use vstd::prelude::*;

verus! {

/// How many explanations of recent requests are kept.
pub const EXPLAIN_CAPACITY: usize = 1024;

/// How many explanations the break-glass tape holds.
pub const BREAK_GLASS_CAPACITY: usize = 256;

/// What is answered to the client.
#[derive(Debug)]
pub struct PipelineResponse {
    pub status: u16,
    pub body: Vec<u8>,
    /// The content type; `None` stands for `application/json`. It is set only where
    /// an upstream answer is forwarded verbatim.
    pub content_type: Option<String>,
}

impl PipelineResponse {
    /// A JSON response.
    pub fn json(status: u16, body: Vec<u8>) -> (r: Self)
        ensures
            r == (PipelineResponse { status, body, content_type: None }),
    {
        PipelineResponse { status, body, content_type: None }
    }

    /// The response with the upstream content type.
    pub fn with_content_type(self, content_type: Option<String>) -> (r: Self)
        ensures
            r == (PipelineResponse { content_type, ..self }),
    {
        PipelineResponse { status: self.status, body: self.body, content_type }
    }

    /// A JSON response with this status and these body bytes.
    pub open spec fn is_json(self, status: int, body: Seq<u8>) -> bool {
        self.status == status && self.body@ == body && self.content_type is None
    }
}

/// How much is recorded of a request: the higher the rank, the more.
#[derive(Clone, Copy, Debug, PartialEq, Eq, Structural)]
pub struct DiagLevel {
    pub rank: u8,
}

/// The rank of the level that records nothing.
pub const OFF: u8 = 0;

/// The rank of the level that records the shape of a request.
pub const SHAPE: u8 = 1;

/// The higher of two levels.
pub open spec fn higher(a: DiagLevel, b: DiagLevel) -> DiagLevel {
    if a.rank >= b.rank {
        a
    } else {
        b
    }
}

impl DiagLevel {
    /// The higher of two levels.
    pub fn at_least(self, other: DiagLevel) -> (r: DiagLevel)
        ensures
            r == higher(self, other),
    {
        if self.rank >= other.rank {
            self
        } else {
            other
        }
    }
}

/// What the published directives that select a request ask for.
#[derive(Clone, Copy, Debug)]
pub struct Published {
    pub level: DiagLevel,
    pub ring_buffer: bool,
    pub capture: bool,
}

/// What a verified directive in the request's own header asks for.
#[derive(Clone, Copy, Debug)]
pub struct HeaderDirective {
    /// The level, where the directive applies to the request.
    pub level: Option<DiagLevel>,
    pub ring_buffer: bool,
    pub capture: bool,
}

/// What is done about the diagnostics of one request.
#[derive(Clone, Copy, Debug, PartialEq, Eq, Structural)]
pub struct Diagnostics {
    pub level: DiagLevel,
    /// Whether its explanation goes onto the break-glass tape.
    pub capture: bool,
    /// Whether the request is teed to the traffic capture.
    pub traffic_capture: bool,
}

/// What is left to do about a request that was handled.
#[derive(Debug)]
pub struct Conclusion {
    /// How it ended, for its explanation.
    pub ending: Ending,
    /// Whether its explanation goes onto the break-glass tape.
    pub tape: bool,
    /// Whether its span is exported.
    pub export: bool,
    /// Whether it is teed to the traffic capture.
    pub traffic_capture: bool,
}

/// Where a request goes.
#[derive(Debug)]
pub enum Route {
    /// It passes through as it is.
    Forward(CursorOp),
    /// It is served under tenancy.
    Serve(EndpointKind),
}

/// A streamed request that passes through; its body follows as it arrives.
#[derive(Debug)]
pub struct ForwardOp {
    pub cluster: String,
    pub method: String,
    pub path: String,
    pub endpoint: Option<String>,
    pub query: Option<String>,
    pub protocol: Protocol,
}

/// The settings of a proxy, and the decisions they lead to.
#[derive(Debug)]
pub struct Pipeline {
    pub retry: RetryPolicy,
    pub service_name: String,
    /// The level of every request before any directive.
    pub baseline: DiagLevel,
    /// Whether every request is teed to the traffic capture.
    pub baseline_capture: bool,
    /// Whether spans are exported.
    pub exporting: bool,
    /// Whether cursors are pinned to their cluster by a signed envelope.
    pub affinity: bool,
    pub admin_policy: Option<AdminPolicy>,
    pub passthrough: Option<PassthroughPolicy>,
    /// The write mode of a request that selects none.
    pub baseline_write_mode: WriteMode,
    /// Whether asynchronous writes have a queue.
    pub queue_enabled: bool,
    pub delete_by_query_expansion: bool,
}

/// The write mode that a header value selects, else the baseline.
pub open spec fn selected_mode(header: Option<Seq<char>>, baseline: WriteMode) -> WriteMode {
    match header {
        Some(value) => match WriteMode::named(value) {
            Some(mode) => mode,
            None => baseline,
        },
        None => baseline,
    }
}

impl Pipeline {
    /// A proxy in its default settings: everything that has to be asked for is off, and
    /// writes are synchronous.
    pub fn new() -> (r: Self)
        ensures
            r.retry.max_attempts == 3,
            r.retry.base_backoff == 50_000_000,
            r.retry.max_backoff == 1_000_000_000,
            r.service_name@ == "osproxy"@,
            r.baseline.rank == SHAPE,
            !r.baseline_capture,
            !r.exporting,
            !r.affinity,
            r.admin_policy is None,
            r.passthrough is None,
            r.baseline_write_mode is Sync,
            !r.queue_enabled,
            !r.delete_by_query_expansion,
    {
        Pipeline {
            retry: RetryPolicy::default(),
            service_name: "osproxy".to_owned(),
            baseline: DiagLevel { rank: SHAPE },
            baseline_capture: false,
            exporting: false,
            affinity: false,
            admin_policy: None,
            passthrough: None,
            baseline_write_mode: WriteMode::Sync,
            queue_enabled: false,
            delete_by_query_expansion: false,
        }
    }

    /// Lets a delete-by-query be expanded in the asynchronous mode.
    pub fn with_delete_by_query_expansion(self, on: bool) -> (r: Self)
        ensures
            r == (Pipeline { delete_by_query_expansion: on, ..self }),
    {
        Pipeline { delete_by_query_expansion: on, ..self }
    }

    /// Sets the write mode of requests that select none.
    pub fn with_baseline_write_mode(self, mode: WriteMode) -> (r: Self)
        ensures
            r == (Pipeline { baseline_write_mode: mode, ..self }),
    {
        Pipeline { baseline_write_mode: mode, ..self }
    }

    /// Says whether asynchronous writes have a queue.
    pub fn with_write_queue(self, enabled: bool) -> (r: Self)
        ensures
            r == (Pipeline { queue_enabled: enabled, ..self }),
    {
        Pipeline { queue_enabled: enabled, ..self }
    }

    /// Lets the requests that `policy` selects pass through.
    pub fn with_passthrough(self, policy: PassthroughPolicy) -> (r: Self)
        ensures
            r == (Pipeline { passthrough: Some(policy), ..self }),
    {
        Pipeline { passthrough: Some(policy), ..self }
    }

    /// Lets the administrative requests that `policy` permits pass through.
    pub fn with_admin_passthrough(self, policy: AdminPolicy) -> (r: Self)
        ensures
            r == (Pipeline { admin_policy: Some(policy), ..self }),
    {
        Pipeline { admin_policy: Some(policy), ..self }
    }

    /// Pins cursors to their cluster: there is a signer for their envelopes.
    pub fn with_cursor_signer(self) -> (r: Self)
        ensures
            r == (Pipeline { affinity: true, ..self }),
    {
        Pipeline { affinity: true, ..self }
    }

    /// Sets how often and how patiently the placement backend is asked.
    pub fn with_retry_policy(self, retry: RetryPolicy) -> (r: Self)
        ensures
            r == (Pipeline { retry, ..self }),
    {
        Pipeline { retry, ..self }
    }

    /// Says whether spans are exported.
    pub fn with_exporter(self, enabled: bool) -> (r: Self)
        ensures
            r == (Pipeline { exporting: enabled, ..self }),
    {
        Pipeline { exporting: enabled, ..self }
    }

    /// Sets the service name on exported spans.
    pub fn with_service_name(self, service_name: String) -> (r: Self)
        ensures
            r == (Pipeline { service_name, ..self }),
    {
        Pipeline { service_name, ..self }
    }

    /// Sets the level of every request before any directive.
    pub fn with_baseline_level(self, baseline: DiagLevel) -> (r: Self)
        ensures
            r == (Pipeline { baseline, ..self }),
    {
        Pipeline { baseline, ..self }
    }

    /// Sets whether every request is teed to the traffic capture.
    pub fn with_baseline_capture(self, on: bool) -> (r: Self)
        ensures
            r == (Pipeline { baseline_capture: on, ..self }),
    {
        Pipeline { baseline_capture: on, ..self }
    }

    fn resolve_write_mode(&self, value: Option<&str>) -> (r: WriteMode)
        ensures
            r == selected_mode(
                match value {
                    Some(v) => Some(v@),
                    None => None,
                },
                self.baseline_write_mode,
            ),
    {
        match value {
            Some(v) => match WriteMode::parse(v) {
                Some(mode) => mode,
                None => self.baseline_write_mode,
            },
            None => self.baseline_write_mode,
        }
    }

    /// The write mode of a request: the one its `X-Write-Mode` header names, else the
    /// baseline. A mode that is not known falls back to the baseline too.
    pub fn write_mode(&self, ctx: &RequestCtx) -> (r: WriteMode)
        ensures
            r == selected_mode(
                header_of(ctx.headers@, "x-write-mode"@),
                self.baseline_write_mode,
            ),
    {
        self.resolve_write_mode(header(ctx.headers.as_slice(), "x-write-mode"))
    }

    /// Whether a request with these headers writes synchronously: only then can a bulk be
    /// taken apart while it arrives.
    pub fn is_sync_write(&self, headers: &[(String, String)]) -> (r: bool)
        ensures
            r == (selected_mode(header_of(headers@, "x-write-mode"@), self.baseline_write_mode)
                is Sync),
    {
        matches!(self.resolve_write_mode(header(headers, "x-write-mode")), WriteMode::Sync)
    }

    /// Whether a request for `logical_index` passes through, and so can be streamed.
    pub fn is_passthrough(&self, logical_index: &str) -> (r: bool)
        ensures
            r == (self.passthrough matches Some(p) && p.selects(logical_index@)),
    {
        match &self.passthrough {
            Some(policy) => policy.matches_index(logical_index),
            None => false,
        }
    }

    /// The trace context that goes along upstream: the proxy's own hop where it exports
    /// spans, and none where it does not, so that the client's trace stays its own.
    pub fn upstream_trace(&self, hop: TraceContext) -> (r: Option<TraceContext>)
        ensures
            r == (if self.exporting {
                Some(hop)
            } else {
                None
            }),
    {
        if self.exporting {
            Some(hop)
        } else {
            None
        }
    }

    /// Where a request goes. What the passthrough policy selects skips tenancy; everything
    /// else is served under it, and what cannot be served is refused.
    pub fn dispatch(&self, ctx: &RequestCtx) -> (r: Result<Route, RequestError>)
        ensures
            match self.passthrough {
                Some(p) if p.selects(ctx.logical_index@) => {
                    &&& r is Ok
                    &&& r->Ok_0 is Forward
                    &&& is_verbatim(r->Ok_0->Forward_0, *ctx, p.cluster@)
                    &&& opt(r->Ok_0->Forward_0.endpoint) == opt(p.endpoint)
                    &&& r->Ok_0->Forward_0.protocol == Some(ctx.protocol)
                },
                _ => if ctx.endpoint is Unknown {
                    r is Err && is_unsupported(r->Err_0, *ctx)
                } else {
                    r == Ok::<Route, RequestError>(Route::Serve(ctx.endpoint))
                },
            },
    {
        if let Some(policy) = &self.passthrough {
            if policy.matches(ctx) {
                return Ok(Route::Forward(policy.forward(ctx)));
            }
        }
        if matches!(ctx.endpoint, EndpointKind::Unknown) {
            Err(RequestError::Spi(SpiError::unsupported(ctx.endpoint)))
        } else {
            Ok(Route::Serve(ctx.endpoint))
        }
    }

    /// A streamed request as it passes through; without a passthrough policy there is
    /// nowhere for it to go.
    pub fn forward_streamed(&self, ctx: &RequestCtx) -> (r: Result<ForwardOp, RequestError>)
        ensures
            match self.passthrough {
                Some(p) => {
                    &&& r is Ok
                    &&& r->Ok_0.cluster@ == p.cluster@
                    &&& r->Ok_0.method@ == ctx.method@
                    &&& r->Ok_0.path@ == ctx.path@
                    &&& opt(r->Ok_0.endpoint) == opt(p.endpoint)
                    &&& opt(r->Ok_0.query) == opt(ctx.query)
                    &&& r->Ok_0.protocol == ctx.protocol
                },
                None => r is Err && is_unsupported(r->Err_0, *ctx),
            },
    {
        match &self.passthrough {
            Some(policy) => Ok(
                ForwardOp {
                    cluster: policy.cluster.clone(),
                    method: ctx.method.clone(),
                    path: ctx.path.clone(),
                    endpoint: clone_text(&policy.endpoint),
                    query: clone_text(&ctx.query),
                    protocol: ctx.protocol,
                },
            ),
            None => Err(RequestError::Spi(SpiError::unsupported(ctx.endpoint))),
        }
    }

    /// What the diagnostics of a request come to.
    pub open spec fn verdict(
        self,
        published: Published,
        from_header: Option<HeaderDirective>,
    ) -> Diagnostics {
        let base = Diagnostics {
            level: higher(self.baseline, published.level),
            capture: published.ring_buffer,
            traffic_capture: self.baseline_capture || published.capture,
        };
        match from_header {
            Some(d) => match d.level {
                Some(level) => Diagnostics {
                    level: higher(base.level, level),
                    capture: base.capture || d.ring_buffer,
                    traffic_capture: base.traffic_capture || d.capture,
                },
                None => base,
            },
            None => base,
        }
    }

    /// Decides about the diagnostics of a request: the baseline, raised by the published
    /// directives that select it, and by the directive in its own header where that one
    /// verified and applies.
    pub fn diagnostics(
        &self,
        published: Published,
        from_header: Option<HeaderDirective>,
    ) -> (r: Diagnostics)
        ensures
            r == self.verdict(published, from_header),
    {
        let mut level = self.baseline.at_least(published.level);
        let mut capture = published.ring_buffer;
        let mut traffic_capture = self.baseline_capture || published.capture;
        if let Some(directive) = from_header {
            if let Some(raised) = directive.level {
                level = level.at_least(raised);
                capture = capture || directive.ring_buffer;
                traffic_capture = traffic_capture || directive.capture;
            }
        }
        Diagnostics { level, capture, traffic_capture }
    }

    /// What is left to do about a request that was handled, whatever came of it: record how
    /// it ended, and follow its diagnostics.
    pub fn conclude(
        &self,
        result: &Result<PipelineResponse, RequestError>,
        published: Published,
        from_header: Option<HeaderDirective>,
    ) -> (r: Conclusion)
        ensures
            match result {
                Ok(response) => r.ending == Ending::Egress(
                    EgressInfo {
                        status: response.status,
                        response_bytes: response.body@.len() as usize,
                    },
                ),
                Err(e) => r.ending is Failure && r.ending->Failure_0.code == e.spec_code()
                    && r.ending->Failure_0.retryable == e.spec_retryable()
                    && r.ending->Failure_0.remediation@ == advice(*e) && opt(
                    r.ending->Failure_0.partition,
                ) == failed_partition(*e),
            },
            r.tape == self.verdict(published, from_header).capture,
            r.export == (self.exporting && self.verdict(published, from_header).level.rank
                >= SHAPE),
            r.traffic_capture == self.verdict(published, from_header).traffic_capture,
    {
        let diag = self.diagnostics(published, from_header);
        Conclusion {
            ending: ending(result),
            tape: diag.capture,
            export: self.exports(diag),
            traffic_capture: diag.traffic_capture,
        }
    }

    /// Whether the span of a request is exported: spans are exported at all, and its level
    /// reaches the shape.
    pub fn exports(&self, diag: Diagnostics) -> (r: bool)
        ensures
            r == (self.exporting && diag.level.rank >= SHAPE),
    {
        self.exporting && diag.level.rank >= SHAPE
    }
}

impl Default for Pipeline {
    fn default() -> (r: Self)
        ensures
            r.retry.max_attempts == 3,
            r.retry.base_backoff == 50_000_000,
            r.retry.max_backoff == 1_000_000_000,
            r.service_name@ == "osproxy"@,
            r.baseline.rank == SHAPE,
            !r.baseline_capture,
            !r.exporting,
            !r.affinity,
            r.admin_policy is None,
            r.passthrough is None,
            r.baseline_write_mode is Sync,
            !r.queue_enabled,
            !r.delete_by_query_expansion,
    {
        Pipeline::new()
    }
}

/// Directives only ever raise what is recorded: none lowers the level or switches a
/// capture off.
pub proof fn law_directives_only_raise(
    p: Pipeline,
    published: Published,
    from_header: Option<HeaderDirective>,
)
    ensures
        p.verdict(published, from_header).level.rank >= p.baseline.rank,
        p.verdict(published, from_header).level.rank >= published.level.rank,
        p.baseline_capture ==> p.verdict(published, from_header).traffic_capture,
        published.ring_buffer ==> p.verdict(published, from_header).capture,
        published.capture ==> p.verdict(published, from_header).traffic_capture,
{
}

/// A header directive that did not verify, or does not apply to the request, changes
/// nothing.
pub proof fn law_unverified_directives_change_nothing(
    p: Pipeline,
    published: Published,
    d: HeaderDirective,
)
    requires
        d.level is None,
    ensures
        p.verdict(published, Some(d)) == p.verdict(published, None),
{
}

} // verus!
