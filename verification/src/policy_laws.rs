//! What the decisions that span endpoints are for, said of the calls themselves: what
//! passes through and how, how patiently a backend is asked, how much is recorded, and what
//! is told of a failure.

use crate::admin::{admin, forwarded, AdminPolicy};
use crate::asyncwrite::WriteMode;
use crate::directives::{after_all, EtcdDirectiveStore, WatchEvent};
use crate::error::{ErrorCode, RequestError, SpiFault};
use crate::observe::{
    classify_info, dispatch_info, ending, error_context, read_dispatch_info, remediation,
    resolve_info, rewrite_info, streamed_ending, ClassifyInfo, DispatchInfo, Ending, ErrorContext,
    ResolveInfo, RewriteInfo,
};
use crate::passthrough::PassthroughPolicy;
use crate::pipeline::{
    Conclusion, DiagLevel, Diagnostics, ForwardOp, HeaderDirective, Pipeline, PipelineResponse,
    Published, Route,
};
use crate::retry::{Retry, RetryPolicy};
use crate::text::{decimal_text, law_parts_stand_between_separators, part_at, views};
use crate::types::{
    first_named, header_of, law_only_capitals_are_ignored, law_the_first_header_of_a_name_counts,
    letters_match, BodyTransform, CursorOp, CursorOutcome, DocOp, EndpointKind, MigrationPhase,
    RequestCtx, Resolved, TraceContext, WriteAck, WriteOp,
};
use crate::view_laws::text_in_option;
use vstd::arithmetic::power2::{lemma2_to64, lemma_pow2_unfold, pow2};
use vstd::prelude::*;

verus! {

/// One of the texts begins `path`.
pub open spec fn begins_with_one(path: Seq<char>, prefixes: Seq<String>) -> bool {
    exists|i: int|
        0 <= i < prefixes.len() && (#[trigger] prefixes[i])@.len() <= path.len() && path.take(
            prefixes[i]@.len() as int,
        ) == prefixes[i]@
}

/// A segment of `path` is `..`.
pub open spec fn climbs(path: Seq<char>) -> bool {
    exists|at: int| part_at(path, '/', ".."@, at)
}

/// Nothing of the request is changed on its way.
pub open spec fn goes_as_it_came(op: CursorOp, ctx: RequestCtx) -> bool {
    &&& op.method@ == ctx.method@
    &&& op.path@ == ctx.path@
    &&& op.body@ == ctx.body@
    &&& text_in_option(op.query) == text_in_option(ctx.query)
}

/// The request is refused for its endpoint, and for good.
pub open spec fn refused(e: RequestError, ctx: RequestCtx) -> bool {
    &&& e matches RequestError::Spi(spi)
    &&& spi.fault == (SpiFault::UnsupportedEndpoint { endpoint: ctx.endpoint })
    &&& spi.code == ErrorCode::UnsupportedEndpoint
    &&& !spi.retryable
}

proof fn lemma_begins(path: Seq<char>, prefixes: Seq<String>)
    ensures
        begins_with_one(path, prefixes) <==> exists|i: int|
            0 <= i < views(prefixes).len() && (#[trigger] views(prefixes)[i]).is_prefix_of(path),
{
    let v = views(prefixes);
    assert(v.len() == prefixes.len());
    if begins_with_one(path, prefixes) {
        let i = choose|i: int|
            0 <= i < prefixes.len() && (#[trigger] prefixes[i])@.len() <= path.len() && path.take(
                prefixes[i]@.len() as int,
            ) == prefixes[i]@;
        assert(v[i] == prefixes[i]@);
        assert(v[i] =~= path.subrange(0, v[i].len() as int));
        assert(v[i].is_prefix_of(path));
    }
    if exists|i: int| 0 <= i < v.len() && (#[trigger] v[i]).is_prefix_of(path) {
        let i = choose|i: int| 0 <= i < v.len() && (#[trigger] v[i]).is_prefix_of(path);
        assert(v[i] == prefixes[i]@);
        assert(path.take(prefixes[i]@.len() as int) =~= prefixes[i]@);
    }
}

/// An administrative request passes exactly where its path begins with a listed prefix and
/// has no `..` segment; it then goes to the policy's cluster as it came.
pub proof fn law_only_listed_paths_pass(
    cluster: String,
    prefixes: Vec<String>,
    policy: AdminPolicy,
    ctx: &RequestCtx,
    known: Option<String>,
    path: &str,
    allowed: bool,
    target: &str,
    r: Result<CursorOp, RequestError>,
)
    requires
        call_ensures(AdminPolicy::new, (cluster, prefixes), policy),
        call_ensures(AdminPolicy::allows, (&policy, path), allowed),
        call_ensures(AdminPolicy::target_cluster, (&policy,), target),
        call_ensures(admin, (Some(&policy), ctx, known), r),
        path@ == ctx.path@,
    ensures
        allowed <==> begins_with_one(ctx.path@, prefixes@) && !climbs(ctx.path@),
        r is Ok <==> begins_with_one(ctx.path@, prefixes@) && !climbs(ctx.path@),
        r matches Ok(op) ==> {
            &&& goes_as_it_came(op, *ctx)
            &&& op.cluster@ == cluster@
            &&& text_in_option(op.endpoint) == text_in_option(known)
            &&& op.protocol is None
        },
        r matches Err(e) ==> refused(e, *ctx),
        target@ == cluster@,
{
    lemma_begins(ctx.path@, prefixes@);
    law_parts_stand_between_separators(ctx.path@, '/', ".."@);
    assert(policy.permits(ctx.path@) <==> begins_with_one(ctx.path@, prefixes@) && !climbs(ctx.path@));
}

/// A base URL of the policy's own takes the place of the one the router knows, and changes
/// nothing else of what passes.
pub proof fn law_a_policy_knows_its_own_endpoint(
    plain: AdminPolicy,
    url: String,
    policy: AdminPolicy,
    ctx: &RequestCtx,
    known: Option<String>,
    before: Result<CursorOp, RequestError>,
    r: Result<CursorOp, RequestError>,
)
    requires
        call_ensures(AdminPolicy::with_endpoint, (plain, url), policy),
        call_ensures(admin, (Some(&plain), ctx, known), before),
        call_ensures(admin, (Some(&policy), ctx, known), r),
    ensures
        r is Ok <==> before is Ok,
        r matches Ok(op) ==> {
            &&& goes_as_it_came(op, *ctx)
            &&& op.cluster@ == before->Ok_0.cluster@
            &&& text_in_option(op.endpoint) == Some(url@)
        },
{
}

/// Without a policy no administrative request passes.
pub proof fn law_nothing_administrative_passes_unasked(
    ctx: &RequestCtx,
    known: Option<String>,
    r: Result<CursorOp, RequestError>,
)
    requires
        call_ensures(admin, (None::<&AdminPolicy>, ctx, known), r),
    ensures
        r matches Err(e) && refused(e, *ctx),
{
}

/// What was forwarded is answered as the upstream answered.
pub proof fn law_a_forwarded_answer_is_the_upstreams(outcome: CursorOutcome, r: PipelineResponse)
    requires
        call_ensures(forwarded, (outcome,), r),
    ensures
        r.status == outcome.status,
        r.body@ == outcome.body@,
        r.content_type == outcome.content_type,
{
}

/// An index passes through where nothing is listed, or where it begins with a listed prefix.
pub proof fn law_listed_indices_pass_through(
    policy: &PassthroughPolicy,
    index: &str,
    ctx: &RequestCtx,
    by_index: bool,
    by_request: bool,
    op: CursorOp,
)
    requires
        call_ensures(PassthroughPolicy::matches_index, (policy, index), by_index),
        call_ensures(PassthroughPolicy::matches, (policy, ctx), by_request),
        call_ensures(PassthroughPolicy::forward, (policy, ctx), op),
    ensures
        by_index <==> policy.index_prefixes@.len() == 0 || begins_with_one(
            index@,
            policy.index_prefixes@,
        ),
        by_request <==> policy.index_prefixes@.len() == 0 || begins_with_one(
            ctx.logical_index@,
            policy.index_prefixes@,
        ),
        goes_as_it_came(op, *ctx),
        op.cluster@ == policy.cluster@,
        text_in_option(op.endpoint) == text_in_option(policy.endpoint),
        op.protocol == Some(ctx.protocol),
{
    assert(views(policy.index_prefixes@).len() == policy.index_prefixes@.len());
    lemma_begins(index@, policy.index_prefixes@);
    lemma_begins(ctx.logical_index@, policy.index_prefixes@);
}

/// A policy starts without prefixes, so that everything passes; listing some keeps its
/// cluster and endpoint.
pub proof fn law_a_policy_lists_what_it_was_given(
    cluster: String,
    endpoint: String,
    prefixes: Vec<String>,
    all: PassthroughPolicy,
    some: PassthroughPolicy,
    i: int,
)
    requires
        call_ensures(PassthroughPolicy::new, (cluster, endpoint), all),
        call_ensures(PassthroughPolicy::with_index_prefixes, (all, prefixes), some),
    ensures
        all.cluster@ == cluster@ && some.cluster@ == cluster@,
        text_in_option(all.endpoint) == Some(endpoint@),
        text_in_option(some.endpoint) == Some(endpoint@),
        all.index_prefixes@.len() == 0,
        some.index_prefixes@.len() == prefixes@.len(),
        0 <= i < prefixes@.len() ==> some.index_prefixes@[i]@ == prefixes@[i]@,
{
    assert(all.prefixes().len() == all.index_prefixes@.len());
    assert(some.prefixes().len() == some.index_prefixes@.len());
    assert(views(prefixes@).len() == prefixes@.len());
    if 0 <= i < prefixes@.len() {
        assert(some.prefixes()[i] == some.index_prefixes@[i]@);
        assert(views(prefixes@)[i] == prefixes@[i]@);
    }
}

/// The lesser of two numbers.
pub open spec fn lesser(a: int, b: int) -> int {
    if a <= b {
        a
    } else {
        b
    }
}

/// The first delay is the base. Each further one doubles the one before, and none passes the
/// policy's cap or the longest delay there is. After 32 doublings it stays as it is.
pub proof fn law_delays_double_up_to_the_cap(
    policy: RetryPolicy,
    n: u32,
    first: u128,
    now: u128,
    next: u128,
)
    requires
        call_ensures(RetryPolicy::backoff, (policy, 0), first),
        call_ensures(RetryPolicy::backoff, (policy, n), now),
        n < u32::MAX,
        call_ensures(RetryPolicy::backoff, (policy, (n + 1) as u32), next),
    ensures
        ({
            let most = lesser(policy.max_backoff as int, 18_446_744_073_709_551_615_999_999_999);
            &&& first == lesser(policy.base_backoff as int, most)
            &&& n < 31 ==> next == lesser(2 * now, most)
            &&& n >= 31 ==> next == lesser(policy.base_backoff * 4_294_967_295, most)
        }),
{
    lemma2_to64();
    let base = policy.base_backoff as int;
    assert(base * 1 == base);
    if n < 31 {
        lemma_pow2_unfold((n + 1) as nat);
        let x = pow2(n as nat) as int;
        let y = pow2((n + 1) as nat) as int;
        assert(y == 2 * x);
        assert(base * y == 2 * (base * x)) by (nonlinear_arith)
            requires
                y == 2 * x,
        ;
    }
}

/// A failed attempt is followed by another exactly where its failure is retryable and an
/// attempt is left; before it the backoff is waited for.
pub proof fn law_an_attempt_is_repeated_while_some_are_left(
    policy: RetryPolicy,
    attempt: u32,
    retryable: bool,
    delay: u128,
    r: Retry,
)
    requires
        call_ensures(RetryPolicy::after_failure, (policy, attempt, retryable), r),
        call_ensures(RetryPolicy::backoff, (policy, attempt), delay),
    ensures
        r is After <==> retryable && attempt + 1 < policy.max_attempts,
        r matches Retry::After(d) ==> d == delay,
{
}

/// A backend that keeps failing in a way that can be retried is asked as often as the policy
/// says, and no more.
pub proof fn law_a_failing_backend_is_asked_max_attempts_times(
    policy: RetryPolicy,
    failures: Seq<Option<bool>>,
    n: nat,
)
    requires
        failures.len() > policy.max_attempts,
        forall|i: int| 0 <= i < failures.len() ==> #[trigger] failures[i] == Some(true),
        n < policy.max_attempts,
    ensures
        policy.final_attempt(failures, n) + 1 == policy.max_attempts,
    decreases policy.max_attempts - n,
{
    assert(failures[n as int] == Some(true));
    if n + 1 < policy.max_attempts {
        law_a_failing_backend_is_asked_max_attempts_times(policy, failures, n + 1);
    }
}

/// The set in force is that of the last publish that decoded, or the empty one where the key
/// was deleted since.
pub proof fn law_the_last_good_event_counts<D>(
    current: D,
    before: Seq<WatchEvent<D>>,
    event: WatchEvent<D>,
    bad: Seq<WatchEvent<D>>,
    empty: D,
)
    requires
        forall|i: int| 0 <= i < bad.len() ==> #[trigger] bad[i] == WatchEvent::Put(None::<D>),
    ensures
        ({
            let now = after_all(current, before.push(event) + bad, empty);
            &&& event matches WatchEvent::Put(Some(set)) ==> now == set
            &&& event is Delete ==> now == empty
            &&& after_all(current, bad, empty) == current
        }),
    decreases bad.len(),
{
    if bad.len() == 0 {
        let all = before.push(event);
        assert(all + bad =~= all);
        assert(all.drop_last() =~= before);
    } else {
        let all = before.push(event) + bad;
        assert(bad[bad.len() - 1] == WatchEvent::Put(None::<D>));
        assert(all.drop_last() =~= before.push(event) + bad.drop_last());
        assert forall|i: int| 0 <= i < bad.drop_last().len() implies #[trigger] bad.drop_last()[i]
            == WatchEvent::Put(None::<D>) by {
            assert(bad[i] == WatchEvent::Put(None::<D>));
        }
        law_the_last_good_event_counts(current, before, event, bad.drop_last(), empty);
    }
}

/// A published set is in force from then on, one that does not decode changes nothing, and a
/// deletion leaves the empty set.
pub proof fn law_an_event_is_followed<D>(
    store: &mut EtcdDirectiveStore<D>,
    event: WatchEvent<D>,
    empty: D,
)
    requires
        call_ensures(EtcdDirectiveStore::<D>::apply_event, (store, event, empty), ()),
    ensures
        event matches WatchEvent::Put(Some(set)) ==> final(store).current == set,
        event matches WatchEvent::Put(None) ==> final(store).current == old(store).current,
        event is Delete ==> final(store).current == empty,
{
}

/// A value that decodes replaces the set in force, and one that does not keeps it.
pub proof fn law_a_value_replaces_the_set<D>(store: &mut EtcdDirectiveStore<D>, decoded: Option<D>)
    requires
        call_ensures(EtcdDirectiveStore::<D>::apply_value, (store, decoded), ()),
    ensures
        decoded matches Some(set) ==> final(store).current == set,
        decoded is None ==> final(store).current == old(store).current,
{
}

/// At startup the set that was read is in force, and the empty one where none was.
pub proof fn law_the_set_that_was_read_is_in_force<D>(
    value: Option<D>,
    empty: D,
    store: EtcdDirectiveStore<D>,
    set: &D,
)
    requires
        call_ensures(EtcdDirectiveStore::<D>::from_read, (value, empty), store),
        call_ensures(EtcdDirectiveStore::<D>::load, (&store,), set),
    ensures
        value matches Some(v) ==> *set == v,
        value is None ==> *set == empty,
{
}

/// A request's own header selects its write mode, whatever the case of its letters; without
/// one, or where it names no mode, the baseline holds. A bulk is taken apart on arrival
/// exactly where its writes are synchronous.
pub proof fn law_a_header_selects_the_write_mode(
    p: &Pipeline,
    ctx: &RequestCtx,
    headers: &[(String, String)],
    i: int,
    mode: WriteMode,
    sync: bool,
)
    requires
        call_ensures(Pipeline::write_mode, (p, ctx), mode),
        call_ensures(Pipeline::is_sync_write, (p, headers), sync),
        headers@ == ctx.headers@,
    ensures
        sync <==> mode is Sync,
        first_named(ctx.headers@, "x-write-mode"@, i) ==> {
            let value = ctx.headers@[i].1@;
            &&& letters_match(value, "sync"@) ==> mode is Sync
            &&& letters_match(value, "async"@) ==> mode is Async
            &&& !letters_match(value, "sync"@) && !letters_match(value, "async"@) ==> mode
                == p.baseline_write_mode
        },
        (forall|j: int|
            0 <= j < ctx.headers@.len() ==> !letters_match(
                (#[trigger] ctx.headers@[j]).0@,
                "x-write-mode"@,
            )) ==> mode == p.baseline_write_mode,
{
    law_the_first_header_of_a_name_counts(ctx.headers@, "x-write-mode"@);
    if let Some(value) = header_of(ctx.headers@, "x-write-mode"@) {
        law_only_capitals_are_ignored(value, "sync"@);
        law_only_capitals_are_ignored(value, "async"@);
        reveal_strlit("sync");
        reveal_strlit("async");
    }
}

/// A request is forwarded as it came where the passthrough policy selects its index; any
/// other is served under tenancy, and one for no known endpoint is refused.
pub proof fn law_only_selected_requests_skip_tenancy(
    p: &Pipeline,
    ctx: &RequestCtx,
    index: &str,
    passes: bool,
    r: Result<Route, RequestError>,
)
    requires
        call_ensures(Pipeline::is_passthrough, (p, index), passes),
        call_ensures(Pipeline::dispatch, (p, ctx), r),
        index@ == ctx.logical_index@,
    ensures
        passes <==> (p.passthrough matches Some(policy) && (policy.index_prefixes@.len() == 0
            || begins_with_one(ctx.logical_index@, policy.index_prefixes@))),
        passes <==> (r matches Ok(route) && route is Forward),
        r matches Ok(Route::Forward(op)) ==> {
            &&& goes_as_it_came(op, *ctx)
            &&& op.cluster@ == p.passthrough->Some_0.cluster@
            &&& text_in_option(op.endpoint) == text_in_option(p.passthrough->Some_0.endpoint)
            &&& op.protocol == Some(ctx.protocol)
        },
        r matches Ok(Route::Serve(kind)) ==> kind == ctx.endpoint,
        r is Err <==> !passes && ctx.endpoint == EndpointKind::Unknown,
        r matches Err(e) ==> refused(e, *ctx),
{
    if let Some(policy) = p.passthrough {
        assert(views(policy.index_prefixes@).len() == policy.index_prefixes@.len());
        lemma_begins(ctx.logical_index@, policy.index_prefixes@);
    }
}

/// A streamed request goes through as it came too, where there is a policy at all.
pub proof fn law_a_streamed_request_goes_as_it_came(
    p: &Pipeline,
    ctx: &RequestCtx,
    r: Result<ForwardOp, RequestError>,
)
    requires
        call_ensures(Pipeline::forward_streamed, (p, ctx), r),
    ensures
        r is Ok <==> p.passthrough is Some,
        r matches Ok(op) ==> {
            &&& op.cluster@ == p.passthrough->Some_0.cluster@
            &&& text_in_option(op.endpoint) == text_in_option(p.passthrough->Some_0.endpoint)
            &&& op.method@ == ctx.method@
            &&& op.path@ == ctx.path@
            &&& text_in_option(op.query) == text_in_option(ctx.query)
            &&& op.protocol == ctx.protocol
        },
        r matches Err(e) ==> refused(e, *ctx),
{
}

/// The proxy's own hop goes upstream exactly where spans are exported.
pub proof fn law_the_hop_is_shown_where_spans_are_exported(
    p: &Pipeline,
    hop: TraceContext,
    r: Option<TraceContext>,
)
    requires
        call_ensures(Pipeline::upstream_trace, (p, hop), r),
    ensures
        p.exporting ==> r == Some(hop),
        !p.exporting ==> r is None,
{
}

/// The greater of two numbers.
pub open spec fn greater(a: int, b: int) -> int {
    if a >= b {
        a
    } else {
        b
    }
}

/// The level of a request is the highest that the baseline, the published directives and an
/// applying directive of its own ask for; each capture is on exactly where one of them asks
/// for it. The explanation is taped, the span exported and the traffic teed accordingly.
pub proof fn law_diagnostics_add_up(
    p: &Pipeline,
    published: Published,
    own: Option<HeaderDirective>,
    result: &Result<PipelineResponse, RequestError>,
    d: Diagnostics,
    exported: bool,
    c: Conclusion,
)
    requires
        call_ensures(Pipeline::diagnostics, (p, published, own), d),
        call_ensures(Pipeline::exports, (p, d), exported),
        call_ensures(Pipeline::conclude, (p, result, published, own), c),
    ensures
        ({
            let applies = own matches Some(h) && h.level is Some;
            let shared = greater(p.baseline.rank as int, published.level.rank as int);
            &&& applies ==> d.level.rank == greater(shared, own->Some_0.level->Some_0.rank as int)
            &&& !applies ==> d.level.rank == shared
            &&& d.capture <==> published.ring_buffer || applies && own->Some_0.ring_buffer
            &&& d.traffic_capture <==> p.baseline_capture || published.capture || applies
                && own->Some_0.capture
        }),
        exported <==> p.exporting && d.level.rank >= 1,
        c.export == exported,
        c.tape == d.capture,
        c.traffic_capture == d.traffic_capture,
{
}

/// The higher of two levels is one of them, and no lower than either.
pub proof fn law_the_higher_level_is_taken(a: DiagLevel, b: DiagLevel, r: DiagLevel)
    requires
        call_ensures(DiagLevel::at_least, (a, b), r),
    ensures
        r.rank == greater(a.rank as int, b.rank as int),
{
}

/// A proxy starts with everything off that has to be asked for.
pub proof fn law_nothing_is_on_unasked(p: Pipeline, retry: RetryPolicy)
    requires
        call_ensures(Pipeline::new, (), p),
        call_ensures(RetryPolicy::default, (), retry),
    ensures
        p.retry == retry,
        retry == (RetryPolicy {
            max_attempts: 3,
            base_backoff: 50_000_000,
            max_backoff: 1_000_000_000,
        }),
        p.service_name@ == "osproxy"@,
        p.baseline.rank == 1,
        !p.baseline_capture && !p.exporting && !p.affinity,
        p.admin_policy is None && p.passthrough is None,
        p.baseline_write_mode is Sync,
        !p.queue_enabled && !p.delete_by_query_expansion,
{
}

/// Each setting is what it was set to, and setting it changes no other.
pub proof fn law_settings_are_independent(
    p: Pipeline,
    on: bool,
    mode: WriteMode,
    policy: PassthroughPolicy,
    admin_policy: AdminPolicy,
    retry: RetryPolicy,
    name: String,
    level: DiagLevel,
    r: (
        Pipeline,
        Pipeline,
        Pipeline,
        Pipeline,
        Pipeline,
        Pipeline,
        Pipeline,
        Pipeline,
        Pipeline,
        Pipeline,
        Pipeline,
    ),
)
    requires
        call_ensures(Pipeline::with_delete_by_query_expansion, (p, on), r.0),
        call_ensures(Pipeline::with_baseline_write_mode, (p, mode), r.1),
        call_ensures(Pipeline::with_write_queue, (p, on), r.2),
        call_ensures(Pipeline::with_passthrough, (p, policy), r.3),
        call_ensures(Pipeline::with_admin_passthrough, (p, admin_policy), r.4),
        call_ensures(Pipeline::with_cursor_signer, (p,), r.5),
        call_ensures(Pipeline::with_retry_policy, (p, retry), r.6),
        call_ensures(Pipeline::with_exporter, (p, on), r.7),
        call_ensures(Pipeline::with_service_name, (p, name), r.8),
        call_ensures(Pipeline::with_baseline_level, (p, level), r.9),
        call_ensures(Pipeline::with_baseline_capture, (p, on), r.10),
    ensures
        r.0 == (Pipeline { delete_by_query_expansion: on, ..p }),
        r.1 == (Pipeline { baseline_write_mode: mode, ..p }),
        r.2 == (Pipeline { queue_enabled: on, ..p }),
        r.3 == (Pipeline { passthrough: Some(policy), ..p }),
        r.4 == (Pipeline { admin_policy: Some(admin_policy), ..p }),
        r.5 == (Pipeline { affinity: true, ..p }),
        r.6 == (Pipeline { retry, ..p }),
        r.7 == (Pipeline { exporting: on, ..p }),
        r.8 == (Pipeline { service_name: name, ..p }),
        r.9 == (Pipeline { baseline: level, ..p }),
        r.10 == (Pipeline { baseline_capture: on, ..p }),
{
}

/// A failure of routing or delivery keeps the code and the retry advice it came with. Of the
/// others only a stale epoch can be retried.
pub proof fn law_failures_keep_their_code(
    e: &RequestError,
    cause: &str,
    code: ErrorCode,
    retryable: bool,
    text: String,
)
    requires
        call_ensures(RequestError::code, (e,), code),
        call_ensures(RequestError::retryable, (e,), retryable),
        call_ensures(RequestError::message, (e, cause), text),
    ensures
        e matches RequestError::Spi(x) ==> code == x.code && retryable == x.retryable && text@
            == "routing failed: "@ + cause@,
        e matches RequestError::Sink(x) ==> code == x.code && retryable == x.retryable && text@
            == "sink failed: "@ + cause@,
        e matches RequestError::StaleEpoch { stamped } ==> code == ErrorCode::StaleEpoch && retryable
            && text@ == "stale placement epoch "@ + decimal_text(*stamped as nat)
            + " for a migrating partition"@,
        e matches RequestError::Cursor { reason } ==> code == ErrorCode::CursorUnresolvable
            && !retryable && text@ == "cursor unresolvable: "@ + reason@,
        e matches RequestError::PayloadTooLarge { reason } ==> code == ErrorCode::PayloadTooLarge
            && !retryable && text@ == "payload too large: "@ + reason@,
        e matches RequestError::Rewrite(x) ==> code == ErrorCode::UnsupportedEndpoint && !retryable
            && text@ == "rewrite failed: "@ + cause@,
        e matches RequestError::Internal { reason } ==> code == ErrorCode::UnsupportedEndpoint
            && !retryable && text@ == "internal invariant violated: "@ + reason@,
{
}

/// What is recorded of a failure is its own code and retry advice, with a hint; the partition
/// is named exactly where it has no placement.
pub proof fn law_a_failure_is_recorded_as_it_is(
    e: &RequestError,
    code: ErrorCode,
    retryable: bool,
    hint: &'static str,
    r: ErrorContext,
)
    requires
        call_ensures(RequestError::code, (e,), code),
        call_ensures(RequestError::retryable, (e,), retryable),
        call_ensures(remediation, (e,), hint),
        call_ensures(error_context, (e,), r),
    ensures
        r.code == code,
        r.retryable == retryable,
        r.remediation@ == hint@,
        e matches RequestError::Spi(x) ==> (x.fault matches SpiFault::PlacementMissing { partition }
            ==> text_in_option(r.partition) == Some(partition@)),
        !(e matches RequestError::Spi(x) && x.fault is PlacementMissing) ==> r.partition is None,
{
}

/// The hint that goes with each failure.
pub proof fn law_each_failure_has_its_hint(e: &RequestError, r: &'static str)
    requires
        call_ensures(remediation, (e,), r),
    ensures
        e matches RequestError::Spi(x) ==> {
            &&& x.fault is PartitionUnresolved ==> r@
                == "ensure the request carries the configured partition key"@
            &&& x.fault is PlacementMissing ==> r@ == "register a placement for the partition"@
            &&& x.fault is PlacementBackend ==> r@ == "retry; the placement backend is unavailable"@
            &&& x.fault is UnsupportedEndpoint ==> r@
                == "endpoint is not supported for tenancy rewrite in this version"@
            &&& x.fault is IdRuleMissingPartition || x.fault is PrincipalAttrMissing ==> r@
                == "fix the tenancy configuration"@
            &&& x.fault is Other ==> r@ == "routing failed; consult the error code reference"@
        },
        e is Rewrite ==> r@ == "the document body is malformed or collides with a reserved field"@,
        e is Sink ==> r@ == "the upstream cluster failed; retry if retryable"@,
        e is StaleEpoch ==> r@ == "the partition is migrating; retry to re-resolve the new placement"@,
        e is Cursor ==> r@ == "re-issue the search to open a new cursor"@,
        e is PayloadTooLarge ==> r@ == "split the request into smaller ones"@,
        e is Internal ==> r@ == "internal error; inspect logs"@,
{
}

/// Two records of a failure say the same.
pub open spec fn same_record(a: ErrorContext, b: ErrorContext) -> bool {
    &&& a.code == b.code
    &&& a.retryable == b.retryable
    &&& a.remediation@ == b.remediation@
    &&& text_in_option(a.partition) == text_in_option(b.partition)
}

/// A request is recorded to have ended as it did: with the status and size of its answer, or
/// with its failure. A streamed answer has no size yet.
pub proof fn law_a_request_ends_as_recorded(
    p: &Pipeline,
    result: &Result<PipelineResponse, RequestError>,
    streamed: Result<u16, &RequestError>,
    published: Published,
    own: Option<HeaderDirective>,
    failure: ErrorContext,
    e: &RequestError,
    r: Ending,
    s: Ending,
    c: Conclusion,
)
    requires
        call_ensures(ending, (result,), r),
        call_ensures(streamed_ending, (streamed,), s),
        call_ensures(Pipeline::conclude, (p, result, published, own), c),
        call_ensures(error_context, (e,), failure),
    ensures
        result matches Ok(response) ==> {
            &&& r matches Ending::Egress(info)
            &&& info.status == response.status && info.response_bytes == response.body@.len()
            &&& c.ending == r
        },
        *result == Err::<PipelineResponse, RequestError>(*e) ==> {
            &&& r is Failure && same_record(r->Failure_0, failure)
            &&& c.ending is Failure && same_record(c.ending->Failure_0, failure)
        },
        streamed matches Ok(status) ==> {
            &&& s matches Ending::Egress(info)
            &&& info.status == status && info.response_bytes == 0
        },
        streamed == Err::<u16, &RequestError>(e) ==> s is Failure && same_record(
            s->Failure_0,
            failure,
        ),
{
    if let Ok(response) = result {
        assert(response.body@.len() == response.body.len());
    }
}

/// What is recorded of a routing decision is the decision; a partition that injects nothing
/// has an index of its own, and any other shares one.
pub proof fn law_a_decision_is_recorded_as_it_is(
    ctx: &RequestCtx,
    resolved: &Resolved,
    i: int,
    c: ClassifyInfo,
    r: ResolveInfo,
)
    requires
        call_ensures(classify_info, (ctx,), c),
        call_ensures(resolve_info, (resolved,), r),
    ensures
        c.endpoint == ctx.endpoint,
        c.logical_index@ == ctx.logical_index@,
        r.partition@ == resolved.partition@,
        r.cluster@ == resolved.decision.target.cluster@,
        r.index@ == resolved.decision.target.index@,
        r.epoch == resolved.decision.epoch,
        r.migration == resolved.migration,
        r.placement_kind@ == if r.inject_fields@.len() == 0 {
            "dedicated"@
        } else {
            "shared_index"@
        },
        match resolved.decision.body_transform {
            BodyTransform::Verbatim => r.inject_fields@.len() == 0 && !r.routing,
            BodyTransform::Inject(fields) => {
                &&& r.inject_fields@.len() == fields@.len() && !r.routing
                &&& 0 <= i < fields@.len() ==> r.inject_fields@[i]@ == fields@[i].name@
            },
            BodyTransform::ConstructId(rule) => r.inject_fields@.len() == 0 && r.routing
                == rule.set_routing,
            BodyTransform::Both { inject, id } => {
                &&& r.inject_fields@.len() == inject@.len() && r.routing == id.set_routing
                &&& 0 <= i < inject@.len() ==> r.inject_fields@[i]@ == inject@[i].name@
            },
        },
{
    let t = resolved.decision.body_transform;
    let fields = crate::types::injected(t);
    assert(views(r.inject_fields@).len() == r.inject_fields@.len());
    assert(crate::types::names(fields).len() == fields.len());
    if 0 <= i < fields.len() {
        assert(views(r.inject_fields@)[i] == r.inject_fields@[i]@);
        assert(crate::types::names(fields)[i] == fields[i].name@);
    }
}

/// A phase and a transform are recorded under labels that tell them apart, with the size of
/// the first document.
pub proof fn law_labels_tell_apart(
    phase: MigrationPhase,
    resolved: &Resolved,
    batch: &[WriteOp],
    label: &'static str,
    r: RewriteInfo,
)
    requires
        call_ensures(MigrationPhase::label, (phase,), label),
        call_ensures(rewrite_info, (resolved, batch), r),
    ensures
        label@ == match phase {
            MigrationPhase::Settled => "settled"@,
            MigrationPhase::Draining => "draining"@,
            MigrationPhase::Cutover => "cutover"@,
        },
        r.transform_kind@ == match resolved.decision.body_transform {
            BodyTransform::Verbatim => "none"@,
            BodyTransform::Inject(_) => "inject"@,
            BodyTransform::ConstructId(_) => "construct_id"@,
            BodyTransform::Both { .. } => "inject+construct_id"@,
        },
        batch@.len() == 0 ==> r.body_bytes == 0,
        batch@.len() > 0 ==> match batch@[0].doc {
            DocOp::Index { body, .. } => r.body_bytes == body@.len(),
            DocOp::Create { body, .. } => r.body_bytes == body@.len(),
            DocOp::Update { body, .. } => r.body_bytes == body@.len(),
            DocOp::Delete { .. } => r.body_bytes == 0,
        },
{
}

/// What is recorded of a dispatch is where it went and how that went.
pub proof fn law_a_dispatch_is_recorded_as_it_went(
    resolved: &Resolved,
    ack: &WriteAck,
    status: u16,
    reuse: bool,
    w: DispatchInfo,
    r: DispatchInfo,
)
    requires
        call_ensures(dispatch_info, (resolved, ack), w),
        call_ensures(read_dispatch_info, (resolved, status, reuse), r),
    ensures
        w.cluster@ == resolved.decision.target.cluster@,
        r.cluster@ == resolved.decision.target.cluster@,
        ack.results@.len() > 0 ==> w.upstream_status == ack.results@[0].status,
        ack.results@.len() == 0 ==> w.upstream_status == 0,
        w.pool_reuse == ack.pool_reuse,
        r.upstream_status == status && r.pool_reuse == reuse,
{
}

} // verus!
