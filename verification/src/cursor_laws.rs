//! What cursors are for, said of the calls themselves: a client only ever holds tokens, a
//! cluster only ever sees its own ids, and nothing else of a request or an answer changes.

use crate::cursor::{
    created_pit_id, cursor_request, forwardable_query, has_scroll_id, kept_pairs,
    law_only_cursor_params_are_forwarded, pit_close_request, pit_id_in_body, pit_id_in_response,
    pit_ids_in_delete_body, rewrite_cursor_body, rewrite_pit_id, scroll_id_in_response, texts_of,
    wrap_created_pit, wrap_pit_id_in_response, wrap_scroll_id_in_response, CursorRequest,
};
use crate::endpoints::{
    continued, cursor, cursor_forward, opened_pit_id, pinned, pit_answer, pit_create, pit_created,
    pit_opened, pit_search, pit_searched, search, search_answer, searched, CursorStart, Opened,
    Shaped,
};
use crate::error::{RequestError, RewriteError};
use crate::json::{self, Tree};
use crate::pipeline::PipelineResponse;
use crate::read::ReadShape;
use crate::text::{
    key_of, law_a_pair_is_named_before_its_equals_sign, law_a_separator_parts,
    law_no_separator_is_one_part, law_parts_stand_between_separators, pair_at, part_at, split,
    views,
};
use crate::types::{CursorOp, CursorOutcome, RequestCtx, Resolved, SearchOp, SearchOutcome};
use crate::view_laws::{
    lemma_answer, lemma_shape, shows_answer, strips_what_it_injects, text_in_option, unreadable,
};
use vstd::prelude::*;
use vstd::utf8::encode_utf8;

verus! {

/// `pair` is one of the pairs of the query string `q`.
pub open spec fn has_pair(q: Seq<char>, pair: Seq<char>) -> bool {
    exists|at: int| part_at(q, '&', pair, at)
}

/// The pair is a cursor parameter: `scroll` or `keep_alive`, with or without a value.
pub open spec fn cursor_pair(pair: Seq<char>) -> bool {
    pair_at(pair, "scroll"@, 0) || pair_at(pair, "keep_alive"@, 0)
}

proof fn lemma_cursor_pair(pair: Seq<char>)
    requires
        !pair.contains('&'),
    ensures
        cursor_pair(pair) == crate::cursor::is_forwardable(key_of(pair)),
{
    reveal_strlit("scroll");
    reveal_strlit("keep_alive");
    law_a_pair_is_named_before_its_equals_sign(pair, "scroll"@);
    law_a_pair_is_named_before_its_equals_sign(pair, "keep_alive"@);
    if "scroll"@.len() <= pair.len() {
        assert(pair.subrange(0, "scroll"@.len() as int) =~= pair.take("scroll"@.len() as int));
        if "scroll"@.len() < pair.len() {
            assert(pair.contains(pair["scroll"@.len() as int]));
        }
    }
    if "keep_alive"@.len() <= pair.len() {
        assert(pair.subrange(0, "keep_alive"@.len() as int) =~= pair.take("keep_alive"@.len() as int));
        if "keep_alive"@.len() < pair.len() {
            assert(pair.contains(pair["keep_alive"@.len() as int]));
        }
    }
}

/// The pairs that are kept of two lists are those of the first, then those of the second: no
/// pair is moved or lost, and none appears twice that was there once.
pub proof fn law_pairs_are_kept_in_order(a: Seq<Seq<char>>, b: Seq<Seq<char>>, pair: Seq<char>)
    ensures
        kept_pairs(a + b) == kept_pairs(a) + kept_pairs(b),
        !pair.contains('&') ==> kept_pairs(seq![pair]) == if cursor_pair(pair) {
            seq![pair]
        } else {
            Seq::empty()
        },
    decreases b.len(),
{
    let one = seq![pair];
    assert(one.drop_last() =~= Seq::empty());
    assert(kept_pairs(one.drop_last()) =~= Seq::empty());
    if !pair.contains('&') {
        lemma_cursor_pair(pair);
        assert(kept_pairs(one) =~= if cursor_pair(pair) {
            seq![pair]
        } else {
            Seq::empty()
        });
    }
    if b.len() == 0 {
        assert(a + b =~= a);
        assert(kept_pairs(a) + kept_pairs(b) =~= kept_pairs(a));
    } else {
        law_pairs_are_kept_in_order(a, b.drop_last(), pair);
        assert((a + b).drop_last() =~= a + b.drop_last());
        assert(kept_pairs(a + b) =~= kept_pairs(a) + kept_pairs(b));
    }
}

proof fn lemma_kept(pairs: Seq<Seq<char>>, i: int)
    requires
        0 <= i < pairs.len(),
        crate::cursor::is_forwardable(key_of(pairs[i])),
    ensures
        kept_pairs(pairs).contains(pairs[i]),
    decreases pairs.len(),
{
    let init = pairs.drop_last();
    if i < init.len() {
        lemma_kept(init, i);
        let j = choose|j: int| 0 <= j < kept_pairs(init).len() && kept_pairs(init)[j] == pairs[i];
        assert(kept_pairs(pairs)[j] == pairs[i]);
    } else {
        assert(kept_pairs(pairs)[kept_pairs(pairs).len() - 1] == pairs[i]);
    }
}

proof fn lemma_joined(pairs: Seq<Seq<char>>)
    requires
        pairs.len() > 0,
        forall|i: int| 0 <= i < pairs.len() ==> !(#[trigger] pairs[i]).contains('&'),
    ensures
        split(crate::cursor::joined(pairs), '&') == pairs,
    decreases pairs.len(),
{
    let last = pairs[pairs.len() - 1];
    law_no_separator_is_one_part(last, '&');
    if pairs.len() == 1 {
        assert(pairs =~= seq![last]);
    } else {
        let init = pairs.drop_last();
        assert forall|i: int| 0 <= i < init.len() implies !(#[trigger] init[i]).contains('&') by {
            assert(init[i] == pairs[i]);
        }
        lemma_joined(init);
        let lead = crate::cursor::joined(init);
        reveal_strlit("&");
        assert("&"@ =~= seq!['&']);
        assert(lead + "&"@ + last =~= lead.push('&') + last);
        law_a_separator_parts(lead, last, '&');
        assert(pairs =~= init + seq![last]);
    }
}

/// Of a query string exactly the pairs named `scroll` and `keep_alive` are forwarded, as they
/// were written; where there is none, nothing is.
pub proof fn law_exactly_the_cursor_parameters_are_forwarded(
    raw: Option<&str>,
    pair: Seq<char>,
    r: Option<String>,
)
    requires
        call_ensures(forwardable_query, (raw,), r),
    ensures
        raw is None ==> r is None,
        raw matches Some(q) ==> (has_pair(q@, pair) && cursor_pair(pair) <==> r is Some && has_pair(
            r->Some_0@,
            pair,
        )),
{
    if let Some(q) = raw {
        lemma_forwarded(q@, pair);
    }
}

proof fn lemma_forwarded(q: Seq<char>, pair: Seq<char>)
    ensures
        ({
            let r = crate::cursor::forwarded_query(Some(q));
            has_pair(q, pair) && cursor_pair(pair) <==> r is Some && has_pair(r->Some_0, pair)
        }),
{
    let pairs = split(q, '&');
    let kept = kept_pairs(pairs);
    law_parts_stand_between_separators(q, '&', pair);
    assert forall|i: int| 0 <= i < pairs.len() implies !(#[trigger] pairs[i]).contains('&') by {
        law_parts_stand_between_separators(q, '&', pairs[i]);
        assert(pairs.contains(pairs[i]));
    }
    law_only_cursor_params_are_forwarded(pairs);
    assert forall|i: int| 0 <= i < kept.len() implies !(#[trigger] kept[i]).contains('&') by {
        let j = choose|j: int| 0 <= j < pairs.len() && pairs[j] == kept[i];
        assert(!pairs[j].contains('&'));
    }
    if kept.len() > 0 {
        lemma_joined(kept);
        law_parts_stand_between_separators(crate::cursor::joined(kept), '&', pair);
    }
    if has_pair(q, pair) && cursor_pair(pair) {
        let i = choose|i: int| 0 <= i < pairs.len() && pairs[i] == pair;
        lemma_cursor_pair(pair);
        lemma_kept(pairs, i);
        assert(kept.contains(pair));
    }
    if kept.contains(pair) {
        let i = choose|i: int| 0 <= i < kept.len() && kept[i] == pair;
        assert(crate::cursor::is_forwardable(key_of(kept[i])));
        assert(pairs.contains(kept[i]));
        lemma_cursor_pair(pair);
    }
}

/// A search forwards exactly the cursor parameters of its client.
pub proof fn law_a_search_forwards_only_cursor_parameters(
    ctx: &RequestCtx,
    resolved: &Resolved,
    wrapped: Result<Vec<u8>, RewriteError>,
    pair: Seq<char>,
    r: Result<(SearchOp, ReadShape), RequestError>,
)
    requires
        call_ensures(search, (ctx, resolved, wrapped), r),
        r is Ok,
    ensures
        ({
            let sent = r->Ok_0.0.query;
            &&& ctx.query is None ==> sent is None
            &&& ctx.query matches Some(q) ==> (has_pair(q@, pair) && cursor_pair(pair) <==> sent is Some
                && has_pair(sent->Some_0@, pair))
        }),
{
    if let Some(q) = ctx.query {
        lemma_forwarded(q@, pair);
    }
}

/// The member `key` of the JSON object `body` is the text `s`.
pub open spec fn says(body: Seq<u8>, key: Seq<char>, s: Seq<char>) -> bool {
    &&& json::parsed(body) matches Some(t)
    &&& t matches Tree::Object(m)
    &&& m.dom().contains(key) && m[key] == Tree::Str(s)
}

/// What is read from the member `key` of `body`: its text, where it is one.
pub open spec fn reads(body: Seq<u8>, key: Seq<char>, r: Option<Seq<char>>) -> bool {
    &&& forall|s: Seq<char>| #[trigger] says(body, key, s) ==> r == Some(s)
    &&& r matches Some(s) ==> says(body, key, s)
}

proof fn lemma_reads(body: Seq<u8>, key: Seq<char>)
    ensures
        reads(body, key, crate::cursor::text_in(body, key)),
{
}

/// `to` is `body` with the text member `key` replaced and nothing else changed; where there
/// is no such text, it is `body` itself.
pub open spec fn swaps(body: Seq<u8>, key: Seq<char>, value: Seq<char>, to: Seq<u8>) -> bool {
    if exists|s: Seq<char>| #[trigger] says(body, key, s) {
        to == json::written(
            Tree::Object(json::parsed(body)->Some_0->Object_0.insert(key, Tree::Str(value))),
        )
    } else {
        to == body
    }
}

proof fn lemma_swaps(body: Seq<u8>, key: Seq<char>, value: Seq<char>)
    ensures
        swaps(body, key, value, crate::cursor::text_replaced(body, key, value)),
{
    if let Some(t) = json::parsed(body) {
        if let Some(s) = json::text_of(json::field(t, key)) {
            assert(says(body, key, s));
        }
    }
}

/// The bytes of `_scroll_id` stand somewhere in `body`.
pub open spec fn mentions(body: Seq<u8>) -> bool {
    exists|a: Seq<u8>, b: Seq<u8>| body == #[trigger] (a + encode_utf8("_scroll_id"@) + b)
}

pub proof fn lemma_mentions(body: Seq<u8>)
    ensures
        crate::cursor::mentions_scroll_id(body) == mentions(body),
{
    let needle = encode_utf8("_scroll_id"@);
    if crate::cursor::mentions_scroll_id(body) {
        let i = choose|i: int|
            0 <= i <= body.len() - needle.len() && #[trigger] body.subrange(i, i + needle.len()) == needle;
        let a = body.take(i);
        let b = body.skip(i + needle.len());
        assert(body =~= a + body.subrange(i, i + needle.len()) + b);
        assert(body == a + encode_utf8("_scroll_id"@) + b);
    }
    if mentions(body) {
        let (a, b) = choose|a: Seq<u8>, b: Seq<u8>|
            body == #[trigger] (a + encode_utf8("_scroll_id"@) + b);
        let i = a.len() as int;
        assert(body.subrange(i, i + needle.len()) =~= needle);
    }
}

/// An answer is parsed for a scroll id only where it mentions one.
pub proof fn law_a_scroll_id_is_noticed(body: &[u8], r: bool)
    requires
        call_ensures(has_scroll_id, (body,), r),
    ensures
        r == mentions(body@),
{
    lemma_mentions(body@);
}

/// The ids that are read from answers, to be wrapped before a client sees them: the text
/// `_scroll_id`, where the answer mentions it; the text `pit_id`; and of a point in time that
/// was opened, the text `pit_id`, else the text `id`.
pub proof fn law_ids_are_read_from_answers(
    body: &[u8],
    scroll: Option<String>,
    pit: Option<String>,
    created: Option<String>,
)
    requires
        call_ensures(scroll_id_in_response, (body,), scroll),
        call_ensures(pit_id_in_response, (body,), pit),
        call_ensures(created_pit_id, (body,), created),
    ensures
        mentions(body@) ==> reads(body@, "_scroll_id"@, text_in_option(scroll)),
        !mentions(body@) ==> scroll is None,
        reads(body@, "pit_id"@, text_in_option(pit)),
        pit is Some ==> reads(body@, "pit_id"@, text_in_option(created)),
        pit is None ==> reads(body@, "id"@, text_in_option(created)),
{
    lemma_mentions(body@);
    lemma_reads(body@, "_scroll_id"@);
    lemma_reads(body@, "pit_id"@);
    lemma_reads(body@, "id"@);
}

/// A token takes the place of the id and of nothing else; an answer without the id is passed
/// on as it is.
pub proof fn law_a_token_takes_the_place_of_the_id(
    body: Vec<u8>,
    token: &str,
    scroll: Vec<u8>,
    pit: Vec<u8>,
    created: Vec<u8>,
)
    requires
        call_ensures(wrap_scroll_id_in_response, (body, token), scroll),
        call_ensures(wrap_pit_id_in_response, (body, token), pit),
        call_ensures(wrap_created_pit, (body, token), created),
    ensures
        swaps(body@, "_scroll_id"@, token@, scroll@),
        swaps(body@, "pit_id"@, token@, pit@),
        (exists|s: Seq<char>| #[trigger] says(body@, "pit_id"@, s)) ==> swaps(
            body@,
            "pit_id"@,
            token@,
            created@,
        ),
        !(exists|s: Seq<char>| #[trigger] says(body@, "pit_id"@, s)) ==> swaps(
            body@,
            "id"@,
            token@,
            created@,
        ),
{
    lemma_swaps(body@, "_scroll_id"@, token@);
    lemma_swaps(body@, "pit_id"@, token@);
    lemma_swaps(body@, "id"@, token@);
    lemma_reads(body@, "pit_id"@);
    if crate::cursor::text_in(body@, "pit_id"@) is Some {
        assert(says(body@, "pit_id"@, crate::cursor::text_in(body@, "pit_id"@)->Some_0));
    }
}

/// The search body `body` is pinned to the point in time `id`.
pub open spec fn pins(body: Seq<u8>, id: Seq<char>) -> bool {
    &&& json::parsed(body) matches Some(t)
    &&& t matches Tree::Object(m)
    &&& m.dom().contains("pit"@)
    &&& m["pit"@] matches Tree::Object(pit)
    &&& pit.dom().contains("id"@) && pit["id"@] == Tree::Str(id)
}

/// A search is pinned to the point in time that its body names, and only where cursors are
/// pinned at all.
pub proof fn law_a_search_is_pinned_by_its_body(
    ctx: &RequestCtx,
    affinity: bool,
    r: Option<String>,
    in_body: Option<String>,
    body: &[u8],
)
    requires
        call_ensures(pinned, (ctx, affinity), r),
        call_ensures(pit_id_in_body, (body,), in_body),
        body@ == ctx.body@,
    ensures
        forall|id: Seq<char>| #[trigger]
            pins(ctx.body@, id) ==> text_in_option(in_body) == Some(id) && (affinity ==> text_in_option(
                r,
            ) == Some(id)),
        in_body matches Some(id) ==> pins(ctx.body@, id@),
        r matches Some(id) ==> affinity && pins(ctx.body@, id@),
{
}

/// The real id takes the place of the token in a pinned search; the query and everything
/// else go along as they are.
pub proof fn law_a_pinned_search_keeps_its_query(
    body: Vec<u8>,
    id: &str,
    m: Map<Seq<char>, Tree>,
    pit: Map<Seq<char>, Tree>,
    r: Vec<u8>,
)
    requires
        call_ensures(rewrite_pit_id, (body, id), r),
    ensures
        json::parsed(body@) == Some(Tree::Object(m)) && m.dom().contains("pit"@) && m["pit"@]
            == Tree::Object(pit) ==> r@ == json::written(
            Tree::Object(m.insert("pit"@, Tree::Object(pit.insert("id"@, Tree::Str(id@))))),
        ),
        json::parsed(body@) == Some(Tree::Object(m)) && !(m.dom().contains("pit"@) && m["pit"@] is Object)
            ==> r@ == body@,
        json::parsed(body@) is None ==> r@ == body@,
{
}

/// The texts of two arrays are those of the first, then those of the second.
pub proof fn law_every_text_is_an_id(a: Seq<Tree>, b: Seq<Tree>, one: Tree)
    ensures
        texts_of(a + b) == texts_of(a) + texts_of(b),
        texts_of(seq![one]) == match one {
            Tree::Str(s) => seq![s],
            _ => Seq::empty(),
        },
    decreases b.len(),
{
    assert(seq![one].drop_last() =~= Seq::empty());
    assert(texts_of(seq![one].drop_last()) =~= Seq::empty());
    assert(texts_of(seq![one]) =~= match one {
        Tree::Str(s) => seq![s],
        _ => Seq::empty(),
    });
    if b.len() == 0 {
        assert(a + b =~= a);
        assert(texts_of(a) + texts_of(b) =~= texts_of(a));
    } else {
        law_every_text_is_an_id(a, b.drop_last(), one);
        assert((a + b).drop_last() =~= a + b.drop_last());
        assert(texts_of(a + b) =~= texts_of(a) + texts_of(b));
    }
}

/// A close names every text of its `pit_id` array.
pub proof fn law_a_close_names_every_id(
    body: &[u8],
    m: Map<Seq<char>, Tree>,
    all: Seq<Tree>,
    r: Option<Vec<String>>,
)
    requires
        call_ensures(pit_ids_in_delete_body, (body,), r),
        json::parsed(body@) == Some(Tree::Object(m)),
        m.dom().contains("pit_id"@),
        m["pit_id"@] == Tree::Array(all),
    ensures
        r is Some <==> texts_of(all).len() > 0,
        r matches Some(ids) ==> {
            &&& ids@.len() == texts_of(all).len()
            &&& forall|i: int| 0 <= i < ids@.len() ==> (#[trigger] ids@[i])@ == texts_of(all)[i]
        },
{
    if let Some(ids) = r {
        assert(views(ids@).len() == ids@.len());
        assert forall|i: int| 0 <= i < ids@.len() implies (#[trigger] ids@[i])@ == texts_of(all)[i] by {
            assert(views(ids@)[i] == ids@[i]@);
        }
    }
}

/// A scroll request names its cursor in its path, else in the `scroll_id` of its body; a
/// point in time is closed by the `id` of the body.
pub proof fn law_a_cursor_request_names_its_cursor(
    ctx: &RequestCtx,
    scroll: Option<CursorRequest>,
    close: Option<CursorRequest>,
)
    requires
        call_ensures(cursor_request, (ctx,), scroll),
        call_ensures(pit_close_request, (ctx,), close),
    ensures
        ctx.doc_id matches Some(id) ==> scroll is Some && scroll->Some_0.wrapped@ == id@,
        ctx.doc_id is None ==> reads(
            ctx.body@,
            "scroll_id"@,
            if scroll is Some {
                Some(scroll->Some_0.wrapped@)
            } else {
                None
            },
        ),
        scroll matches Some(req) ==> req.upstream_path@ == "/_search/scroll"@ && req.id_field@
            == "scroll_id"@,
        reads(
            ctx.body@,
            "id"@,
            if close is Some {
                Some(close->Some_0.wrapped@)
            } else {
                None
            },
        ),
        close matches Some(req) ==> req.upstream_path@ == "/_pit"@ && req.id_field@ == "id"@,
{
    lemma_reads(ctx.body@, "scroll_id"@);
    lemma_reads(ctx.body@, "id"@);
}

/// A cursor request without affinity, or without a cursor in it, fails; one that names an
/// index opens a point in time there; any other is for the cursor it names.
pub proof fn law_no_cursor_is_routed_blindly(
    ctx: &RequestCtx,
    affinity: bool,
    scroll: Option<CursorRequest>,
    close: Option<CursorRequest>,
    r: Result<CursorStart, RequestError>,
)
    requires
        call_ensures(cursor, (ctx, affinity), r),
        call_ensures(cursor_request, (ctx,), scroll),
        call_ensures(pit_close_request, (ctx,), close),
    ensures
        !affinity ==> (r matches Err(RequestError::Cursor { reason }) && reason@
            == "cursor affinity is not enabled"@),
        affinity && ctx.logical_index@.len() > 0 ==> r == Ok::<CursorStart, RequestError>(
            CursorStart::Create,
        ),
        affinity && ctx.logical_index@.len() == 0 && scroll is None && close is None ==> (
        r matches Err(RequestError::Cursor { reason }) && reason@ == "no cursor id in the request"@),
        affinity && ctx.logical_index@.len() == 0 && (scroll is Some || close is Some) ==> {
            let named = if scroll is Some {
                scroll->Some_0
            } else {
                close->Some_0
            };
            &&& r matches Ok(CursorStart::Existing(req))
            &&& req.wrapped@ == named.wrapped@
            &&& req.upstream_path@ == named.upstream_path@
            &&& req.id_field@ == named.id_field@
        },
{
}

/// A request on a cursor goes to the cluster its token names, with the cluster's own id in
/// the client's body and nothing else changed. A token that does not verify goes nowhere.
pub proof fn law_a_cursor_request_goes_to_its_cluster(
    ctx: &RequestCtx,
    req: &CursorRequest,
    opened: Option<&Opened>,
    endpoint: Option<String>,
    m: Map<Seq<char>, Tree>,
    r: Result<CursorOp, RequestError>,
)
    requires
        call_ensures(cursor_forward, (ctx, req, opened, endpoint), r),
    ensures
        opened is None ==> (r matches Err(RequestError::Cursor { reason }) && reason@
            == "cursor envelope is invalid or expired"@),
        opened matches Some(o) ==> {
            &&& r is Ok
            &&& r->Ok_0.cluster@ == o.cluster@
            &&& r->Ok_0.method@ == ctx.method@
            &&& r->Ok_0.path@ == req.upstream_path@
            &&& r->Ok_0.endpoint == endpoint
            &&& r->Ok_0.query is None
            &&& r->Ok_0.protocol is None
            &&& json::parsed(ctx.body@) == Some(Tree::Object(m)) ==> r->Ok_0.body@ == json::written(
                Tree::Object(m.insert(req.id_field@, Tree::Str(o.id@))),
            )
            &&& !(json::parsed(ctx.body@) matches Some(t) && t is Object) ==> r->Ok_0.body@
                == json::written(Tree::Object(map![req.id_field@ => Tree::Str(o.id@)]))
        },
{
    if let Some(o) = opened {
        assert(Map::<Seq<char>, Tree>::empty().insert(req.id_field@, Tree::Str(o.id@)) =~= map![
            req.id_field@ => Tree::Str(o.id@),
        ]);
    }
}

/// The body for a request on a cursor: the client's object with the id in its member.
pub proof fn law_a_cursor_body_gets_the_id(
    body: &[u8],
    member: &str,
    id: &str,
    m: Map<Seq<char>, Tree>,
    r: Vec<u8>,
)
    requires
        call_ensures(rewrite_cursor_body, (body, member, id), r),
        json::parsed(body@) == Some(Tree::Object(m)),
    ensures
        r@ == json::written(Tree::Object(m.insert(member@, Tree::Str(id@)))),
{
}

/// The answers to requests on cursors: the cluster's own status and content type, and its
/// body with the token in the place of the id.
pub proof fn law_cursor_answers_carry_tokens(
    outcome: CursorOutcome,
    token: Option<&str>,
    next: PipelineResponse,
    created: PipelineResponse,
)
    requires
        call_ensures(continued, (outcome, token), next),
        call_ensures(pit_created, (outcome, token), created),
    ensures
        next.status == outcome.status && next.content_type == outcome.content_type,
        created.status == outcome.status && created.content_type == outcome.content_type,
        token is None ==> next.body@ == outcome.body@ && created.body@ == outcome.body@,
        token matches Some(t) ==> swaps(outcome.body@, "_scroll_id"@, t@, next.body@),
        token matches Some(t) ==> if exists|s: Seq<char>| #[trigger] says(outcome.body@, "pit_id"@, s) {
            swaps(outcome.body@, "pit_id"@, t@, created.body@)
        } else {
            swaps(outcome.body@, "id"@, t@, created.body@)
        },
{
    if let Some(t) = token {
        lemma_swaps(outcome.body@, "_scroll_id"@, t@);
        lemma_swaps(outcome.body@, "pit_id"@, t@);
        lemma_swaps(outcome.body@, "id"@, t@);
        lemma_reads(outcome.body@, "pit_id"@);
        if crate::cursor::text_in(outcome.body@, "pit_id"@) is Some {
            assert(says(
                outcome.body@,
                "pit_id"@,
                crate::cursor::text_in(outcome.body@, "pit_id"@)->Some_0,
            ));
        }
    }
}

/// The answers to searches carry tokens too: only where there is an id to be wrapped, and in
/// its place.
pub proof fn law_search_answers_carry_tokens(
    shaped: Shaped,
    token: &str,
    scroll: PipelineResponse,
    pit: PipelineResponse,
)
    requires
        call_ensures(search_answer, (shaped, token), scroll),
        call_ensures(pit_answer, (shaped, token), pit),
    ensures
        scroll.status == shaped.status && scroll.content_type is None,
        pit.status == shaped.status && pit.content_type is None,
        shaped.cursor_id is None ==> scroll.body@ == shaped.body@ && pit.body@ == shaped.body@,
        shaped.cursor_id is Some ==> swaps(shaped.body@, "_scroll_id"@, token@, scroll.body@),
        shaped.cursor_id is Some ==> swaps(shaped.body@, "pit_id"@, token@, pit.body@),
{
    lemma_swaps(shaped.body@, "_scroll_id"@, token@);
    lemma_swaps(shaped.body@, "pit_id"@, token@);
}

/// With affinity on, the scroll id of a search answer is to be wrapped.
pub proof fn law_a_scroll_id_of_a_search_is_wrapped(
    ctx: &RequestCtx,
    shape: &ReadShape,
    outcome: &SearchOutcome,
    mapped: &[Option<String>],
    affinity: bool,
    r: Result<Shaped, RequestError>,
)
    requires
        call_ensures(searched, (ctx, shape, outcome, mapped, affinity), r),
        r is Ok,
    ensures
        !affinity ==> r->Ok_0.cursor_id is None,
        affinity && mentions(r->Ok_0.body@) ==> reads(
            r->Ok_0.body@,
            "_scroll_id"@,
            text_in_option(r->Ok_0.cursor_id),
        ),
        !mentions(r->Ok_0.body@) ==> r->Ok_0.cursor_id is None,
{
    lemma_mentions(r->Ok_0.body@);
    lemma_reads(r->Ok_0.body@, "_scroll_id"@);
}

/// A pinned search goes on only where its point in time verified.
pub proof fn law_a_pinned_search_needs_a_valid_token(
    opened: Option<Opened>,
    r: Result<Opened, RequestError>,
)
    requires
        call_ensures(pit_opened, (opened,), r),
    ensures
        opened matches Some(o) ==> r == Ok::<Opened, RequestError>(o),
        opened is None ==> (r matches Err(RequestError::Cursor { reason }) && reason@
            == "pit envelope is invalid or expired"@),
{
}

/// A pinned search goes to the cluster of its point in time with the body that was wrapped in
/// the partition filter: pinning it does not lift its isolation.
pub proof fn law_a_pinned_search_stays_isolated(
    ctx: &RequestCtx,
    resolved: &Resolved,
    wrapped: Result<Vec<u8>, RewriteError>,
    opened: &Opened,
    endpoint: Option<String>,
    id: &str,
    pinned_body: Vec<u8>,
    r: Result<(CursorOp, ReadShape), RequestError>,
)
    requires
        call_ensures(pit_search, (ctx, resolved, wrapped, opened, endpoint), r),
        id@ == opened.id@,
        wrapped matches Ok(body) ==> call_ensures(rewrite_pit_id, (body, id), pinned_body),
    ensures
        r is Ok <==> wrapped is Ok,
        wrapped matches Err(e) ==> r == Err::<(CursorOp, ReadShape), _>(RequestError::Rewrite(e)),
        r matches Ok((op, shape)) ==> {
            &&& op.cluster@ == opened.cluster@
            &&& op.method@ == ctx.method@
            &&& op.path@ == "/_search"@
            &&& op.body@ == pinned_body@
            &&& op.endpoint == endpoint
            &&& op.query is None
            &&& strips_what_it_injects(resolved.decision.body_transform, shape)
        },
{
    if r is Ok {
        lemma_shape(resolved.decision.body_transform, r->Ok_0.1);
    }
}

/// The answer to a pinned search is shown as that to any search, and its refreshed point in
/// time is to be wrapped.
pub proof fn law_a_pinned_search_shows_its_answer(
    ctx: &RequestCtx,
    shape: &ReadShape,
    outcome: &CursorOutcome,
    mapped: &[Option<String>],
    r: Result<Shaped, RequestError>,
)
    requires
        call_ensures(pit_searched, (ctx, shape, outcome, mapped), r),
    ensures
        r is Err <==> unreadable(outcome.body@),
        r matches Err(e) ==> (e matches RequestError::Rewrite(x) && x == RewriteError::InvalidJson),
        r matches Ok(a) ==> {
            &&& a.status == outcome.status
            &&& shows_answer(outcome.body@, ctx.logical_index@, *shape, mapped@, a.body@)
            &&& reads(a.body@, "pit_id"@, text_in_option(a.cursor_id))
        },
{
    lemma_answer(outcome.body@, ctx.logical_index@, *shape, mapped@);
    if r is Ok {
        lemma_reads(r->Ok_0.body@, "pit_id"@);
    }
}

/// A point in time is opened on the physical index the request was resolved to, with the
/// client's body and cursor parameters.
pub proof fn law_a_point_in_time_is_opened_where_resolved(
    ctx: &RequestCtx,
    resolved: &Resolved,
    pair: Seq<char>,
    r: CursorOp,
)
    requires
        call_ensures(pit_create, (ctx, resolved), r),
    ensures
        r.cluster@ == resolved.decision.target.cluster@,
        r.endpoint == resolved.decision.target.endpoint,
        r.path@ == "/"@ + resolved.decision.target.index@ + "/_pit"@,
        r.method@ == ctx.method@,
        r.body@ == ctx.body@,
        ctx.query is None ==> r.query is None,
        ctx.query matches Some(q) ==> (has_pair(q@, pair) && cursor_pair(pair) <==> r.query is Some
            && has_pair(r.query->Some_0@, pair)),
{
    if let Some(q) = ctx.query {
        lemma_forwarded(q@, pair);
    }
}

/// The id of a point in time that was opened is read from its answer.
pub proof fn law_an_opened_point_in_time_is_wrapped(
    outcome: &CursorOutcome,
    r: Option<String>,
)
    requires
        call_ensures(opened_pit_id, (outcome,), r),
    ensures
        if exists|s: Seq<char>| #[trigger] says(outcome.body@, "pit_id"@, s) {
            reads(outcome.body@, "pit_id"@, text_in_option(r))
        } else {
            reads(outcome.body@, "id"@, text_in_option(r))
        },
{
    lemma_reads(outcome.body@, "pit_id"@);
    lemma_reads(outcome.body@, "id"@);
    if crate::cursor::text_in(outcome.body@, "pit_id"@) is Some {
        assert(says(
            outcome.body@,
            "pit_id"@,
            crate::cursor::text_in(outcome.body@, "pit_id"@)->Some_0,
        ));
    }
}

} // verus!
