//! Multi-search: one request that runs many searches, each on its own index and
//! wrapped in the partition filter, at most [`MAX_SEARCH_CONCURRENCY`] at a time. Each
//! answer stands at the place of its search. What is not a hit is kept as raw text.

use crate::error::{RewriteError, SinkError, SpiError};
use crate::json::{self, Members, RawObject, Tree};
use crate::pipeline::PipelineResponse;
use crate::read::{build_search_op, shape_hits, shaped_answer, ReadShape};
use crate::slots::{law_each_in_its_place, law_order_is_free, noted, one_each};
use crate::text::views;
use crate::types::{opts, RequestCtx, Resolved, SearchOp, SearchOutcome};
use vstd::prelude::*;

verus! {

/// How many searches of one request may be under way at a time.
pub const MAX_SEARCH_CONCURRENCY: usize = 8;

/// One search of the request.
#[derive(Debug)]
pub struct MsearchItem {
    /// The index the search names, if any.
    pub index: Option<String>,
    pub query: Vec<u8>,
}

impl MsearchItem {
    /// The index that is searched: the item's, else the request's.
    pub open spec fn logical_index(self, ctx: RequestCtx) -> Seq<char> {
        match self.index {
            Some(index) => index@,
            None => ctx.logical_index@,
        }
    }

    /// The index that is searched.
    pub fn index_for(&self, ctx: &RequestCtx) -> (r: String)
        ensures
            r@ == self.logical_index(*ctx),
    {
        match &self.index {
            Some(index) => index.clone(),
            None => ctx.logical_index.clone(),
        }
    }
}

/// A prepared search, with what its answer is shaped by.
#[derive(Debug)]
pub struct Search {
    pub op: SearchOp,
    pub shape: ReadShape,
    pub logical_index: String,
    pub partition: String,
}

/// The answer to a search that cannot be had.
pub open spec fn error_text(status: u16, error: Seq<char>) -> Seq<u8> {
    json::written(
        Tree::Object(
            Map::<Seq<char>, Tree>::empty().insert(
                "error"@,
                Tree::Object(Map::<Seq<char>, Tree>::empty().insert("type"@, Tree::Str(error))),
            ).insert("status"@, Tree::Uint(status as u64)),
        ),
    )
}

fn error_response(status: u16, error: &str) -> (r: Vec<u8>)
    ensures
        r@ == error_text(status, error@),
{
    let kind: json::Object = Members::new();
    let entry: json::Object = Members::new();
    let whole = entry.with("error", kind.with("type", json::text(error)).into_value()).with(
        "status",
        json::uint(status as u64),
    ).into_value();
    match json::print(&whole) {
        Some(bytes) => bytes,
        None => Vec::new(),
    }
}

/// A search of `item` under `resolved`, for the wrapped query `body`.
pub open spec fn is_search(
    s: Search,
    item: MsearchItem,
    ctx: RequestCtx,
    resolved: Resolved,
    body: Vec<u8>,
) -> bool {
    &&& s.op.target == resolved.decision.target
    &&& s.op.body == body
    &&& s.op.query is None
    &&& s.op.protocol == resolved.decision.upstream_protocol
    &&& s.shape.of(resolved.decision.body_transform)
    &&& s.logical_index@ == item.logical_index(ctx)
    &&& s.partition@ == resolved.partition@
}

/// Prepares one search. `placement` is what the router answered for its index,
/// `wrapped` its query wrapped in the partition filter. The error is the entry of the
/// answer.
pub fn prepare(
    ctx: &RequestCtx,
    item: &MsearchItem,
    placement: Result<&Resolved, SpiError>,
    wrapped: Result<Vec<u8>, RewriteError>,
) -> (r: Result<Search, Vec<u8>>)
    ensures
        match (placement, wrapped) {
            (Err(_), _) => r is Err && r->Err_0@ == error_text(400, "placement_missing"@),
            (Ok(_), Err(_)) => r is Err && r->Err_0@ == error_text(400, "invalid_query"@),
            (Ok(resolved), Ok(body)) => r is Ok && is_search(
                r->Ok_0,
                *item,
                *ctx,
                *resolved,
                body,
            ),
        },
{
    let resolved = match placement {
        Ok(resolved) => resolved,
        Err(_) => {
            return Err(error_response(400, "placement_missing"));
        },
    };
    match build_search_op(resolved, wrapped) {
        Ok((op, shape)) => Ok(
            Search {
                op,
                shape,
                logical_index: item.index_for(ctx),
                partition: resolved.partition.clone(),
            },
        ),
        Err(_) => Err(error_response(400, "invalid_query")),
    }
}

/// The members of an answer with its status added.
pub open spec fn status_added(
    top: Map<Seq<char>, Seq<char>>,
    status: u16,
) -> Map<Seq<char>, Seq<char>> {
    top.insert("status"@, json::raw_of(Tree::Uint(status as u64)))
}

/// Adds the status to an answer whose other members stay raw text. `None` where the
/// answer is no JSON object.
pub fn with_status(shaped: &[u8], status: u16) -> (r: Option<Vec<u8>>)
    ensures
        match json::raw_members(shaped@) {
            None => r is None,
            Some(top) => r is Some && r->Some_0@ == json::raw_written(status_added(top, status))
                && json::raw_members(r->Some_0@) == Some(status_added(top, status)),
        },
{
    let top = match RawObject::read(shaped) {
        Some(top) => top,
        None => {
            return None;
        },
    };
    match json::to_raw(&json::uint(status as u64)) {
        Some(text) => top.with("status", text).write(),
        None => None,
    }
}

/// The entry of the answer for a search that came back with `result`. `mapped` holds
/// the logical ids of its hits.
pub open spec fn entry_text(
    s: Search,
    result: Result<SearchOutcome, SinkError>,
    mapped: Seq<Option<Seq<char>>>,
) -> Seq<u8> {
    match result {
        Err(_) => error_text(502, "upstream_failed"@),
        Ok(outcome) => match shaped_answer(
            outcome.body@,
            s.logical_index@,
            s.shape.id_rule is Some,
            mapped,
            views(s.shape.inject_names@),
        ) {
            None => error_text(502, "malformed_upstream"@),
            Some(shaped) => match json::raw_members(shaped) {
                None => error_text(502, "malformed_upstream"@),
                Some(top) => json::raw_written(status_added(top, outcome.status)),
            },
        },
    }
}

/// Every member of the object `before` but `hits` and `status` is in `after`, with the
/// same text.
pub open spec fn keeps_others(before: Seq<u8>, after: Seq<u8>) -> bool {
    match json::raw_members(before) {
        None => true,
        Some(top) => forall|k: Seq<char>|
            k != "hits"@ && k != "status"@ && #[trigger] top.dom().contains(k) ==> json::raw_members(
                after,
            ) is Some && json::raw_members(after)->Some_0.dom().contains(k)
                && json::raw_members(after)->Some_0[k] == top[k],
    }
}

/// Shapes what a search came back with into its entry of the answer: its hits in their
/// client's view and its status, or an error in place. Who reads the entry finds every
/// member of the answer but `hits` and `status` with the text it had.
pub fn shape_response(
    s: &Search,
    result: Result<SearchOutcome, SinkError>,
    mapped: &[Option<String>],
) -> (r: Vec<u8>)
    ensures
        r@ == entry_text(*s, result, opts(mapped@)),
        result matches Ok(outcome) ==> (shaped_answer(
            outcome.body@,
            s.logical_index@,
            s.shape.id_rule is Some,
            opts(mapped@),
            views(s.shape.inject_names@),
        ) is Some ==> keeps_others(outcome.body@, r@)),
{
    let outcome = match result {
        Ok(outcome) => outcome,
        Err(_) => {
            return error_response(502, "upstream_failed");
        },
    };
    match shape_hits(outcome.body.as_slice(), s.logical_index.as_str(), &s.shape, mapped) {
        Ok(shaped) => match with_status(shaped.as_slice(), outcome.status) {
            Some(entry) => {
                assert(keeps_others(outcome.body@, entry@)) by {
                    if json::raw_members(outcome.body@) is Some {
                        let top = json::raw_members(outcome.body@)->Some_0;
                        let mid = json::raw_members(shaped@)->Some_0;
                        assert(json::raw_members(entry@) == Some(status_added(mid, outcome.status)));
                        assert forall|k: Seq<char>|
                            k != "hits"@ && k != "status"@ && #[trigger] top.dom().contains(
                                k,
                            ) implies json::raw_members(entry@) is Some && json::raw_members(
                            entry@,
                        )->Some_0.dom().contains(k) && json::raw_members(entry@)->Some_0[k]
                            == top[k] by {
                            assert(json::raw_members(shaped@)->Some_0[k] == top[k]);
                        }
                    }
                }
                entry
            },
            None => error_response(502, "malformed_upstream"),
        },
        Err(_) => error_response(502, "malformed_upstream"),
    }
}

/// JSON texts joined by commas.
pub open spec fn listed(entries: Seq<Seq<u8>>) -> Seq<u8>
    decreases entries.len(),
{
    if entries.len() == 0 {
        Seq::empty()
    } else if entries.len() == 1 {
        entries[0]
    } else {
        listed(entries.drop_last()) + seq![0x2cu8] + entries.last()
    }
}

/// The bytes of each entry.
pub open spec fn entry_bytes(entries: Seq<Vec<u8>>) -> Seq<Seq<u8>> {
    entries.map_values(|e: Vec<u8>| e@)
}

/// `{"responses":[` and `]}` around the entries.
pub open spec fn responses_text(entries: Seq<Seq<u8>>) -> Seq<u8> {
    vstd::utf8::encode_utf8("{\"responses\":["@) + listed(entries) + vstd::utf8::encode_utf8("]}"@)
}

/// Puts the entries, each a JSON text already, between the brackets of the answer.
pub fn assemble_responses(responses: &[Vec<u8>]) -> (r: Vec<u8>)
    ensures
        r@ == responses_text(entry_bytes(responses@)),
{
    let ghost all = entry_bytes(responses@);
    let ghost head = vstd::utf8::encode_utf8("{\"responses\":["@);
    let mut body: Vec<u8> = Vec::new();
    body.extend_from_slice("{\"responses\":[".as_bytes());
    let mut i: usize = 0;
    assert(body@ =~= head + listed(all.take(0)));
    while i < responses.len()
        invariant
            all == entry_bytes(responses@),
            0 <= i <= responses@.len(),
            body@ == head + listed(all.take(i as int)),
        decreases responses@.len() - i,
    {
        let ghost before = body@;
        proof {
            assert(all.take(i + 1).drop_last() =~= all.take(i as int));
            assert(all.take(i + 1).last() == responses@[i as int]@);
        }
        if i > 0 {
            body.push(0x2c);
        }
        body.extend_from_slice(responses[i].as_slice());
        proof {
            if i > 0 {
                assert(body@ =~= head + (listed(all.take(i as int)) + seq![0x2cu8]
                    + responses@[i as int]@));
            } else {
                assert(all.take(1)[0] == responses@[0]@);
                assert(body@ =~= head + responses@[0]@);
            }
        }
        i += 1;
    }
    assert(all.take(i as int) =~= all);
    body.extend_from_slice("]}".as_bytes());
    assert(body@ =~= responses_text(all));
    body
}

/// The answer to a multi-search as it fills up, one entry per search.
pub struct MultiSearch {
    entries: Vec<Vec<u8>>,
    waiting: Vec<Option<Search>>,
}

impl MultiSearch {
    /// The entries, in the order of the searches.
    pub closed spec fn entries(self) -> Seq<Seq<u8>> {
        entry_bytes(self.entries@)
    }

    /// The searches that are still to be answered.
    pub closed spec fn waiting(self) -> Seq<Option<Search>> {
        self.waiting@
    }

    #[verifier::type_invariant]
    spec fn well_formed(self) -> bool {
        self.entries@.len() == self.waiting@.len()
    }

    /// The answer for `n` searches, nothing of it known.
    pub fn new(n: usize) -> (r: Self)
        ensures
            r.entries() == Seq::new(n as nat, |i: int| vstd::utf8::encode_utf8("null"@)),
            r.waiting() == Seq::new(n as nat, |i: int| None::<Search>),
    {
        let mut entries: Vec<Vec<u8>> = Vec::new();
        let mut waiting: Vec<Option<Search>> = Vec::new();
        let mut i: usize = 0;
        while i < n
            invariant
                0 <= i <= n,
                entries@.len() == i,
                waiting@.len() == i,
                forall|j: int|
                    0 <= j < i ==> (#[trigger] entries@[j])@ == vstd::utf8::encode_utf8("null"@),
                forall|j: int| 0 <= j < i ==> #[trigger] waiting@[j] is None,
            decreases n - i,
        {
            entries.push(crate::types::clone_bytes("null".as_bytes()));
            waiting.push(None);
            i += 1;
        }
        assert(entry_bytes(entries@) =~= Seq::new(
            n as nat,
            |i: int| vstd::utf8::encode_utf8("null"@),
        ));
        assert(waiting@ =~= Seq::new(n as nat, |i: int| None::<Search>));
        MultiSearch { entries, waiting }
    }

    /// Notes what came of preparing the search at `ordinal`.
    pub fn prepared(self, ordinal: usize, outcome: Result<Search, Vec<u8>>) -> (r: Self)
        requires
            ordinal < self.entries().len(),
        ensures
            match outcome {
                Ok(s) => r.waiting() == self.waiting().update(ordinal as int, Some(s))
                    && r.entries() == self.entries(),
                Err(entry) => r.entries() == self.entries().update(ordinal as int, entry@)
                    && r.waiting() == self.waiting(),
            },
    {
        proof {
            use_type_invariant(&self);
        }
        let mut entries = self.entries;
        let mut waiting = self.waiting;
        let ghost before = entries@;
        match outcome {
            Ok(s) => {
                waiting.set(ordinal, Some(s));
            },
            Err(entry) => {
                entries.set(ordinal, entry);
                assert(entry_bytes(entries@) =~= entry_bytes(before).update(ordinal as int, entry@));
            },
        }
        MultiSearch { entries, waiting }
    }

    /// The search at `ordinal`, where there is one to run.
    pub fn search(&self, ordinal: usize) -> (r: Option<&Search>)
        ensures
            if ordinal < self.entries().len() {
                match r {
                    Some(s) => self.waiting()[ordinal as int] == Some(*s),
                    None => self.waiting()[ordinal as int] is None,
                }
            } else {
                r is None
            },
    {
        proof {
            use_type_invariant(self);
        }
        if ordinal < self.waiting.len() {
            match &self.waiting[ordinal] {
                Some(s) => Some(s),
                None => None,
            }
        } else {
            None
        }
    }

    /// Fills the place of a search that came back. A place without a search is left as
    /// it is.
    pub fn searched(
        self,
        ordinal: usize,
        result: Result<SearchOutcome, SinkError>,
        mapped: &[Option<String>],
    ) -> (r: Self)
        requires
            ordinal < self.entries().len(),
        ensures
            r.waiting() == self.waiting(),
            r.entries() == match self.waiting()[ordinal as int] {
                Some(s) => self.entries().update(
                    ordinal as int,
                    entry_text(s, result, opts(mapped@)),
                ),
                None => self.entries(),
            },
    {
        proof {
            use_type_invariant(&self);
        }
        let mut entries = self.entries;
        let waiting = self.waiting;
        let ghost before = entries@;
        if let Some(s) = &waiting[ordinal] {
            entries.set(ordinal, shape_response(s, result, mapped));
            assert(entry_bytes(entries@) =~= entry_bytes(before).update(
                ordinal as int,
                entry_text(*s, result, opts(mapped@)),
            ));
        }
        MultiSearch { entries, waiting }
    }

    /// The answer: every entry in its place, with status 200.
    pub fn response(&self) -> (r: PipelineResponse)
        ensures
            r.is_json(200, responses_text(self.entries())),
    {
        PipelineResponse::json(200, assemble_responses(self.entries.as_slice()))
    }
}

/// Searches may come back in any order: every search's entry ends up in its own place, and
/// the whole is the same.
pub proof fn law_searches_may_come_back_in_any_order(
    entries: Seq<Seq<u8>>,
    a: Seq<(int, Seq<u8>)>,
    b: Seq<(int, Seq<u8>)>,
)
    requires
        one_each(a, entries.len() as int),
        one_each(b, entries.len() as int),
        forall|x: (int, Seq<u8>)| #[trigger] a.contains(x) <==> b.contains(x),
    ensures
        noted(entries, a) == noted(entries, b),
        forall|i: int| 0 <= i < a.len() ==> noted(entries, a)[(#[trigger] a[i]).0] == a[i].1,
{
    law_each_in_its_place(entries, a);
    law_order_is_free(entries, a, b);
}

} // verus!
