//! Multi-get: one request for many documents that may live in different indices on
//! different clusters. Each document is fetched on its own, at most
//! [`MAX_FETCH_CONCURRENCY`] at a time, and stands in the answer at the place it was
//! asked for. A document that cannot be had is reported in its place; the request as a
//! whole succeeds.

use crate::error::{RewriteError, SinkError, SpiError};
use crate::json::{self, tree, Members, Node, Tree};
use crate::pipeline::PipelineResponse;
use crate::read::{
    build_read_op, found_view, named, not_found_body, not_found_view, physical_id, shape_found,
    ReadShape,
};
use crate::slots::{law_each_in_its_place, law_order_is_free, noted, one_each};
use crate::text::views;
use crate::types::{opt, routing, ReadOp, ReadOutcome, RequestCtx, Resolved};
use serde_json::Value;
use vstd::prelude::*;

verus! {

/// How many fetches of one request may be under way at a time.
pub const MAX_FETCH_CONCURRENCY: usize = 8;

/// One document asked for.
#[derive(Debug)]
pub struct MgetItem {
    /// The index the item names, if any.
    pub index: Option<String>,
    pub id: String,
}

impl MgetItem {
    /// The index the document is in: the item's, else the request's.
    pub open spec fn logical_index(self, ctx: RequestCtx) -> Seq<char> {
        match self.index {
            Some(index) => index@,
            None => ctx.logical_index@,
        }
    }

    /// The index the document is in.
    pub fn index_for(&self, ctx: &RequestCtx) -> (r: String)
        ensures
            r@ == self.logical_index(*ctx),
    {
        match &self.index {
            Some(index) => index.clone(),
            None => ctx.logical_index.clone(),
        }
    }
}

/// A prepared fetch, with what the answer is shaped by.
#[derive(Debug)]
pub struct Fetch {
    pub op: ReadOp,
    pub shape: ReadShape,
    pub logical_index: String,
    pub logical_id: String,
}

/// What is reported in the place of a document that cannot be had.
pub open spec fn error_view(index: Seq<char>, id: Seq<char>, error: Seq<char>) -> Tree {
    Tree::Object(
        named(index, id).insert(
            "error"@,
            Tree::Object(
                Map::<Seq<char>, Tree>::empty().insert("type"@, Tree::Str(error)),
            ),
        ),
    )
}

fn error_doc(logical_index: &str, logical_id: &str, error: &str) -> (r: Value)
    ensures
        tree(r) == error_view(logical_index@, logical_id@, error@),
{
    let kind: json::Object = Members::new();
    let doc: json::Object = Members::new();
    doc.with("_index", json::text(logical_index)).with("_id", json::text(logical_id)).with(
        "error",
        kind.with("type", json::text(error)).into_value(),
    ).into_value()
}

/// A fetch of `item` under `resolved`, where its physical id is `id`.
pub open spec fn is_fetch(
    f: Fetch,
    item: MgetItem,
    ctx: RequestCtx,
    resolved: Resolved,
    id: Seq<char>,
) -> bool {
    &&& f.op.target == resolved.decision.target
    &&& f.op.id@ == id
    &&& opt(f.op.routing) == routing(resolved.decision.body_transform, resolved.partition@)
    &&& f.op.protocol == resolved.decision.upstream_protocol
    &&& f.shape.of(resolved.decision.body_transform)
    &&& f.logical_index@ == item.logical_index(ctx)
    &&& f.logical_id@ == item.id@
}

/// Prepares the fetch of one document. `placement` is what the router answered for
/// the document's index, `mapped` the physical id its id rule gives.
pub fn prepare(
    ctx: &RequestCtx,
    item: &MgetItem,
    placement: Result<&Resolved, SpiError>,
    mapped: Result<String, RewriteError>,
) -> (r: Result<Fetch, Value>)
    ensures
        match placement {
            Err(_) => r is Err && tree(r->Err_0) == error_view(
                item.logical_index(*ctx),
                item.id@,
                "placement_missing"@,
            ),
            Ok(resolved) => match physical_id(
                resolved.decision.body_transform,
                item.id@,
                mapped,
            ) {
                Ok(id) => r is Ok && is_fetch(r->Ok_0, *item, *ctx, *resolved, id),
                Err(_) => r is Err && tree(r->Err_0) == error_view(
                    item.logical_index(*ctx),
                    item.id@,
                    "irreversible_id"@,
                ),
            },
        },
{
    let logical_index = item.index_for(ctx);
    let resolved = match placement {
        Ok(resolved) => resolved,
        Err(_) => {
            return Err(error_doc(logical_index.as_str(), item.id.as_str(), "placement_missing"));
        },
    };
    match build_read_op(resolved, item.id.as_str(), mapped) {
        Ok((op, shape)) => Ok(Fetch { op, shape, logical_index, logical_id: item.id.clone() }),
        Err(_) => Err(error_doc(logical_index.as_str(), item.id.as_str(), "irreversible_id")),
    }
}

/// A JSON text as it is read back, or the report that it cannot be.
pub open spec fn reread(bytes: Seq<u8>, f: Fetch) -> Tree {
    match json::parsed(bytes) {
        Some(t) => t,
        None => error_view(f.logical_index@, f.logical_id@, "malformed_upstream"@),
    }
}

/// What stands in the answer for a fetch that came back with `result`.
pub open spec fn result_view(f: Fetch, result: Result<ReadOutcome, SinkError>) -> Tree {
    match result {
        Err(_) => error_view(f.logical_index@, f.logical_id@, "upstream_failed"@),
        Ok(outcome) => if outcome.found {
            match json::parsed(outcome.body@) {
                None => error_view(f.logical_index@, f.logical_id@, "malformed_upstream"@),
                Some(t) => reread(
                    json::written(
                        found_view(
                            t,
                            f.logical_index@,
                            f.logical_id@,
                            views(f.shape.inject_names@),
                        ),
                    ),
                    f,
                ),
            }
        } else {
            reread(json::written(not_found_view(f.logical_index@, f.logical_id@)), f)
        },
    }
}

/// Shapes what a fetch came back with into the entry of the answer: the stored document
/// in its client's view, a document that is not found, or an error in place.
pub fn shape_result(f: &Fetch, result: Result<ReadOutcome, SinkError>) -> (r: Value)
    ensures
        tree(r) == result_view(*f, result),
{
    let index = f.logical_index.as_str();
    let id = f.logical_id.as_str();
    let outcome = match result {
        Ok(outcome) => outcome,
        Err(_) => {
            return error_doc(index, id, "upstream_failed");
        },
    };
    let bytes = if outcome.found {
        match shape_found(outcome.body.as_slice(), index, id, f.shape.inject_names.as_slice()) {
            Ok(bytes) => bytes,
            Err(_) => {
                return error_doc(index, id, "malformed_upstream");
            },
        }
    } else {
        not_found_body(index, id)
    };
    match json::parse(bytes.as_slice()) {
        Some(doc) => doc,
        None => error_doc(index, id, "malformed_upstream"),
    }
}

/// The answer to a multi-get as it fills up, one entry per document asked for.
pub struct MultiGet {
    docs: Vec<Value>,
    waiting: Vec<Option<Fetch>>,
}

impl MultiGet {
    /// The entries, in the order the documents were asked for.
    pub closed spec fn docs(self) -> Seq<Tree> {
        json::trees(self.docs@)
    }

    /// The fetches that are still to be answered.
    pub closed spec fn waiting(self) -> Seq<Option<Fetch>> {
        self.waiting@
    }

    #[verifier::type_invariant]
    spec fn well_formed(self) -> bool {
        self.docs@.len() == self.waiting@.len()
    }

    /// The answer for `n` documents, nothing of it known.
    pub fn new(n: usize) -> (r: Self)
        ensures
            r.docs() == Seq::new(n as nat, |i: int| Tree::Null),
            r.waiting() == Seq::new(n as nat, |i: int| None::<Fetch>),
    {
        let mut docs: Vec<Value> = Vec::new();
        let mut waiting: Vec<Option<Fetch>> = Vec::new();
        let mut i: usize = 0;
        while i < n
            invariant
                0 <= i <= n,
                docs@.len() == i,
                waiting@.len() == i,
                forall|j: int| 0 <= j < i ==> tree(#[trigger] docs@[j]) == Tree::Null,
                forall|j: int| 0 <= j < i ==> #[trigger] waiting@[j] is None,
            decreases n - i,
        {
            docs.push(json::null());
            waiting.push(None);
            i += 1;
        }
        assert(json::trees(docs@) =~= Seq::new(n as nat, |i: int| Tree::Null));
        assert(waiting@ =~= Seq::new(n as nat, |i: int| None::<Fetch>));
        MultiGet { docs, waiting }
    }

    /// Notes what came of preparing the document at `ordinal`.
    pub fn prepared(self, ordinal: usize, outcome: Result<Fetch, Value>) -> (r: Self)
        requires
            ordinal < self.docs().len(),
        ensures
            match outcome {
                Ok(f) => r.waiting() == self.waiting().update(ordinal as int, Some(f)) && r.docs()
                    == self.docs(),
                Err(doc) => r.docs() == self.docs().update(ordinal as int, tree(doc))
                    && r.waiting() == self.waiting(),
            },
    {
        proof {
            use_type_invariant(&self);
        }
        let mut docs = self.docs;
        let mut waiting = self.waiting;
        let ghost before = docs@;
        match outcome {
            Ok(f) => {
                waiting.set(ordinal, Some(f));
            },
            Err(doc) => {
                docs.set(ordinal, doc);
                assert(json::trees(docs@) =~= json::trees(before).update(ordinal as int, tree(doc)));
            },
        }
        MultiGet { docs, waiting }
    }

    /// The fetch of the document at `ordinal`, where there is one.
    pub fn fetch(&self, ordinal: usize) -> (r: Option<&Fetch>)
        ensures
            if ordinal < self.docs().len() {
                match r {
                    Some(f) => self.waiting()[ordinal as int] == Some(*f),
                    None => self.waiting()[ordinal as int] is None,
                }
            } else {
                r is None
            },
    {
        proof {
            use_type_invariant(self);
        }
        if ordinal < self.waiting.len() {
            match &self.waiting[ordinal] {
                Some(f) => Some(f),
                None => None,
            }
        } else {
            None
        }
    }

    /// Fills the place of a fetch that came back. A place without a fetch is left as it
    /// is.
    pub fn fetched(self, ordinal: usize, result: Result<ReadOutcome, SinkError>) -> (r: Self)
        requires
            ordinal < self.docs().len(),
        ensures
            r.waiting() == self.waiting(),
            r.docs() == match self.waiting()[ordinal as int] {
                Some(f) => self.docs().update(ordinal as int, result_view(f, result)),
                None => self.docs(),
            },
    {
        proof {
            use_type_invariant(&self);
        }
        let mut docs = self.docs;
        let waiting = self.waiting;
        let ghost before = docs@;
        if let Some(f) = &waiting[ordinal] {
            docs.set(ordinal, shape_result(f, result));
            assert(json::trees(docs@) =~= json::trees(before).update(
                ordinal as int,
                result_view(*f, result),
            ));
        }
        MultiGet { docs, waiting }
    }

    /// The answer: every entry in its place, with status 200.
    pub fn response(self) -> (r: PipelineResponse)
        ensures
            r.is_json(
                200,
                json::written(
                    Tree::Object(
                        Map::<Seq<char>, Tree>::empty().insert("docs"@, Tree::Array(self.docs())),
                    ),
                ),
            ),
    {
        let body: json::Object = Members::new();
        let whole = body.with("docs", json::close(Node::Array(self.docs))).into_value();
        match json::print(&whole) {
            Some(bytes) => PipelineResponse::json(200, bytes),
            None => PipelineResponse::json(200, Vec::new()),
        }
    }
}

/// Fetches may come back in any order: every document's answer ends up in its own place,
/// and the whole is the same.
pub proof fn law_fetches_may_come_back_in_any_order(
    docs: Seq<Tree>,
    a: Seq<(int, Tree)>,
    b: Seq<(int, Tree)>,
)
    requires
        one_each(a, docs.len() as int),
        one_each(b, docs.len() as int),
        forall|x: (int, Tree)| #[trigger] a.contains(x) <==> b.contains(x),
    ensures
        noted(docs, a) == noted(docs, b),
        forall|i: int| 0 <= i < a.len() ==> noted(docs, a)[(#[trigger] a[i]).0] == a[i].1,
{
    law_each_in_its_place(docs, a);
    law_order_is_free(docs, a, b);
}

} // verus!
