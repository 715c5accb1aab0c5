//! The preparation of one bulk operation: find its partition and placement, apply the
//! tenancy transform, and pick the document operation for its action. What fails is
//! reported in place, without any tenant's data.

use crate::bulkline::{BulkAction, Item, Line, Report};
use crate::error::{RewriteError, SpiError};
use crate::json::{self, tree};
use crate::placements::Placements;
use crate::plan::value_of;
use crate::types::{
    clone_text, id_rule, id_rule_of, injected, injected_fields, opt, routing, routing_for,
    BodyTransform, DocOp, DocView, InjectedValue, RequestCtx, Resolved, WriteOp,
};
use serde_json::Value;
use vstd::prelude::*;

verus! {

/// One operation of a bulk body.
#[derive(Debug)]
pub struct BulkItem {
    pub action: BulkAction,
    /// The index the operation names, if any.
    pub index: Option<String>,
    pub id: Option<String>,
    pub source: Option<Vec<u8>>,
    /// Whether the operation is conditional on the document's version.
    pub concurrency_control: bool,
}

/// What the rewriting layer returned for an operation. A part that the operation does
/// not call for is not looked at.
#[derive(Debug)]
pub struct Answers {
    /// The physical id that the operation's id maps to.
    pub mapped: Result<String, RewriteError>,
    /// The source with the fields spliced in.
    pub injected: Result<Vec<u8>, RewriteError>,
    /// The physical id built from the source.
    pub constructed: Result<String, RewriteError>,
    /// The logical id of that physical id.
    pub recovered: Option<String>,
    /// The update body with the fields added to its `doc` and `upsert`.
    pub updated: Result<Value, RewriteError>,
}

/// A prepared operation: what is dispatched, and what its response line needs.
#[derive(Debug)]
pub struct Prepared {
    pub op: WriteOp,
    pub partition: String,
    pub action: BulkAction,
    pub logical_index: String,
    pub logical_id: String,
}

/// An operation that cannot be prepared.
#[derive(Debug)]
pub struct ItemFailure {
    pub action: BulkAction,
    pub logical_index: String,
    pub logical_id: Option<String>,
    pub status: u16,
    pub error: &'static str,
}

impl ItemFailure {
    /// The failure of `item`, whose index is `index`.
    pub open spec fn is(self, item: BulkItem, index: Seq<char>, status: u16, error: Seq<char>) -> bool {
        &&& self.action == item.action
        &&& self.logical_index@ == index
        &&& opt(self.logical_id) == opt(item.id)
        &&& self.status == status
        &&& self.error@ == error
    }

    /// The response line of the failure.
    pub fn into_line(self) -> (r: Line)
        ensures
            r@ == (Item {
                action: self.action,
                index: self.logical_index@,
                id: opt(self.logical_id),
                status: self.status,
                report: Report::Error(self.error@),
            }),
    {
        Line::error(self.action, self.logical_index, self.logical_id, self.status, self.error)
    }
}

pub(crate) fn fail(item: &BulkItem, logical_index: &str, status: u16, error: &'static str) -> (r: ItemFailure)
    ensures
        r.is(*item, logical_index@, status, error@),
{
    ItemFailure {
        action: item.action,
        logical_index: logical_index.to_owned(),
        logical_id: clone_text(&item.id),
        status,
        error,
    }
}

/// The index an operation is for: the one it names, else the request's.
pub open spec fn item_index(item: BulkItem, ctx: RequestCtx) -> Seq<char> {
    match item.index {
        Some(index) => index@,
        None => ctx.logical_index@,
    }
}

/// The index an operation is for.
pub fn logical_index_of(item: &BulkItem, ctx: &RequestCtx) -> (r: String)
    ensures
        r@ == item_index(*item, *ctx),
{
    match &item.index {
        Some(index) => index.clone(),
        None => ctx.logical_index.clone(),
    }
}

/// The fields to add to the operation's document, each with its value. A value that
/// depends on the request's context falls back to the partition: what is stored is
/// always isolated.
pub fn inject_pairs(transform: &BodyTransform, partition: &str) -> (r: Vec<(String, Value)>)
    ensures
        r@.len() == injected(*transform).len(),
        forall|i: int|
            0 <= i < r@.len() ==> (#[trigger] r@[i]).0@ == injected(*transform)[i].name@ && tree(
                r@[i].1,
            ) == value_of(injected(*transform)[i], partition@),
{
    let fields = injected_fields(transform);
    let mut out: Vec<(String, Value)> = Vec::new();
    let mut i: usize = 0;
    while i < fields.len()
        invariant
            0 <= i <= fields@.len(),
            out@.len() == i,
            forall|j: int|
                0 <= j < i ==> (#[trigger] out@[j]).0@ == fields@[j].name@ && tree(out@[j].1)
                    == value_of(fields@[j], partition@),
        decreases fields@.len() - i,
    {
        let value = match &fields[i].value {
            InjectedValue::Constant(v) => json::duplicate(v),
            InjectedValue::PartitionId
            | InjectedValue::FromPrincipal(_)
            | InjectedValue::FromHeader(_) => json::text(partition),
        };
        out.push((fields[i].name.clone(), value));
        i += 1;
    }
    out
}

/// The physical id of a delete or an update, where there is one.
pub open spec fn target_id(
    t: BodyTransform,
    id: Seq<char>,
    mapped: Result<String, RewriteError>,
) -> Option<Seq<char>> {
    match id_rule(t) {
        Some(_) => match mapped {
            Ok(p) => Some(p@),
            Err(_) => None,
        },
        None => Some(id),
    }
}

fn physical_id(
    transform: &BodyTransform,
    logical: &String,
    mapped: Result<String, RewriteError>,
) -> (r: Option<String>)
    ensures
        opt(r) == target_id(*transform, logical@, mapped),
{
    match id_rule_of(transform) {
        Some(_) => match mapped {
            Ok(p) => Some(p),
            Err(_) => None,
        },
        None => Some(logical.clone()),
    }
}

/// The physical id an index or a create is stored under, if any, and the logical id
/// to echo; `None` where the id rule gives no id.
pub open spec fn index_ids(t: BodyTransform, id: Option<Seq<char>>, a: Answers) -> Option<
    (Option<Seq<char>>, Seq<char>),
> {
    match (id_rule(t), id) {
        (Some(_), Some(logical)) => match a.mapped {
            Ok(p) => Some((Some(p@), logical)),
            Err(_) => None,
        },
        (Some(_), None) => match a.constructed {
            Ok(p) => Some(
                (
                    Some(p@),
                    match a.recovered {
                        Some(l) => l@,
                        None => p@,
                    },
                ),
            ),
            Err(_) => None,
        },
        (None, Some(logical)) => Some((Some(logical), logical)),
        (None, None) => Some((None, Seq::empty())),
    }
}

fn index_id(
    transform: &BodyTransform,
    id: &Option<String>,
    mapped: Result<String, RewriteError>,
    constructed: Result<String, RewriteError>,
    recovered: Option<String>,
) -> (r: Option<(Option<String>, String)>)
    ensures
        forall|a: Answers|
            a.mapped == mapped && a.constructed == constructed && a.recovered == recovered ==> (
            match #[trigger] index_ids(*transform, opt(*id), a) {
                Some((p, l)) => r is Some && opt(r->Some_0.0) == p && r->Some_0.1@ == l,
                None => r is None,
            }),
{
    match (id_rule_of(transform), id) {
        (Some(_), Some(logical)) => match mapped {
            Ok(p) => Some((Some(p), logical.clone())),
            Err(_) => None,
        },
        (Some(_), None) => match constructed {
            Ok(p) => {
                let logical = match recovered {
                    Some(l) => l,
                    None => p.clone(),
                };
                Some((Some(p), logical))
            },
            Err(_) => None,
        },
        (None, Some(logical)) => Some((Some(logical.clone()), logical.clone())),
        (None, None) => Some((None, String::new())),
    }
}

/// The document operation of a resolved bulk operation and the logical id to echo,
/// or the type of its failure.
pub open spec fn doc_of(item: BulkItem, resolved: Resolved, a: Answers) -> Result<
    (DocView, Seq<char>),
    Seq<char>,
> {
    let t = resolved.decision.body_transform;
    let route = routing(t, resolved.partition@);
    match item.action {
        BulkAction::Delete => match item.id {
            None => Err("delete_without_id"@),
            Some(id) => match target_id(t, id@, a.mapped) {
                None => Err("irreversible_id"@),
                Some(p) => Ok((DocView::Delete { id: p, routing: route }, id@)),
            },
        },
        BulkAction::Update => match item.id {
            None => Err("update_without_id"@),
            Some(id) => match target_id(t, id@, a.mapped) {
                None => Err("irreversible_id"@),
                Some(p) => match item.source {
                    None => Err("missing_source"@),
                    Some(source) => if json::parsed(source@) is None {
                        Err("invalid_json"@)
                    } else {
                        match a.updated {
                            Err(_) => Err("reserved_field_collision"@),
                            Ok(v) => Ok(
                                (
                                    DocView::Update {
                                        id: p,
                                        routing: route,
                                        body: json::written(tree(v)),
                                    },
                                    id@,
                                ),
                            ),
                        }
                    },
                },
            },
        },
        BulkAction::Index | BulkAction::Create => match item.source {
            None => Err("missing_source"@),
            Some(_) => match a.injected {
                Err(_) => Err("reserved_field_collision"@),
                Ok(body) => match index_ids(t, opt(item.id), a) {
                    None => Err("id_construction"@),
                    Some((p, logical)) => {
                        let routed = if p is Some {
                            route
                        } else {
                            None
                        };
                        let doc = if item.action is Create {
                            DocView::Create { id: p, routing: routed, body: body@ }
                        } else {
                            DocView::Index { id: p, routing: routed, body: body@ }
                        };
                        Ok((doc, logical))
                    },
                },
            },
        },
    }
}

fn build_update(
    item: &BulkItem,
    logical_index: &str,
    resolved: &Resolved,
    mapped: Result<String, RewriteError>,
    updated: Result<Value, RewriteError>,
) -> (r: Result<(DocOp, String), ItemFailure>)
    requires
        item.action is Update,
    ensures
        forall|a: Answers|
            a.mapped == mapped && a.updated == updated ==> (match #[trigger] doc_of(
                *item,
                *resolved,
                a,
            ) {
                Ok((doc, id)) => r is Ok && r->Ok_0.0@ == doc && r->Ok_0.1@ == id,
                Err(error) => r is Err && r->Err_0.is(*item, logical_index@, 400, error),
            }),
{
    let logical = match &item.id {
        Some(id) => id,
        None => {
            return Err(fail(item, logical_index, 400, "update_without_id"));
        },
    };
    let id = match physical_id(&resolved.decision.body_transform, logical, mapped) {
        Some(id) => id,
        None => {
            return Err(fail(item, logical_index, 400, "irreversible_id"));
        },
    };
    let source = match &item.source {
        Some(source) => source,
        None => {
            return Err(fail(item, logical_index, 400, "missing_source"));
        },
    };
    if json::parse(source.as_slice()).is_none() {
        return Err(fail(item, logical_index, 400, "invalid_json"));
    }
    let update = match updated {
        Ok(update) => update,
        Err(_) => {
            return Err(fail(item, logical_index, 400, "reserved_field_collision"));
        },
    };
    let body = match json::print(&update) {
        Some(body) => body,
        None => {
            return Err(fail(item, logical_index, 400, "serialize"));
        },
    };
    let routing = routing_for(&resolved.decision.body_transform, resolved.partition.as_str());
    Ok((DocOp::Update { id, routing, body }, logical.clone()))
}

fn build_delete(
    item: &BulkItem,
    logical_index: &str,
    resolved: &Resolved,
    mapped: Result<String, RewriteError>,
) -> (r: Result<(DocOp, String), ItemFailure>)
    requires
        item.action is Delete,
    ensures
        forall|a: Answers|
            a.mapped == mapped ==> (match #[trigger] doc_of(*item, *resolved, a) {
                Ok((doc, id)) => r is Ok && r->Ok_0.0@ == doc && r->Ok_0.1@ == id,
                Err(error) => r is Err && r->Err_0.is(*item, logical_index@, 400, error),
            }),
{
    let logical = match &item.id {
        Some(id) => id,
        None => {
            return Err(fail(item, logical_index, 400, "delete_without_id"));
        },
    };
    let id = match physical_id(&resolved.decision.body_transform, logical, mapped) {
        Some(id) => id,
        None => {
            return Err(fail(item, logical_index, 400, "irreversible_id"));
        },
    };
    let routing = routing_for(&resolved.decision.body_transform, resolved.partition.as_str());
    Ok((DocOp::Delete { id, routing }, logical.clone()))
}

/// What a prepared operation is to be.
pub open spec fn is_prepared(
    p: Prepared,
    item: BulkItem,
    index: Seq<char>,
    resolved: Resolved,
    doc: DocView,
    id: Seq<char>,
) -> bool {
    &&& p.op.follows(resolved)
    &&& p.op.doc@ == doc
    &&& p.partition@ == resolved.partition@
    &&& p.action == item.action
    &&& p.logical_index@ == index
    &&& p.logical_id@ == id
}

/// Builds the write of a resolved bulk operation.
pub fn build_op(
    resolved: &Resolved,
    item: &BulkItem,
    logical_index: String,
    answers: Answers,
) -> (r: Result<Prepared, ItemFailure>)
    ensures
        match doc_of(*item, *resolved, answers) {
            Ok((doc, id)) => r is Ok && is_prepared(
                r->Ok_0,
                *item,
                logical_index@,
                *resolved,
                doc,
                id,
            ),
            Err(error) => r is Err && r->Err_0.is(*item, logical_index@, 400, error),
        },
{
    let transform = &resolved.decision.body_transform;
    let built = match item.action {
        BulkAction::Delete => build_delete(item, logical_index.as_str(), resolved, answers.mapped),
        BulkAction::Update => build_update(
            item,
            logical_index.as_str(),
            resolved,
            answers.mapped,
            answers.updated,
        ),
        BulkAction::Index | BulkAction::Create => {
            if item.source.is_none() {
                return Err(fail(item, logical_index.as_str(), 400, "missing_source"));
            }
            let body = match answers.injected {
                Ok(body) => body,
                Err(_) => {
                    return Err(fail(item, logical_index.as_str(), 400, "reserved_field_collision"));
                },
            };
            let (id, logical) = match index_id(
                transform,
                &item.id,
                answers.mapped,
                answers.constructed,
                answers.recovered,
            ) {
                Some(ids) => ids,
                None => {
                    return Err(fail(item, logical_index.as_str(), 400, "id_construction"));
                },
            };
            let routing = if id.is_some() {
                routing_for(transform, resolved.partition.as_str())
            } else {
                None
            };
            let doc = if matches!(item.action, BulkAction::Create) {
                DocOp::Create { id, routing, body }
            } else {
                DocOp::Index { id, routing, body }
            };
            Ok((doc, logical))
        },
    };
    match built {
        Ok((doc, logical_id)) => Ok(
            Prepared {
                op: WriteOp {
                    target: resolved.decision.target.clone(),
                    doc,
                    epoch: resolved.decision.epoch,
                    protocol: resolved.decision.upstream_protocol,
                },
                partition: resolved.partition.clone(),
                action: item.action,
                logical_index,
                logical_id,
            },
        ),
        Err(failure) => Err(failure),
    }
}

/// What is known of an operation's placement once its partition is resolved.
pub enum PlacementStep<'a> {
    /// The request has fetched it before.
    Known(&'a Resolved),
    /// It has to be fetched.
    Fetch { partition: String, index: String },
    /// The operation has no partition.
    Failed(ItemFailure),
}

/// The first step of preparing an operation: look its placement up under its partition
/// and index. `partition` is what the router made of the operation's source.
pub fn prepare<'a>(
    ctx: &RequestCtx,
    item: &BulkItem,
    partition: Result<String, SpiError>,
    cache: &'a Placements,
) -> (r: PlacementStep<'a>)
    ensures
        match partition {
            Err(_) => r matches PlacementStep::Failed(f) && f.is(
                *item,
                item_index(*item, *ctx),
                400,
                "partition_unresolved"@,
            ),
            Ok(p) => if cache@.dom().contains((p@, item_index(*item, *ctx))) {
                r matches PlacementStep::Known(resolved) && *resolved == cache@[(
                    p@,
                    item_index(*item, *ctx),
                )]
            } else {
                r matches PlacementStep::Fetch { partition, index } && partition@ == p@ && index@
                    == item_index(*item, *ctx)
            },
        },
{
    let index = logical_index_of(item, ctx);
    let partition = match partition {
        Ok(p) => p,
        Err(_) => {
            return PlacementStep::Failed(fail(item, index.as_str(), 400, "partition_unresolved"));
        },
    };
    match cache.get(partition.as_str(), index.as_str()) {
        Some(resolved) => PlacementStep::Known(resolved),
        None => PlacementStep::Fetch { partition, index },
    }
}

} // verus!
