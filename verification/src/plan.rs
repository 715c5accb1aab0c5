//! The write path: turning a routing decision and a document into the operation that
//! stores it.
//!
//! Checking a document, splicing fields into it and building its id from it are done
//! by the rewriting layer; the functions here say what it is to do and take what it
//! returned.

use crate::error::{RequestError, RewriteError};
use crate::json::{self, tree, Tree};
use crate::types::{
    clone_bytes, id_rule, injected, opt, routing, routing_for, BodyTransform, DocOp, DocView, InjectedField,
    InjectedValue, Resolved, WriteOp,
};
use serde_json::Value;
use vstd::prelude::*;

verus! {

/// What the rewriting layer returned for a document. A part that the transform does
/// not call for is not looked at.
#[derive(Debug)]
pub struct Rewritten {
    /// Whether the document is a JSON object.
    pub valid: Result<(), RewriteError>,
    /// The document with the resolved fields spliced in.
    pub injected: Result<Vec<u8>, RewriteError>,
    /// The id built from the document.
    pub id: Result<String, RewriteError>,
}

/// The value of a field depends on the request's context, which is not known here.
pub open spec fn is_unresolved(f: InjectedField) -> bool {
    f.value is FromPrincipal || f.value is FromHeader
}

/// Some field's value is not resolved.
pub open spec fn any_unresolved(fields: Seq<InjectedField>) -> bool {
    exists|i: int| 0 <= i < fields.len() && is_unresolved(#[trigger] fields[i])
}

/// The content injected for a field.
pub open spec fn value_of(f: InjectedField, partition: Seq<char>) -> Tree {
    match f.value {
        InjectedValue::Constant(v) => tree(v),
        _ => Tree::Str(partition),
    }
}

/// The failure of a decision whose injected values are not resolved.
pub open spec fn is_unresolved_error(e: RequestError) -> bool {
    e is Internal && e->Internal_reason@
        == "context-derived injected value reached the engine unresolved"@
}

fn unresolved() -> (r: RequestError)
    ensures
        is_unresolved_error(r),
{
    RequestError::Internal {
        reason: "context-derived injected value reached the engine unresolved",
    }
}

fn has_unresolved(fields: &[InjectedField]) -> (r: bool)
    ensures
        r == any_unresolved(fields@),
{
    let mut i: usize = 0;
    while i < fields.len()
        invariant
            0 <= i <= fields@.len(),
            forall|j: int| 0 <= j < i ==> !is_unresolved(#[trigger] fields@[j]),
        decreases fields@.len() - i,
    {
        if matches!(fields[i].value, InjectedValue::FromPrincipal(_) | InjectedValue::FromHeader(_)) {
            assert(is_unresolved(fields@[i as int]));
            return true;
        }
        i += 1;
    }
    false
}

/// The fields to splice into a document, each with its value. A value that depends
/// on the request's context must have been resolved before.
pub fn resolve_values(fields: &[InjectedField], partition: &str) -> (r: Result<
    Vec<(String, Value)>,
    RequestError,
>)
    ensures
        any_unresolved(fields@) ==> r is Err && is_unresolved_error(r->Err_0),
        !any_unresolved(fields@) ==> {
            &&& r is Ok
            &&& r->Ok_0@.len() == fields@.len()
            &&& forall|i: int|
                0 <= i < fields@.len() ==> (#[trigger] r->Ok_0@[i]).0@ == fields@[i].name@ && tree(
                    r->Ok_0@[i].1,
                ) == value_of(fields@[i], partition@)
        },
{
    let mut out: Vec<(String, Value)> = Vec::new();
    let mut i: usize = 0;
    while i < fields.len()
        invariant
            0 <= i <= fields@.len(),
            out@.len() == i,
            forall|j: int| 0 <= j < i ==> !is_unresolved(#[trigger] fields@[j]),
            forall|j: int|
                0 <= j < i ==> (#[trigger] out@[j]).0@ == fields@[j].name@ && tree(out@[j].1)
                    == value_of(fields@[j], partition@),
        decreases fields@.len() - i,
    {
        let value = match &fields[i].value {
            InjectedValue::Constant(v) => json::duplicate(v),
            InjectedValue::PartitionId => json::text(partition),
            InjectedValue::FromPrincipal(_) | InjectedValue::FromHeader(_) => {
                assert(is_unresolved(fields@[i as int]));
                return Err(unresolved());
            },
        };
        out.push((fields[i].name.clone(), value));
        i += 1;
    }
    Ok(out)
}

/// The id and the bytes a document is stored with, or why it cannot be stored.
/// `None` as an error stands for a decision whose injected values are not resolved.
pub open spec fn stored(t: BodyTransform, body: Seq<u8>, w: Rewritten) -> Result<
    (Option<Seq<char>>, Seq<u8>),
    Option<RewriteError>,
> {
    let splices = t is Inject || t is Both;
    let builds_id = t is ConstructId || t is Both;
    if splices && any_unresolved(injected(t)) {
        Err(None)
    } else if splices && w.injected is Err {
        Err(Some(w.injected->Err_0))
    } else if !splices && w.valid is Err {
        Err(Some(w.valid->Err_0))
    } else if builds_id && w.id is Err {
        Err(Some(w.id->Err_0))
    } else {
        Ok(
            (
                if builds_id {
                    Some(w.id->Ok_0@)
                } else {
                    None
                },
                if splices {
                    w.injected->Ok_0@
                } else {
                    body
                },
            ),
        )
    }
}

fn apply_transform(body: &[u8], transform: &BodyTransform, rewritten: Rewritten) -> (r: Result<
    (Option<String>, Vec<u8>),
    RequestError,
>)
    ensures
        match stored(*transform, body@, rewritten) {
            Ok((id, bytes)) => r is Ok && opt(r->Ok_0.0) == id && r->Ok_0.1@ == bytes,
            Err(Some(e)) => r == Err::<(Option<String>, Vec<u8>), _>(RequestError::Rewrite(e)),
            Err(None) => r is Err && is_unresolved_error(r->Err_0),
        },
{
    let bytes = match transform {
        BodyTransform::Inject(fields) | BodyTransform::Both { inject: fields, .. } => {
            if has_unresolved(fields.as_slice()) {
                return Err(unresolved());
            }
            match rewritten.injected {
                Ok(bytes) => bytes,
                Err(e) => {
                    return Err(RequestError::Rewrite(e));
                },
            }
        },
        BodyTransform::Verbatim | BodyTransform::ConstructId(_) => match rewritten.valid {
            Ok(()) => clone_bytes(body),
            Err(e) => {
                return Err(RequestError::Rewrite(e));
            },
        },
    };
    match transform {
        BodyTransform::ConstructId(_) | BodyTransform::Both { .. } => match rewritten.id {
            Ok(id) => Ok((Some(id), bytes)),
            Err(e) => Err(RequestError::Rewrite(e)),
        },
        BodyTransform::Verbatim | BodyTransform::Inject(_) => Ok((None, bytes)),
    }
}

/// The batch that stores one document: an index operation on the decision's target,
/// stamped with its epoch.
pub open spec fn is_index_batch(
    batch: Seq<WriteOp>,
    resolved: Resolved,
    id: Option<Seq<char>>,
    bytes: Seq<u8>,
) -> bool {
    &&& batch.len() == 1
    &&& batch[0].follows(resolved)
    &&& batch[0].doc@ == (DocView::Index {
        id,
        routing: routing(resolved.decision.body_transform, resolved.partition@),
        body: bytes,
    })
}

/// Builds the batch that stores the document of a resolved ingest request.
pub fn build_write_batch(resolved: &Resolved, body: &[u8], rewritten: Rewritten) -> (r: Result<
    Vec<WriteOp>,
    RequestError,
>)
    ensures
        match stored(resolved.decision.body_transform, body@, rewritten) {
            Ok((id, bytes)) => r is Ok && is_index_batch(r->Ok_0@, *resolved, id, bytes),
            Err(Some(e)) => r == Err::<Vec<WriteOp>, _>(RequestError::Rewrite(e)),
            Err(None) => r is Err && is_unresolved_error(r->Err_0),
        },
{
    let (id, out_body) = match apply_transform(
        body,
        &resolved.decision.body_transform,
        rewritten,
    ) {
        Ok(done) => done,
        Err(e) => {
            return Err(e);
        },
    };
    let routing = routing_for(&resolved.decision.body_transform, resolved.partition.as_str());
    let mut batch: Vec<WriteOp> = Vec::new();
    batch.push(
        WriteOp {
            target: resolved.decision.target.clone(),
            doc: DocOp::Index { id, routing, body: out_body },
            epoch: resolved.decision.epoch,
            protocol: resolved.decision.upstream_protocol,
        },
    );
    Ok(batch)
}

/// What the rewriting layer is to do to the document of a resolved ingest request.
#[derive(Debug)]
pub struct RewritePlan {
    /// Check that the document is a JSON object.
    pub validate: bool,
    /// Splice these fields in.
    pub inject: Option<Vec<(String, Value)>>,
    /// Build the id with this template, in this partition.
    pub id_template: Option<String>,
}

/// Says what the rewriting layer is to do to the document of a resolved ingest
/// request.
pub fn plan_rewrite(resolved: &Resolved) -> (r: Result<RewritePlan, RequestError>)
    ensures
        ({
            let t = resolved.decision.body_transform;
            let splices = t is Inject || t is Both;
            if splices && any_unresolved(injected(t)) {
                r is Err && is_unresolved_error(r->Err_0)
            } else {
                &&& r is Ok
                &&& r->Ok_0.validate == !splices
                &&& r->Ok_0.inject is Some == splices
                &&& splices ==> {
                    &&& r->Ok_0.inject->Some_0@.len() == injected(t).len()
                    &&& forall|i: int|
                        0 <= i < injected(t).len() ==> (
                        #[trigger] r->Ok_0.inject->Some_0@[i]).0@ == injected(t)[i].name@ && tree(
                            r->Ok_0.inject->Some_0@[i].1,
                        ) == value_of(injected(t)[i], resolved.partition@)
                }
                &&& match id_rule(t) {
                    Some(rule) => opt(r->Ok_0.id_template) == Some(rule.template@),
                    None => r->Ok_0.id_template is None,
                }
            }
        }),
{
    let transform = &resolved.decision.body_transform;
    let inject = match transform {
        BodyTransform::Inject(fields) | BodyTransform::Both { inject: fields, .. } => {
            match resolve_values(fields.as_slice(), resolved.partition.as_str()) {
                Ok(values) => Some(values),
                Err(e) => {
                    return Err(e);
                },
            }
        },
        BodyTransform::Verbatim | BodyTransform::ConstructId(_) => None,
    };
    let id_template = match crate::types::id_rule_of(transform) {
        Some(rule) => Some(rule.template.clone()),
        None => None,
    };
    Ok(RewritePlan { validate: inject.is_none(), inject, id_template })
}

} // verus!
