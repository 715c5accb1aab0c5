//! What a bulk request is for, said of the calls themselves: where each document goes,
//! under which id, and what its client is told.

use crate::bulk::{
    answers, due, held_back, picked, stale_epoch_line, success_line, total_bytes,
    upstream_failure_line, Entry,
};
use crate::bulk_order::{entry_answer, rank, sent_answer};
use crate::bulkline::{
    any_error, items_text, response_text, slot_text, BulkAction, Item, Line, LineKind, Report,
};
use crate::bulkprep::{
    build_op, inject_pairs, logical_index_of, Answers, BulkItem, ItemFailure, Prepared,
};
use crate::error::{RequestError, SinkError};
use crate::json::{self, tree, Tree};
use crate::read::{build_delete_op, build_read_op, ReadShape};
use crate::types::{
    BodyTransform, DocIdRule, DocOp, InjectedField, InjectedValue, OpResult, ReadOp, RequestCtx,
    Resolved, WriteAck, WriteOp,
};
use serde_json::Value;
use vstd::prelude::*;
use vstd::utf8::encode_utf8;

verus! {

/// The id an operation carries to the cluster.
pub open spec fn carried_id(doc: DocOp) -> Option<Seq<char>> {
    match doc {
        DocOp::Index { id: Some(id), .. } => Some(id@),
        DocOp::Create { id: Some(id), .. } => Some(id@),
        DocOp::Update { id, .. } => Some(id@),
        DocOp::Delete { id, .. } => Some(id@),
        _ => None,
    }
}

/// The `_routing` an operation carries to the cluster.
pub open spec fn carried_routing(doc: DocOp) -> Option<Seq<char>> {
    match doc {
        DocOp::Index { routing: Some(routing), .. } => Some(routing@),
        DocOp::Create { routing: Some(routing), .. } => Some(routing@),
        DocOp::Update { routing: Some(routing), .. } => Some(routing@),
        DocOp::Delete { routing: Some(routing), .. } => Some(routing@),
        _ => None,
    }
}

/// The body an operation carries to the cluster; a delete carries none.
pub open spec fn carried_body(doc: DocOp) -> Option<Seq<u8>> {
    match doc {
        DocOp::Index { body, .. } => Some(body@),
        DocOp::Create { body, .. } => Some(body@),
        DocOp::Update { body, .. } => Some(body@),
        DocOp::Delete { .. } => None,
    }
}

/// The transform builds ids by `rule`.
pub open spec fn builds_ids(t: BodyTransform, rule: DocIdRule) -> bool {
    ||| t == BodyTransform::ConstructId(rule)
    ||| t matches BodyTransform::Both { id, .. } && id == rule
}

/// The transform leaves ids as they are.
pub open spec fn keeps_ids(t: BodyTransform) -> bool {
    t is Verbatim || t is Inject
}

/// What an operation for a document with an id of its own is routed by: the partition
/// where the id rule asks for that, and nothing anywhere else.
pub open spec fn routed(t: BodyTransform, partition: Seq<char>, routing: Option<Seq<char>>) -> bool {
    &&& keeps_ids(t) ==> routing is None
    &&& forall|rule: DocIdRule| #[trigger]
        builds_ids(t, rule) ==> routing == if rule.set_routing {
            Some(partition)
        } else {
            None
        }
}

/// A write goes where its decision says.
pub open spec fn goes_to(op: WriteOp, resolved: Resolved) -> bool {
    &&& op.target.cluster@ == resolved.decision.target.cluster@
    &&& op.target.index@ == resolved.decision.target.index@
    &&& op.target.endpoint == resolved.decision.target.endpoint
    &&& op.epoch == resolved.decision.epoch
    &&& op.protocol == resolved.decision.upstream_protocol
}

/// A prepared index or create stores what the rewriting layer made of the source, under an
/// id wherever its client names one. Without an id rule that is the client's own id; with
/// one it is what the rule maps that id to, or what it builds from the document where the
/// client names none. The client is told the id it knows.
pub proof fn law_a_bulk_document_is_stored_under_its_id(
    resolved: &Resolved,
    item: &BulkItem,
    index: String,
    a: Answers,
    r: Result<Prepared, ItemFailure>,
)
    requires
        call_ensures(build_op, (resolved, item, index, a), r),
        item.action is Index || item.action is Create,
        r is Ok,
    ensures
        ({
            let t = resolved.decision.body_transform;
            let p = r->Ok_0;
            let doc = p.op.doc;
            &&& item.action is Index ==> doc is Index
            &&& item.action is Create ==> doc is Create
            &&& a.injected is Ok && carried_body(doc) == Some(a.injected->Ok_0@)
            &&& item.id is Some ==> carried_id(doc) is Some
            &&& item.id matches Some(id) ==> p.logical_id@ == id@
            &&& keeps_ids(t) ==> match item.id {
                Some(id) => carried_id(doc) == Some(id@),
                None => carried_id(doc) is None && p.logical_id@.len() == 0,
            }
            &&& !keeps_ids(t) ==> match item.id {
                Some(_) => a.mapped is Ok && carried_id(doc) == Some(a.mapped->Ok_0@),
                None => {
                    &&& a.constructed is Ok
                    &&& carried_id(doc) == Some(a.constructed->Ok_0@)
                    &&& match a.recovered {
                        Some(logical) => p.logical_id@ == logical@,
                        None => p.logical_id@ == a.constructed->Ok_0@,
                    }
                },
            }
            &&& carried_id(doc) is Some ==> routed(t, resolved.partition@, carried_routing(doc))
            &&& carried_id(doc) is None ==> carried_routing(doc) is None
        }),
{
}

/// A prepared update or delete is for the document its client names: under the client's own
/// id without an id rule, else under what the rule maps it to. An update sends what the
/// rewriting layer made of its body, and a delete sends none.
pub proof fn law_a_bulk_update_or_delete_is_for_the_document_it_names(
    resolved: &Resolved,
    item: &BulkItem,
    index: String,
    a: Answers,
    r: Result<Prepared, ItemFailure>,
)
    requires
        call_ensures(build_op, (resolved, item, index, a), r),
        item.action is Update || item.action is Delete,
        r is Ok,
    ensures
        ({
            let t = resolved.decision.body_transform;
            let p = r->Ok_0;
            let doc = p.op.doc;
            &&& item.action is Update ==> doc is Update && a.updated is Ok && carried_body(doc) == Some(
                json::written(tree(a.updated->Ok_0)),
            )
            &&& item.action is Delete ==> doc is Delete
            &&& item.id is Some
            &&& p.logical_id@ == item.id->Some_0@
            &&& keeps_ids(t) ==> carried_id(doc) == Some(item.id->Some_0@)
            &&& !keeps_ids(t) ==> a.mapped is Ok && carried_id(doc) == Some(a.mapped->Ok_0@)
            &&& routed(t, resolved.partition@, carried_routing(doc))
        }),
{
}

/// Whatever it does, a prepared operation goes where its decision says, for its partition,
/// and its answer speaks of the operation's own action and index.
pub proof fn law_a_bulk_operation_goes_where_it_was_resolved(
    resolved: &Resolved,
    item: &BulkItem,
    index: String,
    a: Answers,
    r: Result<Prepared, ItemFailure>,
)
    requires
        call_ensures(build_op, (resolved, item, index, a), r),
    ensures
        r matches Ok(p) ==> {
            &&& goes_to(p.op, *resolved)
            &&& p.partition@ == resolved.partition@
            &&& p.action == item.action
            &&& p.logical_index@ == index@
        },
        r matches Err(f) ==> {
            &&& f.status == 400
            &&& f.action == item.action
            &&& f.logical_index@ == index@
            &&& f.logical_id is Some == item.id is Some
            &&& item.id matches Some(id) ==> f.logical_id->Some_0@ == id@
        },
{
}

/// An operation is refused exactly where something it needs is missing, and the answer says
/// what.
pub proof fn law_a_bulk_operation_fails_only_for_want_of_something(
    resolved: &Resolved,
    item: &BulkItem,
    index: String,
    a: Answers,
    r: Result<Prepared, ItemFailure>,
)
    requires
        call_ensures(build_op, (resolved, item, index, a), r),
    ensures
        ({
            let keeps = keeps_ids(resolved.decision.body_transform);
            match item.action {
                BulkAction::Delete => {
                    &&& r is Ok <==> item.id is Some && (keeps || a.mapped is Ok)
                    &&& item.id is None ==> r->Err_0.error@ == "delete_without_id"@
                    &&& item.id is Some && r is Err ==> r->Err_0.error@ == "irreversible_id"@
                },
                BulkAction::Update => {
                    let named = item.id is Some && (keeps || a.mapped is Ok);
                    &&& r is Ok <==> named && item.source is Some && json::parsed(
                        item.source->Some_0@,
                    ) is Some && a.updated is Ok
                    &&& item.id is None ==> r->Err_0.error@ == "update_without_id"@
                    &&& item.id is Some && !named ==> r->Err_0.error@ == "irreversible_id"@
                    &&& named && item.source is None ==> r->Err_0.error@ == "missing_source"@
                    &&& named && item.source is Some && json::parsed(item.source->Some_0@) is None
                        ==> r->Err_0.error@ == "invalid_json"@
                    &&& named && item.source is Some && json::parsed(item.source->Some_0@) is Some
                        && a.updated is Err ==> r->Err_0.error@ == "reserved_field_collision"@
                },
                BulkAction::Index | BulkAction::Create => {
                    let named = keeps || if item.id is Some {
                        a.mapped is Ok
                    } else {
                        a.constructed is Ok
                    };
                    &&& r is Ok <==> item.source is Some && a.injected is Ok && named
                    &&& item.source is None ==> r->Err_0.error@ == "missing_source"@
                    &&& item.source is Some && a.injected is Err ==> r->Err_0.error@
                        == "reserved_field_collision"@
                    &&& item.source is Some && a.injected is Ok && !named ==> r->Err_0.error@
                        == "id_construction"@
                },
            }
        }),
{
}

/// What a bulk writes under an id, a read of that id finds and a delete of it removes: the
/// three name the same document on the same target.
pub proof fn law_bulk_read_and_delete_agree_on_the_document(
    resolved: &Resolved,
    item: &BulkItem,
    index: String,
    a: Answers,
    r: Result<Prepared, ItemFailure>,
    id: &str,
    read: Result<(ReadOp, ReadShape), RequestError>,
    delete: Result<WriteOp, RequestError>,
)
    requires
        call_ensures(build_op, (resolved, item, index, a), r),
        r is Ok,
        item.id matches Some(named) && named@ == id@,
        call_ensures(build_read_op, (resolved, id, a.mapped), read),
        call_ensures(build_delete_op, (resolved, id, a.mapped), delete),
    ensures
        ({
            let op = r->Ok_0.op;
            &&& read is Ok
            &&& carried_id(op.doc) == Some(read->Ok_0.0.id@)
            &&& op.target == read->Ok_0.0.target
            &&& match read->Ok_0.0.routing {
                Some(routing) => carried_routing(op.doc) == Some(routing@),
                None => carried_routing(op.doc) is None,
            }
            &&& delete is Ok
            &&& delete->Ok_0.doc is Delete
            &&& carried_id(delete->Ok_0.doc) == carried_id(op.doc)
            &&& carried_routing(delete->Ok_0.doc) == carried_routing(op.doc)
            &&& delete->Ok_0.target == op.target
            &&& delete->Ok_0.epoch == op.epoch
        }),
{
}

/// An operation that names an index is for that index; only one that names none is for the
/// request's.
pub proof fn law_a_bulk_operation_is_for_the_index_it_names(
    item: &BulkItem,
    ctx: &RequestCtx,
    r: String,
)
    requires
        call_ensures(logical_index_of, (item, ctx), r),
    ensures
        item.index matches Some(index) ==> r@ == index@,
        item.index is None ==> r@ == ctx.logical_index@,
{
}

/// The fields of the transform that injects.
pub open spec fn has_fields(t: BodyTransform, fields: Seq<InjectedField>) -> bool {
    ||| t matches BodyTransform::Inject(f) && f@ == fields
    ||| t matches BodyTransform::Both { inject, .. } && inject@ == fields
}

/// Every field of the transform is added, under its name and in order: a constant with its
/// own value, and anything else with the partition.
pub proof fn law_every_field_is_added_to_a_bulk_document(
    t: &BodyTransform,
    partition: &str,
    fields: Seq<InjectedField>,
    r: Vec<(String, Value)>,
)
    requires
        call_ensures(inject_pairs, (t, partition), r),
    ensures
        t is Verbatim || t is ConstructId ==> r@.len() == 0,
        has_fields(*t, fields) ==> {
            &&& r@.len() == fields.len()
            &&& forall|i: int|
                0 <= i < fields.len() ==> {
                    &&& (#[trigger] r@[i]).0@ == fields[i].name@
                    &&& match fields[i].value {
                        InjectedValue::Constant(v) => tree(r@[i].1) == tree(v),
                        _ => tree(r@[i].1) == Tree::Str(partition@),
                    }
                }
        },
{
}

/// A line speaks of a prepared operation: its action, its index and the id its client knows.
pub open spec fn speaks_of(line: Line, p: Prepared) -> bool {
    &&& line.action == p.action
    &&& line.index@ == p.logical_index@
    &&& line.id matches Some(id) && id@ == p.logical_id@
}

/// What the migration gate holds back is reported as a conflict to be tried again.
pub proof fn law_what_is_held_back_is_a_conflict(p: &Prepared, line: Line)
    requires
        call_ensures(stale_epoch_line, (p,), line),
    ensures
        speaks_of(line, *p),
        line.status == 409,
        line.kind matches LineKind::Error(error) && error@ == "stale_epoch"@,
{
}

/// What is sent to a cluster that fails is reported as that.
pub proof fn law_a_failed_cluster_is_reported(p: &Prepared, line: Line)
    requires
        call_ensures(upstream_failure_line, (p,), line),
    ensures
        speaks_of(line, *p),
        line.status == 502,
        line.kind matches LineKind::Error(error) && error@ == "upstream_failed"@,
{
}

/// What a cluster took up is reported with the cluster's own status: below 400 as created or
/// updated, as the cluster says, and from 400 on as the failure it is.
pub proof fn law_a_cluster_is_quoted(p: &Prepared, result: &OpResult, line: Line)
    requires
        call_ensures(success_line, (p, result), line),
    ensures
        speaks_of(line, *p),
        line.status == result.status,
        result.status < 400 && result.created ==> (line.kind matches LineKind::Result(word) && word@
            == "created"@),
        result.status < 400 && !result.created ==> (line.kind matches LineKind::Result(word) && word@
            == "updated"@),
        result.status == 409 ==> (line.kind matches LineKind::Error(error) && error@ == "conflict"@),
        result.status == 404 ==> (line.kind matches LineKind::Error(error) && error@ == "not_found"@),
        result.status >= 400 && result.status != 404 && result.status != 409 ==> (
        line.kind matches LineKind::Error(error) && error@ == "rejected"@),
{
}

/// An answer speaks of a prepared operation.
pub open spec fn tells_of(x: Item, p: Prepared) -> bool {
    &&& x.action == p.action
    &&& x.index == p.logical_index@
    &&& x.id == Some(p.logical_id@)
}

/// Every operation of a sub-batch is answered for itself: held back with a conflict, failed
/// with its cluster, or with the result at its own place among those sent. Only an operation
/// that the cluster gave no result for has no answer.
pub proof fn law_each_operation_gets_its_own_answer(
    entries: Seq<Entry>,
    admits: Seq<bool>,
    result: Result<WriteAck, SinkError>,
    j: int,
)
    requires
        admits.len() == entries.len(),
        0 <= j < entries.len(),
    ensures
        entry_answer(entries, admits, result, j) matches Some(x) ==> tells_of(x, entries[j].1),
        !admits[j] ==> (entry_answer(entries, admits, result, j) matches Some(x) && x.status == 409
            && x.report == Report::Error("stale_epoch"@)),
        admits[j] && result is Err ==> (entry_answer(entries, admits, result, j) matches Some(x)
            && x.status == 502 && x.report == Report::Error("upstream_failed"@)),
        admits[j] && result is Ok ==> {
            let at = rank(entries, admits, true, j);
            let results = result->Ok_0.results@;
            &&& at < results.len() ==> (entry_answer(entries, admits, result, j) matches Some(x)
                && x.status == results[at].status && (x.report is Error <==> results[at].status >= 400)
                && (results[at].status < 400 ==> x.report == Report::Result(
                if results[at].created {
                    "created"@
                } else {
                    "updated"@
                },
            )))
            &&& at >= results.len() ==> entry_answer(entries, admits, result, j) is None
        },
{
}

/// An operation's place among those sent is the number of admitted ones before it.
pub proof fn law_the_place_among_those_sent_counts_the_admitted(
    entries: Seq<Entry>,
    flags: Seq<bool>,
    want: bool,
    j: int,
)
    requires
        flags.len() == entries.len(),
        0 <= j < entries.len(),
    ensures
        rank(entries, flags, want, 0) == 0,
        rank(entries, flags, want, j + 1) == rank(entries, flags, want, j) + if flags[j] == want {
            1int
        } else {
            0int
        },
        rank(entries, flags, want, entries.len() as int) == picked(entries, flags, want).len(),
        flags[j] == want ==> {
            &&& rank(entries, flags, want, j) < picked(entries, flags, want).len()
            &&& picked(entries, flags, want)[rank(entries, flags, want, j)] == entries[j]
        },
{
    assert(entries.take(0) =~= Seq::empty());
    assert(entries.take(j + 1).drop_last() =~= entries.take(j));
    assert(entries.take(j + 1).last() == entries[j]);
    assert(entries.take(entries.len() as int) =~= entries);
    if flags[j] == want {
        crate::bulk_order::lemma_rank(entries, flags, want, j);
    }
}

/// What is written for operations that were held back, and for those that were sent, is for
/// those operations, each once and in order.
pub proof fn law_answers_are_for_those_asked(
    entries: Seq<Entry>,
    result: Result<WriteAck, SinkError>,
    i: int,
)
    ensures
        held_back(entries).len() == entries.len(),
        0 <= i < entries.len() ==> {
            let (at, x) = held_back(entries)[i];
            at == entries[i].0 && tells_of(x, entries[i].1) && x.status == 409
        },
        result is Err ==> answers(entries, result).len() == entries.len(),
        result matches Ok(ack) ==> answers(entries, result).len() == if ack.results@.len()
            < entries.len() {
            ack.results@.len()
        } else {
            entries.len()
        },
        0 <= i < answers(entries, result).len() ==> {
            let (at, x) = answers(entries, result)[i];
            &&& at == entries[i].0
            &&& tells_of(x, entries[i].1)
            &&& sent_answer(entries[i].1, result, i) == Some(x)
            &&& result is Err ==> x.status == 502
            &&& result matches Ok(ack) ==> x.status == ack.results@[i].status
        },
{
}

/// A sub-batch is sent on as soon as it holds 256 operations or four mebibytes of documents,
/// and not before.
pub proof fn law_a_sub_batch_is_sent_at_its_threshold(entries: Seq<Entry>)
    ensures
        due(entries) <==> entries.len() >= 256 || total_bytes(entries) >= 4 * 1024 * 1024,
{
}

/// The bytes of a sub-batch are those of the documents its operations carry.
pub proof fn law_bytes_are_those_of_the_documents(a: Seq<Entry>, b: Seq<Entry>, e: Entry)
    ensures
        total_bytes(Seq::empty()) == 0,
        total_bytes(seq![e]) == match carried_body(e.1.op.doc) {
            Some(body) => body.len() as int,
            None => 0,
        },
        total_bytes(a + b) == total_bytes(a) + total_bytes(b),
    decreases b.len(),
{
    assert(seq![e].drop_last() =~= Seq::empty());
    assert(total_bytes(seq![e].drop_last()) == 0);
    if b.len() == 0 {
        assert(a + b =~= a);
    } else {
        law_bytes_are_those_of_the_documents(a, b.drop_last(), e);
        assert((a + b).drop_last() =~= a + b.drop_last());
    }
}

/// `errors` is set exactly where an item reports a failure, and all items stand in one list.
pub proof fn law_errors_is_set_where_an_item_failed(slots: Seq<Option<Item>>)
    ensures
        ({
            let failed = exists|i: int|
                0 <= i < slots.len() && slots[i] is Some && (
                #[trigger] slots[i])->Some_0.report is Error;
            response_text(slots) == encode_utf8("{\"took\":0,\"errors\":"@) + if failed {
                encode_utf8("true"@)
            } else {
                encode_utf8("false"@)
            } + encode_utf8(",\"items\":["@) + items_text(slots) + encode_utf8("]}"@)
        }),
{
    if exists|i: int|
        0 <= i < slots.len() && slots[i] is Some && (#[trigger] slots[i])->Some_0.report is Error {
        let i = choose|i: int|
            0 <= i < slots.len() && slots[i] is Some && (#[trigger] slots[i])->Some_0.report is Error;
        assert(slots[i] matches Some(item) && item.report is Error);
        assert(any_error(slots));
    }
}

/// A text as a JSON string.
pub open spec fn text_bytes(s: Seq<char>) -> Seq<u8> {
    json::written(Tree::Str(s))
}

/// An item shows its verb, its index, its id or that it has none, its status, and what came
/// of it. An operation without an answer is `null`.
pub proof fn law_an_item_shows_its_operation(x: Item, r: Seq<u8>)
    requires
        r == slot_text(Some(x)),
    ensures
        slot_text(None) == encode_utf8("null"@),
        ({
            let verb = match x.action {
                BulkAction::Index => "index"@,
                BulkAction::Create => "create"@,
                BulkAction::Update => "update"@,
                BulkAction::Delete => "delete"@,
            };
            let head = encode_utf8("{"@) + text_bytes(verb) + encode_utf8(":{\"_index\":"@)
                + text_bytes(x.index) + encode_utf8(",\"_id\":"@) + if x.id is Some {
                text_bytes(x.id->Some_0)
            } else {
                encode_utf8("null"@)
            };
            let status = encode_utf8(",\"status\":"@) + encode_utf8(
                crate::text::decimal_text(x.status as nat),
            );
            let end = encode_utf8("}}"@);
            &&& x.report matches Report::Result(word) ==> r == head + (status + encode_utf8(
                ",\"result\":"@,
            ) + text_bytes(word)) + end
            &&& x.report matches Report::Error(word) ==> r == head + (status + encode_utf8(
                ",\"error\":{\"type\":"@,
            ) + text_bytes(word) + encode_utf8("}"@)) + end
            &&& x.report matches Report::Queued(id) ==> r == head + (encode_utf8(",\"op_id\":"@)
                + text_bytes(id) + status + encode_utf8(",\"result\":\"queued\""@)) + end
        }),
{
    if let Report::Queued(id) = x.report {
        let n = encode_utf8(crate::text::decimal_text(x.status as nat));
        let lead = encode_utf8(",\"op_id\":"@) + text_bytes(id);
        assert(lead + encode_utf8(",\"status\":"@) + n =~= lead + (encode_utf8(",\"status\":"@) + n));
    }
}

/// The items of a response are all its slots, in order, with a comma between each two.
pub proof fn law_the_response_lists_every_slot(a: Seq<Option<Item>>, b: Seq<Option<Item>>, x: Option<Item>)
    ensures
        items_text(Seq::empty()) == Seq::<u8>::empty(),
        items_text(seq![x]) == slot_text(x),
        a.len() > 0 && b.len() > 0 ==> items_text(a + b) == items_text(a) + encode_utf8(","@)
            + items_text(b),
    decreases b.len(),
{
    if a.len() > 0 && b.len() > 0 {
        let whole = a + b;
        assert(whole.drop_last() =~= a + b.drop_last());
        if b.len() == 1 {
            assert(a + b.drop_last() =~= a);
            assert(whole.last() == b[0]);
        } else {
            law_the_response_lists_every_slot(a, b.drop_last(), x);
            let comma = encode_utf8(","@);
            assert(items_text(a) + comma + items_text(b.drop_last()) + comma + slot_text(b.last())
                =~= items_text(a) + comma + (items_text(b.drop_last()) + comma + slot_text(b.last())));
        }
    }
}

} // verus!
