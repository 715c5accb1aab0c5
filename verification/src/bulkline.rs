//! The response lines of a bulk request, written straight to bytes.
//!
//! The response is `{"took":0,"errors":_,"items":[{action:{..}},..]}`, one item per
//! operation, in the order of the request.

use crate::json::{self, Tree};
use crate::text::{decimal, decimal_text};
use crate::types::opt;
use vstd::prelude::*;
use vstd::utf8::encode_utf8;

verus! {

/// What a bulk operation does.
#[derive(Clone, Copy, Debug, PartialEq, Eq, Structural)]
pub enum BulkAction {
    Index,
    Create,
    Update,
    Delete,
}

impl BulkAction {
    /// The word that names the action in a bulk body.
    pub open spec fn word(self) -> Seq<char> {
        match self {
            BulkAction::Index => "index"@,
            BulkAction::Create => "create"@,
            BulkAction::Update => "update"@,
            BulkAction::Delete => "delete"@,
        }
    }

    /// The word that names the action in a bulk body.
    pub fn keyword(self) -> (r: &'static str)
        ensures
            r@ == self.word(),
    {
        match self {
            BulkAction::Index => "index",
            BulkAction::Create => "create",
            BulkAction::Update => "update",
            BulkAction::Delete => "delete",
        }
    }

    /// Whether a source line follows the action line.
    pub fn has_source(self) -> (r: bool)
        ensures
            r == !(self is Delete),
    {
        !matches!(self, BulkAction::Delete)
    }
}

/// What a line reports.
#[derive(Debug)]
pub enum LineKind {
    /// A write that was applied.
    Result(&'static str),
    /// A write that was enqueued, with its handle.
    Queued { op_id: String },
    /// A write that failed, with the type of failure.
    Error(&'static str),
}

/// One item of the response, in the client's terms.
#[derive(Debug)]
pub struct Line {
    pub action: BulkAction,
    pub index: String,
    /// The document id; `null` where the operation named none.
    pub id: Option<String>,
    pub status: u16,
    pub kind: LineKind,
}

/// What a line reports, as values.
pub ghost enum Report {
    Result(Seq<char>),
    Queued(Seq<char>),
    Error(Seq<char>),
}

/// A line as values.
pub ghost struct Item {
    pub action: BulkAction,
    pub index: Seq<char>,
    pub id: Option<Seq<char>>,
    pub status: u16,
    pub report: Report,
}

impl View for Line {
    type V = Item;

    open spec fn view(&self) -> Item {
        Item {
            action: self.action,
            index: self.index@,
            id: opt(self.id),
            status: self.status,
            report: match self.kind {
                LineKind::Result(outcome) => Report::Result(outcome@),
                LineKind::Queued { op_id } => Report::Queued(op_id@),
                LineKind::Error(error) => Report::Error(error@),
            },
        }
    }
}

impl Line {
    /// A line for a write that was applied.
    pub fn result(
        action: BulkAction,
        index: String,
        id: Option<String>,
        status: u16,
        outcome: &'static str,
    ) -> (r: Self)
        ensures
            r@ == (Item {
                action,
                index: index@,
                id: opt(id),
                status,
                report: Report::Result(outcome@),
            }),
    {
        Line { action, index, id, status, kind: LineKind::Result(outcome) }
    }

    /// A line for a write that was enqueued.
    pub fn queued(
        action: BulkAction,
        index: String,
        id: Option<String>,
        status: u16,
        op_id: String,
    ) -> (r: Self)
        ensures
            r@ == (Item {
                action,
                index: index@,
                id: opt(id),
                status,
                report: Report::Queued(op_id@),
            }),
    {
        Line { action, index, id, status, kind: LineKind::Queued { op_id } }
    }

    /// A line for a write that failed.
    pub fn error(
        action: BulkAction,
        index: String,
        id: Option<String>,
        status: u16,
        error: &'static str,
    ) -> (r: Self)
        ensures
            r@ == (Item {
                action,
                index: index@,
                id: opt(id),
                status,
                report: Report::Error(error@),
            }),
    {
        Line { action, index, id, status, kind: LineKind::Error(error) }
    }

    /// Whether the line reports a failure.
    pub fn is_error(&self) -> (r: bool)
        ensures
            r == self@.report is Error,
    {
        matches!(self.kind, LineKind::Error(_))
    }
}

/// A text as a JSON string.
pub open spec fn quoted(s: Seq<char>) -> Seq<u8> {
    json::written(Tree::Str(s))
}

/// A number in decimal.
pub open spec fn number(n: u16) -> Seq<u8> {
    encode_utf8(decimal_text(n as nat))
}

impl Item {
    /// What follows `_index` and `_id`.
    pub open spec fn tail(self) -> Seq<u8> {
        match self.report {
            Report::Result(outcome) => encode_utf8(",\"status\":"@) + number(self.status)
                + encode_utf8(",\"result\":"@) + quoted(outcome),
            Report::Queued(op_id) => encode_utf8(",\"op_id\":"@) + quoted(op_id) + encode_utf8(
                ",\"status\":"@,
            ) + number(self.status) + encode_utf8(",\"result\":\"queued\""@),
            Report::Error(error) => encode_utf8(",\"status\":"@) + number(self.status)
                + encode_utf8(",\"error\":{\"type\":"@) + quoted(error) + encode_utf8("}"@),
        }
    }

    /// The item up to and with its `_id`.
    pub open spec fn head(self) -> Seq<u8> {
        encode_utf8("{"@) + quoted(self.action.word()) + encode_utf8(":{\"_index\":"@) + quoted(
            self.index,
        ) + encode_utf8(",\"_id\":"@) + (match self.id {
            Some(id) => quoted(id),
            None => encode_utf8("null"@),
        })
    }

    /// The item as it stands in the response.
    pub open spec fn text(self) -> Seq<u8> {
        self.head() + self.tail() + encode_utf8("}}"@)
    }
}

/// The slots of a response as values.
pub open spec fn items(lines: Seq<Option<Line>>) -> Seq<Option<Item>> {
    lines.map_values(
        |l: Option<Line>|
            match l {
                Some(line) => Some(line@),
                None => None,
            },
    )
}

/// A slot as it stands in the response.
pub open spec fn slot_text(slot: Option<Item>) -> Seq<u8> {
    match slot {
        Some(item) => item.text(),
        None => encode_utf8("null"@),
    }
}

/// The items of a response, separated by commas.
pub open spec fn items_text(slots: Seq<Option<Item>>) -> Seq<u8>
    decreases slots.len(),
{
    if slots.len() == 0 {
        Seq::empty()
    } else if slots.len() == 1 {
        slot_text(slots[0])
    } else {
        items_text(slots.drop_last()) + encode_utf8(","@) + slot_text(slots.last())
    }
}

/// Some item reports a failure.
pub open spec fn any_error(slots: Seq<Option<Item>>) -> bool {
    exists|i: int|
        0 <= i < slots.len() && (#[trigger] slots[i] matches Some(item) && item.report is Error)
}

/// The whole response.
pub open spec fn response_text(slots: Seq<Option<Item>>) -> Seq<u8> {
    encode_utf8("{\"took\":0,\"errors\":"@) + encode_utf8(
        if any_error(slots) {
            "true"@
        } else {
            "false"@
        },
    ) + encode_utf8(",\"items\":["@) + items_text(slots) + encode_utf8("]}"@)
}

fn put(out: &mut Vec<u8>, s: &str)
    ensures
        final(out)@ == old(out)@ + encode_utf8(s@),
{
    out.extend_from_slice(s.as_bytes());
    assert(out@ =~= old(out)@ + encode_utf8(s@));
}

fn put_quoted(out: &mut Vec<u8>, s: &str)
    ensures
        final(out)@ == old(out)@ + quoted(s@),
{
    if let Some(text) = json::print(&json::text(s)) {
        out.extend_from_slice(text.as_slice());
        assert(out@ =~= old(out)@ + quoted(s@));
    }
}

fn put_number(out: &mut Vec<u8>, n: u16)
    ensures
        final(out)@ == old(out)@ + number(n),
{
    put(out, decimal(n as u64).as_str());
}

fn begin(s: &str) -> (r: Vec<u8>)
    ensures
        r@ == encode_utf8(s@),
{
    crate::types::clone_bytes(s.as_bytes())
}

fn head_bytes(line: &Line) -> (r: Vec<u8>)
    ensures
        r@ == line@.head(),
{
    let mut part = begin("{");
    put_quoted(&mut part, line.action.keyword());
    put(&mut part, ":{\"_index\":");
    put_quoted(&mut part, line.index.as_str());
    put(&mut part, ",\"_id\":");
    match &line.id {
        Some(id) => put_quoted(&mut part, id.as_str()),
        None => put(&mut part, "null"),
    }
    part
}

fn tail_bytes(line: &Line) -> (r: Vec<u8>)
    ensures
        r@ == line@.tail(),
{
    match &line.kind {
        LineKind::Result(outcome) => {
            let mut part = begin(",\"status\":");
            put_number(&mut part, line.status);
            put(&mut part, ",\"result\":");
            put_quoted(&mut part, outcome);
            part
        },
        LineKind::Queued { op_id } => {
            let mut part = begin(",\"op_id\":");
            put_quoted(&mut part, op_id.as_str());
            put(&mut part, ",\"status\":");
            put_number(&mut part, line.status);
            put(&mut part, ",\"result\":\"queued\"");
            part
        },
        LineKind::Error(error) => {
            let mut part = begin(",\"status\":");
            put_number(&mut part, line.status);
            put(&mut part, ",\"error\":{\"type\":");
            put_quoted(&mut part, error);
            put(&mut part, "}");
            part
        },
    }
}

/// Writes one item.
fn put_line(out: &mut Vec<u8>, line: &Line)
    ensures
        final(out)@ == old(out)@ + line@.text(),
{
    let mut item = head_bytes(line);
    let tail = tail_bytes(line);
    item.extend_from_slice(tail.as_slice());
    assert(item@ =~= line@.head() + line@.tail());
    put(&mut item, "}}");
    out.extend_from_slice(item.as_slice());
    assert(out@ =~= old(out)@ + line@.text());
}

/// Writes the whole response. `errors` is set exactly where an item reports a
/// failure; a slot without a line is `null`.
pub fn bulk_body(lines: &[Option<Line>]) -> (r: Vec<u8>)
    ensures
        r@ == response_text(items(lines@)),
{
    let mut errors = false;
    let ghost slots = items(lines@);
    let mut n: usize = 0;
    while n < lines.len()
        invariant
            slots == items(lines@),
            0 <= n <= lines@.len(),
            errors == any_error(slots.take(n as int)),
        decreases lines@.len() - n,
    {
        let failed = match &lines[n] {
            Some(line) => line.is_error(),
            None => false,
        };
        proof {
            let next = slots.take(n + 1);
            let done = slots.take(n as int);
            assert(next[n as int] == slots[n as int]);
            if failed {
                assert(any_error(next));
            }
            if any_error(done) {
                let i = choose|i: int|
                    0 <= i < done.len() && (#[trigger] done[i] matches Some(item)
                        && item.report is Error);
                assert(next[i] == done[i]);
                assert(any_error(next));
            }
            if any_error(next) {
                let i = choose|i: int|
                    0 <= i < next.len() && (#[trigger] next[i] matches Some(item)
                        && item.report is Error);
                if i < n {
                    assert(done[i] == next[i]);
                    assert(any_error(done));
                }
            }
        }
        errors = errors || failed;
        n += 1;
    }
    assert(slots.take(n as int) =~= slots);
    let mut out: Vec<u8> = Vec::new();
    put(&mut out, "{\"took\":0,\"errors\":");
    put(
        &mut out,
        if errors {
            "true"
        } else {
            "false"
        },
    );
    put(&mut out, ",\"items\":[");
    let ghost head = out@;
    let mut i: usize = 0;
    assert(out@ =~= head + items_text(slots.take(0)));
    while i < lines.len()
        invariant
            slots == items(lines@),
            0 <= i <= lines@.len(),
            out@ == head + items_text(slots.take(i as int)),
        decreases lines@.len() - i,
    {
        let ghost done = slots.take(i as int);
        let ghost next = slots.take(i + 1);
        assert(next.drop_last() =~= done);
        assert(next.last() == slots[i as int]);
        if i > 0 {
            put(&mut out, ",");
        }
        match &lines[i] {
            Some(line) => put_line(&mut out, line),
            None => put(&mut out, "null"),
        }
        assert(out@ =~= head + items_text(next)) by {
            if i == 0 {
                assert(next[0] == slots[0]);
                assert(done =~= Seq::empty());
            }
        }
        i += 1;
    }
    assert(slots.take(i as int) =~= slots);
    put(&mut out, "]}");
    assert(out@ =~= response_text(slots));
    out
}

} // verus!
