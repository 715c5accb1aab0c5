//! What the reader of bulk bodies is for, said of the calls themselves: every line of a body
//! comes out once, whole and in order, and no line is waited for without end.

use crate::bulkline::BulkAction;
use crate::error::{RequestError, RewriteError};
use crate::ndjson::{
    body_lines, bytes_of, chomped, found, is_blank, lemma_newline_at, lines_capped, newline,
    BodyEvent, BulkReader, LineStep, NdjsonReader, OpStep,
};
use bytes::BytesMut;
use vstd::prelude::*;

verus! {

/// A space, a tab, a newline, a form feed or a carriage return.
pub open spec fn white(b: u8) -> bool {
    b == 32 || b == 9 || b == 10 || b == 12 || b == 13
}

/// There is nothing to see in the line.
pub open spec fn all_white(line: Seq<u8>) -> bool {
    forall|i: int| 0 <= i < line.len() ==> white(#[trigger] line[i])
}

/// No newline stands in the bytes.
pub open spec fn one_line(b: Seq<u8>) -> bool {
    forall|i: int| 0 <= i < b.len() ==> #[trigger] b[i] != 10
}

/// The line without one carriage return at its end.
pub open spec fn without_return(line: Seq<u8>) -> Seq<u8> {
    if line.len() > 0 && line[line.len() - 1] == 13 {
        line.take(line.len() - 1)
    } else {
        line
    }
}

proof fn lemma_white(line: Seq<u8>)
    ensures
        is_blank(line) == all_white(line),
        is_blank(without_return(line)) == all_white(line),
        chomped(line) == without_return(line),
{
    let short = without_return(line);
    assert(chomped(line) =~= short);
    if is_blank(line) {
        assert forall|i: int| 0 <= i < line.len() implies white(#[trigger] line[i]) by {
            assert(crate::ndjson::is_space(line[i]));
        }
    }
    if all_white(line) {
        assert forall|i: int| 0 <= i < line.len() implies crate::ndjson::is_space(
            #[trigger] line[i],
        ) by {
            assert(white(line[i]));
        }
        assert forall|i: int| 0 <= i < short.len() implies crate::ndjson::is_space(
            #[trigger] short[i],
        ) by {
            assert(short[i] == line[i]);
        }
    }
    if is_blank(short) {
        assert forall|i: int| 0 <= i < line.len() implies white(#[trigger] line[i]) by {
            if i < short.len() {
                assert(short[i] == line[i]);
                assert(crate::ndjson::is_space(short[i]));
            }
        }
    }
}

proof fn lemma_first_line(line: Seq<u8>, rest: Seq<u8>)
    requires
        one_line(line),
    ensures
        ({
            let held = line.push(10) + rest;
            &&& newline(held) == line.len()
            &&& held.take(line.len() as int) == line
            &&& held.skip(line.len() as int + 1) == rest
            &&& held.len() > line.len()
        }),
{
    let held = line.push(10) + rest;
    let n = line.len() as int;
    assert forall|i: int| 0 <= i < n implies held[i] != 0x0a by {
        assert(held[i] == line[i]);
    }
    assert(held[n] == 10);
    lemma_newline_at(held, n);
    assert(held.take(n) =~= line);
    assert(held.skip(n + 1) =~= rest);
}

/// A line that is not blank is handed out as it stands before its newline, but for a
/// carriage return at its end; what follows the newline stays.
pub proof fn law_a_line_ends_at_its_newline(
    reader: &mut NdjsonReader,
    line: Seq<u8>,
    rest: Seq<u8>,
    r: Result<LineStep, RequestError>,
)
    requires
        call_ensures(NdjsonReader::next_line, (reader,), r),
        reader.held() == line.push(10) + rest,
        one_line(line),
        !all_white(line),
    ensures
        r matches Ok(LineStep::Line(l)) && bytes_of(l) == without_return(line),
        final(reader).held() == rest,
        final(reader).ended() == old(reader).ended(),
{
    lemma_first_line(line, rest);
    lemma_white(line);
}

/// Two steps are the same.
pub open spec fn same_step(a: Result<LineStep, RequestError>, b: Result<LineStep, RequestError>) -> bool {
    &&& a matches Ok(LineStep::Line(x)) ==> (b matches Ok(LineStep::Line(y)) && bytes_of(x)
        == bytes_of(y))
    &&& a matches Ok(LineStep::End) ==> (b matches Ok(LineStep::End))
    &&& a matches Ok(LineStep::NeedFrame) ==> (b matches Ok(LineStep::NeedFrame))
    &&& a is Err ==> b is Err
}

/// A blank line is passed over: reading goes on as if it had not been there.
pub proof fn law_a_blank_line_is_passed_over(
    reader: &mut NdjsonReader,
    other: &mut NdjsonReader,
    line: Seq<u8>,
    r: Result<LineStep, RequestError>,
    s: Result<LineStep, RequestError>,
)
    requires
        call_ensures(NdjsonReader::next_line, (reader,), r),
        call_ensures(NdjsonReader::next_line, (other,), s),
        reader.held() == line.push(10) + other.held(),
        reader.ended() == other.ended(),
        one_line(line),
        all_white(line),
    ensures
        same_step(r, s),
        final(reader).held() == final(other).held(),
{
    lemma_first_line(line, old(other).held());
    lemma_white(line);
    assert(found(old(reader).held(), old(reader).ended()) == found(
        old(other).held(),
        old(other).ended(),
    ));
}

/// Without a newline the reader asks for more, but not past 64 MiB. Once the body has ended,
/// what is left is the last line, as it is, or nothing where it is blank.
pub proof fn law_a_line_without_an_end(reader: &mut NdjsonReader, r: Result<LineStep, RequestError>)
    requires
        call_ensures(NdjsonReader::next_line, (reader,), r),
        one_line(reader.held()),
    ensures
        ({
            let held = old(reader).held();
            let over = held.len() > 64 * 1024 * 1024;
            &&& old(reader).ended() && !all_white(held) ==> (r matches Ok(LineStep::Line(l)) && bytes_of(
                l,
            ) == held && final(reader).held().len() == 0)
            &&& old(reader).ended() && all_white(held) ==> (r matches Ok(LineStep::End))
            &&& !old(reader).ended() && !over ==> (r matches Ok(LineStep::NeedFrame)) && final(reader).held() == held
            &&& !old(reader).ended() && over ==> (r matches Err(
                RequestError::PayloadTooLarge { reason },
            ) && reason@ == "bulk line exceeds the per-op size cap"@)
        }),
{
    let held = old(reader).held();
    lemma_newline_at(held, held.len() as int);
    lemma_white(held);
}

/// A reader starts with nothing, and holds what it is fed until the body ends; a body that
/// fails fails the request.
pub proof fn law_a_reader_holds_what_it_is_fed(
    fresh: NdjsonReader,
    reader: NdjsonReader,
    event: BodyEvent,
    r: Result<NdjsonReader, RequestError>,
)
    requires
        call_ensures(NdjsonReader::new, (), fresh),
        call_ensures(NdjsonReader::feed, (reader, event), r),
    ensures
        fresh.held().len() == 0 && !fresh.ended(),
        event is Failed <==> r is Err,
        r matches Err(e) ==> (e matches RequestError::Internal { reason } && reason@
            == "reading bulk body stream"@),
        event matches BodyEvent::Data(data) ==> r->Ok_0.held() == reader.held() + data@
            && r->Ok_0.ended() == reader.ended(),
        event is NoData ==> r->Ok_0.held() == reader.held() && r->Ok_0.ended() == reader.ended(),
        event is End ==> r->Ok_0.held() == reader.held() && r->Ok_0.ended(),
{
}

/// The lines of a body are those between its newlines and the one after the last, in order:
/// each without a carriage return before its newline, and without the blank ones.
pub proof fn law_a_body_is_its_lines(line: Seq<u8>, rest: Seq<u8>)
    requires
        one_line(line),
    ensures
        body_lines(line.push(10) + rest) == if all_white(line) {
            body_lines(rest)
        } else {
            seq![without_return(line)] + body_lines(rest)
        },
        body_lines(line) == if all_white(line) {
            Seq::empty()
        } else {
            seq![line]
        },
        lines_capped(line.push(10) + rest) <==> line.len() <= 64 * 1024 * 1024 && lines_capped(rest),
        lines_capped(line) <==> line.len() <= 64 * 1024 * 1024,
{
    lemma_first_line(line, rest);
    lemma_white(line);
    lemma_newline_at(line, line.len() as int);
}

/// An operation is an action line followed by the line of its source: the line after an
/// action line that is awaited is its source, and any other is an action line. A body that
/// ends where a source is awaited is malformed.
pub proof fn law_a_source_follows_its_action(
    reader: &mut BulkReader,
    lines: &mut NdjsonReader,
    l: Result<LineStep, RequestError>,
    r: Result<OpStep, RequestError>,
)
    requires
        call_ensures(BulkReader::next_op, (reader,), r),
        call_ensures(NdjsonReader::next_line, (lines,), l),
        reader.lines.held() == lines.held(),
        reader.lines.ended() == lines.ended(),
    ensures
        final(reader).lines.held() == final(lines).held(),
        final(reader).lines.ended() == final(lines).ended(),
        l matches Ok(LineStep::Line(line)) ==> {
            &&& final(reader).pending is None
            &&& old(reader).pending is None ==> (r matches Ok(OpStep::ReadAction(x)) && bytes_of(x)
                == bytes_of(line))
            &&& old(reader).pending matches Some(action) ==> (r matches Ok(OpStep::Op(a, Some(s)))
                && a == action && bytes_of(s) == bytes_of(line))
        },
        !(l matches Ok(LineStep::Line(_))) ==> final(reader).pending == old(reader).pending,
        l matches Ok(LineStep::End) ==> {
            &&& old(reader).pending is None ==> (r matches Ok(OpStep::End))
            &&& old(reader).pending is Some ==> (r matches Err(
                RequestError::Rewrite(RewriteError::MalformedBulkAction),
            ))
        },
        l matches Ok(LineStep::NeedFrame) ==> (r matches Ok(OpStep::NeedFrame)),
        l is Err ==> (r matches Err(RequestError::PayloadTooLarge { reason }) && reason@
            == "bulk line exceeds the per-op size cap"@),
{
}

/// A delete is complete with its action line; the source of any other action is awaited.
pub proof fn law_only_a_delete_has_no_source(
    fresh: BulkReader,
    reader: &mut BulkReader,
    line: BytesMut,
    action: BulkAction,
    r: Option<OpStep>,
)
    requires
        call_ensures(BulkReader::new, (), fresh),
        call_ensures(BulkReader::action, (reader, line, action), r),
    ensures
        fresh.lines.held().len() == 0 && !fresh.lines.ended() && fresh.pending is None,
        final(reader).lines == old(reader).lines,
        action == BulkAction::Delete ==> r == Some(OpStep::Op(line, None)) && final(reader).pending is None,
        action != BulkAction::Delete ==> r is None && final(reader).pending == Some(line),
{
}

} // verus!
