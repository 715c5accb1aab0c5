//! What the log guarantees of the records in it. A log file is its bytes; an append
//! writes at the end, and a compaction moves the undelivered bytes to the front.

use crate::wal::{
    body_of, checksum, encodable, entries, first_frame, frame_of, intact, Cursors, Entry,
};
use vstd::bytes::*;
use vstd::prelude::*;

verus! {

/// The file with `data` written at `at`.
pub open spec fn write_at(file: Seq<u8>, at: int, data: Seq<u8>) -> Seq<u8> {
    let end = at + data.len();
    file.take(at) + data + if end < file.len() {
        file.skip(end)
    } else {
        Seq::empty()
    }
}

/// A record can be put into one frame.
pub open spec fn framable(e: Entry) -> bool {
    encodable(e) && body_of(e).len() <= u32::MAX
}

/// The first frame is found whatever follows it.
pub proof fn lemma_frame_found(e: Entry, rest: Seq<u8>)
    requires
        framable(e),
    ensures
        first_frame(frame_of(body_of(e)) + rest) == Some((e, frame_of(body_of(e)).len() as int)),
        frame_of(body_of(e)).len() == 8 + body_of(e).len(),
{
    let body = body_of(e);
    let frame = frame_of(body);
    let log = frame + rest;
    lemma_auto_spec_u32_to_from_le_bytes();
    crate::wal::law_decode_undoes_encode(e);
    assert(log.subrange(0, 4) =~= spec_u32_to_le_bytes(body.len() as u32));
    assert(log.subrange(4, 8) =~= spec_u32_to_le_bytes(checksum(body)));
    assert(log.subrange(8, 8 + body.len() as int) =~= body);
}

/// A frame that is whole in `log` stays the first frame whatever is appended.
proof fn lemma_frame_stays(log: Seq<u8>, rest: Seq<u8>)
    requires
        first_frame(log) is Some,
    ensures
        first_frame(log + rest) == first_frame(log),
        0 < first_frame(log)->Some_0.1 <= log.len(),
{
    let len = spec_u32_from_le_bytes(log.subrange(0, 4)) as int;
    assert((log + rest).subrange(0, 4) =~= log.subrange(0, 4));
    assert((log + rest).subrange(4, 8) =~= log.subrange(4, 8));
    assert((log + rest).subrange(8, 8 + len) =~= log.subrange(8, 8 + len));
}

/// Appending a record's frame to a whole log adds that record after all others and
/// leaves the log whole.
pub proof fn law_append_adds_the_record_last(log: Seq<u8>, e: Entry)
    requires
        intact(log),
        framable(e),
    ensures
        entries(log + frame_of(body_of(e))) == entries(log).push(e),
        intact(log + frame_of(body_of(e))),
    decreases log.len(),
{
    let frame = frame_of(body_of(e));
    if log.len() == 0 {
        assert(log + frame =~= frame);
        assert(frame + Seq::<u8>::empty() =~= frame);
        lemma_frame_found(e, Seq::empty());
        let rest = frame.skip(frame.len() as int);
        assert(rest =~= Seq::empty());
        assert(intact(rest));
        assert(entries(rest) =~= Seq::empty());
        assert(seq![e] + entries(rest) =~= entries(log).push(e));
    } else {
        lemma_frame_stays(log, frame);
        let (first, n) = first_frame(log)->Some_0;
        law_append_adds_the_record_last(log.skip(n), e);
        assert((log + frame).skip(n) =~= log.skip(n) + frame);
        assert(seq![first] + entries(log.skip(n)).push(e) =~= entries(log).push(e));
    }
}

/// Reading and committing the next record takes exactly the first one away: records
/// come out in the order they went in, none skipped and none twice.
pub proof fn law_commit_takes_the_first(log: Seq<u8>)
    requires
        intact(log),
        log.len() > 0,
    ensures
        first_frame(log) is Some,
        ({
            let (e, n) = first_frame(log)->Some_0;
            &&& 0 < n <= log.len()
            &&& entries(log) == seq![e] + entries(log.skip(n))
            &&& intact(log.skip(n))
        }),
{
}

/// Reading only the first frame's bytes finds the same record as reading the whole
/// log.
pub proof fn law_one_frame_is_enough(log: Seq<u8>, part: int)
    requires
        log.len() >= 8,
        0 <= part <= log.len(),
        part == log.len() || part == 8 + spec_u32_from_le_bytes(log.subrange(0, 4)),
    ensures
        first_frame(log.take(part)) == first_frame(log),
{
    if part == log.len() {
        assert(log.take(part) =~= log);
    } else {
        let head = log.take(part);
        assert(head.subrange(0, 4) =~= log.subrange(0, 4));
        assert(head.subrange(4, 8) =~= log.subrange(4, 8));
        assert(head.subrange(8, part) =~= log.subrange(8, part));
    }
}

/// An append to the file adds the record to the undelivered ones, whatever stale
/// bytes lie past the end.
pub proof fn law_append_to_the_file(c: Cursors, file: Seq<u8>, e: Entry)
    requires
        c.fits(file),
        intact(c.pending(file)),
        framable(e),
    ensures
        ({
            let frame = frame_of(body_of(e));
            let after = Cursors { end: c.end + frame.len(), ..c };
            let written = write_at(file, c.end, frame);
            &&& after.fits(written)
            &&& after.pending(written) == c.pending(file) + frame
            &&& entries(after.pending(written)) == entries(c.pending(file)).push(e)
            &&& intact(after.pending(written))
        }),
{
    let frame = frame_of(body_of(e));
    let after = Cursors { end: c.end + frame.len(), ..c };
    let written = write_at(file, c.end, frame);
    assert(after.pending(written) =~= c.pending(file) + frame);
    law_append_adds_the_record_last(c.pending(file), e);
}

/// A compaction keeps every undelivered record, in order.
pub proof fn law_compaction_keeps_the_undelivered(c: Cursors, file: Seq<u8>)
    requires
        c.fits(file),
    ensures
        ({
            let after = Cursors { end: c.end - c.acked, acked: 0, ..c };
            let moved = write_at(file, 0, c.pending(file)).take(c.end - c.acked);
            &&& after.fits(moved)
            &&& after.pending(moved) == c.pending(file)
            &&& entries(after.pending(moved)) == entries(c.pending(file))
        }),
{
    let after = Cursors { end: c.end - c.acked, acked: 0, ..c };
    let moved = write_at(file, 0, c.pending(file)).take(c.end - c.acked);
    assert(after.pending(moved) =~= c.pending(file));
}

/// After a restart on the same two files the same records are undelivered: the
/// checkpoint is the read cursor and the log's length is its end.
pub proof fn law_restart_keeps_the_undelivered(before: Cursors, after: Cursors, file: Seq<u8>)
    requires
        before.fits(file),
        before.end == file.len(),
        after.end == file.len(),
        after.acked == before.acked,
    ensures
        entries(after.pending(file)) == entries(before.pending(file)),
{
}

/// A log whose last append was cut off by a crash still yields every record before
/// it: a torn tail costs only itself.
pub proof fn law_torn_tail_costs_only_itself(log: Seq<u8>, tail: Seq<u8>)
    requires
        intact(log),
        first_frame(tail) is None,
    ensures
        entries(log + tail) == entries(log),
    decreases log.len(),
{
    if log.len() == 0 {
        assert(log + tail =~= tail);
        assert(entries(tail) =~= entries(log));
    } else {
        lemma_frame_stays(log, tail);
        let (first, n) = first_frame(log)->Some_0;
        law_torn_tail_costs_only_itself(log.skip(n), tail);
        assert((log + tail).skip(n) =~= log.skip(n) + tail);
    }
}

/// A frame that was only partly written is torn.
pub proof fn law_partial_frame_is_torn(e: Entry, written: int)
    requires
        framable(e),
        0 <= written < frame_of(body_of(e)).len(),
    ensures
        first_frame(frame_of(body_of(e)).take(written)) is None,
{
    let frame = frame_of(body_of(e));
    let part = frame.take(written);
    lemma_auto_spec_u32_to_from_le_bytes();
    if written >= 8 {
        assert(part.subrange(0, 4) =~= spec_u32_to_le_bytes(body_of(e).len() as u32));
    }
}

/// What happens to the log of a running drainer.
pub ghost enum Turn {
    /// A record is appended.
    Append(Entry),
    /// The next record is read and sent; this tells whether it was acknowledged. Only then
    /// is it committed.
    Send(bool),
    /// The delivered bytes are reclaimed.
    Compact,
}

/// A log while it is drained: its cursors, its file, and the records that were acknowledged,
/// oldest first.
pub ghost struct Draining {
    pub cursors: Cursors,
    pub file: Seq<u8>,
    pub acked: Seq<Entry>,
}

impl Draining {
    /// The records not yet delivered.
    pub open spec fn undelivered(self) -> Seq<Entry> {
        entries(self.cursors.pending(self.file))
    }

    /// The undelivered bytes are whole frames.
    pub open spec fn ready(self) -> bool {
        self.cursors.fits(self.file) && intact(self.cursors.pending(self.file))
    }

    /// The record that is sent next, if one waits.
    pub open spec fn next(self) -> Option<Entry> {
        match first_frame(self.cursors.pending(self.file)) {
            Some((e, _)) => Some(e),
            None => None,
        }
    }

    /// After one more turn.
    pub open spec fn turn(self, t: Turn) -> Draining {
        let c = self.cursors;
        match t {
            Turn::Append(e) => {
                let frame = frame_of(body_of(e));
                Draining {
                    cursors: Cursors { end: c.end + frame.len(), ..c },
                    file: write_at(self.file, c.end, frame),
                    ..self
                }
            },
            Turn::Send(acknowledged) => match first_frame(c.pending(self.file)) {
                Some((e, n)) => if acknowledged {
                    Draining {
                        cursors: Cursors { acked: c.acked + n, ..c },
                        acked: self.acked.push(e),
                        ..self
                    }
                } else {
                    self
                },
                None => Draining { cursors: Cursors { end: c.acked, ..c }, ..self },
            },
            Turn::Compact => Draining {
                cursors: Cursors { end: c.end - c.acked, acked: 0, ..c },
                file: write_at(self.file, 0, c.pending(self.file)).take(c.end - c.acked),
                ..self
            },
        }
    }

    /// After these turns.
    pub open spec fn after(self, turns: Seq<Turn>) -> Draining
        decreases turns.len(),
    {
        if turns.len() == 0 {
            self
        } else {
            self.after(turns.drop_last()).turn(turns.last())
        }
    }
}

/// The records that these turns append, in order.
pub open spec fn appends(turns: Seq<Turn>) -> Seq<Entry>
    decreases turns.len(),
{
    if turns.len() == 0 {
        Seq::empty()
    } else {
        let before = appends(turns.drop_last());
        match turns.last() {
            Turn::Append(e) => before.push(e),
            _ => before,
        }
    }
}

/// Every record that these turns append can be put into one frame.
pub open spec fn all_framable(turns: Seq<Turn>) -> bool {
    forall|i: int| 0 <= i < turns.len() ==> ((#[trigger] turns[i]) matches Turn::Append(e) ==> framable(e))
}

/// One turn keeps the acknowledged records, followed by the undelivered ones, as they are;
/// an append adds its record after them.
proof fn lemma_turn(s: Draining, t: Turn)
    requires
        s.ready(),
        t matches Turn::Append(e) ==> framable(e),
    ensures
        s.turn(t).ready(),
        s.turn(t).acked + s.turn(t).undelivered() == match t {
            Turn::Append(e) => (s.acked + s.undelivered()).push(e),
            _ => s.acked + s.undelivered(),
        },
{
    let r = s.turn(t);
    let pending = s.cursors.pending(s.file);
    match t {
        Turn::Append(e) => {
            law_append_to_the_file(s.cursors, s.file, e);
            assert(r.undelivered() == s.undelivered().push(e));
            assert(s.acked + s.undelivered().push(e) =~= (s.acked + s.undelivered()).push(e));
        },
        Turn::Send(acknowledged) => {
            if pending.len() > 0 {
                law_commit_takes_the_first(pending);
                if acknowledged {
                    let (e, n) = first_frame(pending)->Some_0;
                    assert(r.cursors.pending(r.file) =~= pending.skip(n));
                    assert(s.acked.push(e) + r.undelivered() =~= s.acked + (seq![e] + r.undelivered()));
                }
            } else {
                assert(r == s);
            }
        },
        Turn::Compact => {
            law_compaction_keeps_the_undelivered(s.cursors, s.file);
        },
    }
}

/// What is sent next is the first undelivered record.
proof fn lemma_next(r: Draining)
    requires
        r.ready(),
    ensures
        r.next() == if r.undelivered().len() > 0 {
            Some(r.undelivered()[0])
        } else {
            None
        },
{
    let pending = r.cursors.pending(r.file);
    if pending.len() > 0 {
        law_commit_takes_the_first(pending);
    }
}

/// A drainer sends the records in the order they were appended. At every moment the
/// acknowledged ones followed by the undelivered ones are all records there ever were, in
/// that order, so none is skipped or lost; and what is sent next is the first record that
/// was not acknowledged, whatever outcomes the tries before it had.
pub proof fn law_records_go_out_in_order(start: Draining, turns: Seq<Turn>)
    requires
        start.ready(),
        all_framable(turns),
    ensures
        ({
            let r = start.after(turns);
            let records = start.acked + start.undelivered() + appends(turns);
            &&& r.ready()
            &&& r.acked + r.undelivered() == records
            &&& r.next() == if r.acked.len() < records.len() {
                Some(records[r.acked.len() as int])
            } else {
                None
            }
        }),
    decreases turns.len(),
{
    let r = start.after(turns);
    let records = start.acked + start.undelivered() + appends(turns);
    if turns.len() == 0 {
        assert(records =~= start.acked + start.undelivered());
    } else {
        let init = turns.drop_last();
        assert forall|i: int| 0 <= i < init.len() implies ((
        #[trigger] init[i]) matches Turn::Append(e) ==> framable(e)) by {
            assert(init[i] == turns[i]);
        }
        law_records_go_out_in_order(start, init);
        let t = turns[turns.len() - 1];
        lemma_turn(start.after(init), t);
        let before = start.acked + start.undelivered() + appends(init);
        match t {
            Turn::Append(e) => {
                assert(before.push(e) =~= records);
            },
            _ => {},
        }
    }
    lemma_next(r);
}

/// The checkpoint moves past a record only when it was acknowledged: a try that failed
/// leaves the log as it is, so the same record is sent again, and one that succeeded moves
/// past that record and no other.
pub proof fn law_only_an_acknowledged_record_is_passed(r: Draining)
    requires
        r.ready(),
    ensures
        r.turn(Turn::Send(false)) == r,
        r.next() matches Some(e) ==> {
            let after = r.turn(Turn::Send(true));
            &&& after.acked == r.acked.push(e)
            &&& r.undelivered() == seq![e] + after.undelivered()
            &&& after.cursors.acked > r.cursors.acked
            &&& after.cursors.end == r.cursors.end
            &&& after.file == r.file
        },
        r.next() is None ==> r.turn(Turn::Send(true)) == r,
{
    let pending = r.cursors.pending(r.file);
    if pending.len() > 0 {
        law_commit_takes_the_first(pending);
        let n = first_frame(pending)->Some_0.1;
        assert(r.turn(Turn::Send(true)).cursors.pending(r.file) =~= pending.skip(n));
    }
}

} // verus!
