//! An incremental reader of newline-delimited JSON: frames go in, lines come out, and
//! only the bytes of the current line are held.

use crate::bulkline::BulkAction;
use crate::error::{RequestError, RewriteError};
use bytes::{Buf, BytesMut};
use vstd::prelude::*;

verus! {

/// `bytes::BytesMut`, the buffer of the reader; [`bytes_of`] names what it holds.
#[verifier::external_type_specification]
#[verifier::external_body]
pub struct ExBytesMut(bytes::BytesMut);

/// The bytes a `BytesMut` holds.
pub uninterp spec fn bytes_of(b: BytesMut) -> Seq<u8>;

/// `BytesMut::new`: an empty buffer.
#[verifier::external_body]
fn empty_buffer() -> (r: BytesMut)
    ensures
        bytes_of(r) == Seq::<u8>::empty(),
{
    BytesMut::new()
}

/// `BytesMut::extend_from_slice`: adds bytes at the end. It panics where the buffer
/// would outgrow what can be allocated.
#[verifier::external_body]
fn extend(b: &mut BytesMut, data: &[u8])
    requires
        bytes_of(*old(b)).len() + data@.len() <= isize::MAX,
    ensures
        bytes_of(*final(b)) == bytes_of(*old(b)) + data@,
{
    b.extend_from_slice(data)
}

/// `BytesMut::split_to`: takes the first `at` bytes off. It panics past the end.
#[verifier::external_body]
fn split_to(b: &mut BytesMut, at: usize) -> (r: BytesMut)
    requires
        at <= bytes_of(*old(b)).len(),
    ensures
        bytes_of(r) == bytes_of(*old(b)).take(at as int),
        bytes_of(*final(b)) == bytes_of(*old(b)).skip(at as int),
{
    b.split_to(at)
}

/// `Buf::advance` on a `BytesMut`: drops the first `n` bytes. It panics past the end.
#[verifier::external_body]
fn advance(b: &mut BytesMut, n: usize)
    requires
        n <= bytes_of(*old(b)).len(),
    ensures
        bytes_of(*final(b)) == bytes_of(*old(b)).skip(n as int),
{
    b.advance(n)
}

/// `BytesMut::truncate`: keeps the first `n` bytes.
#[verifier::external_body]
fn truncate(b: &mut BytesMut, n: usize)
    requires
        n <= bytes_of(*old(b)).len(),
    ensures
        bytes_of(*final(b)) == bytes_of(*old(b)).take(n as int),
{
    b.truncate(n)
}

/// The bytes of a `BytesMut` as a slice.
#[verifier::external_body]
fn as_slice(b: &BytesMut) -> (r: &[u8])
    ensures
        r@ == bytes_of(*b),
{
    b.as_ref()
}

/// The longest line that is held without its end being in sight.
pub const MAX_LINE_BYTES: usize = 67_108_864;

/// ASCII whitespace.
pub open spec fn is_space(b: u8) -> bool {
    b == 0x20 || b == 0x09 || b == 0x0a || b == 0x0c || b == 0x0d
}

/// Nothing but whitespace.
pub open spec fn is_blank(line: Seq<u8>) -> bool {
    forall|i: int| 0 <= i < line.len() ==> is_space(#[trigger] line[i])
}

/// The line without the carriage return at its end.
pub open spec fn chomped(line: Seq<u8>) -> Seq<u8> {
    if line.len() > 0 && line.last() == 0x0d {
        line.drop_last()
    } else {
        line
    }
}

/// The position of the first newline, or the length where there is none.
pub open spec fn newline(b: Seq<u8>) -> int
    decreases b.len(),
{
    if b.len() == 0 {
        0
    } else if b[0] == 0x0a {
        0
    } else {
        1 + newline(b.skip(1))
    }
}

/// What the reader finds in the bytes it holds.
pub ghost enum Found {
    /// This line, with these bytes after it.
    Line(Seq<u8>, Seq<u8>),
    /// The end of the body, with these bytes held, all of them blank.
    End(Seq<u8>),
    /// No whole line yet, with these bytes held.
    More(Seq<u8>),
    /// No end of the line in sight within the cap, with these bytes held.
    TooLarge(Seq<u8>),
}

/// What is found in `b`: the next line that is not blank. `done` tells that no more
/// bytes will come; then the rest is the last line.
pub open spec fn found(b: Seq<u8>, done: bool) -> Found
    decreases b.len(),
{
    let n = newline(b);
    if 0 <= n < b.len() {
        let line = chomped(b.take(n));
        let rest = b.skip(n + 1);
        if is_blank(line) {
            found(rest, done)
        } else {
            Found::Line(line, rest)
        }
    } else if done {
        if is_blank(b) {
            Found::End(b)
        } else {
            Found::Line(b, Seq::empty())
        }
    } else if b.len() > MAX_LINE_BYTES {
        Found::TooLarge(b)
    } else {
        Found::More(b)
    }
}

/// What the next line is.
#[derive(Debug)]
pub enum LineStep {
    Line(BytesMut),
    End,
    /// Feed the next frame and ask again.
    NeedFrame,
}

/// What the body yields when it is pulled.
pub enum BodyEvent {
    /// A data frame.
    Data(Vec<u8>),
    /// A frame without data.
    NoData,
    /// The body failed.
    Failed,
    /// The body ended.
    End,
}

/// The reader: the bytes not yet handed out.
#[derive(Debug)]
pub struct NdjsonReader {
    buf: BytesMut,
    /// How far the search for a newline has come.
    scan: usize,
    done: bool,
}

pub proof fn lemma_newline_bounds(b: Seq<u8>)
    ensures
        0 <= newline(b) <= b.len(),
        forall|i: int| 0 <= i < newline(b) ==> b[i] != 0x0a,
        newline(b) < b.len() ==> b[newline(b)] == 0x0a,
    decreases b.len(),
{
    if b.len() > 0 && b[0] != 0x0a {
        let t = b.skip(1);
        lemma_newline_bounds(t);
        assert forall|i: int| 0 <= i < newline(b) implies b[i] != 0x0a by {
            if i > 0 {
                assert(b[i] == t[i - 1]);
            }
        }
        if newline(b) < b.len() {
            assert(b[newline(b)] == t[newline(t)]);
        }
    }
}

/// The first newline is the one with none before it.
pub proof fn lemma_newline_at(b: Seq<u8>, n: int)
    requires
        0 <= n <= b.len(),
        forall|i: int| 0 <= i < n ==> b[i] != 0x0a,
        n < b.len() ==> b[n] == 0x0a,
    ensures
        newline(b) == n,
{
    lemma_newline_bounds(b);
}

fn all_space(line: &[u8]) -> (r: bool)
    ensures
        r == is_blank(line@),
{
    let mut i: usize = 0;
    while i < line.len()
        invariant
            0 <= i <= line@.len(),
            forall|j: int| 0 <= j < i ==> is_space(#[trigger] line@[j]),
        decreases line@.len() - i,
    {
        if !matches!(line[i], 0x20 | 0x09 | 0x0a | 0x0c | 0x0d) {
            assert(!is_space(line@[i as int]));
            return false;
        }
        i += 1;
    }
    true
}

impl NdjsonReader {
    /// The bytes held.
    pub closed spec fn held(self) -> Seq<u8> {
        bytes_of(self.buf)
    }

    /// Whether the body has ended.
    pub closed spec fn ended(self) -> bool {
        self.done
    }

    #[verifier::type_invariant]
    spec fn scanned(self) -> bool {
        &&& self.scan <= bytes_of(self.buf).len()
        &&& forall|i: int| 0 <= i < self.scan ==> bytes_of(self.buf)[i] != 0x0a
    }

    /// A reader before the first frame.
    pub fn new() -> (r: Self)
        ensures
            r.held() == Seq::<u8>::empty(),
            !r.ended(),
    {
        NdjsonReader { buf: empty_buffer(), scan: 0, done: false }
    }

    /// Takes one event from the body. Only its failure fails.
    pub fn feed(self, event: BodyEvent) -> (r: Result<Self, RequestError>)
        requires
            event matches BodyEvent::Data(data) ==> self.held().len() + data@.len() <= isize::MAX,
        ensures
            match event {
                BodyEvent::Data(data) => r is Ok && r->Ok_0.held() == self.held() + data@
                    && r->Ok_0.ended() == self.ended(),
                BodyEvent::NoData => r is Ok && r->Ok_0 == self,
                BodyEvent::End => r is Ok && r->Ok_0.held() == self.held() && r->Ok_0.ended(),
                BodyEvent::Failed => r is Err && r->Err_0 is Internal
                    && r->Err_0->Internal_reason@ == "reading bulk body stream"@,
            },
    {
        proof {
            use_type_invariant(&self);
        }
        match event {
            BodyEvent::Data(data) => {
                let mut buf = self.buf;
                extend(&mut buf, data.as_slice());
                Ok(NdjsonReader { buf, scan: self.scan, done: self.done })
            },
            BodyEvent::NoData => Ok(self),
            BodyEvent::End => Ok(NdjsonReader { buf: self.buf, scan: self.scan, done: true }),
            BodyEvent::Failed => Err(RequestError::Internal { reason: "reading bulk body stream" }),
        }
    }

    /// The next line that is not blank, without its line end.
    pub fn next_line(&mut self) -> (r: Result<LineStep, RequestError>)
        ensures
            final(self).ended() == old(self).ended(),
            match found(old(self).held(), old(self).ended()) {
                Found::Line(line, rest) => {
                    &&& r matches Ok(LineStep::Line(l))
                    &&& bytes_of(l) == line
                    &&& final(self).held() == rest
                },
                Found::End(held) => r matches Ok(LineStep::End) && final(self).held() == held,
                Found::More(held) => r matches Ok(LineStep::NeedFrame) && final(self).held()
                    == held,
                Found::TooLarge(held) => {
                    &&& r matches Err(e)
                    &&& e is PayloadTooLarge
                    &&& e->PayloadTooLarge_reason@ == "bulk line exceeds the per-op size cap"@
                    &&& final(self).held() == held
                },
            },
    {
        proof {
            use_type_invariant(&*self);
        }
        let done = self.done;
        let mut scan = self.scan;
        let mut taken = NdjsonReader { buf: empty_buffer(), scan: 0, done };
        std::mem::swap(&mut taken, self);
        let mut buf = taken.buf;
        loop
            invariant
                scan <= bytes_of(buf).len(),
                forall|i: int| 0 <= i < scan ==> bytes_of(buf)[i] != 0x0a,
                found(bytes_of(buf), done) == found(old(self).held(), old(self).ended()),
                done == old(self).ended(),
                self.ended() == done,
                self.held() == Seq::<u8>::empty(),
            decreases bytes_of(buf).len(),
        {
            let ghost whole = bytes_of(buf);
            let n = find_newline(&buf, scan);
            if n < as_slice(&buf).len() {
                let mut line = split_to(&mut buf, n);
                advance(&mut buf, 1);
                proof {
                    assert(bytes_of(buf) =~= whole.skip(n + 1));
                }
                scan = 0;
                let len = as_slice(&line).len();
                if len > 0 && as_slice(&line)[len - 1] == 0x0d {
                    truncate(&mut line, len - 1);
                    proof {
                        assert(bytes_of(line) =~= chomped(whole.take(n as int)));
                    }
                }
                if all_space(as_slice(&line)) {
                    continue ;
                }
                *self = NdjsonReader { buf, scan: 0, done };
                return Ok(LineStep::Line(line));
            }
            if done {
                if all_space(as_slice(&buf)) {
                    *self = NdjsonReader { buf, scan: n, done };
                    return Ok(LineStep::End);
                }
                return Ok(LineStep::Line(buf));
            }
            if as_slice(&buf).len() > MAX_LINE_BYTES {
                *self = NdjsonReader { buf, scan: n, done };
                return Err(
                    RequestError::PayloadTooLarge {
                        reason: "bulk line exceeds the per-op size cap",
                    },
                );
            }
            *self = NdjsonReader { buf, scan: n, done };
            return Ok(LineStep::NeedFrame);
        }
    }
}

/// The first newline at or after `from`, before which there is none.
fn find_newline(buf: &BytesMut, from: usize) -> (r: usize)
    requires
        from <= bytes_of(*buf).len(),
        forall|i: int| 0 <= i < from ==> bytes_of(*buf)[i] != 0x0a,
    ensures
        r == newline(bytes_of(*buf)),
        r <= bytes_of(*buf).len(),
        forall|i: int| 0 <= i < r ==> bytes_of(*buf)[i] != 0x0a,
{
    let bytes = as_slice(buf);
    let mut i: usize = from;
    while i < bytes.len() && bytes[i] != 0x0a
        invariant
            bytes@ == bytes_of(*buf),
            0 <= i <= bytes@.len(),
            forall|j: int| 0 <= j < i ==> bytes@[j] != 0x0a,
        decreases bytes@.len() - i,
    {
        i += 1;
    }
    proof {
        lemma_newline_at(bytes@, i as int);
    }
    i
}

/// What the next operation of a bulk body is.
#[derive(Debug)]
pub enum OpStep {
    /// Read the action of this line and go on with [`BulkReader::action`].
    ReadAction(BytesMut),
    /// An operation: its action line, and its source line where it has one.
    Op(BytesMut, Option<BytesMut>),
    /// Feed the next frame and ask again.
    NeedFrame,
    /// The end of the body.
    End,
}

/// A reader of bulk operations: an action line, and a source line for every action
/// that has one.
#[derive(Debug)]
pub struct BulkReader {
    pub lines: NdjsonReader,
    /// The action line whose source line is awaited.
    pub pending: Option<BytesMut>,
}

impl BulkReader {
    /// A reader before the first frame.
    pub fn new() -> (r: Self)
        ensures
            r.lines.held() == Seq::<u8>::empty(),
            !r.lines.ended(),
            r.pending is None,
    {
        BulkReader { lines: NdjsonReader::new(), pending: None }
    }

    /// Takes the action read from an action line: either its source line is awaited,
    /// or the operation is complete.
    pub fn action(&mut self, line: BytesMut, action: BulkAction) -> (r: Option<OpStep>)
        requires
            old(self).pending is None,
        ensures
            final(self).lines == old(self).lines,
            if action is Delete {
                final(self).pending is None && r == Some(OpStep::Op(line, None))
            } else {
                final(self).pending == Some(line) && r is None
            },
    {
        if action.has_source() {
            self.pending = Some(line);
            None
        } else {
            Some(OpStep::Op(line, None))
        }
    }

    /// The next step. A body that ends where a source line is awaited is malformed.
    pub fn next_op(&mut self) -> (r: Result<OpStep, RequestError>)
        ensures
            final(self).lines.ended() == old(self).lines.ended(),
            match found(old(self).lines.held(), old(self).lines.ended()) {
                Found::Line(line, rest) => {
                    &&& final(self).lines.held() == rest
                    &&& final(self).pending is None
                    &&& match old(self).pending {
                        None => r matches Ok(OpStep::ReadAction(l)) && bytes_of(l) == line,
                        Some(action) => {
                            &&& r matches Ok(OpStep::Op(a, Some(source)))
                            &&& a == action
                            &&& bytes_of(source) == line
                        },
                    }
                },
                Found::End(held) => {
                    &&& match old(self).pending {
                        None => r matches Ok(OpStep::End),
                        Some(_) => r matches Err(
                            RequestError::Rewrite(RewriteError::MalformedBulkAction),
                        ),
                    }
                    &&& final(self).lines.held() == held
                    &&& final(self).pending == old(self).pending
                },
                Found::More(held) => {
                    &&& r matches Ok(OpStep::NeedFrame)
                    &&& final(self).lines.held() == held
                    &&& final(self).pending == old(self).pending
                },
                Found::TooLarge(held) => {
                    &&& r matches Err(e)
                    &&& e is PayloadTooLarge
                    &&& e->PayloadTooLarge_reason@ == "bulk line exceeds the per-op size cap"@
                    &&& final(self).lines.held() == held
                    &&& final(self).pending == old(self).pending
                },
            },
    {
        match self.lines.next_line() {
            Err(e) => Err(e),
            Ok(LineStep::NeedFrame) => Ok(OpStep::NeedFrame),
            Ok(LineStep::End) => {
                if self.pending.is_some() {
                    Err(RequestError::Rewrite(RewriteError::MalformedBulkAction))
                } else {
                    Ok(OpStep::End)
                }
            },
            Ok(LineStep::Line(line)) => {
                let mut pending: Option<BytesMut> = None;
                std::mem::swap(&mut pending, &mut self.pending);
                match pending {
                    Some(action) => Ok(OpStep::Op(action, Some(line))),
                    None => Ok(OpStep::ReadAction(line)),
                }
            },
        }
    }
}

/// A line that was found stays found, whatever bytes follow: framing does not depend
/// on how the body is cut into frames.
pub proof fn law_found_lines_stay(b: Seq<u8>, more: Seq<u8>, done: bool)
    requires
        found(b, false) is Line,
    ensures
        found(b + more, done) == Found::Line(
            found(b, false)->Line_0,
            found(b, false)->Line_1 + more,
        ),
    decreases b.len(),
{
    let n = newline(b);
    lemma_newline_bounds(b);
    lemma_newline_at(b + more, n);
    assert((b + more).take(n) =~= b.take(n));
    let rest = b.skip(n + 1);
    assert((b + more).skip(n + 1) =~= rest + more);
    if is_blank(chomped(b.take(n))) {
        law_found_lines_stay(rest, more, done);
    }
}

/// Bytes in which no line was found only wait: what is found once more bytes have
/// come is what would have been found had they come at once.
pub proof fn law_waiting_loses_nothing(b: Seq<u8>, more: Seq<u8>, done: bool)
    requires
        found(b, false) is More,
    ensures
        found(found(b, false)->More_0 + more, done) == found(b + more, done),
    decreases b.len(),
{
    let n = newline(b);
    lemma_newline_bounds(b);
    if n < b.len() {
        lemma_newline_at(b + more, n);
        assert((b + more).take(n) =~= b.take(n));
        let rest = b.skip(n + 1);
        assert((b + more).skip(n + 1) =~= rest + more);
        law_waiting_loses_nothing(rest, more, done);
    }
}

/// The lines of a whole body: what stands between its newlines, each without a carriage
/// return at its end, and what follows the last newline; blank ones are left out.
pub open spec fn body_lines(b: Seq<u8>) -> Seq<Seq<u8>>
    decreases b.len(),
{
    let n = newline(b);
    if 0 <= n < b.len() {
        let line = chomped(b.take(n));
        let rest = body_lines(b.skip(n + 1));
        if is_blank(line) {
            rest
        } else {
            seq![line] + rest
        }
    } else if is_blank(b) {
        Seq::empty()
    } else {
        seq![b]
    }
}

/// No line of a body is longer than the cap.
pub open spec fn lines_capped(b: Seq<u8>) -> bool
    decreases b.len(),
{
    let n = newline(b);
    n <= MAX_LINE_BYTES && (0 <= n < b.len() ==> lines_capped(b.skip(n + 1)))
}

/// A body from its frames.
pub open spec fn joined(frames: Seq<Seq<u8>>) -> Seq<u8>
    decreases frames.len(),
{
    if frames.len() == 0 {
        Seq::empty()
    } else {
        frames[0] + joined(frames.skip(1))
    }
}

/// What a reader that holds `b` hands out until it asks for a frame, ends or fails: the
/// lines, in order, and what stopped it.
pub open spec fn drawn(b: Seq<u8>, done: bool) -> (Seq<Seq<u8>>, Found)
    decreases b.len(),
{
    match found(b, done) {
        Found::Line(line, rest) => if rest.len() < b.len() {
            let (lines, stop) = drawn(rest, done);
            (seq![line] + lines, stop)
        } else {
            (Seq::empty(), found(b, done))
        },
        stop => (Seq::empty(), stop),
    }
}

/// What a reader that holds `b` hands out over these frames and the end of the body: each
/// frame is fed once the reader asks for one.
pub open spec fn read_through(b: Seq<u8>, frames: Seq<Seq<u8>>) -> (Seq<Seq<u8>>, Found)
    decreases frames.len(),
{
    let (lines, stop) = drawn(b, false);
    match stop {
        Found::More(held) => {
            let (more, last) = if frames.len() == 0 {
                drawn(held, true)
            } else {
                read_through(held + frames[0], frames.skip(1))
            };
            (lines + more, last)
        },
        _ => (lines, stop),
    }
}

/// A line that is found takes bytes away.
proof fn lemma_found_shrinks(b: Seq<u8>, done: bool)
    ensures
        found(b, done) matches Found::Line(_, rest) ==> rest.len() < b.len(),
    decreases b.len(),
{
    lemma_newline_bounds(b);
    let n = newline(b);
    if n < b.len() {
        lemma_found_shrinks(b.skip(n + 1), done);
    } else if b.len() == 0 {
        assert(is_blank(b));
    }
}

/// Once the body has ended, everything held is handed out: the lines of the body.
proof fn lemma_drawn_at_end(b: Seq<u8>)
    ensures
        drawn(b, true).0 == body_lines(b),
        drawn(b, true).1 is End,
    decreases b.len(),
{
    lemma_newline_bounds(b);
    lemma_found_shrinks(b, true);
    let n = newline(b);
    if n < b.len() {
        let rest = b.skip(n + 1);
        lemma_drawn_at_end(rest);
        if is_blank(chomped(b.take(n))) {
            assert(found(b, true) == found(rest, true));
            lemma_found_shrinks(rest, true);
        }
    } else if !is_blank(b) {
        let none = Seq::<u8>::empty();
        assert(is_blank(none));
        assert(drawn(none, true) == (Seq::<Seq<u8>>::empty(), Found::End(none)));
        assert(seq![b] + Seq::<Seq<u8>>::empty() =~= seq![b]);
    }
}

/// Before the end, a reader draws the whole lines and holds the rest; with more bytes behind
/// it the lines are the same ones followed by those of the rest.
proof fn lemma_drawn_before_end(b: Seq<u8>, more: Seq<u8>)
    requires
        lines_capped(b + more),
    ensures
        drawn(b, false).1 is More,
        lines_capped(drawn(b, false).1->More_0 + more),
        body_lines(b + more) == drawn(b, false).0 + body_lines(drawn(b, false).1->More_0 + more),
    decreases b.len(),
{
    lemma_newline_bounds(b);
    lemma_found_shrinks(b, false);
    let n = newline(b);
    if n < b.len() {
        let rest = b.skip(n + 1);
        lemma_newline_at(b + more, n);
        assert((b + more).take(n) =~= b.take(n));
        assert((b + more).skip(n + 1) =~= rest + more);
        lemma_drawn_before_end(rest, more);
        lemma_found_shrinks(rest, false);
        let line = chomped(b.take(n));
        if is_blank(line) {
            assert(found(b, false) == found(rest, false));
            assert(drawn(b, false) == drawn(rest, false));
        } else {
            let (lines, stop) = drawn(rest, false);
            assert(drawn(b, false) == (seq![line] + lines, stop));
            assert(seq![line] + (lines + body_lines(stop->More_0 + more)) =~= (seq![line] + lines)
                + body_lines(stop->More_0 + more));
        }
    } else {
        lemma_newline_bounds(b + more);
        if newline(b + more) < b.len() {
            assert((b + more)[newline(b + more)] == b[newline(b + more)]);
        }
        assert(b.len() <= MAX_LINE_BYTES);
        assert(found(b, false) == Found::More(b));
        assert(Seq::<Seq<u8>>::empty() + body_lines(b + more) =~= body_lines(b + more));
    }
}

proof fn lemma_read_through(b: Seq<u8>, frames: Seq<Seq<u8>>)
    requires
        lines_capped(b + joined(frames)),
    ensures
        read_through(b, frames).0 == body_lines(b + joined(frames)),
        read_through(b, frames).1 is End,
    decreases frames.len(),
{
    lemma_drawn_before_end(b, joined(frames));
    let held = drawn(b, false).1->More_0;
    if frames.len() == 0 {
        assert(held + joined(frames) =~= held);
        lemma_drawn_at_end(held);
    } else {
        assert((held + frames[0]) + joined(frames.skip(1)) =~= held + joined(frames));
        lemma_read_through(held + frames[0], frames.skip(1));
    }
}

/// A reader over a whole body hands out the lines of the body that are not blank, in order,
/// and then the end: none is lost, cut or doubled.
pub proof fn law_reader_hands_out_every_line(frames: Seq<Seq<u8>>)
    requires
        lines_capped(joined(frames)),
    ensures
        read_through(Seq::empty(), frames).0 == body_lines(joined(frames)),
        read_through(Seq::empty(), frames).1 is End,
{
    assert(Seq::<u8>::empty() + joined(frames) =~= joined(frames));
    lemma_read_through(Seq::empty(), frames);
}

/// What the reader hands out does not depend on where the frames are cut.
pub proof fn law_framing_is_free(a: Seq<Seq<u8>>, b: Seq<Seq<u8>>)
    requires
        joined(a) == joined(b),
        lines_capped(joined(a)),
    ensures
        read_through(Seq::empty(), a).0 == read_through(Seq::empty(), b).0,
{
    law_reader_hands_out_every_line(a);
    law_reader_hands_out_every_line(b);
}

} // verus!
