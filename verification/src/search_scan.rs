//! The streaming transform of a search response.
//!
//! A search response is `{.. "hits": {.. "hits": [<hit>, <hit>, ..] ..} ..}`. The
//! scanner reads it byte by byte, in chunks of any size, and cuts it into
//! [`Piece`]s: bytes to forward verbatim, and the elements of the inner `hits`
//! array, each framed whole so that it can be shaped on its own. It holds at most
//! one element and a small structural cursor.

use crate::json;
use crate::read::{hit_view, mapped_at, shape_hit, ReadShape};
use crate::text::views;
use crate::types::{clone_bytes, opt, opts};
use vstd::prelude::*;

verus! {

/// A part of the scanned response.
pub enum Piece {
    /// Bytes to forward as they are.
    Verbatim(Vec<u8>),
    /// One whole element of the inner `hits` array.
    Hit(Vec<u8>),
}

/// What the scanner gives out for the bytes it has read: a byte to forward, or a
/// framed element.
pub ghost enum Out {
    Byte(u8),
    Hit(Seq<u8>),
}

/// Where the scanner is in the response.
#[derive(Clone, Copy, PartialEq, Eq, Structural)]
pub enum Phase {
    /// Before the `{` of the root object.
    SeekRoot,
    /// In an object, before a key or the closing `}`.
    ObjExpectKey,
    /// In a member key.
    ObjReadKey,
    /// After a key, before the `:`.
    ObjExpectColon,
    /// After the `:`, before the first byte of the value.
    ObjExpectValue,
    /// In a member value that is forwarded verbatim.
    SkipValue,
    /// After a member value, before `,` or `}`.
    ObjExpectComma,
    /// In the inner `hits` array, before an element or the closing `]`.
    ArrExpectElem,
    /// In an element.
    ArrReadElem,
    /// After an element, before `,` or `]`.
    ArrExpectComma,
    /// Nothing is left to frame: everything is forwarded.
    Passthrough,
}

/// How far into a JSON value the scanner is: open brackets, and string state.
pub ghost struct Cursor {
    pub depth: nat,
    pub in_str: bool,
    pub esc: bool,
}

impl Cursor {
    /// Nothing is open: the value is complete, or it is a bare scalar.
    pub open spec fn closed(self) -> bool {
        self.depth == 0 && !self.in_str
    }

    /// The cursor after the first byte of a value.
    pub open spec fn begin(first: u8) -> Cursor {
        if first == 0x22u8 {
            Cursor { depth: 0, in_str: true, esc: false }
        } else if opens(first) {
            Cursor { depth: 1, in_str: false, esc: false }
        } else {
            Cursor { depth: 0, in_str: false, esc: false }
        }
    }

    /// The cursor after one more byte.
    pub open spec fn next(self, b: u8) -> Cursor {
        if self.in_str {
            if self.esc {
                Cursor { esc: false, ..self }
            } else if b == 0x5cu8 {
                Cursor { esc: true, ..self }
            } else if b == 0x22u8 {
                Cursor { in_str: false, ..self }
            } else {
                self
            }
        } else if self.depth == 0 {
            self
        } else if b == 0x22u8 {
            Cursor { in_str: true, ..self }
        } else if opens(b) {
            Cursor { depth: self.depth + 1, ..self }
        } else if closes(b) {
            Cursor { depth: (self.depth - 1) as nat, ..self }
        } else {
            self
        }
    }
}

/// `{` or `[`.
pub open spec fn opens(b: u8) -> bool {
    b == 0x7bu8 || b == 0x5bu8
}

/// `}` or `]`.
pub open spec fn closes(b: u8) -> bool {
    b == 0x7du8 || b == 0x5du8
}

/// Insignificant whitespace.
pub open spec fn blank(b: u8) -> bool {
    b == 0x20u8 || b == 0x09u8 || b == 0x0au8 || b == 0x0du8
}

/// The key between the quotes, escapes intact, reads `hits`.
pub open spec fn is_hits_key(key: Seq<u8>) -> bool {
    json::decoded(seq![0x22u8] + key + seq![0x22u8]) == Some("hits"@)
}

/// The state of the scanner between two bytes.
pub ghost struct Scan {
    pub phase: Phase,
    /// 1 in the root object, 2 in the `hits` object.
    pub level: nat,
    pub key_is_hits: bool,
    pub key: Seq<u8>,
    pub key_esc: bool,
    /// The cursor in the value being skipped or framed.
    pub cursor: Cursor,
    /// The bytes of the element being framed.
    pub elem: Seq<u8>,
}

impl Scan {
    /// The state before the first byte.
    pub open spec fn start() -> Scan {
        Scan {
            phase: Phase::SeekRoot,
            level: 0,
            key_is_hits: false,
            key: Seq::empty(),
            key_esc: false,
            cursor: Cursor { depth: 0, in_str: false, esc: false },
            elem: Seq::empty(),
        }
    }

    pub open spec fn to(self, phase: Phase) -> Scan {
        Scan { phase, ..self }
    }

    /// At a byte that must be `sep` to go on, with whitespace allowed before it.
    pub open spec fn expect(self, b: u8, sep: u8, phase: Phase) -> Scan {
        if b == sep {
            self.to(phase)
        } else if blank(b) {
            self
        } else {
            self.to(Phase::Passthrough)
        }
    }

    /// After a member value.
    pub open spec fn after_member(self, b: u8) -> Scan {
        self.to(Phase::ObjExpectComma).expect(b, 0x2cu8, Phase::ObjExpectKey)
    }

    /// After an element.
    pub open spec fn after_elem(self, b: u8) -> Scan {
        self.to(Phase::ArrExpectComma).expect(b, 0x2cu8, Phase::ArrExpectElem)
    }

    /// At the byte `b` a bare scalar in an object has ended.
    pub open spec fn ends_member(self, b: u8) -> bool {
        self.cursor.closed() && (blank(b) || b == 0x2cu8 || b == 0x7du8)
    }

    /// At the byte `b` a bare scalar in the array has ended.
    pub open spec fn ends_elem(self, b: u8) -> bool {
        self.cursor.closed() && (blank(b) || b == 0x2cu8 || b == 0x5du8)
    }

    /// The state after the byte `b`.
    pub open spec fn advance(self, b: u8) -> Scan {
        match self.phase {
            Phase::SeekRoot => if b == 0x7bu8 {
                Scan { level: 1, ..self.to(Phase::ObjExpectKey) }
            } else if blank(b) {
                self
            } else {
                self.to(Phase::Passthrough)
            },
            Phase::ObjExpectKey => if b == 0x22u8 {
                Scan { key: Seq::empty(), key_esc: false, ..self.to(Phase::ObjReadKey) }
            } else if blank(b) {
                self
            } else {
                self.to(Phase::Passthrough)
            },
            Phase::ObjReadKey => if self.key_esc {
                Scan { key_esc: false, key: self.key.push(b), ..self }
            } else if b == 0x22u8 {
                Scan { key_is_hits: is_hits_key(self.key), ..self.to(Phase::ObjExpectColon) }
            } else {
                Scan { key_esc: b == 0x5cu8, key: self.key.push(b), ..self }
            },
            Phase::ObjExpectColon => self.expect(b, 0x3au8, Phase::ObjExpectValue),
            Phase::ObjExpectValue => if blank(b) {
                self
            } else if !self.key_is_hits {
                Scan { cursor: Cursor::begin(b), ..self.to(Phase::SkipValue) }
            } else if self.level == 1 && b == 0x7bu8 {
                Scan { level: 2, ..self.to(Phase::ObjExpectKey) }
            } else if self.level == 2 && b == 0x5bu8 {
                self.to(Phase::ArrExpectElem)
            } else {
                self.to(Phase::Passthrough)
            },
            Phase::SkipValue => if self.cursor.closed() {
                if self.ends_member(b) {
                    self.after_member(b)
                } else {
                    self
                }
            } else {
                let moved = Scan { cursor: self.cursor.next(b), ..self };
                if moved.cursor.closed() {
                    moved.to(Phase::ObjExpectComma)
                } else {
                    moved
                }
            },
            Phase::ObjExpectComma => self.after_member(b),
            Phase::ArrExpectElem => if blank(b) {
                self
            } else if b == 0x5du8 {
                self.to(Phase::Passthrough)
            } else {
                Scan { cursor: Cursor::begin(b), elem: seq![b], ..self.to(Phase::ArrReadElem) }
            },
            Phase::ArrReadElem => if self.cursor.closed() {
                if self.ends_elem(b) {
                    Scan { elem: Seq::empty(), ..self }.after_elem(b)
                } else {
                    Scan { elem: self.elem.push(b), ..self }
                }
            } else {
                let moved = Scan {
                    cursor: self.cursor.next(b),
                    elem: self.elem.push(b),
                    ..self
                };
                if moved.cursor.closed() {
                    Scan { elem: Seq::empty(), ..moved.to(Phase::ArrExpectComma) }
                } else {
                    moved
                }
            },
            Phase::ArrExpectComma => self.after_elem(b),
            Phase::Passthrough => self,
        }
    }

    /// What is given out at the byte `b`.
    pub open spec fn emit(self, b: u8) -> Seq<Out> {
        match self.phase {
            Phase::ArrExpectElem => if blank(b) || b == 0x5du8 {
                seq![Out::Byte(b)]
            } else {
                Seq::empty()
            },
            Phase::ArrReadElem => if self.cursor.closed() {
                if self.ends_elem(b) {
                    seq![Out::Hit(self.elem), Out::Byte(b)]
                } else {
                    Seq::empty()
                }
            } else if self.cursor.next(b).closed() {
                seq![Out::Hit(self.elem.push(b))]
            } else {
                Seq::empty()
            },
            _ => seq![Out::Byte(b)],
        }
    }

    /// The state after all of `bytes`.
    pub open spec fn run(self, bytes: Seq<u8>) -> Scan
        decreases bytes.len(),
    {
        if bytes.len() == 0 {
            self
        } else {
            self.run(bytes.drop_last()).advance(bytes.last())
        }
    }

    /// What is given out over all of `bytes`.
    pub open spec fn output(self, bytes: Seq<u8>) -> Seq<Out>
        decreases bytes.len(),
    {
        if bytes.len() == 0 {
            Seq::empty()
        } else {
            self.output(bytes.drop_last()) + self.run(bytes.drop_last()).emit(bytes.last())
        }
    }
}

/// Bytes forwarded verbatim.
pub open spec fn verbatim(bytes: Seq<u8>) -> Seq<Out> {
    bytes.map_values(|b: u8| Out::Byte(b))
}

/// What the pieces stand for.
pub open spec fn flat(pieces: Seq<Piece>) -> Seq<Out>
    decreases pieces.len(),
{
    if pieces.len() == 0 {
        Seq::empty()
    } else {
        flat(pieces.drop_last()) + match pieces.last() {
            Piece::Verbatim(b) => verbatim(b@),
            Piece::Hit(raw) => seq![Out::Hit(raw@)],
        }
    }
}

/// The cursor in a value that is skipped or framed.
#[derive(Clone, Copy)]
struct Skip {
    depth: u64,
    in_str: bool,
    esc: bool,
}

impl View for Skip {
    type V = Cursor;

    closed spec fn view(&self) -> Cursor {
        Cursor { depth: self.depth as nat, in_str: self.in_str, esc: self.esc }
    }
}

impl Skip {
    fn begin(first: u8) -> (r: Self)
        ensures
            r@ == Cursor::begin(first),
    {
        match first {
            0x22 => Skip { depth: 0, in_str: true, esc: false },
            0x7b | 0x5b => Skip { depth: 1, in_str: false, esc: false },
            _ => Skip { depth: 0, in_str: false, esc: false },
        }
    }

    fn closed(&self) -> (r: bool)
        ensures
            r == self@.closed(),
    {
        self.depth == 0 && !self.in_str
    }

    fn next(&mut self, b: u8)
        requires
            old(self)@.depth < u64::MAX,
        ensures
            final(self)@ == old(self)@.next(b),
    {
        if self.in_str {
            if self.esc {
                self.esc = false;
            } else if b == 0x5c {
                self.esc = true;
            } else if b == 0x22 {
                self.in_str = false;
            }
        } else if self.depth > 0 {
            match b {
                0x22 => {
                    self.in_str = true;
                },
                0x7b | 0x5b => {
                    self.depth = self.depth + 1;
                },
                0x7d | 0x5d => {
                    self.depth = self.depth - 1;
                },
                _ => {},
            }
        }
    }
}

/// Whether `b` is insignificant whitespace.
fn is_ws(b: u8) -> (r: bool)
    ensures
        r == blank(b),
{
    matches!(b, 0x20 | 0x09 | 0x0a | 0x0d)
}

/// Whether the raw bytes of a key decode to `hits`.
fn decoded_key_is_hits(raw: &Vec<u8>) -> (r: bool)
    ensures
        r == is_hits_key(raw@),
{
    let mut literal: Vec<u8> = Vec::new();
    literal.push(0x22);
    literal.extend_from_slice(raw.as_slice());
    literal.push(0x22);
    assert(literal@ =~= seq![0x22u8] + raw@ + seq![0x22u8]);
    match json::decode(literal.as_slice()) {
        Some(key) => key == "hits".to_owned(),
        None => false,
    }
}

/// The streaming scanner. Feed it the response; it gives out pieces.
pub struct SearchHitsScanner {
    phase: Phase,
    level: u8,
    key_is_hits: bool,
    key_buf: Vec<u8>,
    key_esc: bool,
    skip: Skip,
    elem: Vec<u8>,
    /// Pieces not yet handed out.
    out: Vec<Piece>,
    /// Bytes to forward that follow `out`.
    tail: Vec<u8>,
}

impl View for SearchHitsScanner {
    type V = Scan;

    closed spec fn view(&self) -> Scan {
        Scan {
            phase: self.phase,
            level: self.level as nat,
            key_is_hits: self.key_is_hits,
            key: self.key_buf@,
            key_esc: self.key_esc,
            cursor: self.skip@,
            elem: self.elem@,
        }
    }
}

impl SearchHitsScanner {
    /// What waits to be handed out.
    pub closed spec fn waiting(&self) -> Seq<Out> {
        flat(self.out@) + verbatim(self.tail@)
    }

    /// Nothing waits to be handed out.
    pub closed spec fn drained(&self) -> bool {
        self.out@.len() == 0 && self.tail@.len() == 0
    }

    /// A scanner before the first byte.
    pub fn new() -> (r: Self)
        ensures
            r@ == Scan::start(),
            r.drained(),
    {
        SearchHitsScanner {
            phase: Phase::SeekRoot,
            level: 0,
            key_is_hits: false,
            key_buf: Vec::new(),
            key_esc: false,
            skip: Skip { depth: 0, in_str: false, esc: false },
            elem: Vec::new(),
            out: Vec::new(),
            tail: Vec::new(),
        }
    }

    /// How many brackets are open in the value being skipped or framed.
    pub fn nesting(&self) -> (r: u64)
        ensures
            r == self@.cursor.depth,
    {
        self.skip.depth
    }

    /// Reads one chunk and hands out what it settles.
    pub fn feed(&mut self, chunk: &[u8]) -> (r: Vec<Piece>)
        requires
            old(self).drained(),
            old(self)@.cursor.depth + chunk@.len() <= u64::MAX,
        ensures
            final(self).drained(),
            final(self)@ == old(self)@.run(chunk@),
            flat(r@) == old(self)@.output(chunk@),
    {
        let mut i: usize = 0;
        while i < chunk.len()
            invariant
                0 <= i <= chunk@.len(),
                old(self)@.cursor.depth + chunk@.len() <= u64::MAX,
                self@ == old(self)@.run(chunk@.take(i as int)),
                self.waiting() == old(self)@.output(chunk@.take(i as int)),
                self@.cursor.depth <= old(self)@.cursor.depth + i,
            decreases chunk@.len() - i,
        {
            let ghost before = chunk@.take(i as int);
            assert(chunk@.take(i + 1).drop_last() =~= before);
            self.step(chunk[i]);
            i += 1;
        }
        assert(chunk@.take(i as int) =~= chunk@);
        self.flush_tail();
        let mut pieces: Vec<Piece> = Vec::new();
        std::mem::swap(&mut pieces, &mut self.out);
        pieces
    }

    /// Ends the stream: hands out what still waits, which is nothing once each chunk has
    /// been fed. An element that was cut off is dropped, never forwarded unshaped.
    pub fn finish(self) -> (r: Vec<Piece>)
        ensures
            flat(r@) == self.waiting(),
            self.drained() ==> r@.len() == 0,
    {
        if self.tail.len() == 0 {
            assert(verbatim(self.tail@) =~= Seq::empty());
            assert(flat(self.out@) =~= self.waiting());
            self.out
        } else {
            let mut rest = self;
            rest.flush_tail();
            assert(verbatim(rest.tail@) =~= Seq::empty());
            assert(flat(rest.out@) =~= rest.waiting());
            rest.out
        }
    }

    fn push(&mut self, b: u8)
        ensures
            final(self)@ == old(self)@,
            final(self).waiting() == old(self).waiting().push(Out::Byte(b)),
    {
        self.tail.push(b);
        assert(self.waiting() =~= old(self).waiting().push(Out::Byte(b)));
    }

    fn flush_tail(&mut self)
        ensures
            final(self)@ == old(self)@,
            final(self).waiting() == old(self).waiting(),
            final(self).tail@.len() == 0,
    {
        if self.tail.len() > 0 {
            let mut tail: Vec<u8> = Vec::new();
            std::mem::swap(&mut tail, &mut self.tail);
            self.out.push(Piece::Verbatim(tail));
            assert(self.out@.drop_last() =~= old(self).out@);
            assert(self.waiting() =~= old(self).waiting());
        }
    }

    fn finish_elem(&mut self)
        ensures
            final(self)@ == (Scan { elem: Seq::empty(), ..old(self)@ }),
            final(self).waiting() == old(self).waiting().push(Out::Hit(old(self)@.elem)),
    {
        self.flush_tail();
        let mut raw: Vec<u8> = Vec::new();
        std::mem::swap(&mut raw, &mut self.elem);
        let ghost before = self.out@;
        self.out.push(Piece::Hit(raw));
        assert(self.out@.drop_last() =~= before);
        assert(self.waiting() =~= old(self).waiting().push(Out::Hit(old(self)@.elem)));
    }

    fn step(&mut self, b: u8)
        requires
            old(self)@.cursor.depth < u64::MAX,
        ensures
            final(self)@ == old(self)@.advance(b),
            final(self).waiting() == old(self).waiting() + old(self)@.emit(b),
            final(self)@.cursor.depth <= old(self)@.cursor.depth + 1,
    {
        match self.phase {
            Phase::SeekRoot => self.at_seek_root(b),
            Phase::ObjExpectKey => self.at_obj_expect_key(b),
            Phase::ObjReadKey => self.at_obj_read_key(b),
            Phase::ObjExpectColon => self.at_obj_expect_colon(b),
            Phase::ObjExpectValue => self.at_obj_expect_value(b),
            Phase::SkipValue => self.at_skip_value(b),
            Phase::ObjExpectComma => self.at_obj_expect_comma(b),
            Phase::ArrExpectElem => self.at_arr_expect_elem(b),
            Phase::ArrReadElem => self.read_elem(b),
            Phase::ArrExpectComma => self.at_arr_expect_comma(b),
            Phase::Passthrough => self.push(b),
        }
        assert(old(self).waiting().push(Out::Byte(b)) =~= old(self).waiting() + seq![Out::Byte(b)]);
        assert(old(self).waiting() =~= old(self).waiting() + Seq::empty());
    }

    fn at_seek_root(&mut self, b: u8)
        requires
            old(self)@.phase is SeekRoot,
        ensures
            final(self)@ == old(self)@.advance(b),
            final(self).waiting() == old(self).waiting().push(Out::Byte(b)),
    {
        self.push(b);
        if b == 0x7b {
            self.level = 1;
            self.phase = Phase::ObjExpectKey;
        } else if !is_ws(b) {
            self.phase = Phase::Passthrough;
        }
    }

    fn at_obj_expect_key(&mut self, b: u8)
        requires
            old(self)@.phase is ObjExpectKey,
        ensures
            final(self)@ == old(self)@.advance(b),
            final(self).waiting() == old(self).waiting().push(Out::Byte(b)),
    {
        self.push(b);
        if b == 0x22 {
            self.key_buf.clear();
            self.key_esc = false;
            self.phase = Phase::ObjReadKey;
        } else if !is_ws(b) {
            self.phase = Phase::Passthrough;
        }
    }

    fn at_obj_read_key(&mut self, b: u8)
        requires
            old(self)@.phase is ObjReadKey,
        ensures
            final(self)@ == old(self)@.advance(b),
            final(self).waiting() == old(self).waiting().push(Out::Byte(b)),
    {
        self.push(b);
        if self.key_esc {
            self.key_esc = false;
            self.key_buf.push(b);
        } else if b == 0x5c {
            self.key_esc = true;
            self.key_buf.push(b);
        } else if b == 0x22 {
            self.key_is_hits = decoded_key_is_hits(&self.key_buf);
            self.phase = Phase::ObjExpectColon;
        } else {
            self.key_buf.push(b);
        }
    }

    fn at_obj_expect_colon(&mut self, b: u8)
        requires
            old(self)@.phase is ObjExpectColon,
        ensures
            final(self)@ == old(self)@.advance(b),
            final(self).waiting() == old(self).waiting().push(Out::Byte(b)),
    {
        self.push(b);
        if b == 0x3a {
            self.phase = Phase::ObjExpectValue;
        } else if !is_ws(b) {
            self.phase = Phase::Passthrough;
        }
    }

    fn at_obj_expect_value(&mut self, b: u8)
        requires
            old(self)@.phase is ObjExpectValue,
        ensures
            final(self)@ == old(self)@.advance(b),
            final(self).waiting() == old(self).waiting().push(Out::Byte(b)),
            final(self)@.cursor.depth <= old(self)@.cursor.depth + 1,
    {
        self.push(b);
        if is_ws(b) {
            return;
        }
        if self.key_is_hits {
            match (self.level, b) {
                (1, 0x7b) => {
                    self.level = 2;
                    self.phase = Phase::ObjExpectKey;
                },
                (2, 0x5b) => {
                    self.phase = Phase::ArrExpectElem;
                },
                _ => {
                    self.phase = Phase::Passthrough;
                },
            }
        } else {
            self.skip = Skip::begin(b);
            self.phase = Phase::SkipValue;
        }
    }

    fn at_skip_value(&mut self, b: u8)
        requires
            old(self)@.phase is SkipValue,
            old(self)@.cursor.depth < u64::MAX,
        ensures
            final(self)@ == old(self)@.advance(b),
            final(self).waiting() == old(self).waiting().push(Out::Byte(b)),
            final(self)@.cursor.depth <= old(self)@.cursor.depth + 1,
    {
        if self.skip.closed() {
            // A bare scalar ends at a delimiter, which belongs to the object.
            if is_ws(b) || b == 0x2c || b == 0x7d {
                self.phase = Phase::ObjExpectComma;
                self.at_obj_expect_comma(b);
            } else {
                self.push(b);
            }
        } else {
            self.push(b);
            self.skip.next(b);
            if self.skip.closed() {
                self.phase = Phase::ObjExpectComma;
            }
        }
    }

    fn at_obj_expect_comma(&mut self, b: u8)
        requires
            old(self)@.phase is ObjExpectComma,
        ensures
            final(self)@ == old(self)@.after_member(b),
            final(self).waiting() == old(self).waiting().push(Out::Byte(b)),
    {
        self.push(b);
        if b == 0x2c {
            self.phase = Phase::ObjExpectKey;
        } else if !is_ws(b) {
            self.phase = Phase::Passthrough;
        }
    }

    fn at_arr_expect_elem(&mut self, b: u8)
        requires
            old(self)@.phase is ArrExpectElem,
        ensures
            final(self)@ == old(self)@.advance(b),
            final(self).waiting() == old(self).waiting() + old(self)@.emit(b),
            final(self)@.cursor.depth <= old(self)@.cursor.depth + 1,
    {
        if is_ws(b) {
            self.push(b);
        } else if b == 0x5d {
            self.push(b);
            self.phase = Phase::Passthrough;
        } else {
            self.elem.clear();
            self.elem.push(b);
            assert(self.elem@ =~= seq![b]);
            self.skip = Skip::begin(b);
            self.phase = Phase::ArrReadElem;
        }
        assert(old(self).waiting().push(Out::Byte(b)) =~= old(self).waiting() + seq![Out::Byte(b)]);
        assert(old(self).waiting() =~= old(self).waiting() + Seq::empty());
    }

    /// Frames one element; a bare scalar's delimiter belongs to the array.
    fn read_elem(&mut self, b: u8)
        requires
            old(self)@.phase is ArrReadElem,
            old(self)@.cursor.depth < u64::MAX,
        ensures
            final(self)@ == old(self)@.advance(b),
            final(self).waiting() == old(self).waiting() + old(self)@.emit(b),
            final(self)@.cursor.depth <= old(self)@.cursor.depth + 1,
    {
        if self.skip.closed() {
            if is_ws(b) || b == 0x2c || b == 0x5d {
                self.finish_elem();
                self.phase = Phase::ArrExpectComma;
                self.at_arr_expect_comma(b);
            } else {
                self.elem.push(b);
            }
        } else {
            self.elem.push(b);
            self.skip.next(b);
            if self.skip.closed() {
                self.finish_elem();
                self.phase = Phase::ArrExpectComma;
            }
        }
        proof {
            let w = old(self).waiting();
            let e = old(self)@.elem;
            assert(w.push(Out::Hit(e)).push(Out::Byte(b)) =~= w + seq![Out::Hit(e), Out::Byte(b)]);
            assert(w.push(Out::Hit(e.push(b))) =~= w + seq![Out::Hit(e.push(b))]);
            assert(w =~= w + Seq::empty());
        }
    }

    fn at_arr_expect_comma(&mut self, b: u8)
        requires
            old(self)@.phase is ArrExpectComma,
        ensures
            final(self)@ == old(self)@.after_elem(b),
            final(self).waiting() == old(self).waiting().push(Out::Byte(b)),
    {
        self.push(b);
        if b == 0x2c {
            self.phase = Phase::ArrExpectElem;
        } else if !is_ws(b) {
            self.phase = Phase::Passthrough;
        }
    }
}

/// How framed hits are brought into their client's view.
#[derive(Debug)]
pub struct HitShaper {
    /// The index name the client knows.
    pub logical_index: String,
    /// The injected names to strip and the id rule to invert.
    pub shape: ReadShape,
}

impl HitShaper {
    /// A framed hit as its client knows it. Bytes that are no JSON text stay.
    pub open spec fn shaped(self, raw: Seq<u8>, mapped: Option<Seq<char>>) -> Seq<u8> {
        match json::parsed(raw) {
            Some(t) => json::written(
                hit_view(
                    t,
                    self.logical_index@,
                    self.shape.id_rule is Some,
                    mapped,
                    views(self.shape.inject_names@),
                ),
            ),
            None => raw,
        }
    }

    /// The bytes to send for what the scanner gave out, each hit shaped with the
    /// logical id at its position among the hits.
    pub open spec fn assembled(self, out: Seq<Out>, mapped: Seq<Option<Seq<char>>>) -> Seq<u8>
        decreases out.len(),
    {
        if out.len() == 0 {
            Seq::empty()
        } else {
            self.assembled(out.drop_last(), mapped) + match out.last() {
                Out::Byte(b) => seq![b],
                Out::Hit(raw) => self.shaped(raw, mapped_at(mapped, hit_count(out.drop_last()))),
            }
        }
    }

    /// Shapes one framed hit. `mapped` is the logical id the id rule gives for it.
    pub fn transform(&self, raw: &[u8], mapped: &Option<String>) -> (r: Vec<u8>)
        ensures
            r@ == self.shaped(raw@, opt(*mapped)),
    {
        match json::parse(raw) {
            Some(hit) => match json::print(
                &shape_hit(hit, self.logical_index.as_str(), &self.shape, mapped),
            ) {
                Some(body) => body,
                None => clone_bytes(raw),
            },
            None => clone_bytes(raw),
        }
    }

    /// Joins pieces into the bytes to send. `mapped` holds, hit by hit, the logical
    /// id the id rule gives.
    pub fn assemble(&self, pieces: &[Piece], mapped: &[Option<String>]) -> (r: Vec<u8>)
        ensures
            r@ == self.assembled(flat(pieces@), opts(mapped@)),
    {
        let absent: Option<String> = None;
        let mut body: Vec<u8> = Vec::new();
        let mut hits: usize = 0;
        let mut i: usize = 0;
        assert(flat(pieces@.take(0)) =~= Seq::empty());
        while i < pieces.len()
            invariant
                absent is None,
                0 <= i <= pieces@.len(),
                hits <= i,
                hits == hit_count(flat(pieces@.take(i as int))),
                body@ == self.assembled(flat(pieces@.take(i as int)), opts(mapped@)),
            decreases pieces@.len() - i,
        {
            let ghost done = flat(pieces@.take(i as int));
            assert(pieces@.take(i + 1).drop_last() =~= pieces@.take(i as int));
            match &pieces[i] {
                Piece::Verbatim(bytes) => {
                    let ghost before = body@;
                    body.extend_from_slice(bytes.as_slice());
                    proof {
                        assert(body@ =~= before + bytes@);
                        lemma_verbatim_assembled(*self, done, bytes@, opts(mapped@));
                    }
                },
                Piece::Hit(raw) => {
                    let logical = if hits < mapped.len() {
                        &mapped[hits]
                    } else {
                        &absent
                    };
                    let shaped = self.transform(raw.as_slice(), logical);
                    let ghost before = body@;
                    body.extend_from_slice(shaped.as_slice());
                    hits += 1;
                    proof {
                        assert(body@ =~= before + shaped@);
                        let grown = done + seq![Out::Hit(raw@)];
                        assert(grown.drop_last() =~= done);
                    }
                },
            }
            i += 1;
        }
        assert(pieces@.take(i as int) =~= pieces@);
        body
    }
}

/// How many hits were given out.
pub open spec fn hit_count(out: Seq<Out>) -> int
    decreases out.len(),
{
    if out.len() == 0 {
        0
    } else {
        hit_count(out.drop_last()) + if out.last() is Hit {
            1int
        } else {
            0
        }
    }
}

pub proof fn lemma_verbatim_assembled(
    shaper: HitShaper,
    out: Seq<Out>,
    bytes: Seq<u8>,
    mapped: Seq<Option<Seq<char>>>,
)
    ensures
        hit_count(out + verbatim(bytes)) == hit_count(out),
        shaper.assembled(out + verbatim(bytes), mapped) == shaper.assembled(out, mapped) + bytes,
    decreases bytes.len(),
{
    if bytes.len() == 0 {
        assert(out + verbatim(bytes) =~= out);
        assert(shaper.assembled(out, mapped) + bytes =~= shaper.assembled(out, mapped));
    } else {
        let init = bytes.drop_last();
        lemma_verbatim_assembled(shaper, out, init, mapped);
        let whole = out + verbatim(bytes);
        assert(whole.drop_last() =~= out + verbatim(init));
        assert(whole.last() == Out::Byte(bytes.last()));
        assert(shaper.assembled(out, mapped) + init + seq![bytes.last()] =~= shaper.assembled(
            out,
            mapped,
        ) + bytes);
    }
}

/// The physical ids of the hits given out, where they are strings.
pub open spec fn piece_ids(out: Seq<Out>) -> Seq<Option<Seq<char>>>
    decreases out.len(),
{
    if out.len() == 0 {
        Seq::empty()
    } else {
        match out.last() {
            Out::Byte(_) => piece_ids(out.drop_last()),
            Out::Hit(raw) => piece_ids(out.drop_last()).push(
                match json::parsed(raw) {
                    Some(t) => json::text_of(json::field(t, "_id"@)),
                    None => None,
                },
            ),
        }
    }
}

pub proof fn lemma_verbatim_ids(out: Seq<Out>, bytes: Seq<u8>)
    ensures
        piece_ids(out + verbatim(bytes)) == piece_ids(out),
    decreases bytes.len(),
{
    if bytes.len() == 0 {
        assert(out + verbatim(bytes) =~= out);
    } else {
        let init = bytes.drop_last();
        lemma_verbatim_ids(out, init);
        let whole = out + verbatim(bytes);
        assert(whole.drop_last() =~= out + verbatim(init));
        assert(whole.last() == Out::Byte(bytes.last()));
    }
}

/// The physical id of each hit among the pieces, in order: what the id rule is to
/// map before [`HitShaper::assemble`].
pub fn ids_of(pieces: &[Piece]) -> (r: Vec<Option<String>>)
    ensures
        opts(r@) == piece_ids(flat(pieces@)),
{
    let mut ids: Vec<Option<String>> = Vec::new();
    let mut i: usize = 0;
    assert(opts(ids@) =~= piece_ids(flat(pieces@.take(0))));
    while i < pieces.len()
        invariant
            0 <= i <= pieces@.len(),
            opts(ids@) == piece_ids(
                flat(pieces@.take(i as int)),
            ),
        decreases pieces@.len() - i,
    {
        let ghost done = flat(pieces@.take(i as int));
        assert(pieces@.take(i + 1).drop_last() =~= pieces@.take(i as int));
        match &pieces[i] {
            Piece::Verbatim(bytes) => {
                proof {
                    lemma_verbatim_ids(done, bytes@);
                }
            },
            Piece::Hit(raw) => {
                let id = match json::parse(raw.as_slice()) {
                    Some(hit) => match json::field_text(&hit, "_id") {
                        Some(id) => Some(id.to_owned()),
                        None => None,
                    },
                    None => None,
                };
                let ghost before = ids@;
                ids.push(id);
                proof {
                    let grown = done + seq![Out::Hit(raw@)];
                    assert(grown.drop_last() =~= done);
                    assert(opts(ids@) =~= opts(before).push(opt(id)));
                }
            },
        }
        i += 1;
    }
    assert(pieces@.take(i as int) =~= pieces@);
    ids
}

} // verus!
