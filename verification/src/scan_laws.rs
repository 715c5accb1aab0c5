//! What the streaming scanner guarantees, whatever the response and however it is
//! cut into chunks.

use crate::search_scan::{blank, is_hits_key, verbatim, Cursor, Out, Phase, Scan};
use vstd::prelude::*;

verus! {

/// Reading `a` and then `b` is reading `a + b`: chunk boundaries change neither the
/// state nor what is given out.
pub proof fn law_chunks_do_not_matter(s: Scan, a: Seq<u8>, b: Seq<u8>)
    ensures
        s.run(a + b) == s.run(a).run(b),
        s.output(a + b) == s.output(a) + s.run(a).output(b),
    decreases b.len(),
{
    if b.len() == 0 {
        assert(a + b =~= a);
        assert(s.output(a) + s.run(a).output(b) =~= s.output(a));
    } else {
        law_chunks_do_not_matter(s, a, b.drop_last());
        assert((a + b).drop_last() =~= a + b.drop_last());
        assert((a + b).last() == b.last());
        let last = s.run(a + b.drop_last()).emit(b.last());
        assert(s.output(a) + s.run(a).output(b.drop_last()) + last =~= s.output(a) + (s.run(
            a,
        ).output(b.drop_last()) + last));
    }
}

/// The bytes that were read for what was given out.
pub open spec fn source(out: Seq<Out>) -> Seq<u8>
    decreases out.len(),
{
    if out.len() == 0 {
        Seq::empty()
    } else {
        source(out.drop_last()) + match out.last() {
            Out::Byte(b) => seq![b],
            Out::Hit(raw) => raw,
        }
    }
}

/// The bytes read but not yet given out: those of the element being framed.
pub open spec fn pending(s: Scan) -> Seq<u8> {
    if s.phase is ArrReadElem {
        s.elem
    } else {
        Seq::empty()
    }
}

pub proof fn lemma_source_concat(a: Seq<Out>, b: Seq<Out>)
    ensures
        source(a + b) == source(a) + source(b),
    decreases b.len(),
{
    if b.len() == 0 {
        assert(a + b =~= a);
        assert(source(a) + source(b) =~= source(a));
    } else {
        lemma_source_concat(a, b.drop_last());
        assert((a + b).drop_last() =~= a + b.drop_last());
        assert((a + b).last() == b.last());
        assert(source(a + b) =~= source(a) + source(b));
    }
}

proof fn lemma_source_emit(s: Scan, b: u8)
    ensures
        pending(s).push(b) == source(s.emit(b)) + pending(s.advance(b)),
{
    reveal_with_fuel(source, 3);
    let e = s.emit(b);
    if e.len() == 1 {
        assert(e.drop_last() =~= Seq::empty());
    } else if e.len() == 2 {
        assert(e.drop_last() =~= seq![e[0]]);
        assert(e.drop_last().drop_last() =~= Seq::empty());
    }
    assert(pending(s).push(b) =~= source(s.emit(b)) + pending(s.advance(b)));
}

/// Nothing is lost, doubled or reordered: what was given out, with each framed
/// element as it was read, and the element being framed are the response so far.
pub proof fn law_every_byte_is_kept(bytes: Seq<u8>)
    ensures
        source(Scan::start().output(bytes)) + pending(Scan::start().run(bytes)) == bytes,
    decreases bytes.len(),
{
    let s = Scan::start();
    if bytes.len() == 0 {
        assert(source(s.output(bytes)) + pending(s.run(bytes)) =~= bytes);
    } else {
        let init = bytes.drop_last();
        let at = s.run(init);
        let b = bytes.last();
        law_every_byte_is_kept(init);
        lemma_source_emit(at, b);
        lemma_source_concat(s.output(init), at.emit(b));
        assert(source(s.output(bytes)) + pending(s.run(bytes)) =~= source(s.output(init)) + (source(
            at.emit(b),
        ) + pending(at.advance(b))));
        assert(source(s.output(init)) + pending(at).push(b) =~= (source(s.output(init)) + pending(
            at,
        )).push(b));
        assert(init.push(b) =~= bytes);
    }
}

/// The cursor after all of a value's bytes.
pub open spec fn cursor_after(raw: Seq<u8>) -> Cursor
    decreases raw.len(),
{
    if raw.len() <= 1 {
        Cursor::begin(raw[0])
    } else {
        cursor_after(raw.drop_last()).next(raw.last())
    }
}

/// `,`, whitespace, or the bracket `close` that ends the container.
pub open spec fn delimits(b: u8, close: u8) -> bool {
    blank(b) || b == 0x2cu8 || b == close
}

/// A bare scalar: no delimiter of its container after the first byte.
pub open spec fn scalar_text(raw: Seq<u8>, close: u8) -> bool {
    &&& raw.len() > 0
    &&& Cursor::begin(raw[0]).closed()
    &&& forall|i: int| 0 < i < raw.len() ==> !delimits(#[trigger] raw[i], close)
}

/// A string, an object or an array: its last byte is the first at which nothing
/// is open.
pub open spec fn nested_text(raw: Seq<u8>) -> bool {
    &&& raw.len() > 1
    &&& cursor_after(raw).closed()
    &&& forall|n: int| 0 < n < raw.len() ==> !cursor_after(#[trigger] raw.take(n)).closed()
}

/// One whole JSON value, as far as brackets, strings and delimiters tell.
pub open spec fn value_text(raw: Seq<u8>, close: u8) -> bool {
    scalar_text(raw, close) || nested_text(raw)
}

/// The element being framed is a proper start of a value.
spec fn framing(s: Scan) -> bool {
    s.phase is ArrReadElem ==> {
        &&& s.elem.len() > 0
        &&& s.cursor == cursor_after(s.elem)
        &&& s.cursor.closed() ==> scalar_text(s.elem, 0x5d)
        &&& !s.cursor.closed() ==> forall|n: int|
            0 < n <= s.elem.len() ==> !cursor_after(#[trigger] s.elem.take(n)).closed()
    }
}

proof fn lemma_framing_step(s: Scan, b: u8)
    requires
        framing(s),
    ensures
        framing(s.advance(b)),
        forall|i: int|
            0 <= i < s.emit(b).len() ==> (#[trigger] s.emit(b)[i] matches Out::Hit(raw)
                ==> value_text(raw, 0x5d)),
{
    let t = s.advance(b);
    if s.phase is ArrExpectElem && t.phase is ArrReadElem {
        assert(t.elem.take(1) =~= t.elem);
    } else if s.phase is ArrReadElem {
        let grown = s.elem.push(b);
        assert(grown.drop_last() =~= s.elem);
        assert forall|n: int| 0 < n <= s.elem.len() implies #[trigger] grown.take(n) == s.elem.take(
            n,
        ) by {
            assert(grown.take(n) =~= s.elem.take(n));
        }
        assert(grown.take(grown.len() as int) =~= grown);
    }
}

/// Only whole values are framed: an element is never cut short and never runs into
/// what follows it.
pub proof fn law_hits_are_whole_values(bytes: Seq<u8>)
    ensures
        forall|i: int|
            0 <= i < Scan::start().output(bytes).len() ==> (#[trigger] Scan::start().output(
                bytes,
            )[i] matches Out::Hit(raw) ==> value_text(raw, 0x5d)),
{
    lemma_framing_run(bytes);
}

proof fn lemma_framing_run(bytes: Seq<u8>)
    ensures
        framing(Scan::start().run(bytes)),
        forall|i: int|
            0 <= i < Scan::start().output(bytes).len() ==> (#[trigger] Scan::start().output(
                bytes,
            )[i] matches Out::Hit(raw) ==> value_text(raw, 0x5d)),
    decreases bytes.len(),
{
    if bytes.len() > 0 {
        let init = bytes.drop_last();
        lemma_framing_run(init);
        lemma_framing_step(Scan::start().run(init), bytes.last());
        let a = Scan::start().output(init);
        let e = Scan::start().run(init).emit(bytes.last());
        assert forall|i: int| 0 <= i < (a + e).len() implies (#[trigger] (a + e)[i] matches Out::Hit(
            raw,
        ) ==> value_text(raw, 0x5d)) by {
            if i < a.len() {
                assert((a + e)[i] == a[i]);
            } else {
                assert((a + e)[i] == e[i - a.len()]);
            }
        }
    }
}

/// A member of an object as it stands in the text.
pub ghost struct Member {
    pub before_key: Seq<u8>,
    /// Between the quotes, escapes intact.
    pub key: Seq<u8>,
    pub before_colon: Seq<u8>,
    pub before_value: Seq<u8>,
    pub value: Seq<u8>,
    pub after: Seq<u8>,
}

/// An element of an array as it stands in the text.
pub ghost struct Element {
    pub before: Seq<u8>,
    pub value: Seq<u8>,
    pub after: Seq<u8>,
}

pub open spec fn all_blank(ws: Seq<u8>) -> bool {
    forall|i: int| 0 <= i < ws.len() ==> blank(#[trigger] ws[i])
}

/// Whether a backslash is waiting for the byte it escapes.
pub open spec fn escaping(key: Seq<u8>) -> bool
    decreases key.len(),
{
    key.len() > 0 && !escaping(key.drop_last()) && key.last() == 0x5cu8
}

/// What can stand between the quotes of a key.
pub open spec fn key_text(key: Seq<u8>) -> bool {
    &&& !escaping(key)
    &&& forall|i: int| 0 <= i < key.len() && #[trigger] key[i] == 0x22u8 ==> escaping(key.take(i))
}

impl Member {
    /// The text up to the value.
    pub open spec fn head(self) -> Seq<u8> {
        self.before_key + seq![0x22u8] + self.key + seq![0x22u8] + self.before_colon + seq![0x3au8]
            + self.before_value
    }

    /// The text with the comma that follows it.
    pub open spec fn text(self) -> Seq<u8> {
        self.head() + self.value + self.after + seq![0x2cu8]
    }

    pub open spec fn head_ok(self) -> bool {
        &&& all_blank(self.before_key)
        &&& key_text(self.key)
        &&& all_blank(self.before_colon)
        &&& all_blank(self.before_value)
    }

    /// A member with one whole value, named anything but `hits`.
    pub open spec fn is_sibling(self) -> bool {
        &&& self.head_ok()
        &&& !is_hits_key(self.key)
        &&& value_text(self.value, 0x7d)
        &&& !blank(self.value[0])
        &&& all_blank(self.after)
    }
}

impl Element {
    /// The text with the byte `end` that follows it.
    pub open spec fn text(self, end: u8) -> Seq<u8> {
        self.before + self.value + self.after + seq![end]
    }

    /// What is to be given out for that text.
    pub open spec fn shaped(self, end: u8) -> Seq<Out> {
        verbatim(self.before) + seq![Out::Hit(self.value)] + verbatim(self.after) + seq![
            Out::Byte(end),
        ]
    }

    pub open spec fn ok(self) -> bool {
        &&& all_blank(self.before)
        &&& value_text(self.value, 0x5d)
        &&& !blank(self.value[0])
        &&& self.value[0] != 0x5du8
        &&& all_blank(self.after)
    }
}

/// The members, each with the comma that follows it.
pub open spec fn members_text(ms: Seq<Member>) -> Seq<u8>
    decreases ms.len(),
{
    if ms.len() == 0 {
        Seq::empty()
    } else {
        members_text(ms.drop_last()) + ms.last().text()
    }
}

/// The elements, each with the comma that follows it.
pub open spec fn elements_text(es: Seq<Element>) -> Seq<u8>
    decreases es.len(),
{
    if es.len() == 0 {
        Seq::empty()
    } else {
        elements_text(es.drop_last()) + es.last().text(0x2c)
    }
}

/// What is to be given out for those elements.
pub open spec fn elements_shaped(es: Seq<Element>) -> Seq<Out>
    decreases es.len(),
{
    if es.len() == 0 {
        Seq::empty()
    } else {
        elements_shaped(es.drop_last()) + es.last().shaped(0x2c)
    }
}

/// `s` reads `text`, ends in `t` and gives out `out`.
spec fn goes(s: Scan, text: Seq<u8>, t: Scan, out: Seq<Out>) -> bool {
    s.run(text) == t && s.output(text) == out
}

proof fn lemma_then(
    s: Scan,
    a: Seq<u8>,
    t: Scan,
    o: Seq<Out>,
    b: Seq<u8>,
    u: Scan,
    p: Seq<Out>,
)
    requires
        goes(s, a, t, o),
        goes(t, b, u, p),
    ensures
        goes(s, a + b, u, o + p),
{
    law_chunks_do_not_matter(s, a, b);
}

proof fn lemma_verbatim_then(s: Scan, a: Seq<u8>, t: Scan, b: Seq<u8>, u: Scan)
    requires
        goes(s, a, t, verbatim(a)),
        goes(t, b, u, verbatim(b)),
    ensures
        goes(s, a + b, u, verbatim(a + b)),
{
    lemma_then(s, a, t, verbatim(a), b, u, verbatim(b));
    assert(verbatim(a) + verbatim(b) =~= verbatim(a + b));
}

proof fn lemma_byte(s: Scan, b: u8)
    ensures
        goes(s, seq![b], s.advance(b), s.emit(b)),
        seq![Out::Byte(b)] == verbatim(seq![b]),
{
    reveal_with_fuel(Scan::run, 2);
    reveal_with_fuel(Scan::output, 2);
    assert(seq![b].drop_last() =~= Seq::empty());
    assert(s.output(seq![b]) =~= s.emit(b));
    assert(seq![Out::Byte(b)] =~= verbatim(seq![b]));
}

proof fn lemma_blanks(s: Scan, ws: Seq<u8>)
    requires
        all_blank(ws),
        s.phase is SeekRoot || s.phase is ObjExpectKey || s.phase is ObjExpectColon
            || s.phase is ObjExpectValue || s.phase is ObjExpectComma || s.phase is ArrExpectElem || s.phase is ArrExpectComma,
    ensures
        goes(s, ws, s, verbatim(ws)),
    decreases ws.len(),
{
    if ws.len() == 0 {
        assert(verbatim(ws) =~= Seq::empty());
    } else {
        lemma_blanks(s, ws.drop_last());
        assert(blank(ws[ws.len() - 1]));
        assert(verbatim(ws) =~= verbatim(ws.drop_last()) + seq![Out::Byte(ws.last())]);
    }
}

proof fn lemma_key(s: Scan, key: Seq<u8>)
    requires
        s.phase is ObjReadKey,
        s.key.len() == 0,
        !s.key_esc,
        forall|i: int| 0 <= i < key.len() && #[trigger] key[i] == 0x22u8 ==> escaping(key.take(i)),
    ensures
        goes(s, key, Scan { key, key_esc: escaping(key), ..s }, verbatim(key)),
    decreases key.len(),
{
    if key.len() == 0 {
        assert(verbatim(key) =~= Seq::empty());
        assert(s.key =~= key);
    } else {
        let init = key.drop_last();
        assert forall|i: int| 0 <= i < init.len() && #[trigger] init[i] == 0x22u8 implies escaping(
            init.take(i),
        ) by {
            assert(key[i] == init[i]);
            assert(key.take(i) =~= init.take(i));
        }
        lemma_key(s, init);
        assert(init.push(key.last()) =~= key);
        assert(key.take(key.len() - 1) =~= init);
        assert(key[key.len() - 1] == key.last());
        assert(verbatim(key) =~= verbatim(init) + seq![Out::Byte(key.last())]);
    }
}

/// From before a key to before its value.
proof fn lemma_head(s: Scan, m: Member)
    requires
        s.phase is ObjExpectKey,
        m.head_ok(),
    ensures
        s.output(m.head()) == verbatim(m.head()),
        s.run(m.head()).phase is ObjExpectValue,
        s.run(m.head()).level == s.level,
        s.run(m.head()).key_is_hits == is_hits_key(m.key),
{
    lemma_blanks(s, m.before_key);
    let t1 = s.advance(0x22);
    lemma_byte(s, 0x22);
    lemma_verbatim_then(s, m.before_key, s, seq![0x22u8], t1);
    lemma_key(t1, m.key);
    let t2 = Scan { key: m.key, key_esc: escaping(m.key), ..t1 };
    let x1 = m.before_key + seq![0x22u8];
    lemma_verbatim_then(s, x1, t1, m.key, t2);
    let t3 = t2.advance(0x22);
    lemma_byte(t2, 0x22);
    let x2 = x1 + m.key;
    lemma_verbatim_then(s, x2, t2, seq![0x22u8], t3);
    lemma_blanks(t3, m.before_colon);
    let x3 = x2 + seq![0x22u8];
    lemma_verbatim_then(s, x3, t3, m.before_colon, t3);
    let t4 = t3.advance(0x3a);
    lemma_byte(t3, 0x3a);
    let x4 = x3 + m.before_colon;
    lemma_verbatim_then(s, x4, t3, seq![0x3au8], t4);
    lemma_blanks(t4, m.before_value);
    let x5 = x4 + seq![0x3au8];
    lemma_verbatim_then(s, x5, t4, m.before_value, t4);
}

/// A member value has been read, but for the delimiter of a bare scalar.
spec fn after_value(s: Scan) -> bool {
    s.phase is ObjExpectComma || (s.phase is SkipValue && s.cursor.closed())
}

proof fn lemma_skip_nested(s: Scan, value: Seq<u8>, n: int)
    requires
        s.phase is ObjExpectValue,
        !s.key_is_hits,
        nested_text(value),
        !blank(value[0]),
        0 < n <= value.len(),
    ensures
        goes(
            s,
            value.take(n),
            Scan { cursor: cursor_after(value.take(n)), ..s }.to(
                if n < value.len() {
                    Phase::SkipValue
                } else {
                    Phase::ObjExpectComma
                },
            ),
            verbatim(value.take(n)),
        ),
    decreases n,
{
    let text = value.take(n);
    if n == 1 {
        lemma_byte(s, value[0]);
        assert(text =~= seq![value[0]]);
        assert(!cursor_after(value.take(1)).closed());
    } else {
        lemma_skip_nested(s, value, n - 1);
        assert(text.drop_last() =~= value.take(n - 1));
        assert(!cursor_after(value.take(n - 1)).closed());
        assert(verbatim(text) =~= verbatim(text.drop_last()) + seq![Out::Byte(text.last())]);
        assert(value.take(value.len() as int) =~= value);
    }
}

proof fn lemma_skip_scalar(s: Scan, value: Seq<u8>)
    requires
        s.phase is ObjExpectValue,
        !s.key_is_hits,
        scalar_text(value, 0x7d),
        !blank(value[0]),
    ensures
        goes(
            s,
            value,
            Scan { cursor: Cursor::begin(value[0]), ..s }.to(Phase::SkipValue),
            verbatim(value),
        ),
    decreases value.len(),
{
    if value.len() == 1 {
        lemma_byte(s, value[0]);
        assert(value =~= seq![value[0]]);
    } else {
        let init = value.drop_last();
        assert forall|i: int| 0 < i < init.len() implies !delimits(#[trigger] init[i], 0x7d) by {
            assert(init[i] == value[i]);
        }
        lemma_skip_scalar(s, init);
        assert(!delimits(value[value.len() - 1], 0x7d));
        assert(verbatim(value) =~= verbatim(init) + seq![Out::Byte(value.last())]);
    }
}

proof fn lemma_value_blanks(s: Scan, ws: Seq<u8>)
    requires
        after_value(s),
        all_blank(ws),
    ensures
        s.output(ws) == verbatim(ws),
        after_value(s.run(ws)),
        s.run(ws).level == s.level,
    decreases ws.len(),
{
    if ws.len() == 0 {
        assert(verbatim(ws) =~= Seq::empty());
    } else {
        let init = ws.drop_last();
        lemma_value_blanks(s, init);
        assert(blank(ws[ws.len() - 1]));
        assert(verbatim(ws) =~= verbatim(init) + seq![Out::Byte(ws.last())]);
    }
}

proof fn lemma_after_value(s: Scan, ws: Seq<u8>)
    requires
        after_value(s),
        all_blank(ws),
    ensures
        s.output(ws + seq![0x2cu8]) == verbatim(ws + seq![0x2cu8]),
        s.run(ws + seq![0x2cu8]).phase is ObjExpectKey,
        s.run(ws + seq![0x2cu8]).level == s.level,
{
    lemma_value_blanks(s, ws);
    let t = s.run(ws);
    lemma_byte(t, 0x2c);
    lemma_verbatim_then(s, ws, t, seq![0x2cu8], t.advance(0x2c));
}

/// A value that is not to be looked into is forwarded.
proof fn lemma_skipped(s: Scan, value: Seq<u8>)
    requires
        s.phase is ObjExpectValue,
        !s.key_is_hits,
        value_text(value, 0x7d),
        !blank(value[0]),
    ensures
        goes(s, value, s.run(value), verbatim(value)),
        after_value(s.run(value)),
        s.run(value).level == s.level,
{
    if nested_text(value) {
        lemma_skip_nested(s, value, value.len() as int);
        assert(value.take(value.len() as int) =~= value);
    } else {
        lemma_skip_scalar(s, value);
    }
}

proof fn lemma_sibling(s: Scan, m: Member)
    requires
        s.phase is ObjExpectKey,
        m.is_sibling(),
    ensures
        s.output(m.text()) == verbatim(m.text()),
        s.run(m.text()).phase is ObjExpectKey,
        s.run(m.text()).level == s.level,
{
    lemma_head(s, m);
    let t = s.run(m.head());
    let u = t.run(m.value);
    lemma_skipped(t, m.value);
    lemma_verbatim_then(s, m.head(), t, m.value, u);
    lemma_after_value(u, m.after);
    let end = m.after + seq![0x2cu8];
    let v = u.run(end);
    lemma_verbatim_then(s, m.head() + m.value, u, end, v);
    assert(m.head() + m.value + end =~= m.text());
}

proof fn lemma_siblings(s: Scan, ms: Seq<Member>)
    requires
        s.phase is ObjExpectKey,
        forall|i: int| 0 <= i < ms.len() ==> (#[trigger] ms[i]).is_sibling(),
    ensures
        s.output(members_text(ms)) == verbatim(members_text(ms)),
        s.run(members_text(ms)).phase is ObjExpectKey,
        s.run(members_text(ms)).level == s.level,
    decreases ms.len(),
{
    if ms.len() == 0 {
        assert(verbatim(members_text(ms)) =~= Seq::empty());
    } else {
        let init = ms.drop_last();
        assert forall|i: int| 0 <= i < init.len() implies (#[trigger] init[i]).is_sibling() by {
            assert(init[i] == ms[i]);
        }
        lemma_siblings(s, init);
        let t = s.run(members_text(init));
        assert(ms[ms.len() - 1].is_sibling());
        lemma_sibling(t, ms.last());
        lemma_verbatim_then(
            s,
            members_text(init),
            t,
            ms.last().text(),
            t.run(ms.last().text()),
        );
    }
}

proof fn lemma_frame_nested(s: Scan, value: Seq<u8>, n: int)
    requires
        s.phase is ArrExpectElem,
        nested_text(value),
        !blank(value[0]),
        value[0] != 0x5du8,
        0 < n <= value.len(),
    ensures
        n < value.len() ==> goes(
            s,
            value.take(n),
            Scan {
                cursor: cursor_after(value.take(n)),
                elem: value.take(n),
                ..s.to(Phase::ArrReadElem)
            },
            Seq::empty(),
        ),
        n == value.len() ==> goes(
            s,
            value,
            Scan {
                cursor: cursor_after(value),
                elem: Seq::empty(),
                ..s.to(Phase::ArrExpectComma)
            },
            seq![Out::Hit(value)],
        ),
    decreases n,
{
    let text = value.take(n);
    if n == 1 {
        lemma_byte(s, value[0]);
        assert(text =~= seq![value[0]]);
    } else {
        lemma_frame_nested(s, value, n - 1);
        assert(text.drop_last() =~= value.take(n - 1));
        assert(!cursor_after(value.take(n - 1)).closed());
        assert(value.take(n - 1).push(text.last()) =~= text);
        assert(value.take(value.len() as int) =~= value);
        if n == value.len() {
            assert(text =~= value);
            assert(Seq::<Out>::empty() + seq![Out::Hit(value)] =~= seq![Out::Hit(value)]);
        } else {
            assert(!cursor_after(value.take(n)).closed());
            assert(Seq::<Out>::empty() + Seq::<Out>::empty() =~= Seq::<Out>::empty());
        }
    }
}

proof fn lemma_frame_scalar(s: Scan, value: Seq<u8>)
    requires
        s.phase is ArrExpectElem,
        scalar_text(value, 0x5d),
        !blank(value[0]),
        value[0] != 0x5du8,
    ensures
        goes(
            s,
            value,
            Scan {
                cursor: Cursor::begin(value[0]),
                elem: value,
                ..s.to(Phase::ArrReadElem)
            },
            Seq::empty(),
        ),
    decreases value.len(),
{
    if value.len() == 1 {
        lemma_byte(s, value[0]);
        assert(value =~= seq![value[0]]);
    } else {
        let init = value.drop_last();
        assert forall|i: int| 0 < i < init.len() implies !delimits(#[trigger] init[i], 0x5d) by {
            assert(init[i] == value[i]);
        }
        lemma_frame_scalar(s, init);
        assert(!delimits(value[value.len() - 1], 0x5d));
        assert(init.push(value.last()) =~= value);
        assert(Seq::<Out>::empty() + Seq::<Out>::empty() =~= Seq::<Out>::empty());
    }
}

spec fn after_array_item(end: u8) -> Phase {
    if end == 0x2cu8 {
        Phase::ArrExpectElem
    } else {
        Phase::Passthrough
    }
}

/// From after a nested element to past the byte that follows it.
proof fn lemma_element_end(s: Scan, after: Seq<u8>, end: u8)
    requires
        s.phase is ArrExpectComma,
        all_blank(after),
        end == 0x2cu8 || end == 0x5du8,
    ensures
        s.output(after + seq![end]) == verbatim(after + seq![end]),
        s.run(after + seq![end]).phase == after_array_item(end),
{
    lemma_blanks(s, after);
    lemma_byte(s, end);
    lemma_verbatim_then(s, after, s, seq![end], s.advance(end));
}

proof fn lemma_scalar_blanks(s: Scan, after: Seq<u8>)
    requires
        s.phase is ArrReadElem,
        s.cursor.closed(),
        all_blank(after),
        after.len() > 0,
    ensures
        s.output(after) == seq![Out::Hit(s.elem)] + verbatim(after),
        s.run(after).phase is ArrExpectComma,
    decreases after.len(),
{
    let b = after.last();
    assert(blank(after[after.len() - 1]));
    let h = seq![Out::Hit(s.elem)];
    if after.len() == 1 {
        assert(after =~= seq![b]);
        lemma_byte(s, b);
        assert(seq![Out::Hit(s.elem), Out::Byte(b)] =~= h + verbatim(after));
    } else {
        let init = after.drop_last();
        lemma_scalar_blanks(s, init);
        assert(h + verbatim(init) + seq![Out::Byte(b)] =~= h + verbatim(after));
    }
}

/// From after a bare scalar to past the byte that follows it.
proof fn lemma_scalar_end(s: Scan, after: Seq<u8>, end: u8)
    requires
        s.phase is ArrReadElem,
        s.cursor.closed(),
        all_blank(after),
        end == 0x2cu8 || end == 0x5du8,
    ensures
        s.output(after + seq![end]) == seq![Out::Hit(s.elem)] + verbatim(after + seq![end]),
        s.run(after + seq![end]).phase == after_array_item(end),
{
    let tail = after + seq![end];
    let h = seq![Out::Hit(s.elem)];
    if after.len() == 0 {
        assert(tail =~= seq![end]);
        lemma_byte(s, end);
        assert(seq![Out::Hit(s.elem), Out::Byte(end)] =~= h + verbatim(tail));
    } else {
        lemma_scalar_blanks(s, after);
        let t = s.run(after);
        lemma_byte(t, end);
        law_chunks_do_not_matter(s, after, seq![end]);
        assert(h + verbatim(after) + seq![Out::Byte(end)] =~= h + verbatim(tail));
    }
}

/// From the start of an element to past the byte that follows it.
proof fn lemma_framed(s: Scan, value: Seq<u8>, after: Seq<u8>, end: u8)
    requires
        s.phase is ArrExpectElem,
        value_text(value, 0x5d),
        !blank(value[0]),
        value[0] != 0x5du8,
        all_blank(after),
        end == 0x2cu8 || end == 0x5du8,
    ensures
        s.output(value + (after + seq![end])) == seq![Out::Hit(value)] + verbatim(after + seq![end]),
        s.run(value + (after + seq![end])).phase == after_array_item(end),
{
    let tail = after + seq![end];
    law_chunks_do_not_matter(s, value, tail);
    if nested_text(value) {
        lemma_frame_nested(s, value, value.len() as int);
        lemma_element_end(s.run(value), after, end);
    } else {
        lemma_frame_scalar(s, value);
        lemma_scalar_end(s.run(value), after, end);
        let rest = seq![Out::Hit(value)] + verbatim(tail);
        assert(Seq::<Out>::empty() + rest =~= rest);
    }
}

/// The text and the output of an element, put together differently.
proof fn lemma_element_parts(e: Element, end: u8)
    ensures
        e.before + (e.value + (e.after + seq![end])) == e.text(end),
        verbatim(e.before) + (seq![Out::Hit(e.value)] + verbatim(e.after + seq![end]))
            == e.shaped(end),
{
    assert(e.before + (e.value + (e.after + seq![end])) =~= e.text(end));
    assert(verbatim(e.after + seq![end]) =~= verbatim(e.after) + seq![Out::Byte(end)]);
    assert(verbatim(e.before) + (seq![Out::Hit(e.value)] + verbatim(e.after + seq![end]))
        =~= e.shaped(end));
}

proof fn lemma_element(s: Scan, e: Element, end: u8)
    requires
        s.phase is ArrExpectElem,
        e.ok(),
        end == 0x2cu8 || end == 0x5du8,
    ensures
        s.output(e.text(end)) == e.shaped(end),
        s.run(e.text(end)).phase == after_array_item(end),
{
    lemma_blanks(s, e.before);
    law_chunks_do_not_matter(s, e.before, e.value + (e.after + seq![end]));
    lemma_framed(s, e.value, e.after, end);
    lemma_element_parts(e, end);
}

proof fn lemma_elements(s: Scan, es: Seq<Element>)
    requires
        s.phase is ArrExpectElem,
        forall|i: int| 0 <= i < es.len() ==> (#[trigger] es[i]).ok(),
    ensures
        s.output(elements_text(es)) == elements_shaped(es),
        s.run(elements_text(es)).phase is ArrExpectElem,
    decreases es.len(),
{
    if es.len() > 0 {
        let init = es.drop_last();
        assert forall|i: int| 0 <= i < init.len() implies (#[trigger] init[i]).ok() by {
            assert(init[i] == es[i]);
        }
        lemma_elements(s, init);
        assert(es[es.len() - 1].ok());
        let t = s.run(elements_text(init));
        lemma_element(t, es.last(), 0x2c);
        law_chunks_do_not_matter(s, elements_text(init), es.last().text(0x2c));
    }
}

proof fn lemma_passthrough(s: Scan, bytes: Seq<u8>)
    requires
        s.phase is Passthrough,
    ensures
        goes(s, bytes, s, verbatim(bytes)),
    decreases bytes.len(),
{
    if bytes.len() == 0 {
        assert(verbatim(bytes) =~= Seq::empty());
    } else {
        lemma_passthrough(s, bytes.drop_last());
        assert(verbatim(bytes) =~= verbatim(bytes.drop_last()) + seq![Out::Byte(bytes.last())]);
    }
}

/// A response up to the `[` of the inner `hits` array: the root object's members
/// before `hits`, and the `hits` object's members before its own `hits`.
pub ghost struct Lead {
    /// The whitespace before the root object.
    pub before: Seq<u8>,
    pub siblings: Seq<Member>,
    pub hits: Member,
    pub inner_siblings: Seq<Member>,
    pub inner_hits: Member,
}

impl Lead {
    pub open spec fn ok(self) -> bool {
        &&& all_blank(self.before)
        &&& forall|i: int| 0 <= i < self.siblings.len() ==> (#[trigger] self.siblings[i]).is_sibling()
        &&& forall|i: int|
            0 <= i < self.inner_siblings.len() ==> (
            #[trigger] self.inner_siblings[i]).is_sibling()
        &&& self.hits.head_ok() && is_hits_key(self.hits.key)
        &&& self.inner_hits.head_ok() && is_hits_key(self.inner_hits.key)
    }

    /// The response up to the value of the root `hits`.
    pub open spec fn outer_text(self) -> Seq<u8> {
        self.before + seq![0x7bu8] + members_text(self.siblings) + self.hits.head()
    }

    /// The response up to the value of the inner `hits`.
    pub open spec fn inner_text(self) -> Seq<u8> {
        self.outer_text() + seq![0x7bu8] + members_text(self.inner_siblings)
            + self.inner_hits.head()
    }

    /// The response up to the first element.
    pub open spec fn text(self) -> Seq<u8> {
        self.inner_text() + seq![0x5bu8]
    }
}

/// The opening of the root object.
proof fn lemma_root(before: Seq<u8>)
    requires
        all_blank(before),
    ensures
        Scan::start().output(before + seq![0x7bu8]) == verbatim(before + seq![0x7bu8]),
        Scan::start().run(before + seq![0x7bu8]).phase is ObjExpectKey,
        Scan::start().run(before + seq![0x7bu8]).level == 1,
{
    let s = Scan::start();
    lemma_blanks(s, before);
    lemma_byte(s, 0x7b);
    lemma_verbatim_then(s, before, s, seq![0x7bu8], s.advance(0x7b));
}

/// The end of an object: the last member, or only whitespace, and the closing brace.
pub ghost enum Tail {
    Member(Member),
    Gap(Seq<u8>),
}

impl Tail {
    pub open spec fn ok(self) -> bool {
        match self {
            Tail::Member(m) => m.is_sibling(),
            Tail::Gap(ws) => all_blank(ws),
        }
    }

    pub open spec fn text(self) -> Seq<u8> {
        match self {
            Tail::Member(m) => m.head() + m.value + m.after + seq![0x7du8],
            Tail::Gap(ws) => ws + seq![0x7du8],
        }
    }
}

/// From the start of an object without a `hits` member everything is forwarded.
proof fn lemma_plain_object(s: Scan, ms: Seq<Member>, tail: Tail, rest: Seq<u8>)
    requires
        s.phase is ObjExpectKey,
        forall|i: int| 0 <= i < ms.len() ==> (#[trigger] ms[i]).is_sibling(),
        tail.ok(),
    ensures
        s.output(members_text(ms) + tail.text() + rest) == verbatim(
            members_text(ms) + tail.text() + rest,
        ),
{
    lemma_siblings(s, ms);
    let t = s.run(members_text(ms));
    let v = t.run(tail.text());
    assert(goes(t, tail.text(), v, verbatim(tail.text())) && v.phase is Passthrough) by {
        match tail {
            Tail::Gap(ws) => {
                lemma_blanks(t, ws);
                lemma_byte(t, 0x7d);
                lemma_verbatim_then(t, ws, t, seq![0x7du8], t.advance(0x7d));
            },
            Tail::Member(m) => {
                lemma_head(t, m);
                let a = t.run(m.head());
                lemma_skipped(a, m.value);
                let b = a.run(m.value);
                lemma_verbatim_then(t, m.head(), a, m.value, b);
                lemma_value_blanks(b, m.after);
                let c = b.run(m.after);
                lemma_verbatim_then(t, m.head() + m.value, b, m.after, c);
                lemma_byte(c, 0x7d);
                lemma_verbatim_then(
                    t,
                    m.head() + m.value + m.after,
                    c,
                    seq![0x7du8],
                    c.advance(0x7d),
                );
            },
        }
    }
    lemma_verbatim_then(s, members_text(ms), t, tail.text(), v);
    lemma_passthrough(v, rest);
    lemma_verbatim_then(s, members_text(ms) + tail.text(), v, rest, v);
}

proof fn lemma_outer(lead: Lead)
    requires
        lead.ok(),
    ensures
        Scan::start().output(lead.outer_text()) == verbatim(lead.outer_text()),
        Scan::start().run(lead.outer_text()).phase is ObjExpectValue,
        Scan::start().run(lead.outer_text()).level == 1,
        Scan::start().run(lead.outer_text()).key_is_hits,
{
    let s = Scan::start();
    let open = lead.before + seq![0x7bu8];
    lemma_root(lead.before);
    let t1 = s.run(open);
    lemma_siblings(t1, lead.siblings);
    let t2 = t1.run(members_text(lead.siblings));
    lemma_verbatim_then(s, open, t1, members_text(lead.siblings), t2);
    lemma_head(t2, lead.hits);
    lemma_verbatim_then(
        s,
        open + members_text(lead.siblings),
        t2,
        lead.hits.head(),
        t2.run(lead.hits.head()),
    );
}

proof fn lemma_inner(lead: Lead)
    requires
        lead.ok(),
    ensures
        Scan::start().output(lead.inner_text()) == verbatim(lead.inner_text()),
        Scan::start().run(lead.inner_text()).phase is ObjExpectValue,
        Scan::start().run(lead.inner_text()).level == 2,
        Scan::start().run(lead.inner_text()).key_is_hits,
{
    let s = Scan::start();
    lemma_outer(lead);
    let t1 = s.run(lead.outer_text());
    lemma_byte(t1, 0x7b);
    let t2 = t1.advance(0x7b);
    let x1 = lead.outer_text() + seq![0x7bu8];
    lemma_verbatim_then(s, lead.outer_text(), t1, seq![0x7bu8], t2);
    lemma_siblings(t2, lead.inner_siblings);
    let t3 = t2.run(members_text(lead.inner_siblings));
    lemma_verbatim_then(s, x1, t2, members_text(lead.inner_siblings), t3);
    lemma_head(t3, lead.inner_hits);
    let x2 = x1 + members_text(lead.inner_siblings);
    let t4 = t3.run(lead.inner_hits.head());
    lemma_verbatim_then(s, x2, t3, lead.inner_hits.head(), t4);
}

proof fn lemma_lead(lead: Lead)
    requires
        lead.ok(),
    ensures
        Scan::start().output(lead.text()) == verbatim(lead.text()),
        Scan::start().run(lead.text()).phase is ArrExpectElem,
{
    let s = Scan::start();
    lemma_inner(lead);
    let t = s.run(lead.inner_text());
    lemma_byte(t, 0x5b);
    lemma_verbatim_then(s, lead.inner_text(), t, seq![0x5bu8], t.advance(0x5b));
}

/// In a response whose root `hits` object has a `hits` array, each element of that
/// array is handed out framed, in order, and everything else (what comes before,
/// the separators, what comes after) is forwarded verbatim.
pub proof fn law_inner_hits_are_framed(
    lead: Lead,
    elements: Seq<Element>,
    last: Element,
    rest: Seq<u8>,
)
    requires
        lead.ok(),
        forall|i: int| 0 <= i < elements.len() ==> (#[trigger] elements[i]).ok(),
        last.ok(),
    ensures
        Scan::start().output(lead.text() + elements_text(elements) + last.text(0x5d) + rest)
            == verbatim(lead.text()) + elements_shaped(elements) + last.shaped(0x5d) + verbatim(
            rest,
        ),
{
    let s = Scan::start();
    lemma_lead(lead);
    let t1 = s.run(lead.text());
    lemma_elements(t1, elements);
    law_chunks_do_not_matter(s, lead.text(), elements_text(elements));
    let x1 = lead.text() + elements_text(elements);
    let t2 = s.run(x1);
    lemma_element(t2, last, 0x5d);
    law_chunks_do_not_matter(s, x1, last.text(0x5d));
    let x2 = x1 + last.text(0x5d);
    lemma_passthrough(s.run(x2), rest);
    law_chunks_do_not_matter(s, x2, rest);
}

/// An empty inner `hits` array: the whole response is forwarded verbatim.
pub proof fn law_no_hits_are_forwarded(lead: Lead, gap: Seq<u8>, rest: Seq<u8>)
    requires
        lead.ok(),
        all_blank(gap),
    ensures
        Scan::start().output(lead.text() + gap + seq![0x5du8] + rest) == verbatim(
            lead.text() + gap + seq![0x5du8] + rest,
        ),
{
    let s = Scan::start();
    lemma_lead(lead);
    let t = s.run(lead.text());
    lemma_blanks(t, gap);
    lemma_verbatim_then(s, lead.text(), t, gap, t);
    lemma_byte(t, 0x5d);
    let u = t.advance(0x5d);
    lemma_verbatim_then(s, lead.text() + gap, t, seq![0x5du8], u);
    lemma_passthrough(u, rest);
    lemma_verbatim_then(s, lead.text() + gap + seq![0x5du8], u, rest, u);
}

/// A root `hits` that is no object, an array in particular, is forwarded verbatim,
/// and so is everything after it.
pub proof fn law_root_hits_must_be_an_object(lead: Lead, first: u8, rest: Seq<u8>)
    requires
        lead.ok(),
        !blank(first),
        first != 0x7bu8,
    ensures
        Scan::start().output(lead.outer_text() + seq![first] + rest) == verbatim(
            lead.outer_text() + seq![first] + rest,
        ),
{
    let s = Scan::start();
    lemma_outer(lead);
    let t = s.run(lead.outer_text());
    lemma_byte(t, first);
    let u = t.advance(first);
    lemma_verbatim_then(s, lead.outer_text(), t, seq![first], u);
    lemma_passthrough(u, rest);
    lemma_verbatim_then(s, lead.outer_text() + seq![first], u, rest, u);
}

/// A response without a `hits` member is forwarded verbatim.
pub proof fn law_a_response_without_hits_is_forwarded(
    before: Seq<u8>,
    members: Seq<Member>,
    tail: Tail,
    rest: Seq<u8>,
)
    requires
        all_blank(before),
        forall|i: int| 0 <= i < members.len() ==> (#[trigger] members[i]).is_sibling(),
        tail.ok(),
    ensures
        Scan::start().output(
            before + seq![0x7bu8] + (members_text(members) + tail.text() + rest),
        ) == verbatim(before + seq![0x7bu8] + (members_text(members) + tail.text() + rest)),
{
    let s = Scan::start();
    lemma_root(before);
    let t = s.run(before + seq![0x7bu8]);
    let text = members_text(members) + tail.text() + rest;
    lemma_plain_object(t, members, tail, rest);
    lemma_verbatim_then(s, before + seq![0x7bu8], t, text, t.run(text));
}

/// A root `hits` object without a `hits` member of its own is forwarded verbatim, and so is
/// everything after it.
pub proof fn law_a_hits_object_without_hits_is_forwarded(
    lead: Lead,
    members: Seq<Member>,
    tail: Tail,
    rest: Seq<u8>,
)
    requires
        lead.ok(),
        forall|i: int| 0 <= i < members.len() ==> (#[trigger] members[i]).is_sibling(),
        tail.ok(),
    ensures
        Scan::start().output(
            lead.outer_text() + seq![0x7bu8] + (members_text(members) + tail.text() + rest),
        ) == verbatim(
            lead.outer_text() + seq![0x7bu8] + (members_text(members) + tail.text() + rest),
        ),
{
    let s = Scan::start();
    lemma_outer(lead);
    let t1 = s.run(lead.outer_text());
    lemma_byte(t1, 0x7b);
    let t = t1.advance(0x7b);
    lemma_verbatim_then(s, lead.outer_text(), t1, seq![0x7bu8], t);
    let text = members_text(members) + tail.text() + rest;
    lemma_plain_object(t, members, tail, rest);
    lemma_verbatim_then(s, lead.outer_text() + seq![0x7bu8], t, text, t.run(text));
}

/// An inner `hits` that is no array is forwarded verbatim, and so is everything after it.
pub proof fn law_inner_hits_must_be_an_array(lead: Lead, first: u8, rest: Seq<u8>)
    requires
        lead.ok(),
        !blank(first),
        first != 0x5bu8,
    ensures
        Scan::start().output(lead.inner_text() + seq![first] + rest) == verbatim(
            lead.inner_text() + seq![first] + rest,
        ),
{
    let s = Scan::start();
    lemma_inner(lead);
    let t = s.run(lead.inner_text());
    lemma_byte(t, first);
    let u = t.advance(first);
    lemma_verbatim_then(s, lead.inner_text(), t, seq![first], u);
    lemma_passthrough(u, rest);
    lemma_verbatim_then(s, lead.inner_text() + seq![first], u, rest, u);
}

/// A response that is no object is forwarded verbatim.
pub proof fn law_root_must_be_an_object(before: Seq<u8>, first: u8, rest: Seq<u8>)
    requires
        all_blank(before),
        !blank(first),
        first != 0x7bu8,
    ensures
        Scan::start().output(before + seq![first] + rest) == verbatim(before + seq![first] + rest),
{
    let s = Scan::start();
    lemma_blanks(s, before);
    lemma_byte(s, first);
    let u = s.advance(first);
    lemma_verbatim_then(s, before, s, seq![first], u);
    lemma_passthrough(u, rest);
    lemma_verbatim_then(s, before + seq![first], u, rest, u);
}

/// The byte that has to come next where whitespace may stand before it, if one has to: the
/// quote of a key, the colon after it, the comma after a value.
pub open spec fn awaited(phase: Phase) -> Option<u8> {
    match phase {
        Phase::ObjExpectKey => Some(34),
        Phase::ObjExpectColon => Some(58),
        Phase::ObjExpectComma | Phase::ArrExpectComma => Some(44),
        _ => None,
    }
}

/// Where another byte stands in the place of the one that has to come next, the end of a
/// container or a malformed text, everything from there on is forwarded verbatim.
pub proof fn law_what_is_not_awaited_ends_the_framing(s: Scan, b: u8, rest: Seq<u8>)
    requires
        awaited(s.phase) matches Some(want) && b != want,
        b != 32 && b != 9 && b != 10 && b != 13,
    ensures
        s.output(seq![b] + rest) == verbatim(seq![b] + rest),
{
    lemma_byte(s, b);
    let u = s.advance(b);
    lemma_passthrough(u, rest);
    lemma_verbatim_then(s, seq![b], u, rest, u);
}

} // verus!
