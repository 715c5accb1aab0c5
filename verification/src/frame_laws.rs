//! What the streaming scanner is for, said in terms of JSON texts and of the calls
//! themselves: a string ends at its closing quote, a bracket at the one that closes it, and
//! every hit of a response comes out whole.

use crate::json;
use crate::scan_laws::{
    cursor_after, elements_shaped, elements_text, law_chunks_do_not_matter, law_every_byte_is_kept,
    law_inner_hits_are_framed, lemma_source_concat, nested_text, pending, source, Element, Lead,
};
use crate::search_scan::{
    blank, flat, hit_count, ids_of, is_hits_key, lemma_verbatim_assembled, lemma_verbatim_ids,
    verbatim, Cursor, HitShaper, Out, Piece, Scan, SearchHitsScanner,
};
use crate::search_stream::{next_frame, start, FrameAction, FrameEvent, Stage};
use crate::types::opts;
use crate::view_laws::text_in_option;
use vstd::prelude::*;

verus! {

/// A part of a JSON text.
pub ghost enum Node {
    /// A byte outside of strings that is no bracket.
    Byte(u8),
    /// A string, without its quotes.
    Text(Seq<u8>),
    /// An object or an array: its bracket, what it holds, and the bracket that closes it.
    Group(u8, Seq<Node>, u8),
}

/// What can stand between the quotes of a string: any bytes but a quote, where a backslash
/// goes with the byte after it, whatever that is.
pub open spec fn string_body(body: Seq<u8>) -> bool
    decreases body.len(),
{
    if body.len() == 0 {
        true
    } else if body[0] == 92 {
        body.len() >= 2 && string_body(body.skip(2))
    } else {
        body[0] != 34 && string_body(body.skip(1))
    }
}

/// The text of a part.
pub open spec fn node_text(n: Node) -> Seq<u8>
    decreases n, 0nat,
{
    match n {
        Node::Byte(b) => seq![b],
        Node::Text(body) => seq![34u8] + body + seq![34u8],
        Node::Group(open, inner, close) => seq![open] + nodes_text(inner, inner.len()) + seq![close],
    }
}

/// The text of the first `k` parts.
pub open spec fn nodes_text(ns: Seq<Node>, k: nat) -> Seq<u8>
    decreases ns, k,
{
    if k == 0 || k > ns.len() {
        Seq::empty()
    } else {
        nodes_text(ns, (k - 1) as nat) + node_text(ns[k - 1])
    }
}

/// The part is one of a JSON text.
pub open spec fn sound(n: Node) -> bool
    decreases n, 0nat,
{
    match n {
        Node::Byte(b) => b != 34 && b != 91 && b != 93 && b != 123 && b != 125,
        Node::Text(body) => string_body(body),
        Node::Group(open, inner, close) => (open == 123 && close == 125 || open == 91 && close == 93)
            && all_sound(inner, inner.len()),
    }
}

/// The first `k` parts are.
pub open spec fn all_sound(ns: Seq<Node>, k: nat) -> bool
    decreases ns, k,
{
    k == 0 || k > ns.len() || (all_sound(ns, (k - 1) as nat) && sound(ns[k - 1]))
}

/// The cursor after some bytes.
spec fn folded(c: Cursor, bytes: Seq<u8>) -> Cursor
    decreases bytes.len(),
{
    if bytes.len() == 0 {
        c
    } else {
        folded(c, bytes.drop_last()).next(bytes.last())
    }
}

/// Something is open all through these bytes.
spec fn open_through(c: Cursor, bytes: Seq<u8>) -> bool {
    forall|k: int| 0 <= k <= bytes.len() ==> !folded(c, #[trigger] bytes.take(k)).closed()
}

proof fn lemma_folded(c: Cursor, a: Seq<u8>, b: Seq<u8>)
    ensures
        folded(c, a + b) == folded(folded(c, a), b),
    decreases b.len(),
{
    if b.len() == 0 {
        assert(a + b =~= a);
    } else {
        lemma_folded(c, a, b.drop_last());
        assert((a + b).drop_last() =~= a + b.drop_last());
        assert((a + b).last() == b.last());
    }
}

proof fn lemma_open_then(c: Cursor, a: Seq<u8>, b: Seq<u8>)
    requires
        open_through(c, a),
        open_through(folded(c, a), b),
    ensures
        open_through(c, a + b),
        folded(c, a + b) == folded(folded(c, a), b),
{
    lemma_folded(c, a, b);
    assert forall|k: int| 0 <= k <= (a + b).len() implies !folded(
        c,
        #[trigger] (a + b).take(k),
    ).closed() by {
        if k <= a.len() {
            assert((a + b).take(k) =~= a.take(k));
        } else {
            assert((a + b).take(k) =~= a + b.take(k - a.len()));
            lemma_folded(c, a, b.take(k - a.len()));
            assert(!folded(folded(c, a), b.take(k - a.len())).closed());
        }
    }
}

proof fn lemma_one_byte(c: Cursor, b: u8)
    requires
        !c.closed(),
        !c.next(b).closed(),
    ensures
        folded(c, seq![b]) == c.next(b),
        open_through(c, seq![b]),
{
    let one = seq![b];
    assert(one.drop_last() =~= Seq::empty());
    assert(folded(c, one.drop_last()) == c);
    assert forall|k: int| 0 <= k <= one.len() implies !folded(c, #[trigger] one.take(k)).closed() by {
        if k == 0 {
            assert(one.take(0) =~= Seq::empty());
            assert(folded(c, one.take(0)) == c);
        } else {
            assert(one.take(1) =~= one);
        }
    }
}

proof fn lemma_nothing(c: Cursor)
    requires
        !c.closed(),
    ensures
        folded(c, Seq::empty()) == c,
        open_through(c, Seq::empty()),
{
    let none = Seq::<u8>::empty();
    assert forall|k: int| 0 <= k <= none.len() implies !folded(c, #[trigger] none.take(k)).closed() by {
        assert(none.take(k) =~= none);
    }
}

proof fn lemma_in_string(c: Cursor, body: Seq<u8>)
    requires
        c.in_str,
        !c.esc,
        string_body(body),
    ensures
        folded(c, body) == c,
        open_through(c, body),
    decreases body.len(),
{
    if body.len() == 0 {
        assert(body =~= Seq::empty());
        lemma_nothing(c);
    } else if body[0] == 92 {
        let rest = body.skip(2);
        lemma_in_string(c, rest);
        let d = c.next(92);
        lemma_one_byte(c, 92);
        lemma_one_byte(d, body[1]);
        assert(d.next(body[1]) == c);
        lemma_open_then(c, seq![92u8], seq![body[1]]);
        lemma_open_then(c, seq![92u8] + seq![body[1]], rest);
        assert(body =~= seq![92u8] + seq![body[1]] + rest);
    } else {
        let rest = body.skip(1);
        lemma_in_string(c, rest);
        lemma_one_byte(c, body[0]);
        lemma_open_then(c, seq![body[0]], rest);
        assert(body =~= seq![body[0]] + rest);
    }
}

proof fn lemma_node(c: Cursor, n: Node)
    requires
        c.depth > 0,
        !c.in_str,
        !c.esc,
        sound(n),
    ensures
        folded(c, node_text(n)) == c,
        open_through(c, node_text(n)),
    decreases n, 0nat,
{
    match n {
        Node::Byte(b) => {
            lemma_one_byte(c, b);
        },
        Node::Text(body) => {
            let d = Cursor { in_str: true, ..c };
            lemma_one_byte(c, 34);
            assert(c.next(34) == d);
            lemma_in_string(d, body);
            lemma_open_then(c, seq![34u8], body);
            lemma_one_byte(d, 34);
            assert(d.next(34) == c);
            lemma_open_then(c, seq![34u8] + body, seq![34u8]);
        },
        Node::Group(open, inner, close) => {
            let d = Cursor { depth: c.depth + 1, ..c };
            let text = nodes_text(inner, inner.len());
            lemma_one_byte(c, open);
            assert(c.next(open) == d);
            lemma_nodes(d, inner, inner.len());
            lemma_open_then(c, seq![open], text);
            lemma_one_byte(d, close);
            assert(d.next(close) == c);
            lemma_open_then(c, seq![open] + text, seq![close]);
        },
    }
}

proof fn lemma_nodes(c: Cursor, ns: Seq<Node>, k: nat)
    requires
        c.depth > 0,
        !c.in_str,
        !c.esc,
        all_sound(ns, k),
        k <= ns.len(),
    ensures
        folded(c, nodes_text(ns, k)) == c,
        open_through(c, nodes_text(ns, k)),
    decreases ns, k,
{
    if k == 0 {
        lemma_nothing(c);
    } else {
        lemma_nodes(c, ns, (k - 1) as nat);
        lemma_node(c, ns[k - 1]);
        lemma_open_then(c, nodes_text(ns, (k - 1) as nat), node_text(ns[k - 1]));
    }
}

proof fn lemma_cursor_after(raw: Seq<u8>)
    requires
        raw.len() > 0,
    ensures
        cursor_after(raw) == folded(Cursor::begin(raw[0]), raw.skip(1)),
    decreases raw.len(),
{
    if raw.len() == 1 {
        assert(raw.skip(1) =~= Seq::empty());
    } else {
        lemma_cursor_after(raw.drop_last());
        assert(raw.drop_last().skip(1) =~= raw.skip(1).drop_last());
        assert(raw.skip(1).last() == raw.last());
    }
}

proof fn lemma_framed(first: u8, middle: Seq<u8>, last: u8)
    requires
        ({
            let c = Cursor::begin(first);
            open_through(c, middle) && folded(c, middle).next(last).closed()
        }),
    ensures
        nested_text(seq![first] + middle + seq![last]),
{
    let raw = seq![first] + middle + seq![last];
    let c = Cursor::begin(first);
    assert(raw.skip(1) =~= middle + seq![last]);
    lemma_cursor_after(raw);
    assert((middle + seq![last]).drop_last() =~= middle);
    assert(cursor_after(raw).closed());
    assert forall|n: int| 0 < n < raw.len() implies !cursor_after(#[trigger] raw.take(n)).closed() by {
        lemma_cursor_after(raw.take(n));
        assert(raw.take(n).skip(1) =~= middle.take(n - 1));
        assert(!folded(c, middle.take(n - 1)).closed());
    }
}

/// A string ends at its own closing quote, whatever it escapes, and an object or an array at
/// the bracket that closes it, whatever strings and brackets it holds: the scanner takes each
/// as one value, no less and no more.
pub proof fn law_a_value_ends_where_its_bracket_or_quote_closes(n: Node)
    requires
        sound(n),
        n is Text || n is Group,
    ensures
        nested_text(node_text(n)),
{
    match n {
        Node::Text(body) => {
            let c = Cursor::begin(34);
            lemma_in_string(c, body);
            lemma_framed(34, body, 34);
        },
        Node::Group(open, inner, close) => {
            let c = Cursor::begin(open);
            lemma_nodes(c, inner, inner.len());
            lemma_framed(open, nodes_text(inner, inner.len()), close);
        },
        Node::Byte(_) => {},
    }
}

/// Whitespace is a space, a tab, a newline or a carriage return; a key is `hits` where that is
/// what it decodes to.
pub proof fn law_whitespace_and_the_key(b: u8, key: Seq<u8>)
    ensures
        blank(b) <==> b == 32 || b == 9 || b == 10 || b == 13,
        is_hits_key(key) <==> json::decoded(seq![34u8] + key + seq![34u8]) == Some("hits"@),
{
}

/// The bytes of a piece.
pub open spec fn piece_bytes(p: Piece) -> Seq<u8> {
    match p {
        Piece::Verbatim(b) => b@,
        Piece::Hit(raw) => raw@,
    }
}

/// The bytes of pieces, one after the other.
pub open spec fn pieces_bytes(ps: Seq<Piece>) -> Seq<u8>
    decreases ps.len(),
{
    if ps.len() == 0 {
        Seq::empty()
    } else {
        pieces_bytes(ps.drop_last()) + piece_bytes(ps.last())
    }
}

/// The hits among pieces, in order.
pub open spec fn hits_among(ps: Seq<Piece>) -> Seq<Seq<u8>>
    decreases ps.len(),
{
    if ps.len() == 0 {
        Seq::empty()
    } else {
        match ps.last() {
            Piece::Verbatim(_) => hits_among(ps.drop_last()),
            Piece::Hit(raw) => hits_among(ps.drop_last()).push(raw@),
        }
    }
}

proof fn lemma_source_verbatim(b: Seq<u8>)
    ensures
        source(verbatim(b)) == b,
    decreases b.len(),
{
    if b.len() == 0 {
        assert(verbatim(b) =~= Seq::empty());
    } else {
        lemma_source_verbatim(b.drop_last());
        assert(verbatim(b).drop_last() =~= verbatim(b.drop_last()));
        assert(source(verbatim(b)) =~= b);
    }
}

proof fn lemma_pieces_bytes(ps: Seq<Piece>)
    ensures
        source(flat(ps)) == pieces_bytes(ps),
    decreases ps.len(),
{
    if ps.len() > 0 {
        lemma_pieces_bytes(ps.drop_last());
        let head = flat(ps.drop_last());
        match ps.last() {
            Piece::Verbatim(b) => {
                lemma_source_verbatim(b@);
                lemma_source_concat(head, verbatim(b@));
            },
            Piece::Hit(raw) => {
                let one = seq![Out::Hit(raw@)];
                lemma_source_concat(head, one);
                assert(one.drop_last() =~= Seq::empty());
                assert(source(one.drop_last()) =~= Seq::empty());
                assert(source(one) =~= raw@);
            },
        }
    }
}

/// A chunk comes out as it went in: the pieces handed out, and the part of a hit that is kept
/// back, are the part kept back before and the chunk.
pub proof fn law_no_byte_is_lost_in_the_scanner(
    scanner: &mut SearchHitsScanner,
    before: Seq<u8>,
    chunk: &[u8],
    r: Vec<Piece>,
)
    requires
        scanner@ == Scan::start().run(before),
        call_ensures(SearchHitsScanner::feed, (scanner, chunk), r),
    ensures
        final(scanner)@ == Scan::start().run(before + chunk@),
        pieces_bytes(r@) + pending(final(scanner)@) == pending(old(scanner)@) + chunk@,
{
    let s = Scan::start();
    let whole = before + chunk@;
    law_chunks_do_not_matter(s, before, chunk@);
    law_every_byte_is_kept(before);
    law_every_byte_is_kept(whole);
    let a = s.output(before);
    let b = s.run(before).output(chunk@);
    lemma_source_concat(a, b);
    lemma_pieces_bytes(r@);
    let kept = pending(s.run(before));
    let left = pending(s.run(whole));
    assert(source(a) + source(b) + left == before + chunk@);
    assert(source(a) + kept == before);
    let n = source(a).len() as int;
    assert((source(a) + source(b) + left).skip(n) =~= source(b) + left);
    assert((source(a) + kept + chunk@).skip(n) =~= kept + chunk@);
}

/// A scanner starts before the first byte, tells how deep it is, and hands out nothing at the
/// end: a hit that was cut off is never forwarded.
pub proof fn law_a_cut_off_hit_is_not_forwarded(
    fresh: SearchHitsScanner,
    s: SearchHitsScanner,
    depth: u64,
    r: Vec<Piece>,
)
    requires
        call_ensures(SearchHitsScanner::new, (), fresh),
        call_ensures(SearchHitsScanner::nesting, (&s,), depth),
        s.drained(),
        call_ensures(SearchHitsScanner::finish, (s,), r),
    ensures
        fresh@ == Scan::start().run(Seq::empty()) && fresh.drained(),
        depth == s@.cursor.depth,
        r@.len() == 0,
{
}

/// The hits that were given out.
spec fn hits_in(out: Seq<Out>) -> Seq<Seq<u8>>
    decreases out.len(),
{
    if out.len() == 0 {
        Seq::empty()
    } else {
        match out.last() {
            Out::Byte(_) => hits_in(out.drop_last()),
            Out::Hit(raw) => hits_in(out.drop_last()).push(raw),
        }
    }
}

proof fn lemma_hits_concat(a: Seq<Out>, b: Seq<Out>)
    ensures
        hits_in(a + b) == hits_in(a) + hits_in(b),
    decreases b.len(),
{
    if b.len() == 0 {
        assert(a + b =~= a);
        assert(hits_in(a) + hits_in(b) =~= hits_in(a));
    } else {
        lemma_hits_concat(a, b.drop_last());
        assert((a + b).drop_last() =~= a + b.drop_last());
        assert((a + b).last() == b.last());
        assert(hits_in(a + b) =~= hits_in(a) + hits_in(b));
    }
}

proof fn lemma_hits_verbatim(b: Seq<u8>)
    ensures
        hits_in(verbatim(b)) == Seq::<Seq<u8>>::empty(),
    decreases b.len(),
{
    if b.len() > 0 {
        lemma_hits_verbatim(b.drop_last());
        assert(verbatim(b).drop_last() =~= verbatim(b.drop_last()));
    } else {
        assert(verbatim(b) =~= Seq::empty());
    }
}

proof fn lemma_hits_among(ps: Seq<Piece>)
    ensures
        hits_in(flat(ps)) == hits_among(ps),
    decreases ps.len(),
{
    if ps.len() > 0 {
        lemma_hits_among(ps.drop_last());
        let head = flat(ps.drop_last());
        match ps.last() {
            Piece::Verbatim(b) => {
                lemma_hits_verbatim(b@);
                lemma_hits_concat(head, verbatim(b@));
                assert(hits_in(head) + hits_in(verbatim(b@)) =~= hits_in(head));
            },
            Piece::Hit(raw) => {
                let one = seq![Out::Hit(raw@)];
                lemma_hits_concat(head, one);
                assert(one.drop_last() =~= Seq::empty());
                assert(hits_in(one.drop_last()) =~= Seq::empty());
                assert(hits_in(one) =~= seq![raw@]);
                assert(hits_in(head) + seq![raw@] =~= hits_in(head).push(raw@));
            },
        }
    }
}

proof fn lemma_hits_element(e: Element, end: u8)
    ensures
        hits_in(e.shaped(end)) == seq![e.value],
{
    let one = seq![Out::Hit(e.value)];
    let last = seq![Out::Byte(end)];
    lemma_hits_verbatim(e.before);
    lemma_hits_verbatim(e.after);
    assert(one.drop_last() =~= Seq::empty());
    assert(hits_in(one.drop_last()) =~= Seq::empty());
    assert(hits_in(one) =~= seq![e.value]);
    assert(last.drop_last() =~= Seq::empty());
    assert(hits_in(last.drop_last()) =~= Seq::empty());
    assert(hits_in(last) =~= Seq::empty());
    let a = verbatim(e.before) + one;
    lemma_hits_concat(verbatim(e.before), one);
    lemma_hits_concat(a, verbatim(e.after));
    lemma_hits_concat(a + verbatim(e.after), last);
    assert(hits_in(e.shaped(end)) =~= seq![e.value]);
}

/// The values of elements.
pub open spec fn values(es: Seq<Element>) -> Seq<Seq<u8>> {
    es.map_values(|e: Element| e.value)
}

proof fn lemma_hits_elements(es: Seq<Element>)
    ensures
        hits_in(elements_shaped(es)) == values(es),
    decreases es.len(),
{
    if es.len() == 0 {
        assert(values(es) =~= Seq::empty());
    } else {
        lemma_hits_elements(es.drop_last());
        lemma_hits_element(es.last(), 0x2c);
        lemma_hits_concat(elements_shaped(es.drop_last()), es.last().shaped(0x2c));
        assert(values(es) =~= values(es.drop_last()) + seq![es.last().value]);
    }
}

/// Every element of the inner `hits` array comes out as a hit, whole and in order, and
/// nothing else does, whatever stands before the array and after it.
pub proof fn law_every_hit_of_a_response_comes_out_whole(
    scanner: &mut SearchHitsScanner,
    lead: Lead,
    elements: Seq<Element>,
    last: Element,
    rest: Seq<u8>,
    response: &[u8],
    r: Vec<Piece>,
)
    requires
        scanner@ == Scan::start().run(Seq::empty()),
        call_ensures(SearchHitsScanner::feed, (scanner, response), r),
        lead.ok(),
        forall|i: int| 0 <= i < elements.len() ==> (#[trigger] elements[i]).ok(),
        last.ok(),
        response@ == lead.text() + elements_text(elements) + last.text(0x5d) + rest,
    ensures
        hits_among(r@) == values(elements).push(last.value),
{
    law_inner_hits_are_framed(lead, elements, last, rest);
    lemma_hits_among(r@);
    let a = verbatim(lead.text());
    let b = elements_shaped(elements);
    let c = last.shaped(0x5d);
    let d = verbatim(rest);
    lemma_hits_verbatim(lead.text());
    lemma_hits_verbatim(rest);
    lemma_hits_elements(elements);
    lemma_hits_element(last, 0x5d);
    lemma_hits_concat(a, b);
    lemma_hits_concat(a + b, c);
    lemma_hits_concat(a + b + c, d);
    assert(hits_in(a + b + c + d) =~= values(elements).push(last.value));
}

proof fn lemma_hit_count(ps: Seq<Piece>)
    ensures
        hit_count(flat(ps)) == hits_among(ps).len(),
    decreases ps.len(),
{
    if ps.len() > 0 {
        lemma_hit_count(ps.drop_last());
        let head = flat(ps.drop_last());
        match ps.last() {
            Piece::Verbatim(b) => {
                let shaper = HitShaper {
                    logical_index: arbitrary(),
                    shape: arbitrary(),
                };
                lemma_verbatim_assembled(shaper, head, b@, Seq::empty());
            },
            Piece::Hit(raw) => {
                let grown = head + seq![Out::Hit(raw@)];
                assert(grown.drop_last() =~= head);
            },
        }
    }
}

/// What is sent for pieces is each of them in order: bytes as they are, and a hit as it is
/// shaped alone, with the id mapped for its place among the hits.
pub proof fn law_pieces_are_sent_in_order(
    shaper: &HitShaper,
    none: &[Piece],
    ps: &[Piece],
    piece: Piece,
    more: &[Piece],
    mapped: &[Option<String>],
    id: &Option<String>,
    hit: &[u8],
    nothing: Vec<u8>,
    before: Vec<u8>,
    after: Vec<u8>,
    shaped: Vec<u8>,
)
    requires
        none@.len() == 0,
        more@ == ps@.push(piece),
        call_ensures(HitShaper::assemble, (shaper, none, mapped), nothing),
        call_ensures(HitShaper::assemble, (shaper, ps, mapped), before),
        call_ensures(HitShaper::assemble, (shaper, more, mapped), after),
        ({
            let k = hits_among(ps@).len() as int;
            *id == if k < mapped@.len() {
                mapped@[k]
            } else {
                None
            }
        }),
        hit@ == piece_bytes(piece),
        call_ensures(HitShaper::transform, (shaper, hit, id), shaped),
    ensures
        nothing@.len() == 0,
        piece is Verbatim ==> after@ == before@ + piece_bytes(piece),
        piece is Hit ==> after@ == before@ + shaped@,
{
    let head = flat(ps@);
    let ids = opts(mapped@);
    assert(more@.drop_last() =~= ps@);
    lemma_hit_count(ps@);
    match piece {
        Piece::Verbatim(b) => {
            lemma_verbatim_assembled(*shaper, head, b@, ids);
        },
        Piece::Hit(raw) => {
            let grown = head + seq![Out::Hit(raw@)];
            let k = hits_among(ps@).len() as int;
            assert(grown.drop_last() =~= head);
            assert(ids.len() == mapped@.len());
            if k < mapped@.len() {
                assert(ids[k] == crate::types::opt(mapped@[k]));
            }
            assert(after@ =~= before@ + shaped@);
        },
    }
}

/// The id of each hit among pieces is read, in order: the text of its `_id`, or that it has
/// none.
pub proof fn law_the_ids_of_hits_are_read_in_order(
    none: &[Piece],
    ps: &[Piece],
    piece: Piece,
    more: &[Piece],
    nothing: Vec<Option<String>>,
    before: Vec<Option<String>>,
    after: Vec<Option<String>>,
    i: int,
)
    requires
        none@.len() == 0,
        more@ == ps@.push(piece),
        call_ensures(ids_of, (none,), nothing),
        call_ensures(ids_of, (ps,), before),
        call_ensures(ids_of, (more,), after),
    ensures
        nothing@.len() == 0,
        0 <= i < before@.len() ==> text_in_option(after@[i]) == text_in_option(before@[i]),
        piece is Verbatim ==> after@.len() == before@.len(),
        piece is Hit ==> after@.len() == before@.len() + 1 && crate::cursor_laws::reads(
            piece_bytes(piece),
            "_id"@,
            text_in_option(after@[before@.len() as int]),
        ),
{
    let head = flat(ps@);
    assert(more@.drop_last() =~= ps@);
    let a = opts(before@);
    let b = opts(after@);
    assert(opts(nothing@).len() == nothing@.len());
    assert(a.len() == before@.len() && b.len() == after@.len());
    match piece {
        Piece::Verbatim(bytes) => {
            lemma_verbatim_ids(head, bytes@);
        },
        Piece::Hit(raw) => {
            let grown = head + seq![Out::Hit(raw@)];
            assert(grown.drop_last() =~= head);
            let n = before@.len() as int;
            assert(b[n] == crate::types::opt(after@[n]));
        },
    }
    if 0 <= i < before@.len() {
        assert(a[i] == crate::types::opt(before@[i]));
        assert(b[i] == crate::types::opt(after@[i]));
    }
}

/// The pump sends what a frame settles, pulls where it settles nothing, passes a failure on
/// and stops at the end; after that nothing is sent any more.
pub proof fn law_the_pump_sends_what_a_frame_settles(
    fresh: Stage,
    stage: Stage,
    event: FrameEvent,
    data: &[u8],
    scanner: &mut SearchHitsScanner,
    pieces: Vec<Piece>,
    r: (Stage, FrameAction),
)
    requires
        call_ensures(start, (), fresh),
        call_ensures(next_frame, (stage, event), r),
        stage matches Stage::Active(s) ==> scanner@ == s@,
        event matches FrameEvent::Data(d) ==> d@ == data@,
        call_ensures(SearchHitsScanner::feed, (scanner, data), pieces),
    ensures
        fresh is Active && fresh->Active_0@ == Scan::start().run(Seq::empty()),
        stage is Done ==> r.0 is Done && r.1 is Stop,
        stage is Active && event is Data ==> {
            &&& r.0 is Active && r.0->Active_0@ == final(scanner)@
            &&& r.1 is Pull || r.1 is Send
            &&& r.1 matches FrameAction::Send(sent) ==> pieces_bytes(sent@) == pieces_bytes(pieces@)
                && hits_among(sent@) == hits_among(pieces@)
            &&& r.1 is Pull ==> pieces_bytes(pieces@).len() == 0 && hits_among(pieces@).len() == 0
        },
        stage is Active && event is NoData ==> r.0 == stage && r.1 is Pull,
        stage is Active && event is Failed ==> r.0 is Done && r.1 is Fail,
        stage is Active && event is End ==> r.0 is Done && r.1 is Stop,
{
    lemma_pieces_bytes(pieces@);
    lemma_hits_among(pieces@);
    if let FrameAction::Send(sent) = r.1 {
        lemma_pieces_bytes(sent@);
        lemma_hits_among(sent@);
    }
}

} // verus!
