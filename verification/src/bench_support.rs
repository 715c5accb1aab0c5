//! A search response of any size, and both ways of shaping it, for measurements.
//!
//! The documents are those of the partition `acme` on a shared index: the field
//! `_tenant` is injected and ids follow `{partition}:{body.id}`.

use crate::json::{self, field, stripped, text_of, Tree};
use crate::read::{
    envelope_of, hit_ids, hit_view, hits_view, mapped_at, physical_ids, shape_hits, shaped_answer,
    ReadShape,
};
use crate::search_scan::{ids_of, piece_ids, HitShaper, Scan, SearchHitsScanner};
use crate::text::{chars, decimal, decimal_text, from_chars, starts_with, views};
use crate::types::{clone_bytes, opt, opts, DocIdRule};
use vstd::prelude::*;
use vstd::string::*;

verus! {

/// The logical id of a physical id of the partition `acme`: what follows `acme:`.
pub open spec fn reference_id(physical: Option<Seq<char>>) -> Option<Seq<char>> {
    match physical {
        Some(p) => if "acme:"@.is_prefix_of(p) {
            Some(p.skip("acme:"@.len() as int))
        } else {
            None
        },
        None => None,
    }
}

/// The logical ids of physical ids of the partition `acme`.
pub open spec fn reference_ids(physical: Seq<Option<Seq<char>>>) -> Seq<Option<Seq<char>>> {
    physical.map_values(|p: Option<Seq<char>>| reference_id(p))
}

fn logical_ids(physical: &[Option<String>]) -> (r: Vec<Option<String>>)
    ensures
        opts(r@) == reference_ids(opts(physical@)),
{
    let mut out: Vec<Option<String>> = Vec::new();
    let mut i: usize = 0;
    while i < physical.len()
        invariant
            0 <= i <= physical@.len(),
            out@.len() == i,
            forall|j: int| 0 <= j < i ==> opt(#[trigger] out@[j]) == reference_id(opt(physical@[j])),
        decreases physical@.len() - i,
    {
        let logical = match &physical[i] {
            Some(p) => if starts_with(p.as_str(), "acme:") {
                let all = chars(p.as_str());
                let n = chars("acme:").len();
                let tail = vstd::slice::slice_subrange(all.as_slice(), n, all.len());
                assert(tail@ =~= p@.skip("acme:"@.len() as int));
                Some(from_chars(tail))
            } else {
                None
            },
            None => None,
        };
        out.push(logical);
        i += 1;
    }
    assert(opts(out@) =~= reference_ids(opts(physical@)));
    out
}

fn shape() -> (r: ReadShape)
    ensures
        views(r.inject_names@) == seq!["_tenant"@],
        r.id_rule is Some,
{
    let mut inject_names: Vec<String> = Vec::new();
    inject_names.push("_tenant".to_owned());
    assert(views(inject_names@) =~= seq!["_tenant"@]);
    ReadShape {
        inject_names,
        id_rule: Some(
            DocIdRule { template: "{partition}:{body.id}".to_owned(), set_routing: true },
        ),
    }
}

/// The first `n` hits, separated by commas.
pub open spec fn hits_text(n: nat) -> Seq<char>
    decreases n,
{
    if n == 0 {
        Seq::empty()
    } else {
        let i = (n - 1) as nat;
        hits_text(i) + (if i > 0 {
            ","@
        } else {
            Seq::empty()
        }) + "{\"_index\":\"shared\",\"_id\":\"acme:"@ + decimal_text(i)
            + "\",\"_routing\":\"acme\",\"_source\":{\"_tenant\":\"acme\",\"msg\":\"record number "@
            + decimal_text(i) + "\"}}"@
    }
}

/// `n` times the letter `x`.
pub open spec fn filler(n: nat) -> Seq<char> {
    Seq::new(n, |i: int| 'x')
}

/// A search response with `n_hits` hits and an aggregation of `agg_bytes` bytes.
pub open spec fn response_text(n_hits: nat, agg_bytes: nat) -> Seq<char> {
    "{\"took\":5,\"hits\":{\"total\":{\"value\":"@ + decimal_text(n_hits) + "},\"hits\":["@
        + hits_text(n_hits) + "]},\"aggregations\":{\"blob\":\""@ + filler(agg_bytes) + "\"}}"@
}

/// Builds a search response with `n_hits` hits of the partition `acme` and an
/// aggregation of `agg_bytes` bytes after them.
pub fn response(n_hits: usize, agg_bytes: usize) -> (r: Vec<u8>)
    ensures
        r@ == vstd::utf8::encode_utf8(response_text(n_hits as nat, agg_bytes as nat)),
{
    let mut s = "{\"took\":5,\"hits\":{\"total\":{\"value\":".to_owned();
    s.append(decimal(n_hits as u64).as_str());
    s.append("},\"hits\":[");
    let ghost head = s@;
    let mut i: usize = 0;
    assert(s@ =~= head + hits_text(0));
    while i < n_hits
        invariant
            0 <= i <= n_hits,
            s@ == head + hits_text(i as nat),
        decreases n_hits - i,
    {
        let ghost before = s@;
        if i > 0 {
            s.append(",");
        }
        s.append("{\"_index\":\"shared\",\"_id\":\"acme:");
        s.append(decimal(i as u64).as_str());
        s.append("\",\"_routing\":\"acme\",\"_source\":{\"_tenant\":\"acme\",\"msg\":\"record number ");
        s.append(decimal(i as u64).as_str());
        s.append("\"}}");
        i += 1;
        assert(s@ =~= head + hits_text(i as nat));
    }
    s.append("]},\"aggregations\":{\"blob\":\"");
    let ghost lead = s@;
    let mut n: usize = 0;
    assert(s@ =~= lead + filler(0));
    while n < agg_bytes
        invariant
            0 <= n <= agg_bytes,
            s@ == lead + filler(n as nat),
        decreases agg_bytes - n,
    {
        s.append("x");
        proof {
            reveal_strlit("x");
        }
        n += 1;
        assert(s@ =~= lead + filler(n as nat));
    }
    s.append("\"}}");
    assert(s@ =~= response_text(n_hits as nat, agg_bytes as nat));
    clone_bytes(s.as_str().as_bytes())
}

/// Shapes a whole response at once; empty where it is no JSON text.
pub fn buffered(body: &[u8]) -> (r: Vec<u8>)
    ensures
        r@ == match shaped_answer(
            body@,
            "orders"@,
            true,
            reference_ids(physical_ids(body@)),
            seq!["_tenant"@],
        ) {
            Some(b) => b,
            None => Seq::empty(),
        },
{
    let mapped = logical_ids(hit_ids(body).as_slice());
    match shape_hits(body, "orders", &shape(), mapped.as_slice()) {
        Ok(shaped) => shaped,
        Err(_) => Vec::new(),
    }
}

/// Shapes a response through the streaming scanner, in one chunk.
pub fn streaming(body: &[u8]) -> (r: Vec<u8>)
    ensures
        exists|shaper: HitShaper|
            {
                &&& shaper.logical_index@ == "orders"@
                &&& views(shaper.shape.inject_names@) == seq!["_tenant"@]
                &&& shaper.shape.id_rule is Some
                &&& r@ == #[trigger] shaper.assembled(
                    Scan::start().output(body@),
                    reference_ids(piece_ids(Scan::start().output(body@))),
                )
            },
{
    let shaper = HitShaper { logical_index: "orders".to_owned(), shape: shape() };
    let mut scanner = SearchHitsScanner::new();
    assert(body@.len() == body.len());
    let pieces = scanner.feed(body);
    let mapped = logical_ids(ids_of(pieces.as_slice()).as_slice());
    shaper.assemble(pieces.as_slice(), mapped.as_slice())
}

/// The `i`-th hit of the response, as the cluster stores it.
pub open spec fn stored_hit(i: nat) -> Tree {
    Tree::Object(
        Map::<Seq<char>, Tree>::empty().insert("_index"@, Tree::Str("shared"@)).insert(
            "_id"@,
            Tree::Str("acme:"@ + decimal_text(i)),
        ).insert("_routing"@, Tree::Str("acme"@)).insert(
            "_source"@,
            Tree::Object(
                Map::<Seq<char>, Tree>::empty().insert("_tenant"@, Tree::Str("acme"@)).insert(
                    "msg"@,
                    Tree::Str("record number "@ + decimal_text(i)),
                ),
            ),
        ),
    )
}

/// The `i`-th hit of the response, as its client sees it.
pub open spec fn logical_hit(i: nat) -> Tree {
    Tree::Object(
        Map::<Seq<char>, Tree>::empty().insert("_index"@, Tree::Str("orders"@)).insert(
            "_id"@,
            Tree::Str(decimal_text(i)),
        ).insert(
            "_source"@,
            Tree::Object(
                Map::<Seq<char>, Tree>::empty().insert(
                    "msg"@,
                    Tree::Str("record number "@ + decimal_text(i)),
                ),
            ),
        ),
    )
}

proof fn lemma_names()
    ensures
        "_index"@ != "_id"@,
        "_index"@ != "_routing"@,
        "_index"@ != "_source"@,
        "_id"@ != "_routing"@,
        "_id"@ != "_source"@,
        "_routing"@ != "_source"@,
        "_tenant"@ != "msg"@,
{
    reveal_strlit("_index");
    reveal_strlit("_id");
    reveal_strlit("_routing");
    reveal_strlit("_source");
    reveal_strlit("_tenant");
    reveal_strlit("msg");
    assert("_index"@.len() == 6 && "_id"@.len() == 3);
    assert("_routing"@.len() == 8 && "_source"@.len() == 7);
    assert("_tenant"@.len() == 7 && "msg"@.len() == 3);
}

proof fn lemma_hit_is_logical(i: nat)
    ensures
        text_of(field(stored_hit(i), "_id"@)) == Some("acme:"@ + decimal_text(i)),
        reference_id(Some("acme:"@ + decimal_text(i))) == Some(decimal_text(i)),
        hit_view(stored_hit(i), "orders"@, true, Some(decimal_text(i)), seq!["_tenant"@])
            == logical_hit(i),
{
    lemma_names();
    let p = "acme:"@ + decimal_text(i);
    assert("acme:"@.is_prefix_of(p));
    assert(p.skip("acme:"@.len() as int) =~= decimal_text(i));
    let names = seq!["_tenant"@];
    let source = field(stored_hit(i), "_source"@)->Some_0;
    let msg = Map::<Seq<char>, Tree>::empty().insert(
        "msg"@,
        Tree::Str("record number "@ + decimal_text(i)),
    );
    assert(names[0] == "_tenant"@);
    assert(stripped(source, names) == Tree::Object(msg)) by {
        assert(source->Object_0.restrict(Set::new(|k: Seq<char>| !names.contains(k))) =~= msg);
    }
    assert(hit_view(stored_hit(i), "orders"@, true, Some(decimal_text(i)), names)->Object_0
        =~= logical_hit(i)->Object_0);
}

/// Shaped at once, a response whose hits read as stored shows every hit in its client's
/// view: the logical index and id, the document without the injected field, and no
/// `_routing`. All else is as it was.
pub proof fn law_buffered_response_is_logical(
    body: Seq<u8>,
    top: Map<Seq<char>, Seq<char>>,
    envelope: Tree,
    n: nat,
)
    requires
        json::raw_members(body) == Some(top),
        top.dom().contains("hits"@),
        envelope_of(top) == Some(envelope),
        field(envelope, "hits"@) == Some(Tree::Array(Seq::new(n, |i: int| stored_hit(i as nat)))),
    ensures
        shaped_answer(
            body,
            "orders"@,
            true,
            reference_ids(physical_ids(body)),
            seq!["_tenant"@],
        ) == Some(
            json::raw_written(
                top.insert(
                    "hits"@,
                    json::raw_of(
                        json::with_field(
                            envelope,
                            "hits"@,
                            Tree::Array(Seq::new(n, |i: int| logical_hit(i as nat))),
                        ),
                    ),
                ),
            ),
        ),
{
    let hits = Seq::new(n, |i: int| stored_hit(i as nat));
    let ids = reference_ids(physical_ids(body));
    let shown = hits_view(hits, "orders"@, true, ids, seq!["_tenant"@]);
    assert forall|i: int| 0 <= i < n implies shown[i] == logical_hit(i as nat) by {
        lemma_hit_is_logical(i as nat);
        assert(physical_ids(body)[i] == text_of(field(hits[i], "_id"@)));
        assert(mapped_at(ids, i) == Some(decimal_text(i as nat)));
    }
    assert(shown =~= Seq::new(n, |i: int| logical_hit(i as nat)));
}

} // verus!
