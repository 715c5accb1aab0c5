//! What the read path guarantees of every answer.

use crate::json::{self, field, stripped, text_of, Tree};
use crate::plan::value_of;
use crate::read::{
    answer_view, envelope_of, envelope_view, found_view, hit_view, hits_view, mapped_at,
    physical_ids, shaped_answer, ReadShape,
};
use crate::scan_laws::{elements_shaped, elements_text, law_inner_hits_are_framed, Element, Lead};
use crate::search_scan::{
    hit_count, lemma_verbatim_assembled, lemma_verbatim_ids, piece_ids, verbatim, HitShaper, Out,
    Scan,
};
use crate::text::views;
use crate::types::{injected, names, BodyTransform, InjectedField};
use vstd::prelude::*;

verus! {

/// The members of `t` named in `names` are gone.
pub open spec fn free_of(t: Tree, names: Seq<Seq<char>>) -> bool {
    forall|n: Seq<char>| #[trigger] names.contains(n) ==> field(t, n) is None
}

proof fn lemma_literals()
    ensures
        "_index"@ != "_id"@,
        "_index"@ != "_routing"@,
        "_index"@ != "_source"@,
        "_id"@ != "_routing"@,
        "_id"@ != "_source"@,
        "_routing"@ != "_source"@,
{
    reveal_strlit("_index");
    reveal_strlit("_id");
    reveal_strlit("_routing");
    reveal_strlit("_source");
    assert("_index"@.len() == 6 && "_id"@.len() == 3);
    assert("_routing"@.len() == 8 && "_source"@.len() == 7);
}

/// Stripping the injected names from a document that they were added to gives the
/// client's document back, whatever values were injected.
pub proof fn law_strip_undoes_inject(
    doc: Map<Seq<char>, Tree>,
    added: Map<Seq<char>, Tree>,
    names: Seq<Seq<char>>,
)
    requires
        forall|k: Seq<char>| #[trigger] added.dom().contains(k) ==> names.contains(k),
        forall|k: Seq<char>| #[trigger] doc.dom().contains(k) ==> !names.contains(k),
    ensures
        stripped(Tree::Object(doc.union_prefer_right(added)), names) == Tree::Object(doc),
{
    let whole = doc.union_prefer_right(added);
    assert(whole.restrict(Set::new(|k: Seq<char>| !names.contains(k))) =~= doc);
}

/// A document that was stored with injected fields is read back as the client wrote
/// it: its own `_source`, under the logical index and id, with no `_routing`.
pub proof fn law_read_gives_back_what_was_written(
    envelope: Map<Seq<char>, Tree>,
    doc: Map<Seq<char>, Tree>,
    added: Map<Seq<char>, Tree>,
    index: Seq<char>,
    id: Seq<char>,
    names: Seq<Seq<char>>,
)
    requires
        envelope.dom().contains("_source"@),
        envelope["_source"@] == Tree::Object(doc.union_prefer_right(added)),
        forall|k: Seq<char>| #[trigger] added.dom().contains(k) ==> names.contains(k),
        forall|k: Seq<char>| #[trigger] doc.dom().contains(k) ==> !names.contains(k),
    ensures
        ({
            let view = found_view(Tree::Object(envelope), index, id, names);
            &&& field(view, "_source"@) == Some(Tree::Object(doc))
            &&& field(view, "_index"@) == Some(Tree::Str(index))
            &&& field(view, "_id"@) == Some(Tree::Str(id))
            &&& field(view, "_routing"@) is None
        }),
{
    lemma_literals();
    law_strip_undoes_inject(doc, added, names);
}

/// What an ingest splices into a document: each injected field, with its value.
pub open spec fn spliced(fields: Seq<InjectedField>, partition: Seq<char>) -> Map<Seq<char>, Tree>
    decreases fields.len(),
{
    if fields.len() == 0 {
        Map::empty()
    } else {
        spliced(fields.drop_last(), partition).insert(
            fields.last().name@,
            value_of(fields.last(), partition),
        )
    }
}

proof fn lemma_spliced_names(fields: Seq<InjectedField>, partition: Seq<char>, k: Seq<char>)
    requires
        spliced(fields, partition).dom().contains(k),
    ensures
        names(fields).contains(k),
    decreases fields.len(),
{
    let n = fields.len() - 1;
    if fields.last().name@ == k {
        assert(names(fields)[n] == k);
    } else {
        let init = fields.drop_last();
        lemma_spliced_names(init, partition, k);
        let i = choose|i: int| 0 <= i < names(init).len() && names(init)[i] == k;
        assert(names(fields)[i] == k);
    }
}

/// A document that is stored with the fields its decision splices in comes back from a read
/// under the same decision as it was written, named by its logical index and id and with no
/// `_routing`. It is for a document that uses none of the injected names.
pub proof fn law_write_then_read_gives_the_document(
    t: BodyTransform,
    partition: Seq<char>,
    shape: ReadShape,
    envelope: Map<Seq<char>, Tree>,
    doc: Map<Seq<char>, Tree>,
    index: Seq<char>,
    id: Seq<char>,
)
    requires
        shape.of(t),
        envelope.dom().contains("_source"@),
        envelope["_source"@] == Tree::Object(
            doc.union_prefer_right(spliced(injected(t), partition)),
        ),
        forall|k: Seq<char>| #[trigger]
            doc.dom().contains(k) ==> !names(injected(t)).contains(k),
    ensures
        ({
            let view = found_view(Tree::Object(envelope), index, id, views(shape.inject_names@));
            &&& field(view, "_source"@) == Some(Tree::Object(doc))
            &&& field(view, "_index"@) == Some(Tree::Str(index))
            &&& field(view, "_id"@) == Some(Tree::Str(id))
            &&& field(view, "_routing"@) is None
        }),
{
    let added = spliced(injected(t), partition);
    assert forall|k: Seq<char>| #[trigger] added.dom().contains(k) implies names(
        injected(t),
    ).contains(k) by {
        lemma_spliced_names(injected(t), partition, k);
    }
    law_read_gives_back_what_was_written(envelope, doc, added, index, id, names(injected(t)));
}

/// A document read by id shows the logical index and id, no `_routing` and no
/// injected field; every other member is as stored.
pub proof fn law_found_document_is_logical(
    m: Map<Seq<char>, Tree>,
    index: Seq<char>,
    id: Seq<char>,
    names: Seq<Seq<char>>,
)
    ensures
        ({
            let view = found_view(Tree::Object(m), index, id, names);
            &&& field(view, "_index"@) == Some(Tree::Str(index))
            &&& field(view, "_id"@) == Some(Tree::Str(id))
            &&& field(view, "_routing"@) is None
            &&& field(view, "_source"@) matches Some(source) ==> free_of(source, names)
            &&& forall|k: Seq<char>|
                k != "_index"@ && k != "_id"@ && k != "_routing"@ && k != "_source"@
                    ==> #[trigger] field(view, k) == field(Tree::Object(m), k)
        }),
{
    lemma_literals();
}

/// A hit shows the logical index, no `_routing` and no injected field; its `_id` is
/// the mapped one where there is one; every other member is as stored.
pub proof fn law_hit_is_logical(
    m: Map<Seq<char>, Tree>,
    index: Seq<char>,
    has_rule: bool,
    mapped: Option<Seq<char>>,
    names: Seq<Seq<char>>,
)
    ensures
        ({
            let view = hit_view(Tree::Object(m), index, has_rule, mapped, names);
            &&& field(view, "_index"@) == Some(Tree::Str(index))
            &&& field(view, "_routing"@) is None
            &&& has_rule && mapped is Some && text_of(field(Tree::Object(m), "_id"@)) is Some
                ==> field(view, "_id"@) == Some(Tree::Str(mapped->Some_0))
            &&& field(view, "_source"@) matches Some(source) ==> free_of(source, names)
            &&& forall|k: Seq<char>|
                k != "_index"@ && k != "_id"@ && k != "_routing"@ && k != "_source"@
                    ==> #[trigger] field(view, k) == field(Tree::Object(m), k)
        }),
{
    lemma_literals();
}

/// No hit of a shaped answer carries an injected field, and no hit is lost, added or
/// moved.
pub proof fn law_no_hit_leaks(
    hits: Seq<Tree>,
    index: Seq<char>,
    has_rule: bool,
    mapped: Seq<Option<Seq<char>>>,
    names: Seq<Seq<char>>,
    i: int,
)
    requires
        0 <= i < hits.len(),
    ensures
        hits_view(hits, index, has_rule, mapped, names).len() == hits.len(),
        ({
            let view = hits_view(hits, index, has_rule, mapped, names)[i];
            &&& view == hit_view(hits[i], index, has_rule, mapped_at(mapped, i), names)
            &&& hits[i] is Object && field(view, "_source"@) is Some ==> free_of(
                field(view, "_source"@)->Some_0,
                names,
            )
        }),
{
    if hits[i] is Object {
        law_hit_is_logical(hits[i]->Object_0, index, has_rule, mapped_at(mapped, i), names);
    }
}

/// Every top-level member of an answer but `hits` keeps its raw text, and of the
/// `hits` object every member but the hits themselves is kept.
pub proof fn law_siblings_are_untouched(
    top: Map<Seq<char>, Seq<char>>,
    envelope: Tree,
    index: Seq<char>,
    has_rule: bool,
    mapped: Seq<Option<Seq<char>>>,
    names: Seq<Seq<char>>,
    key: Seq<char>,
)
    requires
        key != "hits"@,
    ensures
        ({
            let view = answer_view(top, envelope, index, has_rule, mapped, names);
            &&& view.dom().contains(key) == top.dom().contains(key)
            &&& view[key] == top[key]
        }),
        field(envelope_view(envelope, index, has_rule, mapped, names), key) == field(envelope, key),
{
}

/// The streamed and the buffered path shape a hit alike: where a framed element
/// reads as the hit at position `i`, the bytes streamed for it print the hit that the
/// buffered path puts there.
pub proof fn law_streamed_hit_is_the_buffered_hit(
    shaper: HitShaper,
    raw: Seq<u8>,
    hits: Seq<Tree>,
    mapped: Seq<Option<Seq<char>>>,
    i: int,
)
    requires
        0 <= i < hits.len(),
        json::parsed(raw) == Some(hits[i]),
    ensures
        shaper.shaped(raw, mapped_at(mapped, i)) == json::written(
            hits_view(
                hits,
                shaper.logical_index@,
                shaper.shape.id_rule is Some,
                mapped,
                views(shaper.shape.inject_names@),
            )[i],
        ),
{
}

/// The elements with these texts in the place of their values.
pub open spec fn retold(es: Seq<Element>, texts: Seq<Seq<u8>>) -> Seq<Element> {
    Seq::new(es.len(), |i: int| Element { value: texts[i], ..es[i] })
}

/// The texts of values.
pub open spec fn printed(ts: Seq<Tree>) -> Seq<Seq<u8>> {
    ts.map_values(|t: Tree| json::written(t))
}

/// The ids of hits, where they are strings.
pub open spec fn ids_in(hits: Seq<Tree>) -> Seq<Option<Seq<char>>> {
    Seq::new(hits.len(), |i: int| text_of(field(hits[i], "_id"@)))
}

/// One more framed hit: its bytes around it are sent as they are, and it is sent as shaped
/// with the id at its position.
proof fn lemma_element_assembled(
    shaper: HitShaper,
    out: Seq<Out>,
    e: Element,
    end: u8,
    t: Tree,
    mapped: Seq<Option<Seq<char>>>,
)
    requires
        json::parsed(e.value) == Some(t),
    ensures
        ({
            let told = shaper.shaped(e.value, mapped_at(mapped, hit_count(out)));
            &&& shaper.assembled(out + e.shaped(end), mapped) == shaper.assembled(out, mapped)
                + (Element { value: told, ..e }).text(end)
            &&& hit_count(out + e.shaped(end)) == hit_count(out) + 1
            &&& piece_ids(out + e.shaped(end)) == piece_ids(out).push(text_of(field(t, "_id"@)))
        }),
{
    let told = shaper.shaped(e.value, mapped_at(mapped, hit_count(out)));
    let a = out + verbatim(e.before);
    lemma_verbatim_assembled(shaper, out, e.before, mapped);
    lemma_verbatim_ids(out, e.before);
    let b = a.push(Out::Hit(e.value));
    assert(b.drop_last() =~= a);
    let tail = e.after + seq![end];
    lemma_verbatim_assembled(shaper, b, tail, mapped);
    lemma_verbatim_ids(b, tail);
    assert(verbatim(tail) =~= verbatim(e.after) + seq![Out::Byte(end)]);
    assert(out + e.shaped(end) =~= b + verbatim(tail));
    let done = shaper.assembled(out, mapped);
    assert(done + e.before + told + tail =~= done + (Element { value: told, ..e }).text(end));
}

proof fn lemma_elements_assembled(
    shaper: HitShaper,
    lead: Seq<u8>,
    es: Seq<Element>,
    hits: Seq<Tree>,
    mapped: Seq<Option<Seq<char>>>,
)
    requires
        hits.len() >= es.len(),
        forall|i: int| 0 <= i < es.len() ==> json::parsed((#[trigger] es[i]).value) == Some(hits[i]),
    ensures
        ({
            let out = verbatim(lead) + elements_shaped(es);
            let shown = hits_view(
                hits,
                shaper.logical_index@,
                shaper.shape.id_rule is Some,
                mapped,
                views(shaper.shape.inject_names@),
            );
            &&& shaper.assembled(out, mapped) == lead + elements_text(retold(es, printed(shown)))
            &&& hit_count(out) == es.len()
            &&& piece_ids(out) == ids_in(hits.take(es.len() as int))
        }),
    decreases es.len(),
{
    let none = Seq::<Out>::empty();
    let out = verbatim(lead) + elements_shaped(es);
    let shown = hits_view(
        hits,
        shaper.logical_index@,
        shaper.shape.id_rule is Some,
        mapped,
        views(shaper.shape.inject_names@),
    );
    let texts = printed(shown);
    if es.len() == 0 {
        lemma_verbatim_assembled(shaper, none, lead, mapped);
        lemma_verbatim_ids(none, lead);
        assert(none + verbatim(lead) =~= out);
        assert(Seq::<u8>::empty() + lead =~= lead + elements_text(retold(es, texts)));
        assert(ids_in(hits.take(0)) =~= Seq::empty());
    } else {
        let n = es.len() - 1;
        let init = es.drop_last();
        let last = es[n];
        assert forall|i: int| 0 <= i < init.len() implies json::parsed((#[trigger] init[i]).value)
            == Some(hits[i]) by {
            assert(init[i] == es[i]);
        }
        lemma_elements_assembled(shaper, lead, init, hits, mapped);
        let before = verbatim(lead) + elements_shaped(init);
        lemma_element_assembled(shaper, before, last, 0x2c, hits[n], mapped);
        assert(out =~= before + last.shaped(0x2c));
        let told = retold(es, texts);
        assert(told.drop_last() =~= retold(init, texts));
        assert(told.last() == (Element { value: texts[n], ..last }));
        law_streamed_hit_is_the_buffered_hit(shaper, last.value, hits, mapped, n);
        assert(lead + elements_text(retold(init, texts)) + told.last().text(0x2c) =~= lead
            + elements_text(told));
        assert(ids_in(hits.take(n)).push(text_of(field(hits[n], "_id"@))) =~= ids_in(
            hits.take(n + 1),
        ));
    }
}

/// A streamed response is the response that came, with the text of each hit replaced by
/// that of the hit which the buffered path shows in its place; every other byte is as it
/// was. Both paths find the same ids to map. It is for a response whose framed elements
/// read as the hits that the buffered path finds.
pub proof fn law_streamed_response_shows_the_buffered_hits(
    shaper: HitShaper,
    lead: Lead,
    elements: Seq<Element>,
    last: Element,
    rest: Seq<u8>,
    top: Map<Seq<char>, Seq<char>>,
    envelope: Tree,
    hits: Seq<Tree>,
    mapped: Seq<Option<Seq<char>>>,
)
    requires
        lead.ok(),
        forall|i: int| 0 <= i < elements.len() ==> (#[trigger] elements[i]).ok(),
        last.ok(),
        hits.len() == elements.len() + 1,
        forall|i: int|
            0 <= i < elements.len() ==> json::parsed((#[trigger] elements[i]).value) == Some(hits[i]),
        json::parsed(last.value) == Some(hits.last()),
        json::raw_members(lead.text() + elements_text(elements) + last.text(0x5d) + rest) == Some(top),
        top.dom().contains("hits"@),
        envelope_of(top) == Some(envelope),
        field(envelope, "hits"@) == Some(Tree::Array(hits)),
    ensures
        ({
            let body = lead.text() + elements_text(elements) + last.text(0x5d) + rest;
            let out = Scan::start().output(body);
            let index = shaper.logical_index@;
            let rule = shaper.shape.id_rule is Some;
            let names = views(shaper.shape.inject_names@);
            let shown = hits_view(hits, index, rule, mapped, names);
            let told = retold(elements.push(last), printed(shown));
            &&& shaper.assembled(out, mapped) == lead.text() + elements_text(told.drop_last())
                + told.last().text(0x5d) + rest
            &&& shaped_answer(body, index, rule, mapped, names) == Some(
                json::raw_written(
                    top.insert(
                        "hits"@,
                        json::raw_of(json::with_field(envelope, "hits"@, Tree::Array(shown))),
                    ),
                ),
            )
            &&& piece_ids(out) == physical_ids(body)
        }),
{
    let body = lead.text() + elements_text(elements) + last.text(0x5d) + rest;
    let out = Scan::start().output(body);
    let n = elements.len() as int;
    let shown = hits_view(
        hits,
        shaper.logical_index@,
        shaper.shape.id_rule is Some,
        mapped,
        views(shaper.shape.inject_names@),
    );
    let texts = printed(shown);
    law_inner_hits_are_framed(lead, elements, last, rest);
    lemma_elements_assembled(shaper, lead.text(), elements, hits, mapped);
    let before = verbatim(lead.text()) + elements_shaped(elements);
    lemma_element_assembled(shaper, before, last, 0x5d, hits[n], mapped);
    law_streamed_hit_is_the_buffered_hit(shaper, last.value, hits, mapped, n);
    let whole = before + last.shaped(0x5d);
    lemma_verbatim_assembled(shaper, whole, rest, mapped);
    lemma_verbatim_ids(whole, rest);
    let told = retold(elements.push(last), texts);
    assert(told.drop_last() =~= retold(elements, texts));
    assert(told.last() == (Element { value: texts[n], ..last }));
    assert(ids_in(hits.take(n)).push(text_of(field(hits[n], "_id"@))) =~= ids_in(hits));
    assert(physical_ids(body) =~= ids_in(hits));
}

} // verus!
