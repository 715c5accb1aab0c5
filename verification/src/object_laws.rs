//! What the small parts are for, said of the calls themselves: the members of a JSON object,
//! the headers of a request, the places of a request's parts.

use crate::bench_support::{buffered, hits_text, reference_id, response};
use crate::cursor_laws::{mentions, reads};
use crate::endpoints::next_page_id;
use crate::error::{ErrorCode, RequestError, SpiError, SpiFault};
use crate::json::{strip_fields, tree, Members, Object, Tree};
use crate::mget::{Fetch, MultiGet};
use crate::msearch::{MultiSearch, Search};
use crate::pipeline::PipelineResponse;
use crate::read::{hit_ids, shape_hits, ReadShape};
use crate::text::{decimal_text, views};
use crate::types::{
    eq_ignoring_case, first_named, header, law_only_capitals_are_ignored,
    law_the_first_header_of_a_name_counts, letters_match, opt, opts, CursorOutcome, EndpointKind,
};
use crate::view_laws::text_in_option;
use serde_json::Value;
use vstd::prelude::*;
use vstd::utf8::encode_utf8;

verus! {

/// A member that was set is found; one that was taken out is not; no other is touched.
pub proof fn law_members_are_set_and_taken_one_by_one(
    empty: Object,
    m: Object,
    key: &str,
    x: Value,
    other: Seq<char>,
    found: Option<&Value>,
    set: Object,
    left: Object,
    taken: (Option<Value>, Object),
)
    requires
        call_ensures(Members::<Value>::new, (), empty),
        call_ensures(Members::<Value>::get, (&m, key), found),
        call_ensures(Members::<Value>::with, (m, key, x), set),
        call_ensures(Members::<Value>::without, (m, key), left),
        call_ensures(Members::<Value>::take, (m, key), taken),
    ensures
        !empty@.dom().contains(other),
        found is Some <==> m@.dom().contains(key@),
        found matches Some(v) ==> tree(*v) == m@[key@],
        set@.dom().contains(key@) && set@[key@] == tree(x),
        !left@.dom().contains(key@) && !taken.1@.dom().contains(key@),
        taken.0 is Some <==> m@.dom().contains(key@),
        taken.0 matches Some(v) ==> tree(v) == m@[key@],
        other != key@ ==> {
            &&& set@.dom().contains(other) == m@.dom().contains(other)
            &&& left@.dom().contains(other) == m@.dom().contains(other)
            &&& taken.1@.dom().contains(other) == m@.dom().contains(other)
            &&& m@.dom().contains(other) ==> set@[other] == m@[other] && left@[other] == m@[other]
                && taken.1@[other] == m@[other]
        },
{
}

/// An object is its members, there and back; anything else stays what it is.
pub proof fn law_an_object_is_its_members(
    v: Value,
    r: Result<Object, Value>,
    m: Object,
    back: Value,
)
    requires
        call_ensures(Members::<Value>::from_value, (v,), r),
        call_ensures(Members::<Value>::into_value, (m,), back),
    ensures
        r is Ok <==> tree(v) is Object,
        r matches Ok(o) ==> tree(v) == Tree::Object(o@),
        r matches Err(w) ==> tree(w) == tree(v),
        tree(back) == Tree::Object(m@),
{
}

/// Stripping takes out the members that are named and no others; what is no object stays.
pub proof fn law_only_named_members_are_stripped(
    v: Value,
    names: &[String],
    key: Seq<char>,
    r: Value,
)
    requires
        call_ensures(strip_fields, (v, names), r),
    ensures
        !(tree(v) is Object) ==> tree(r) == tree(v),
        tree(v) matches Tree::Object(m) ==> (tree(r) matches Tree::Object(left) && {
            let named = exists|i: int| 0 <= i < names@.len() && (#[trigger] names@[i])@ == key;
            &&& left.dom().contains(key) <==> m.dom().contains(key) && !named
            &&& left.dom().contains(key) ==> left[key] == m[key]
        }),
{
    let all = views(names@);
    assert(all.len() == names@.len());
    if all.contains(key) {
        let i = choose|i: int| 0 <= i < all.len() && all[i] == key;
        assert(names@[i]@ == key);
    }
    if exists|i: int| 0 <= i < names@.len() && (#[trigger] names@[i])@ == key {
        let i = choose|i: int| 0 <= i < names@.len() && (#[trigger] names@[i])@ == key;
        assert(all[i] == key);
    }
}

/// A header is found by its name, whatever the case of its letters, and the first one counts.
pub proof fn law_a_header_is_found_by_name(
    headers: &[(String, String)],
    name: &str,
    i: int,
    a: &str,
    b: &str,
    same: bool,
    r: Option<&str>,
)
    requires
        call_ensures(header, (headers, name), r),
        call_ensures(eq_ignoring_case, (a, b), same),
    ensures
        same <==> letters_match(a@, b@),
        first_named(headers@, name@, i) ==> (r matches Some(v) && v@ == headers@[i].1@),
        (forall|j: int|
            0 <= j < headers@.len() ==> !letters_match((#[trigger] headers@[j]).0@, name@)) ==> r is None,
{
    law_only_capitals_are_ignored(a@, b@);
    law_the_first_header_of_a_name_counts(headers@, name@);
}

/// A response is what it is made of.
pub proof fn law_a_response_is_what_it_is_made_of(
    status: u16,
    body: Vec<u8>,
    content_type: Option<String>,
    endpoint: EndpointKind,
    plain: PipelineResponse,
    typed: PipelineResponse,
    e: SpiError,
)
    requires
        call_ensures(PipelineResponse::json, (status, body), plain),
        call_ensures(PipelineResponse::with_content_type, (plain, content_type), typed),
        call_ensures(SpiError::unsupported, (endpoint,), e),
    ensures
        plain.status == status && plain.body@ == body@ && plain.content_type is None,
        typed.status == status && typed.body@ == body@ && typed.content_type == content_type,
        e.fault == (SpiFault::UnsupportedEndpoint { endpoint }),
        e.code == ErrorCode::UnsupportedEndpoint && !e.retryable,
{
}

/// The cursor for the next page is read from the answer where it mentions one.
pub proof fn law_the_next_page_is_read_from_the_answer(outcome: &CursorOutcome, r: Option<String>)
    requires
        call_ensures(next_page_id, (outcome,), r),
    ensures
        r matches Some(s) ==> crate::cursor_laws::says(outcome.body@, "_scroll_id"@, s@),
        mentions(outcome.body@) ==> reads(outcome.body@, "_scroll_id"@, text_in_option(r)),
        !mentions(outcome.body@) ==> r is None,
{
    let scroll = crate::cursor::scroll_id(outcome.body@);
    assert(opt(r) == text_in_option(r));
    assert(crate::cursor::mentions_scroll_id(outcome.body@) == mentions(outcome.body@)) by {
        crate::cursor_laws::lemma_mentions(outcome.body@);
    }
}

/// A document that is to be fetched waits in its own place; one that failed is answered
/// there. No other place is touched.
pub proof fn law_a_prepared_document_waits_in_its_place(
    all: MultiGet,
    ordinal: usize,
    outcome: Result<Fetch, Value>,
    other: int,
    r: MultiGet,
    f: Option<&Fetch>,
)
    requires
        ordinal < all.docs().len(),
        ordinal < all.waiting().len(),
        call_ensures(MultiGet::prepared, (all, ordinal, outcome), r),
        call_ensures(MultiGet::fetch, (&r, ordinal), f),
    ensures
        r.docs().len() == all.docs().len() && r.waiting().len() == all.waiting().len(),
        outcome matches Ok(x) ==> f == Some(&x) && r.docs() == all.docs(),
        outcome matches Err(doc) ==> r.docs()[ordinal as int] == tree(doc) && r.waiting()
            == all.waiting(),
        0 <= other < all.docs().len() && other != ordinal ==> r.docs()[other] == all.docs()[other],
        0 <= other < all.waiting().len() && other != ordinal ==> r.waiting()[other]
            == all.waiting()[other],
{
}

/// A search that is to be run waits in its own place; one that failed is answered there. No
/// other place is touched.
pub proof fn law_a_prepared_search_waits_in_its_place(
    all: MultiSearch,
    ordinal: usize,
    outcome: Result<Search, Vec<u8>>,
    other: int,
    r: MultiSearch,
    s: Option<&Search>,
)
    requires
        ordinal < all.entries().len(),
        ordinal < all.waiting().len(),
        call_ensures(MultiSearch::prepared, (all, ordinal, outcome), r),
        call_ensures(MultiSearch::search, (&r, ordinal), s),
    ensures
        r.entries().len() == all.entries().len() && r.waiting().len() == all.waiting().len(),
        outcome matches Ok(x) ==> s == Some(&x) && r.entries() == all.entries(),
        outcome matches Err(entry) ==> r.entries()[ordinal as int] == entry@ && r.waiting()
            == all.waiting(),
        0 <= other < all.entries().len() && other != ordinal ==> r.entries()[other]
            == all.entries()[other],
        0 <= other < all.waiting().len() && other != ordinal ==> r.waiting()[other]
            == all.waiting()[other],
{
}

/// A physical id of the partition `acme` gives back the logical id it was made of, and no
/// other text is one.
pub proof fn law_a_reference_id_is_recovered(logical: Seq<char>, p: Seq<char>)
    ensures
        reference_id(Some("acme:"@ + logical)) == Some(logical),
        reference_id(None) is None,
        reference_id(Some(p)) matches Some(l) ==> p == "acme:"@ + l,
{
    let whole = "acme:"@ + logical;
    assert("acme:"@ =~= whole.subrange(0, "acme:"@.len() as int));
    assert(whole.skip("acme:"@.len() as int) =~= logical);
    if let Some(l) = reference_id(Some(p)) {
        assert(p =~= "acme:"@ + l);
    }
}

/// The response for measurements has as many hits as were asked for, each after the other,
/// and an aggregation of the size that was asked for.
pub proof fn law_a_measured_response_has_its_size(
    n: usize,
    size: usize,
    filler: Seq<char>,
    r: Vec<u8>,
)
    requires
        call_ensures(response, (n, size), r),
        filler.len() == size,
        forall|i: int| 0 <= i < size ==> #[trigger] filler[i] == 'x',
    ensures
        r@ == encode_utf8(
            "{\"took\":5,\"hits\":{\"total\":{\"value\":"@ + decimal_text(n as nat) + "},\"hits\":["@
                + hits_text(n as nat) + "]},\"aggregations\":{\"blob\":\""@ + filler + "\"}}"@,
        ),
        hits_text(0).len() == 0,
        hits_text(n as nat + 1) == hits_text(n as nat) + (if n > 0 {
            ","@
        } else {
            Seq::empty()
        }) + "{\"_index\":\"shared\",\"_id\":\"acme:"@ + decimal_text(n as nat)
            + "\",\"_routing\":\"acme\",\"_source\":{\"_tenant\":\"acme\",\"msg\":\"record number "@
            + decimal_text(n as nat) + "\"}}"@,
{
    assert(crate::bench_support::filler(size as nat) =~= filler);
}

/// Shaping a response for measurements is shaping it for the index `orders`, with the ids of
/// its hits mapped back one by one and `_tenant` stripped.
pub proof fn law_measured_shaping_is_the_real_one(
    body: &[u8],
    ids: Vec<Option<String>>,
    mapped: &[Option<String>],
    index: &str,
    shape: &ReadShape,
    shaped: Result<Vec<u8>, RequestError>,
    r: Vec<u8>,
)
    requires
        call_ensures(hit_ids, (body,), ids),
        mapped@.len() == ids@.len(),
        forall|i: int|
            0 <= i < ids@.len() ==> text_in_option(#[trigger] mapped@[i]) == reference_id(
                text_in_option(ids@[i]),
            ),
        index@ == "orders"@,
        shape.id_rule is Some,
        shape.inject_names@.len() == 1,
        shape.inject_names@[0]@ == "_tenant"@,
        call_ensures(shape_hits, (body, index, shape, mapped), shaped),
        call_ensures(buffered, (body,), r),
    ensures
        shaped matches Ok(s) ==> r@ == s@,
        shaped is Err ==> r@.len() == 0,
{
    let physical = opts(ids@);
    assert(views(shape.inject_names@) =~= seq!["_tenant"@]);
    assert forall|i: int| 0 <= i < ids@.len() implies opts(mapped@)[i] == reference_id(
        physical[i],
    ) by {
        assert(opts(mapped@)[i] == text_in_option(mapped@[i]));
        assert(physical[i] == text_in_option(ids@[i]));
    }
    assert(opts(mapped@) =~= crate::bench_support::reference_ids(physical));
}

} // verus!
