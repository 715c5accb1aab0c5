//! Scroll and point-in-time cursors.
//!
//! A cursor id handed to a client is wrapped in a signed envelope that names the
//! cluster it lives on. Wrapping and unwrapping are done by the signer; this module
//! finds the ids in requests and answers and puts the other form in their place.

use crate::json::{self, field, text_of, tree, with_field, Members, Tree};
use crate::text::{contains, key_of, pair_key, split, split_at, views};
use crate::types::RequestCtx;
use vstd::prelude::*;
use vstd::string::*;

verus! {

/// A query parameter that is forwarded upstream. Everything else is dropped, so that
/// no parameter can work around the partition filter in the body.
pub open spec fn is_forwardable(key: Seq<char>) -> bool {
    key == "scroll"@ || key == "keep_alive"@
}

/// The pairs that are forwarded, in order.
pub open spec fn kept_pairs(pairs: Seq<Seq<char>>) -> Seq<Seq<char>>
    decreases pairs.len(),
{
    if pairs.len() == 0 {
        Seq::empty()
    } else {
        let before = kept_pairs(pairs.drop_last());
        if is_forwardable(key_of(pairs.last())) {
            before.push(pairs.last())
        } else {
            before
        }
    }
}

/// The pairs joined with `&`.
pub open spec fn joined(pairs: Seq<Seq<char>>) -> Seq<char>
    decreases pairs.len(),
{
    if pairs.len() == 0 {
        Seq::empty()
    } else if pairs.len() == 1 {
        pairs[0]
    } else {
        joined(pairs.drop_last()) + "&"@ + pairs.last()
    }
}

/// The query string to forward: the pairs that are forwarded, or none at all.
pub open spec fn forwarded_query(raw: Option<Seq<char>>) -> Option<Seq<char>> {
    match raw {
        Some(q) => {
            let kept = kept_pairs(split(q, '&'));
            if kept.len() == 0 {
                None
            } else {
                Some(joined(kept))
            }
        },
        None => None,
    }
}

/// Filters a query string down to the parameters that are forwarded, each pair as it
/// was written.
pub fn forwardable_query(raw: Option<&str>) -> (r: Option<String>)
    ensures
        crate::types::opt(r) == forwarded_query(
            match raw {
                Some(q) => Some(q@),
                None => None,
            },
        ),
{
    let q = match raw {
        Some(q) => q,
        None => {
            return None;
        },
    };
    let pairs = split_at(q, '&');
    let mut allowed: Vec<String> = Vec::new();
    allowed.push("scroll".to_owned());
    allowed.push("keep_alive".to_owned());
    assert(views(allowed@) =~= seq!["scroll"@, "keep_alive"@]);
    let mut any = false;
    let mut out = String::new();
    let mut i: usize = 0;
    let ghost all = split(q@, '&');
    while i < pairs.len()
        invariant
            views(allowed@) == seq!["scroll"@, "keep_alive"@],
            all == split(q@, '&'),
            views(pairs@) == all,
            0 <= i <= pairs@.len(),
            any == (kept_pairs(all.take(i as int)).len() > 0),
            out@ == joined(kept_pairs(all.take(i as int))),
        decreases pairs@.len() - i,
    {
        let ghost kept = kept_pairs(all.take(i as int));
        assert(pairs@.len() == all.len());
        assert(all[i as int] == pairs@[i as int]@);
        assert(all.take(i + 1).drop_last() =~= all.take(i as int));
        let key = pair_key(pairs[i].as_str());
        let wanted = contains(allowed.as_slice(), key.as_str());
        proof {
            let a = views(allowed@);
            assert(a[0] == "scroll"@ && a[1] == "keep_alive"@);
            if is_forwardable(key@) {
                assert(a.contains(key@));
            }
        }
        if wanted {
            if any {
                out.append("&");
            }
            out.append(pairs[i].as_str());
            proof {
                let grown = kept.push(all[i as int]);
                assert(grown.drop_last() =~= kept);
                assert(out@ =~= joined(grown));
            }
            any = true;
        }
        i += 1;
    }
    assert(pairs@.len() == all.len());
    assert(all.take(i as int) =~= all);
    if any {
        Some(out)
    } else {
        None
    }
}

/// `needle` occurs in `hay`.
pub open spec fn occurs(hay: Seq<u8>, needle: Seq<u8>) -> bool {
    exists|i: int|
        0 <= i <= hay.len() - needle.len() && #[trigger] hay.subrange(i, i + needle.len()) == needle
}

/// Whether `needle` occurs in `hay`.
fn occurs_in(hay: &[u8], needle: &[u8]) -> (r: bool)
    ensures
        r == occurs(hay@, needle@),
{
    let n = needle.len();
    let mut i: usize = 0;
    while hay.len() - i >= n
        invariant
            n == needle@.len(),
            0 <= i <= hay@.len(),
            forall|k: int|
                0 <= k < i && k + n <= hay@.len() ==> #[trigger] hay@.subrange(k, k + n) != needle@,
        decreases hay@.len() - i,
    {
        let mut j: usize = 0;
        while j < n && hay[i + j] == needle[j]
            invariant
                n == needle@.len(),
                i + n <= hay.len(),
                0 <= j <= n,
                forall|k: int| 0 <= k < j ==> hay@[i + k] == needle@[k],
            decreases n - j,
        {
            j += 1;
        }
        if j == n {
            assert(hay@.subrange(i as int, i + n) =~= needle@);
            return true;
        }
        assert(hay@.subrange(i as int, i + n)[j as int] != needle@[j as int]);
        i += 1;
    }
    false
}

/// An answer mentions a scroll id at all: a cheap test that spares plain searches the
/// parse.
pub open spec fn mentions_scroll_id(body: Seq<u8>) -> bool {
    occurs(body, vstd::utf8::encode_utf8("_scroll_id"@))
}

/// Whether an answer mentions a scroll id at all.
pub fn has_scroll_id(body: &[u8]) -> (r: bool)
    ensures
        r == mentions_scroll_id(body@),
{
    occurs_in(body, "_scroll_id".as_bytes())
}

/// The text member `key` of a JSON text.
pub open spec fn text_in(body: Seq<u8>, key: Seq<char>) -> Option<Seq<char>> {
    match json::parsed(body) {
        Some(t) => text_of(field(t, key)),
        None => None,
    }
}

/// The text with its text member `key` replaced; any other text is unchanged.
pub open spec fn text_replaced(body: Seq<u8>, key: Seq<char>, value: Seq<char>) -> Seq<u8> {
    match json::parsed(body) {
        Some(t) => if text_of(field(t, key)) is Some {
            json::written(with_field(t, key, Tree::Str(value)))
        } else {
            body
        },
        None => body,
    }
}

/// Reads the text member `key`.
fn find_text(body: &[u8], key: &str) -> (r: Option<String>)
    ensures
        crate::types::opt(r) == text_in(body@, key@),
{
    match json::parse(body) {
        Some(v) => match json::field_text(&v, key) {
            Some(s) => Some(s.to_owned()),
            None => None,
        },
        None => None,
    }
}

/// Replaces the text member `key`, where there is one.
fn replace_text(body: Vec<u8>, key: &str, value: &str) -> (r: Vec<u8>)
    ensures
        r@ == text_replaced(body@, key@, value@),
{
    let v = match json::parse(body.as_slice()) {
        Some(v) => v,
        None => {
            return body;
        },
    };
    if json::field_text(&v, key).is_none() {
        return body;
    }
    let replaced = match Members::from_value(v) {
        Ok(object) => object.with(key, json::text(value)).into_value(),
        Err(other) => other,
    };
    match json::print(&replaced) {
        Some(text) => text,
        None => body,
    }
}

/// The scroll id of an answer, where it carries one.
pub open spec fn scroll_id(body: Seq<u8>) -> Option<Seq<char>> {
    if mentions_scroll_id(body) {
        text_in(body, "_scroll_id"@)
    } else {
        None
    }
}

/// The scroll id of an answer: what the signer is to wrap before
/// [`wrap_scroll_id_in_response`].
pub fn scroll_id_in_response(body: &[u8]) -> (r: Option<String>)
    ensures
        crate::types::opt(r) == scroll_id(body@),
{
    if !has_scroll_id(body) {
        return None;
    }
    find_text(body, "_scroll_id")
}

/// The answer with its scroll id replaced by the wrapped one. An answer that is no
/// JSON text or has no scroll id is unchanged.
pub fn wrap_scroll_id_in_response(body: Vec<u8>, wrapped: &str) -> (r: Vec<u8>)
    ensures
        r@ == text_replaced(body@, "_scroll_id"@, wrapped@),
{
    replace_text(body, "_scroll_id", wrapped)
}

/// The point-in-time id of an answer, where it carries one.
pub fn pit_id_in_response(body: &[u8]) -> (r: Option<String>)
    ensures
        crate::types::opt(r) == text_in(body@, "pit_id"@),
{
    find_text(body, "pit_id")
}

/// The answer with its `pit_id` replaced by the wrapped one. An answer that is no
/// JSON text or has no `pit_id` is unchanged.
pub fn wrap_pit_id_in_response(body: Vec<u8>, wrapped: &str) -> (r: Vec<u8>)
    ensures
        r@ == text_replaced(body@, "pit_id"@, wrapped@),
{
    replace_text(body, "pit_id", wrapped)
}

/// The member that holds the id in the answer to a point-in-time create: `pit_id`, or
/// `id` where there is no text `pit_id`.
pub open spec fn created_key(body: Seq<u8>) -> Seq<char> {
    if text_in(body, "pit_id"@) is Some {
        "pit_id"@
    } else {
        "id"@
    }
}

/// The id in the answer to a point-in-time create: what the signer is to wrap before
/// [`wrap_created_pit`].
pub fn created_pit_id(body: &[u8]) -> (r: Option<String>)
    ensures
        crate::types::opt(r) == text_in(body@, created_key(body@)),
{
    match find_text(body, "pit_id") {
        Some(id) => Some(id),
        None => find_text(body, "id"),
    }
}

/// The answer to a point-in-time create with its id replaced by the wrapped one.
pub fn wrap_created_pit(body: Vec<u8>, wrapped: &str) -> (r: Vec<u8>)
    ensures
        r@ == text_replaced(body@, created_key(body@), wrapped@),
{
    if find_text(body.as_slice(), "pit_id").is_some() {
        replace_text(body, "pit_id", wrapped)
    } else {
        replace_text(body, "id", wrapped)
    }
}

/// The wrapped point-in-time id of a search body: the text `id` of its `pit` member.
pub open spec fn pit_of(body: Seq<u8>) -> Option<Seq<char>> {
    match json::parsed(body) {
        Some(t) => match field(t, "pit"@) {
            Some(pit) => text_of(field(pit, "id"@)),
            None => None,
        },
        None => None,
    }
}

/// The wrapped point-in-time id of a search body, which pins the search to the
/// cluster the id names.
pub fn pit_id_in_body(body: &[u8]) -> (r: Option<String>)
    ensures
        crate::types::opt(r) == pit_of(body@),
{
    let v = match json::parse(body) {
        Some(v) => v,
        None => {
            return None;
        },
    };
    match json::get(&v, "pit") {
        Some(pit) => match json::field_text(pit, "id") {
            Some(id) => Some(id.to_owned()),
            None => None,
        },
        None => None,
    }
}

/// A search body with the `id` of its `pit` object set; one without such an object
/// is unchanged.
pub open spec fn pit_rewritten(body: Seq<u8>, unwrapped: Seq<char>) -> Seq<u8> {
    match json::parsed(body) {
        Some(t) => match field(t, "pit"@) {
            Some(Tree::Object(pit)) => json::written(
                with_field(t, "pit"@, Tree::Object(pit.insert("id"@, Tree::Str(unwrapped)))),
            ),
            _ => body,
        },
        None => body,
    }
}

/// Puts the real point-in-time id into a search body; the query is not touched.
pub fn rewrite_pit_id(body: Vec<u8>, real_id: &str) -> (r: Vec<u8>)
    ensures
        r@ == pit_rewritten(body@, real_id@),
{
    let v = match json::parse(body.as_slice()) {
        Some(v) => v,
        None => {
            return body;
        },
    };
    let object = match Members::from_value(v) {
        Ok(object) => object,
        Err(_) => {
            return body;
        },
    };
    let (pit, rest) = object.take("pit");
    let pit = match pit {
        Some(pit) => pit,
        None => {
            return body;
        },
    };
    let pit = match Members::from_value(pit) {
        Ok(pit) => pit,
        Err(_) => {
            return body;
        },
    };
    let pinned = rest.with("pit", pit.with("id", json::text(real_id)).into_value());
    assert(pinned@ =~= object@.insert(
        "pit"@,
        Tree::Object(pit@.insert("id"@, Tree::Str(real_id@))),
    ));
    match json::print(&pinned.into_value()) {
        Some(text) => text,
        None => body,
    }
}

/// The texts among the elements of an array.
pub open spec fn texts_of(a: Seq<Tree>) -> Seq<Seq<char>>
    decreases a.len(),
{
    if a.len() == 0 {
        Seq::empty()
    } else {
        match a.last() {
            Tree::Str(s) => texts_of(a.drop_last()).push(s),
            _ => texts_of(a.drop_last()),
        }
    }
}

/// The wrapped ids of a point-in-time close: the texts of the `pit_id` array.
pub open spec fn closed_pits(body: Seq<u8>) -> Option<Seq<Seq<char>>> {
    match json::parsed(body) {
        Some(t) => match field(t, "pit_id"@) {
            Some(Tree::Array(a)) => if texts_of(a).len() > 0 {
                Some(texts_of(a))
            } else {
                None
            },
            _ => None,
        },
        None => None,
    }
}

/// The wrapped ids of a point-in-time close, or none where the body has no `pit_id`
/// array with a text in it.
pub fn pit_ids_in_delete_body(body: &[u8]) -> (r: Option<Vec<String>>)
    ensures
        match (r, closed_pits(body@)) {
            (Some(ids), Some(want)) => views(ids@) == want,
            (None, None) => true,
            _ => false,
        },
{
    let v = match json::parse(body) {
        Some(v) => v,
        None => {
            return None;
        },
    };
    let all = match json::get(&v, "pit_id") {
        Some(member) => match json::as_array(member) {
            Some(all) => all,
            None => {
                return None;
            },
        },
        None => {
            return None;
        },
    };
    let ghost trees = json::trees(all@);
    let mut ids: Vec<String> = Vec::new();
    let mut i: usize = 0;
    assert(views(ids@) =~= texts_of(trees.take(0)));
    while i < all.len()
        invariant
            trees == json::trees(all@),
            0 <= i <= all@.len(),
            views(ids@) == texts_of(trees.take(i as int)),
        decreases all@.len() - i,
    {
        assert(trees.take(i + 1).drop_last() =~= trees.take(i as int));
        assert(trees[i as int] == tree(all@[i as int]));
        if let Some(id) = json::as_str(&all[i]) {
            let ghost before = ids@;
            ids.push(id.to_owned());
            assert(views(ids@) =~= views(before).push(id@));
        }
        i += 1;
    }
    assert(trees.take(i as int) =~= trees);
    assert(ids@.len() == views(ids@).len());
    if ids.len() > 0 {
        Some(ids)
    } else {
        None
    }
}

/// A request on an existing cursor: its wrapped id, where it goes, and which member
/// of its body takes the real id.
#[derive(Debug)]
pub struct CursorRequest {
    pub wrapped: String,
    pub upstream_path: &'static str,
    pub id_field: &'static str,
}

/// The wrapped id of a scroll request: the path's id, else the body's `scroll_id`.
pub open spec fn scroll_of(ctx: RequestCtx) -> Option<Seq<char>> {
    match ctx.doc_id {
        Some(id) => Some(id@),
        None => text_in(ctx.body@, "scroll_id"@),
    }
}

/// Recognises a scroll request: continue or clear.
pub fn cursor_request(ctx: &RequestCtx) -> (r: Option<CursorRequest>)
    ensures
        match (r, scroll_of(*ctx)) {
            (Some(req), Some(id)) => req.wrapped@ == id && req.upstream_path@
                == "/_search/scroll"@ && req.id_field@ == "scroll_id"@,
            (None, None) => true,
            _ => false,
        },
{
    let wrapped = match &ctx.doc_id {
        Some(id) => id.clone(),
        None => match find_text(ctx.body.as_slice(), "scroll_id") {
            Some(id) => id,
            None => {
                return None;
            },
        },
    };
    Some(CursorRequest { wrapped, upstream_path: "/_search/scroll", id_field: "scroll_id" })
}

/// Recognises the close of one point in time, which names it in the body's `id`.
pub fn pit_close_request(ctx: &RequestCtx) -> (r: Option<CursorRequest>)
    ensures
        match (r, text_in(ctx.body@, "id"@)) {
            (Some(req), Some(id)) => req.wrapped@ == id && req.upstream_path@ == "/_pit"@
                && req.id_field@ == "id"@,
            (None, None) => true,
            _ => false,
        },
{
    match find_text(ctx.body.as_slice(), "id") {
        Some(wrapped) => Some(CursorRequest { wrapped, upstream_path: "/_pit", id_field: "id" }),
        None => None,
    }
}

/// The body sent upstream for a request on a cursor: the client's, where it is an
/// object, with the real id in its place.
pub open spec fn cursor_body(client: Seq<u8>, id_field: Seq<char>, unwrapped: Seq<char>) -> Seq<u8> {
    let base = match json::parsed(client) {
        Some(Tree::Object(m)) => m,
        _ => Map::empty(),
    };
    json::written(Tree::Object(base.insert(id_field, Tree::Str(unwrapped))))
}

/// Builds the body sent upstream for a request on a cursor.
pub fn rewrite_cursor_body(client_body: &[u8], id_field: &str, real_id: &str) -> (r: Vec<u8>)
    ensures
        r@ == cursor_body(client_body@, id_field@, real_id@),
{
    let base = match json::parse(client_body) {
        Some(v) => match Members::from_value(v) {
            Ok(object) => object,
            Err(_) => Members::new(),
        },
        None => Members::new(),
    };
    match json::print(&base.with(id_field, json::text(real_id)).into_value()) {
        Some(body) => body,
        None => Vec::new(),
    }
}

/// Only `scroll` and `keep_alive` pairs survive, each as it was written.
pub proof fn law_only_cursor_params_are_forwarded(pairs: Seq<Seq<char>>)
    ensures
        forall|i: int|
            0 <= i < kept_pairs(pairs).len() ==> is_forwardable(
                key_of(#[trigger] kept_pairs(pairs)[i]),
            ) && pairs.contains(kept_pairs(pairs)[i]),
    decreases pairs.len(),
{
    if pairs.len() > 0 {
        let init = pairs.drop_last();
        law_only_cursor_params_are_forwarded(init);
        assert forall|i: int| 0 <= i < kept_pairs(pairs).len() implies is_forwardable(
            key_of(#[trigger] kept_pairs(pairs)[i]),
        ) && pairs.contains(kept_pairs(pairs)[i]) by {
            if i < kept_pairs(init).len() {
                assert(kept_pairs(pairs)[i] == kept_pairs(init)[i]);
                let j = choose|j: int| 0 <= j < init.len() && init[j] == kept_pairs(init)[i];
                assert(pairs[j] == kept_pairs(pairs)[i]);
            } else {
                assert(pairs[pairs.len() - 1] == kept_pairs(pairs)[i]);
            }
        }
    }
}

} // verus!
