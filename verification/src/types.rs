//! The plain values a request is made of: the request itself, the routing decision
//! taken for it, the operations sent to a cluster and what comes back.

use crate::text;
use serde_json::Value;
use vstd::prelude::*;

verus! {

/// The class of endpoint a request was classified as.
#[derive(Clone, Copy, Debug, PartialEq, Eq, Structural)]
pub enum EndpointKind {
    IngestDoc,
    IngestBulk,
    GetById,
    MultiGet,
    DeleteById,
    DeleteByQuery,
    Search,
    MultiSearch,
    Count,
    Cursor,
    Admin,
    Unknown,
}

/// The wire protocol spoken to a cluster.
#[derive(Clone, Copy, Debug, PartialEq, Eq, Structural)]
pub enum Protocol {
    Http1,
    Http2,
    Grpc,
}

/// Where a partition is in a migration between clusters.
#[derive(Clone, Copy, Debug, PartialEq, Eq, Structural)]
pub enum MigrationPhase {
    Settled,
    Draining,
    Cutover,
}

/// An authenticated, classified request.
#[derive(Debug)]
pub struct RequestCtx {
    pub request_id: String,
    pub principal: String,
    pub method: String,
    pub endpoint: EndpointKind,
    pub protocol: Protocol,
    /// The index the client named; empty where it named none.
    pub logical_index: String,
    pub headers: Vec<(String, String)>,
    pub body: Vec<u8>,
    /// The document id of a by-id path.
    pub doc_id: Option<String>,
    /// The query string without the `?`.
    pub query: Option<String>,
    pub path: String,
}

/// The distributed-tracing context sent along with an upstream request.
#[derive(Debug)]
pub struct TraceContext {
    pub traceparent: String,
    pub tracestate: Option<String>,
}

/// A physical index on a cluster.
#[derive(Debug)]
pub struct Target {
    pub cluster: String,
    pub index: String,
    /// The cluster's base URL, where the placement carries it.
    pub endpoint: Option<String>,
}

/// Where the value of an injected field comes from.
#[derive(Debug)]
pub enum InjectedValue {
    PartitionId,
    Constant(Value),
    FromPrincipal(String),
    FromHeader(String),
}

/// A field written into every stored document and stripped from every hit.
#[derive(Debug)]
pub struct InjectedField {
    pub name: String,
    pub value: InjectedValue,
}

/// How the physical `_id` is built, and whether `_routing` is set.
#[derive(Debug)]
pub struct DocIdRule {
    pub template: String,
    pub set_routing: bool,
}

/// What is done to a document on its way in.
#[derive(Debug)]
pub enum BodyTransform {
    /// Forwarded as it is.
    Verbatim,
    Inject(Vec<InjectedField>),
    ConstructId(DocIdRule),
    Both { inject: Vec<InjectedField>, id: DocIdRule },
}

/// A routing decision, stamped with the placement epoch it was taken at.
#[derive(Debug)]
pub struct RouteDecision {
    pub target: Target,
    pub upstream_protocol: Protocol,
    pub body_transform: BodyTransform,
    pub epoch: u64,
}

/// A request's partition and the decision for it.
#[derive(Debug)]
pub struct Resolved {
    pub partition: String,
    pub decision: RouteDecision,
    pub migration: MigrationPhase,
}

/// One document operation, in physical terms.
#[derive(Debug)]
#[allow(inconsistent_fields)]
pub enum DocOp {
    Index { id: Option<String>, routing: Option<String>, body: Vec<u8> },
    Create { id: Option<String>, routing: Option<String>, body: Vec<u8> },
    Update { id: String, routing: Option<String>, body: Vec<u8> },
    Delete { id: String, routing: Option<String> },
}

/// A document operation bound for one target.
#[derive(Debug)]
pub struct WriteOp {
    pub target: Target,
    pub doc: DocOp,
    pub epoch: u64,
    pub protocol: Protocol,
}

/// The outcome of one document operation.
#[derive(Debug)]
pub struct OpResult {
    /// The physical id.
    pub id: String,
    pub status: u16,
    pub created: bool,
}

/// A cluster's acknowledgement of a batch, one result per operation.
#[derive(Debug)]
pub struct WriteAck {
    pub results: Vec<OpResult>,
    pub pool_reuse: bool,
}

/// A fetch of one document, in physical terms.
#[derive(Debug)]
pub struct ReadOp {
    pub target: Target,
    pub id: String,
    pub routing: Option<String>,
    pub protocol: Protocol,
}

/// What came back for a fetch.
#[derive(Debug)]
pub struct ReadOutcome {
    pub status: u16,
    pub found: bool,
    pub body: Vec<u8>,
    pub pool_reuse: bool,
}

/// A search or count on one target.
#[derive(Debug)]
pub struct SearchOp {
    pub target: Target,
    pub body: Vec<u8>,
    /// The query string to forward, if any.
    pub query: Option<String>,
    pub protocol: Protocol,
}

/// What came back for a search.
#[derive(Debug)]
pub struct SearchOutcome {
    pub status: u16,
    pub body: Vec<u8>,
    pub pool_reuse: bool,
}

/// What came back for a count.
#[derive(Debug)]
pub struct CountOutcome {
    pub status: u16,
    pub count: u64,
    pub pool_reuse: bool,
}

/// A request forwarded to a cluster as it is.
#[derive(Debug)]
pub struct CursorOp {
    pub cluster: String,
    pub method: String,
    pub path: String,
    pub body: Vec<u8>,
    pub endpoint: Option<String>,
    pub query: Option<String>,
    /// The protocol to speak, where the request fixes one.
    pub protocol: Option<Protocol>,
}

/// What came back for a forwarded request.
#[derive(Debug)]
pub struct CursorOutcome {
    pub status: u16,
    pub body: Vec<u8>,
    pub pool_reuse: bool,
    pub content_type: Option<String>,
}

impl Clone for Target {
    fn clone(&self) -> (r: Self)
        ensures
            r == *self,
    {
        Target {
            cluster: self.cluster.clone(),
            index: self.index.clone(),
            endpoint: clone_text(&self.endpoint),
        }
    }
}

impl Clone for DocIdRule {
    fn clone(&self) -> (r: Self)
        ensures
            r == *self,
    {
        DocIdRule { template: self.template.clone(), set_routing: self.set_routing }
    }
}

/// Copies an optional text.
pub(crate) fn clone_text(s: &Option<String>) -> (r: Option<String>)
    ensures
        r == *s,
{
    match s {
        Some(t) => Some(t.clone()),
        None => None,
    }
}

/// Copies bytes.
pub(crate) fn clone_bytes(b: &[u8]) -> (r: Vec<u8>)
    ensures
        r@ == b@,
{
    let mut out: Vec<u8> = Vec::new();
    out.extend_from_slice(b);
    assert(out@ =~= b@);
    out
}

/// An optional text as a value.
pub open spec fn opt(s: Option<String>) -> Option<Seq<char>> {
    match s {
        Some(t) => Some(t@),
        None => None,
    }
}

/// Optional texts as values.
pub open spec fn opts(s: Seq<Option<String>>) -> Seq<Option<Seq<char>>> {
    s.map_values(|x: Option<String>| opt(x))
}

/// The lower-case form of an ASCII letter; any other character is unchanged.
pub open spec fn lower(c: char) -> char {
    if 'A' <= c && c <= 'Z' {
        ((c as u32) + 32) as u8 as char
    } else {
        c
    }
}

/// Two texts differ at most in the case of ASCII letters.
pub open spec fn same_ignoring_case(a: Seq<char>, b: Seq<char>) -> bool {
    a.map_values(|c: char| lower(c)) == b.map_values(|c: char| lower(c))
}

fn lower_char(c: char) -> (r: char)
    ensures
        r == lower(c),
{
    if 'A' <= c && c <= 'Z' {
        ((c as u32) as u8 + 32u8) as char
    } else {
        c
    }
}

/// Whether two texts differ at most in the case of ASCII letters.
pub fn eq_ignoring_case(a: &str, b: &str) -> (r: bool)
    ensures
        r == same_ignoring_case(a@, b@),
{
    let x = text::chars(a);
    let y = text::chars(b);
    let ghost lx = a@.map_values(|c: char| lower(c));
    let ghost ly = b@.map_values(|c: char| lower(c));
    if x.len() != y.len() {
        assert(lx.len() != ly.len());
        return false;
    }
    let mut i: usize = 0;
    while i < x.len()
        invariant
            x@ == a@,
            y@ == b@,
            x@.len() == y@.len(),
            lx == a@.map_values(|c: char| lower(c)),
            ly == b@.map_values(|c: char| lower(c)),
            0 <= i <= x@.len(),
            forall|j: int| 0 <= j < i ==> lx[j] == ly[j],
        decreases x@.len() - i,
    {
        if lower_char(x[i]) != lower_char(y[i]) {
            assert(lx[i as int] != ly[i as int]);
            return false;
        }
        i += 1;
    }
    assert(lx =~= ly);
    true
}

/// The value of the first header named `name`, whatever the case of its letters.
pub open spec fn header_of(headers: Seq<(String, String)>, name: Seq<char>) -> Option<Seq<char>>
    decreases headers.len(),
{
    if headers.len() == 0 {
        None
    } else if same_ignoring_case(headers[0].0@, name) {
        Some(headers[0].1@)
    } else {
        header_of(headers.skip(1), name)
    }
}

/// Looks a header up by name.
pub fn header<'a>(headers: &'a [(String, String)], name: &str) -> (r: Option<&'a str>)
    ensures
        match r {
            Some(v) => header_of(headers@, name@) == Some(v@),
            None => header_of(headers@, name@) is None,
        },
{
    let mut i: usize = 0;
    assert(headers@.skip(0) =~= headers@);
    while i < headers.len()
        invariant
            0 <= i <= headers@.len(),
            header_of(headers@, name@) == header_of(headers@.skip(i as int), name@),
        decreases headers@.len() - i,
    {
        assert(headers@.skip(i as int).skip(1) =~= headers@.skip(i + 1));
        if eq_ignoring_case(headers[i].0.as_str(), name) {
            return Some(headers[i].1.as_str());
        }
        i += 1;
    }
    None
}

/// The fields a transform injects.
pub open spec fn injected(t: BodyTransform) -> Seq<InjectedField> {
    match t {
        BodyTransform::Inject(f) => f@,
        BodyTransform::Both { inject, .. } => inject@,
        _ => Seq::empty(),
    }
}

/// The id rule of a transform that builds ids.
pub open spec fn id_rule(t: BodyTransform) -> Option<DocIdRule> {
    match t {
        BodyTransform::ConstructId(rule) => Some(rule),
        BodyTransform::Both { id, .. } => Some(id),
        _ => None,
    }
}

/// The `_routing` value: the partition, where the id rule sets routing.
pub open spec fn routing(t: BodyTransform, partition: Seq<char>) -> Option<Seq<char>> {
    match id_rule(t) {
        Some(rule) => if rule.set_routing {
            Some(partition)
        } else {
            None
        },
        None => None,
    }
}

/// The names of fields.
pub open spec fn names(fields: Seq<InjectedField>) -> Seq<Seq<char>> {
    fields.map_values(|f: InjectedField| f.name@)
}

/// The fields a transform injects.
pub(crate) fn injected_fields(t: &BodyTransform) -> (r: &[InjectedField])
    ensures
        r@ == injected(*t),
{
    match t {
        BodyTransform::Inject(f) => f.as_slice(),
        BodyTransform::Both { inject, .. } => inject.as_slice(),
        BodyTransform::Verbatim | BodyTransform::ConstructId(_) => &[],
    }
}

/// The id rule of a transform that builds ids.
pub(crate) fn id_rule_of(t: &BodyTransform) -> (r: Option<&DocIdRule>)
    ensures
        match r {
            Some(rule) => id_rule(*t) == Some(*rule),
            None => id_rule(*t) is None,
        },
{
    match t {
        BodyTransform::ConstructId(rule) => Some(rule),
        BodyTransform::Both { id, .. } => Some(id),
        BodyTransform::Verbatim | BodyTransform::Inject(_) => None,
    }
}

/// The `_routing` value: the partition, but only where the transform builds ids and
/// its rule asks for routing.
pub(crate) fn routing_for(t: &BodyTransform, partition: &str) -> (r: Option<String>)
    ensures
        opt(r) == routing(*t, partition@),
{
    match id_rule_of(t) {
        Some(rule) => if rule.set_routing {
            Some(partition.to_owned())
        } else {
            None
        },
        None => None,
    }
}

/// The names of the fields, in order.
pub(crate) fn field_names(fields: &[InjectedField]) -> (r: Vec<String>)
    ensures
        text::views(r@) == names(fields@),
{
    let mut out: Vec<String> = Vec::new();
    let mut i: usize = 0;
    while i < fields.len()
        invariant
            0 <= i <= fields@.len(),
            out@.len() == i,
            forall|j: int| 0 <= j < i ==> #[trigger] out@[j]@ == fields@[j].name@,
        decreases fields@.len() - i,
    {
        out.push(fields[i].name.clone());
        i += 1;
    }
    assert(text::views(out@) =~= names(fields@));
    out
}

/// A document operation as values.
#[allow(inconsistent_fields)]
pub ghost enum DocView {
    Index { id: Option<Seq<char>>, routing: Option<Seq<char>>, body: Seq<u8> },
    Create { id: Option<Seq<char>>, routing: Option<Seq<char>>, body: Seq<u8> },
    Update { id: Seq<char>, routing: Option<Seq<char>>, body: Seq<u8> },
    Delete { id: Seq<char>, routing: Option<Seq<char>> },
}

impl View for DocOp {
    type V = DocView;

    open spec fn view(&self) -> DocView {
        match *self {
            DocOp::Index { id, routing, body } => DocView::Index {
                id: opt(id),
                routing: opt(routing),
                body: body@,
            },
            DocOp::Create { id, routing, body } => DocView::Create {
                id: opt(id),
                routing: opt(routing),
                body: body@,
            },
            DocOp::Update { id, routing, body } => DocView::Update {
                id: id@,
                routing: opt(routing),
                body: body@,
            },
            DocOp::Delete { id, routing } => DocView::Delete { id: id@, routing: opt(routing) },
        }
    }
}

impl WriteOp {
    /// The operation goes where `resolved` says, stamped with its epoch.
    pub open spec fn follows(self, resolved: Resolved) -> bool {
        &&& self.target == resolved.decision.target
        &&& self.epoch == resolved.decision.epoch
        &&& self.protocol == resolved.decision.upstream_protocol
    }
}

/// Two letters are the same, or one is the other's capital.
pub open spec fn same_letter(c: char, d: char) -> bool {
    ||| c == d
    ||| 'A' <= c && c <= 'Z' && d as u32 == c as u32 + 32
    ||| 'A' <= d && d <= 'Z' && c as u32 == d as u32 + 32
}

/// Two texts agree letter by letter, but for capitals.
pub open spec fn letters_match(a: Seq<char>, b: Seq<char>) -> bool {
    a.len() == b.len() && forall|i: int| 0 <= i < a.len() ==> same_letter(#[trigger] a[i], b[i])
}

/// Case is ignored for ASCII letters, and nothing else is.
pub proof fn law_only_capitals_are_ignored(a: Seq<char>, b: Seq<char>)
    ensures
        same_ignoring_case(a, b) <==> letters_match(a, b),
{
    let x = a.map_values(|c: char| lower(c));
    let y = b.map_values(|c: char| lower(c));
    assert forall|c: char, d: char| #![trigger lower(c), lower(d)] lower(c) == lower(d)
        <==> same_letter(c, d) by {
        lemma_lower(c);
        lemma_lower(d);
    }
    if same_ignoring_case(a, b) {
        assert(x.len() == a.len() && y.len() == b.len());
        assert forall|i: int| 0 <= i < a.len() implies same_letter(#[trigger] a[i], b[i]) by {
            assert(x[i] == lower(a[i]));
            assert(y[i] == lower(b[i]));
        }
    }
    if letters_match(a, b) {
        assert forall|i: int| 0 <= i < a.len() implies x[i] == y[i] by {
            assert(same_letter(a[i], b[i]));
            assert(lower(a[i]) == lower(b[i]));
        }
        assert(x =~= y);
    }
}

proof fn lemma_lower(c: char)
    ensures
        'A' <= c && c <= 'Z' ==> lower(c) as u32 == c as u32 + 32,
        !('A' <= c && c <= 'Z') ==> lower(c) == c,
{
    if 'A' <= c && c <= 'Z' {
        let n = (c as u32 + 32) as u8;
        assert(n as u32 == c as u32 + 32);
        assert(n as char as u32 == n as u32);
    }
}

/// The `i`-th header is the first one named `name`, whatever the case of its letters.
pub open spec fn first_named(headers: Seq<(String, String)>, name: Seq<char>, i: int) -> bool {
    &&& 0 <= i < headers.len()
    &&& letters_match(headers[i].0@, name)
    &&& forall|j: int| 0 <= j < i ==> !letters_match((#[trigger] headers[j]).0@, name)
}

/// A header is looked up by its name, whatever the case of its letters, and the first one
/// counts.
pub proof fn law_the_first_header_of_a_name_counts(headers: Seq<(String, String)>, name: Seq<char>)
    ensures
        match header_of(headers, name) {
            Some(v) => exists|i: int| #[trigger]
                first_named(headers, name, i) && headers[i].1@ == v,
            None => forall|i: int|
                0 <= i < headers.len() ==> !letters_match((#[trigger] headers[i]).0@, name),
        },
        forall|i: int| #[trigger]
            first_named(headers, name, i) ==> header_of(headers, name) == Some(headers[i].1@),
    decreases headers.len(),
{
    if headers.len() > 0 {
        law_only_capitals_are_ignored(headers[0].0@, name);
        if same_ignoring_case(headers[0].0@, name) {
            assert(first_named(headers, name, 0));
        } else {
            let rest = headers.skip(1);
            law_the_first_header_of_a_name_counts(rest, name);
            if header_of(rest, name) is Some {
                let i = choose|i: int| #[trigger]
                    first_named(rest, name, i) && rest[i].1@ == header_of(rest, name)->Some_0;
                assert forall|j: int| 0 <= j < i + 1 implies !letters_match(
                    (#[trigger] headers[j]).0@,
                    name,
                ) by {
                    if j > 0 {
                        assert(rest[j - 1] == headers[j]);
                    }
                }
                assert(first_named(headers, name, i + 1));
            } else {
                assert forall|i: int| 0 <= i < headers.len() implies !letters_match(
                    (#[trigger] headers[i]).0@,
                    name,
                ) by {
                    if i > 0 {
                        assert(rest[i - 1] == headers[i]);
                    }
                }
            }
        }
        assert forall|i: int| #[trigger] first_named(headers, name, i) implies header_of(headers, name)
            == Some(headers[i].1@) by {
            if same_ignoring_case(headers[0].0@, name) {
                if i > 0 {
                    assert(!letters_match(headers[0].0@, name));
                }
            } else if i > 0 {
                let rest = headers.skip(1);
                assert forall|j: int| 0 <= j < i - 1 implies !letters_match(
                    (#[trigger] rest[j]).0@,
                    name,
                ) by {
                    assert(headers[j + 1] == rest[j]);
                }
                assert(first_named(rest, name, i - 1));
            }
        }
    }
}

} // verus!
