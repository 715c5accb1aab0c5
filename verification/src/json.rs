//! JSON documents.
//!
//! Parsing and printing belong to `serde_json`. What the proxy does to a document
//! in between (set a field, drop a field, look one up) is stated over [`Tree`],
//! the mathematical content of a [`Value`].

use serde_json::value::RawValue;
use serde_json::Value;
use vstd::prelude::*;

verus! {

/// `serde_json::Value`, carried opaquely; [`tree`] names what it holds.
#[verifier::external_type_specification]
#[verifier::external_body]
pub struct ExValue(serde_json::Value);

/// `serde_json::Number`, carried opaquely inside a [`Tree`].
#[verifier::external_type_specification]
#[verifier::external_body]
pub struct ExNumber(serde_json::Number);

/// `serde_json::value::RawValue`, carried opaquely; [`raw_text`] names its text.
#[verifier::external_type_specification]
#[verifier::external_body]
pub struct ExRawValue(serde_json::value::RawValue);

/// The content of a JSON value. An object is the map of its members; a number is
/// split into the non-negative integers that fit in `u64` and all others.
pub ghost enum Tree {
    Null,
    Bool(bool),
    Uint(u64),
    Number(serde_json::Number),
    Str(Seq<char>),
    Array(Seq<Tree>),
    Object(Map<Seq<char>, Tree>),
}

/// What a `serde_json::Value` holds.
pub uninterp spec fn tree(v: Value) -> Tree;

/// The content that `serde_json::from_slice` reads from a JSON text, or `None`
/// where the bytes are no JSON text.
pub uninterp spec fn parsed(bytes: Seq<u8>) -> Option<Tree>;

/// The compact text that `serde_json::to_vec` writes for a JSON value.
pub uninterp spec fn written(t: Tree) -> Seq<u8>;

/// Parses a JSON text with `serde_json::from_slice`. The content read is a
/// function of the bytes; the error is not looked at. How the content of a text
/// follows from that of its parts is left unsaid.
#[verifier::external_body]
pub(crate) fn parse(bytes: &[u8]) -> (r: Option<Value>)
    ensures
        match r {
            Some(v) => parsed(bytes@) == Some(tree(v)),
            None => parsed(bytes@) is None,
        },
{
    serde_json::from_slice(bytes).ok()
}

/// Prints a JSON value with `serde_json::to_vec`, which always succeeds on a
/// `Value`: every map key is a string and the writer is a vector. The text is a
/// function of the content.
#[verifier::external_body]
pub(crate) fn print(v: &Value) -> (r: Option<Vec<u8>>)
    ensures
        r is Some,
        r->Some_0@ == written(tree(*v)),
{
    serde_json::to_vec(v).ok()
}

/// The text that `serde_json::from_slice::<String>` reads from a JSON string
/// literal, or `None` where the bytes are no such literal.
pub uninterp spec fn decoded(bytes: Seq<u8>) -> Option<Seq<char>>;

/// Decodes a JSON string literal with `serde_json::from_slice::<String>`. The text
/// is a function of the bytes.
#[verifier::external_body]
pub(crate) fn decode(bytes: &[u8]) -> (r: Option<String>)
    ensures
        match r {
            Some(s) => decoded(bytes@) == Some(s@),
            None => decoded(bytes@) is None,
        },
{
    serde_json::from_slice::<String>(bytes).ok()
}

/// A JSON value opened one level: the variants whose parts the proxy works on.
pub enum Node {
    Str(String),
    Array(Vec<Value>),
    Object(Vec<(String, Value)>),
    Other(Value),
}

/// A value with mathematical content.
pub trait Content {
    type Held;

    /// What the value holds.
    spec fn held(&self) -> Self::Held;
}

impl Content for Value {
    type Held = Tree;

    open spec fn held(&self) -> Tree {
        tree(*self)
    }
}

impl Content for Box<RawValue> {
    type Held = Seq<char>;

    open spec fn held(&self) -> Seq<char> {
        raw_text(&**self)
    }
}

/// The members of an object as a map.
pub open spec fn members<V: Content>(s: Seq<(String, V)>) -> Map<Seq<char>, V::Held>
    decreases s.len(),
{
    if s.len() == 0 {
        Map::empty()
    } else {
        members(s.drop_last()).insert(s.last().0@, s.last().1.held())
    }
}

/// No two members share a key.
pub open spec fn distinct_keys<V>(s: Seq<(String, V)>) -> bool {
    forall|i: int, j: int| 0 <= i < j < s.len() ==> #[trigger] s[i].0@ != #[trigger] s[j].0@
}

/// The content of the values of an array.
pub open spec fn trees(s: Seq<Value>) -> Seq<Tree> {
    s.map_values(|v: Value| tree(v))
}

/// Tells the variants of a `serde_json::Value` apart and moves their parts out. A
/// `serde_json::Map` holds each key once.
#[verifier::external_body]
pub(crate) fn open(v: Value) -> (n: Node)
    ensures
        match n {
            Node::Str(s) => tree(v) == Tree::Str(s@),
            Node::Array(a) => tree(v) == Tree::Array(trees(a@)),
            Node::Object(m) => tree(v) == Tree::Object(members(m@)) && distinct_keys(m@),
            Node::Other(o) => o == v && !(tree(v) is Str) && !(tree(v) is Array) && !(tree(
                v,
            ) is Object),
        },
{
    match v {
        Value::String(s) => Node::Str(s),
        Value::Array(a) => Node::Array(a),
        Value::Object(m) => Node::Object(m.into_iter().collect()),
        other => Node::Other(other),
    }
}

/// Builds a `serde_json::Value` from its parts; an object's members are collected
/// into a `serde_json::Map`.
#[verifier::external_body]
pub(crate) fn close(n: Node) -> (v: Value)
    requires
        n matches Node::Object(m) ==> distinct_keys(m@),
    ensures
        match n {
            Node::Str(s) => tree(v) == Tree::Str(s@),
            Node::Array(a) => tree(v) == Tree::Array(trees(a@)),
            Node::Object(m) => tree(v) == Tree::Object(members(m@)),
            Node::Other(o) => v == o,
        },
{
    match n {
        Node::Str(s) => Value::String(s),
        Node::Array(a) => Value::Array(a),
        Node::Object(m) => Value::Object(m.into_iter().collect()),
        Node::Other(o) => o,
    }
}

/// `Value::get` with a string index: the member of that name, if the value is an
/// object that has one.
#[verifier::external_body]
pub(crate) fn get<'a>(v: &'a Value, key: &str) -> (r: Option<&'a Value>)
    ensures
        match r {
            Some(x) => field(tree(*v), key@) == Some(tree(*x)),
            None => field(tree(*v), key@) is None,
        },
{
    v.get(key)
}

/// `Value::as_str`: the text of a string value.
#[verifier::external_body]
pub(crate) fn as_str<'a>(v: &'a Value) -> (r: Option<&'a str>)
    ensures
        match r {
            Some(s) => tree(*v) == Tree::Str(s@),
            None => !(tree(*v) is Str),
        },
{
    v.as_str()
}

/// `Value::as_array`: the elements of an array value.
#[verifier::external_body]
pub(crate) fn as_array<'a>(v: &'a Value) -> (r: Option<&'a Vec<Value>>)
    ensures
        match r {
            Some(a) => tree(*v) == Tree::Array(trees(a@)),
            None => !(tree(*v) is Array),
        },
{
    v.as_array()
}

/// `Value::as_u64`: the integer of a number that is one in the range of `u64`.
#[verifier::external_body]
pub(crate) fn as_u64(v: &Value) -> (r: Option<u64>)
    ensures
        match r {
            Some(n) => tree(*v) == Tree::Uint(n),
            None => !(tree(*v) is Uint),
        },
{
    v.as_u64()
}

/// `Value::from` on a `u64`.
#[verifier::external_body]
pub(crate) fn uint(n: u64) -> (v: Value)
    ensures
        tree(v) == Tree::Uint(n),
{
    Value::from(n)
}

/// `Value::Bool`.
#[verifier::external_body]
pub(crate) fn boolean(b: bool) -> (v: Value)
    ensures
        tree(v) == Tree::Bool(b),
{
    Value::Bool(b)
}

/// `Value::Null`.
#[verifier::external_body]
pub(crate) fn null() -> (v: Value)
    ensures
        tree(v) == Tree::Null,
{
    Value::Null
}

/// `Value::clone`, which keeps the content.
#[verifier::external_body]
pub(crate) fn duplicate(v: &Value) -> (r: Value)
    ensures
        tree(r) == tree(*v),
{
    v.clone()
}

/// The member `key` of an object; no other value has members.
pub open spec fn field(t: Tree, key: Seq<char>) -> Option<Tree> {
    match t {
        Tree::Object(m) => if m.dom().contains(key) {
            Some(m[key])
        } else {
            None
        },
        _ => None,
    }
}

/// The text of a string.
pub open spec fn text_of(t: Option<Tree>) -> Option<Seq<char>> {
    match t {
        Some(Tree::Str(s)) => Some(s),
        _ => None,
    }
}

/// The object with the member `key` set to `x`; any other value is unchanged.
pub open spec fn with_field(t: Tree, key: Seq<char>, x: Tree) -> Tree {
    match t {
        Tree::Object(m) => Tree::Object(m.insert(key, x)),
        other => other,
    }
}

/// The object without any member named in `names`; any other value is unchanged.
pub open spec fn stripped(t: Tree, names: Seq<Seq<char>>) -> Tree {
    match t {
        Tree::Object(m) => Tree::Object(m.restrict(Set::new(|k: Seq<char>| !names.contains(k)))),
        other => other,
    }
}

/// A string value.
pub(crate) fn string(s: String) -> (v: Value)
    ensures
        tree(v) == Tree::Str(s@),
{
    close(Node::Str(s))
}

/// A string value from borrowed text.
pub(crate) fn text(s: &str) -> (v: Value)
    ensures
        tree(v) == Tree::Str(s@),
{
    string(s.to_owned())
}

/// The text of the member `key`, if it is a string.
pub(crate) fn field_text<'a>(v: &'a Value, key: &str) -> (r: Option<&'a str>)
    ensures
        match r {
            Some(s) => text_of(field(tree(*v), key@)) == Some(s@),
            None => text_of(field(tree(*v), key@)) is None,
        },
{
    match get(v, key) {
        Some(x) => as_str(x),
        None => None,
    }
}

proof fn lemma_members<V: Content>(s: Seq<(String, V)>)
    requires
        distinct_keys(s),
    ensures
        forall|i: int|
            0 <= i < s.len() ==> members(s).dom().contains(#[trigger] s[i].0@) && members(
                s,
            )[s[i].0@] == s[i].1.held(),
        forall|k: Seq<char>| #[trigger]
            members(s).dom().contains(k) ==> exists|i: int|
                0 <= i < s.len() && #[trigger] s[i].0@ == k,
    decreases s.len(),
{
    if s.len() > 0 {
        let t = s.drop_last();
        lemma_members(t);
        assert forall|i: int| 0 <= i < s.len() implies members(s).dom().contains(
            #[trigger] s[i].0@,
        ) && members(s)[s[i].0@] == s[i].1.held() by {
            if i < t.len() {
                assert(t[i] == s[i]);
                assert(s[i].0@ != s[s.len() - 1].0@);
            }
        }
        assert forall|k: Seq<char>| #[trigger] members(s).dom().contains(k) implies exists|i: int|
            0 <= i < s.len() && #[trigger] s[i].0@ == k by {
            if k == s.last().0@ {
                assert(s[s.len() - 1].0@ == k);
            } else {
                assert(members(t).dom().contains(k));
                let i = choose|i: int| 0 <= i < t.len() && #[trigger] t[i].0@ == k;
                assert(s[i].0@ == k);
            }
        }
    }
}

/// The members of a JSON object under construction, each key once.
pub struct Members<V: Content> {
    entries: Vec<(String, V)>,
}

/// The members of a parsed object.
pub type Object = Members<Value>;

/// The members of an object whose values are kept as raw text.
pub type RawObject = Members<Box<RawValue>>;

impl<V: Content> View for Members<V> {
    type V = Map<Seq<char>, V::Held>;

    closed spec fn view(&self) -> Map<Seq<char>, V::Held> {
        members(self.entries@)
    }
}

impl<V: Content> Members<V> {
    #[verifier::type_invariant]
    spec fn well_formed(self) -> bool {
        distinct_keys(self.entries@)
    }

    /// The object without members.
    pub fn new() -> (r: Self)
        ensures
            r@ == Map::<Seq<char>, V::Held>::empty(),
    {
        Members { entries: Vec::new() }
    }

    fn position(&self, key: &str) -> (r: Option<usize>)
        ensures
            match r {
                Some(i) => i < self.entries@.len() && self.entries@[i as int].0@ == key@
                    && self@.dom().contains(key@) && self@[key@] == self.entries@[i as int].1.held(),
                None => !self@.dom().contains(key@),
            },
    {
        proof {
            use_type_invariant(self);
            lemma_members(self.entries@);
        }
        let wanted = key.to_owned();
        let mut i: usize = 0;
        while i < self.entries.len()
            invariant
                wanted@ == key@,
                0 <= i <= self.entries@.len(),
                forall|j: int| 0 <= j < i ==> #[trigger] self.entries@[j].0@ != key@,
            decreases self.entries@.len() - i,
        {
            if self.entries[i].0 == wanted {
                proof {
                    use_type_invariant(self);
                    lemma_members(self.entries@);
                }
                return Some(i);
            }
            i += 1;
        }
        None
    }

    /// The member `key`.
    pub fn get(&self, key: &str) -> (r: Option<&V>)
        ensures
            match r {
                Some(x) => self@.dom().contains(key@) && self@[key@] == x.held(),
                None => !self@.dom().contains(key@),
            },
    {
        match self.position(key) {
            Some(i) => Some(&self.entries[i].1),
            None => None,
        }
    }

    /// The members with `key` set to `x`.
    pub fn with(self, key: &str, x: V) -> (r: Self)
        ensures
            r@ == self@.insert(key@, x.held()),
    {
        proof {
            use_type_invariant(&self);
        }
        let at = self.position(key);
        let mut entries = self.entries;
        let ghost before = entries@;
        match at {
            Some(i) => {
                entries.set(i, (key.to_owned(), x));
                proof {
                    assert forall|a: int, b: int| 0 <= a < b < entries@.len() implies #[trigger] entries@[a].0@
                        != #[trigger] entries@[b].0@ by {
                        assert(before[a].0@ != before[b].0@);
                    }
                    lemma_members(before);
                    let want = members(before).insert(key@, x.held());
                    assert forall|j: int| 0 <= j < entries@.len() implies want.dom().contains(
                        #[trigger] entries@[j].0@,
                    ) && want[entries@[j].0@] == entries@[j].1.held() by {
                        if j != i {
                            assert(before[j].0@ != before[i as int].0@);
                        }
                    }
                    assert forall|k: Seq<char>| #[trigger] want.dom().contains(k) implies exists|
                        j: int,
                    |
                        0 <= j < entries@.len() && #[trigger] entries@[j].0@ == k by {
                        if k == key@ {
                            assert(entries@[i as int].0@ == k);
                        } else {
                            assert(members(before).dom().contains(k));
                            let j = choose|j: int|
                                0 <= j < before.len() && #[trigger] before[j].0@ == k;
                            assert(entries@[j].0@ == k);
                        }
                    }
                    lemma_same_members(entries@, want);
                }
            },
            None => {
                entries.push((key.to_owned(), x));
                proof {
                    lemma_members(before);
                    assert(entries@.drop_last() =~= before);
                    assert forall|a: int, b: int| 0 <= a < b < entries@.len() implies #[trigger] entries@[a].0@
                        != #[trigger] entries@[b].0@ by {
                        if b < before.len() {
                            assert(before[a].0@ != before[b].0@);
                        } else {
                            assert(members(before).dom().contains(before[a].0@));
                        }
                    }
                }
            },
        }
        Members { entries }
    }

    /// The members without `key`.
    pub fn without(self, key: &str) -> (r: Self)
        ensures
            r@ == self@.remove(key@),
    {
        self.take(key).1
    }

    /// The member `key`, taken out, and the members that are left.
    pub fn take(self, key: &str) -> (r: (Option<V>, Self))
        ensures
            r.1@ == self@.remove(key@),
            match r.0 {
                Some(x) => self@.dom().contains(key@) && self@[key@] == x.held(),
                None => !self@.dom().contains(key@),
            },
    {
        proof {
            use_type_invariant(&self);
        }
        let at = self.position(key);
        let mut entries = self.entries;
        let ghost before = entries@;
        match at {
            Some(i) => {
                let taken = entries.remove(i);
                proof {
                    assert forall|a: int, b: int| 0 <= a < b < entries@.len() implies #[trigger] entries@[a].0@
                        != #[trigger] entries@[b].0@ by {
                        let a0 = if a < i {
                            a
                        } else {
                            a + 1
                        };
                        let b0 = if b < i {
                            b
                        } else {
                            b + 1
                        };
                        assert(before[a0].0@ != before[b0].0@);
                    }
                    lemma_members(before);
                    lemma_members(entries@);
                    let want = members(before).remove(key@);
                    assert forall|j: int| 0 <= j < entries@.len() implies want.dom().contains(
                        #[trigger] entries@[j].0@,
                    ) && want[entries@[j].0@] == entries@[j].1.held() by {
                        let j0 = if j < i {
                            j
                        } else {
                            j + 1
                        };
                        assert(entries@[j] == before[j0]);
                        assert(before[j0].0@ != before[i as int].0@);
                    }
                    assert forall|k: Seq<char>| #[trigger] want.dom().contains(k) implies exists|
                        j: int,
                    |
                        0 <= j < entries@.len() && #[trigger] entries@[j].0@ == k by {
                        let j0 = choose|j: int| 0 <= j < before.len() && #[trigger] before[j].0@ == k;
                        let j = if j0 < i {
                            j0
                        } else {
                            j0 - 1
                        };
                        assert(entries@[j].0@ == k);
                    }
                    lemma_same_members(entries@, want);
                }
                (Some(taken.1), Members { entries })
            },
            None => {
                assert(members(before).remove(key@) =~= members(before));
                (None, Members { entries })
            },
        }
    }
}

impl Members<Value> {
    /// The members of `v`, or `v` itself where it is no object.
    pub fn from_value(v: Value) -> (r: Result<Self, Value>)
        ensures
            match r {
                Ok(o) => tree(v) == Tree::Object(o@),
                Err(w) => tree(w) == tree(v) && !(tree(v) is Object),
            },
    {
        match open(v) {
            Node::Object(entries) => Ok(Members { entries }),
            Node::Str(s) => Err(close(Node::Str(s))),
            Node::Array(a) => Err(close(Node::Array(a))),
            Node::Other(o) => Err(o),
        }
    }

    /// The JSON value with these members.
    pub fn into_value(self) -> (v: Value)
        ensures
            tree(v) == Tree::Object(self@),
    {
        proof {
            use_type_invariant(&self);
        }
        close(Node::Object(self.entries))
    }
}

proof fn lemma_same_members<V: Content>(s: Seq<(String, V)>, want: Map<Seq<char>, V::Held>)
    requires
        distinct_keys(s),
        forall|i: int|
            0 <= i < s.len() ==> want.dom().contains(#[trigger] s[i].0@) && want[s[i].0@] == s[i].1.held(),
        forall|k: Seq<char>| #[trigger]
            want.dom().contains(k) ==> exists|i: int|
                0 <= i < s.len() && #[trigger] s[i].0@ == k,
    ensures
        members(s) == want,
{
    lemma_members(s);
    assert(members(s) =~= want);
}

/// The text of a `RawValue`.
pub uninterp spec fn raw_text(r: &RawValue) -> Seq<char>;

/// The members of the object that `serde_json::from_slice` reads from a JSON text,
/// each value kept as its raw text, or `None` where the bytes are no JSON object.
pub uninterp spec fn raw_members(bytes: Seq<u8>) -> Option<Map<Seq<char>, Seq<char>>>;

/// The text that `serde_json::to_vec` writes for an object of raw values.
pub uninterp spec fn raw_written(m: Map<Seq<char>, Seq<char>>) -> Seq<u8>;

/// Whether `serde_json::from_slice` finds a JSON text.
pub uninterp spec fn is_json_text(bytes: Seq<u8>) -> bool;

/// The text that `serde_json::value::to_raw_value` writes for a JSON value.
pub uninterp spec fn raw_of(t: Tree) -> Seq<char>;

/// Reads an object with `serde_json::from_slice`, leaving each value as raw text. A
/// `BTreeMap` holds each key once.
#[verifier::external_body]
fn parse_raw(bytes: &[u8]) -> (r: Option<Vec<(String, Box<RawValue>)>>)
    ensures
        match r {
            Some(m) => raw_members(bytes@) == Some(members(m@)) && distinct_keys(m@),
            None => raw_members(bytes@) is None,
        },
{
    let top: std::collections::BTreeMap<String, Box<RawValue>> = serde_json::from_slice(bytes).ok()?;
    Some(top.into_iter().collect())
}

/// Writes an object of raw values with `serde_json::to_vec`, which always succeeds:
/// every key is a string and each raw value, a JSON text without white space around
/// it, is written as it is. Read back, the text gives the same members.
#[verifier::external_body]
fn print_raw(m: Vec<(String, Box<RawValue>)>) -> (r: Option<Vec<u8>>)
    requires
        distinct_keys(m@),
    ensures
        r is Some,
        r->Some_0@ == raw_written(members(m@)),
        raw_members(r->Some_0@) == Some(members(m@)),
{
    let top: std::collections::BTreeMap<String, Box<RawValue>> = m.into_iter().collect();
    serde_json::to_vec(&top).ok()
}

/// Whether the bytes are a JSON text, as `serde_json::from_slice::<&RawValue>` tells.
#[verifier::external_body]
pub(crate) fn is_json(bytes: &[u8]) -> (r: bool)
    ensures
        r == is_json_text(bytes@),
{
    serde_json::from_slice::<&RawValue>(bytes).is_ok()
}

/// `RawValue::get`: the raw text, here as its UTF-8 bytes.
#[verifier::external_body]
pub(crate) fn raw_bytes(r: &RawValue) -> (b: &[u8])
    ensures
        b@ == vstd::utf8::encode_utf8(raw_text(r)),
{
    r.get().as_bytes()
}

/// `serde_json::value::to_raw_value` on a `Value`, which always succeeds.
#[verifier::external_body]
pub(crate) fn to_raw(v: &Value) -> (r: Option<Box<RawValue>>)
    ensures
        r is Some,
        raw_text(&*r->Some_0) == raw_of(tree(*v)),
{
    serde_json::value::to_raw_value(v).ok()
}

impl Members<Box<RawValue>> {
    /// Reads the members of a JSON object as raw texts.
    pub fn read(bytes: &[u8]) -> (r: Option<Self>)
        ensures
            match r {
                Some(o) => raw_members(bytes@) == Some(o@),
                None => raw_members(bytes@) is None,
            },
    {
        match parse_raw(bytes) {
            Some(entries) => Some(Members { entries }),
            None => None,
        }
    }

    /// Writes the members as a JSON object.
    pub fn write(self) -> (r: Option<Vec<u8>>)
        ensures
            r is Some,
            r->Some_0@ == raw_written(self@),
            raw_members(r->Some_0@) == Some(self@),
    {
        proof {
            use_type_invariant(&self);
        }
        print_raw(self.entries)
    }
}

/// Removes every member of an object that is named in `names`.
pub fn strip_fields(v: Value, names: &[String]) -> (r: Value)
    ensures
        tree(r) == stripped(tree(v), crate::text::views(names@)),
{
    match Members::from_value(v) {
        Err(other) => other,
        Ok(object) => {
            let ghost all = crate::text::views(names@);
            let ghost before = object@;
            let mut left = object;
            let mut i: usize = 0;
            proof {
                assert(before.restrict(Set::new(|k: Seq<char>| !all.take(0).contains(k))) =~= before);
            }
            while i < names.len()
                invariant
                    0 <= i <= names@.len(),
                    all == crate::text::views(names@),
                    left@ == before.restrict(
                        Set::new(|k: Seq<char>| !all.take(i as int).contains(k)),
                    ),
                decreases names@.len() - i,
            {
                let ghost was = left@;
                left = left.without(names[i].as_str());
                proof {
                    let n = i as int;
                    let kept = before.restrict(Set::new(|k: Seq<char>| !all.take(n + 1).contains(k)));
                    assert(all.take(n + 1) =~= all.take(n).push(all[n]));
                    assert forall|k: Seq<char>| all.take(n + 1).contains(k) <==> all.take(
                        n,
                    ).contains(k) || k == all[n] by {
                        if all.take(n).contains(k) {
                            let j = choose|j: int| 0 <= j < n && all.take(n)[j] == k;
                            assert(all.take(n + 1)[j] == k);
                        }
                        if k == all[n] {
                            assert(all.take(n + 1)[n] == k);
                        }
                    }
                    assert(was.remove(all[n]) =~= kept);
                }
                i += 1;
            }
            proof {
                assert(all.take(i as int) =~= all);
            }
            left.into_value()
        },
    }
}

} // verus!
