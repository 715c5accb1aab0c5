//! Text helpers: characters of a string, separators, prefixes, decimal numbers.

use vstd::prelude::*;

verus! {

/// `String::from_iter` on characters.
#[verifier::external_body]
pub(crate) fn from_chars(chars: &[char]) -> (r: String)
    ensures
        r@ == chars@,
{
    String::from_iter(chars)
}

/// The characters of a string.
pub(crate) fn chars(s: &str) -> (r: Vec<char>)
    ensures
        r@ == s@,
{
    let mut out: Vec<char> = Vec::new();
    for c in it: s.chars()
        invariant
            it.seq() == s@,
            out@ == it.seq().take(it.index()),
    {
        out.push(c);
        assert(out@ =~= it.seq().take(it.index() + 1));
    }
    assert(out@ =~= s@);
    out
}

/// Whether `s` begins with `prefix`.
pub(crate) fn starts_with(s: &str, prefix: &str) -> (r: bool)
    ensures
        r == prefix@.is_prefix_of(s@),
{
    let a = chars(s);
    let p = chars(prefix);
    if p.len() > a.len() {
        return false;
    }
    let mut i: usize = 0;
    while i < p.len()
        invariant
            a@ == s@,
            p@ == prefix@,
            p@.len() <= a@.len(),
            0 <= i <= p@.len(),
            forall|j: int| 0 <= j < i ==> p@[j] == a@[j],
        decreases p@.len() - i,
    {
        if p[i] != a[i] {
            assert(p@[i as int] != s@.subrange(0, p@.len() as int)[i as int]);
            return false;
        }
        i += 1;
    }
    assert(p@ =~= s@.subrange(0, p@.len() as int));
    true
}

/// The parts of `s` between the separators `sep`: always at least one.
pub open spec fn split(s: Seq<char>, sep: char) -> Seq<Seq<char>>
    decreases s.len(),
{
    if s.len() == 0 {
        seq![Seq::empty()]
    } else {
        let before = split(s.drop_last(), sep);
        if s.last() == sep {
            before.push(Seq::empty())
        } else {
            before.update(before.len() - 1, before.last().push(s.last()))
        }
    }
}

pub proof fn lemma_split_nonempty(s: Seq<char>, sep: char)
    ensures
        split(s, sep).len() > 0,
    decreases s.len(),
{
    if s.len() > 0 {
        lemma_split_nonempty(s.drop_last(), sep);
    }
}

/// The texts of a list of strings.
pub open spec fn views(parts: Seq<String>) -> Seq<Seq<char>> {
    parts.map_values(|p: String| p@)
}

/// Splits `s` at every `sep`.
pub(crate) fn split_at(s: &str, sep: char) -> (r: Vec<String>)
    ensures
        views(r@) == split(s@, sep),
{
    let all = chars(s);
    let mut parts: Vec<String> = Vec::new();
    let mut part: Vec<char> = Vec::new();
    let mut i: usize = 0;
    assert(views(parts@).push(part@) =~= seq![Seq::<char>::empty()]);
    while i < all.len()
        invariant
            all@ == s@,
            0 <= i <= all@.len(),
            views(parts@).push(part@) == split(all@.take(i as int), sep),
        decreases all@.len() - i,
    {
        let ghost done = all@.take(i as int);
        let ghost next = all@.take(i + 1);
        let ghost was = views(parts@).push(part@);
        assert(next.drop_last() =~= done);
        let c = all[i];
        if c == sep {
            let ghost old_parts = parts@;
            parts.push(from_chars(part.as_slice()));
            assert(views(parts@) =~= views(old_parts).push(part@));
            part = Vec::new();
            assert(views(parts@).push(part@) =~= was.push(Seq::empty()));
        } else {
            let ghost old_part = part@;
            part.push(c);
            assert(views(parts@).push(part@) =~= was.update(was.len() - 1, old_part.push(c)));
        }
        i += 1;
    }
    assert(all@.take(i as int) =~= s@);
    let ghost old_parts = parts@;
    parts.push(from_chars(part.as_slice()));
    assert(views(parts@) =~= views(old_parts).push(part@));
    parts
}

/// The decimal digits of `n`.
pub open spec fn decimal_text(n: nat) -> Seq<char>
    decreases n,
{
    let digit = digit_char(n % 10);
    if n < 10 {
        seq![digit]
    } else {
        decimal_text(n / 10).push(digit)
    }
}

/// The digit `0` to `9`.
pub open spec fn digit_char(d: nat) -> char {
    (0x30 + d) as u8 as char
}

fn digit(d: u64) -> (r: char)
    requires
        d < 10,
    ensures
        r == digit_char(d as nat),
{
    (0x30u8 + d as u8) as char
}

/// Writes `n` in decimal.
pub(crate) fn decimal(n: u64) -> (r: String)
    ensures
        r@ == decimal_text(n as nat),
{
    let mut rest: u64 = n;
    let mut reversed: Vec<char> = Vec::new();
    while rest >= 10
        invariant
            decimal_text(n as nat) == decimal_text(rest as nat) + reversed@.reverse(),
        decreases rest,
    {
        let ghost before = reversed@;
        let c = digit(rest % 10);
        reversed.push(c);
        assert(reversed@.reverse() =~= seq![c] + before.reverse());
        assert(decimal_text(rest as nat) + before.reverse() =~= decimal_text((rest / 10) as nat)
            + reversed@.reverse());
        rest = rest / 10;
    }
    let ghost before = reversed@;
    reversed.push(digit(rest));
    assert(decimal_text(rest as nat) + before.reverse() =~= reversed@.reverse());
    let mut ordered: Vec<char> = Vec::new();
    let mut i: usize = reversed.len();
    while i > 0
        invariant
            0 <= i <= reversed@.len(),
            ordered@ == reversed@.reverse().take(reversed@.len() - i),
        decreases i,
    {
        i -= 1;
        ordered.push(reversed[i]);
        assert(ordered@ =~= reversed@.reverse().take(reversed@.len() - i));
    }
    assert(ordered@ =~= reversed@.reverse());
    from_chars(ordered.as_slice())
}

/// Whether `wanted` is one of the texts.
pub(crate) fn contains(parts: &[String], wanted: &str) -> (r: bool)
    ensures
        r == views(parts@).contains(wanted@),
{
    let w = wanted.to_owned();
    let mut i: usize = 0;
    while i < parts.len()
        invariant
            w@ == wanted@,
            0 <= i <= parts@.len(),
            forall|j: int| 0 <= j < i ==> #[trigger] parts@[j]@ != wanted@,
        decreases parts@.len() - i,
    {
        if parts[i] == w {
            assert(views(parts@)[i as int] == wanted@);
            return true;
        }
        i += 1;
    }
    assert forall|j: int| 0 <= j < views(parts@).len() implies views(parts@)[j] != wanted@ by {
        assert(parts@[j]@ != wanted@);
    }
    false
}

/// The name of a `name=value` pair: what stands before the first `=`.
pub open spec fn key_of(pair: Seq<char>) -> Seq<char> {
    split(pair, '=')[0]
}

/// The name of a `name=value` pair.
pub(crate) fn pair_key(pair: &str) -> (r: String)
    ensures
        r@ == key_of(pair@),
{
    let parts = split_at(pair, '=');
    proof {
        lemma_split_nonempty(pair@, '=');
        assert(views(parts@)[0] == parts@[0]@);
        assert(parts@.len() == views(parts@).len());
    }
    parts[0].clone()
}

/// `part` stands in `s` at `at`, with a separator or an end of `s` on either side and none
/// inside.
pub open spec fn part_at(s: Seq<char>, sep: char, part: Seq<char>, at: int) -> bool {
    let end = at + part.len();
    &&& 0 <= at
    &&& end <= s.len()
    &&& s.subrange(at, end) == part
    &&& at == 0 || s[at - 1] == sep
    &&& end == s.len() || s[end] == sep
    &&& !part.contains(sep)
}

/// A pair named `key` stands in the query string `q` at `at`: what is there reads `key`, it
/// follows `&` or the start, and `=`, `&` or the end follows it.
pub open spec fn pair_at(q: Seq<char>, key: Seq<char>, at: int) -> bool {
    let end = at + key.len();
    &&& 0 <= at
    &&& end <= q.len()
    &&& q.subrange(at, end) == key
    &&& at == 0 || q[at - 1] == '&'
    &&& end == q.len() || q[end] == '=' || q[end] == '&'
}

/// Some pair of the query string is named `key`.
pub open spec fn names_pair(q: Seq<char>, key: Seq<char>) -> bool {
    exists|at: int| pair_at(q, key, at)
}

/// The parts with a separator between each two.
pub open spec fn rejoined(parts: Seq<Seq<char>>, sep: char) -> Seq<char>
    decreases parts.len(),
{
    if parts.len() == 0 {
        Seq::empty()
    } else if parts.len() == 1 {
        parts[0]
    } else {
        rejoined(parts.drop_last(), sep).push(sep) + parts.last()
    }
}

/// A text without separators is one part.
pub proof fn law_no_separator_is_one_part(s: Seq<char>, sep: char)
    requires
        !s.contains(sep),
    ensures
        split(s, sep) == seq![s],
    decreases s.len(),
{
    if s.len() > 0 {
        let init = s.drop_last();
        assert forall|i: int| 0 <= i < init.len() implies init[i] != sep by {
            assert(s[i] != sep);
        }
        law_no_separator_is_one_part(init, sep);
        assert(s[s.len() - 1] != sep);
        assert(init.push(s.last()) =~= s);
        assert(split(s, sep) =~= seq![s]);
    } else {
        assert(s =~= Seq::empty());
    }
}

/// Every separator ends a part: the parts of two texts with a separator between them are
/// those of the first, then those of the second.
pub proof fn law_a_separator_parts(a: Seq<char>, b: Seq<char>, sep: char)
    ensures
        split(a.push(sep) + b, sep) == split(a, sep) + split(b, sep),
    decreases b.len(),
{
    let s = a.push(sep) + b;
    lemma_split_nonempty(a, sep);
    if b.len() == 0 {
        assert(s =~= a.push(sep));
        assert(s.drop_last() =~= a);
        assert(split(s, sep) =~= split(a, sep) + split(b, sep));
    } else {
        let init = b.drop_last();
        law_a_separator_parts(a, init, sep);
        lemma_split_nonempty(init, sep);
        assert(s.drop_last() =~= a.push(sep) + init);
        assert(s.last() == b.last());
        assert(split(s, sep) =~= split(a, sep) + split(b, sep));
    }
}

/// Where the first separator is, or the length where there is none.
spec fn first_sep(s: Seq<char>, sep: char) -> int
    decreases s.len(),
{
    if s.len() == 0 || s[0] == sep {
        0
    } else {
        1 + first_sep(s.skip(1), sep)
    }
}

proof fn lemma_first_sep(s: Seq<char>, sep: char)
    ensures
        0 <= first_sep(s, sep) <= s.len(),
        !s.take(first_sep(s, sep)).contains(sep),
        first_sep(s, sep) < s.len() ==> s[first_sep(s, sep)] == sep,
    decreases s.len(),
{
    let n = first_sep(s, sep);
    if s.len() > 0 && s[0] != sep {
        let t = s.skip(1);
        lemma_first_sep(t, sep);
        let m = first_sep(t, sep);
        assert forall|i: int| 0 <= i < n implies s.take(n)[i] != sep by {
            if i > 0 {
                assert(t.take(m)[i - 1] == s[i]);
                assert(!t.take(m).contains(sep));
            }
        }
        if n < s.len() {
            assert(t[m] == s[n]);
        }
    }
}

/// The text up to the first separator is the first part, and the rest follows.
proof fn lemma_split_first(s: Seq<char>, sep: char)
    ensures
        ({
            let n = first_sep(s, sep);
            split(s, sep) == if n < s.len() {
                seq![s.take(n)] + split(s.skip(n + 1), sep)
            } else {
                seq![s]
            }
        }),
{
    let n = first_sep(s, sep);
    lemma_first_sep(s, sep);
    if n < s.len() {
        law_a_separator_parts(s.take(n), s.skip(n + 1), sep);
        law_no_separator_is_one_part(s.take(n), sep);
        assert(s.take(n).push(sep) + s.skip(n + 1) =~= s);
    } else {
        assert(s.take(n) =~= s);
        law_no_separator_is_one_part(s, sep);
    }
}

/// A part stands between separators.
#[verifier::spinoff_prover]
#[verifier::rlimit(30)]
proof fn lemma_part_stands(s: Seq<char>, sep: char, part: Seq<char>) -> (at: int)
    requires
        split(s, sep).contains(part),
    ensures
        part_at(s, sep, part, at),
    decreases s.len(),
{
    let n = first_sep(s, sep);
    lemma_first_sep(s, sep);
    lemma_split_first(s, sep);
    let parts = split(s, sep);
    let i = choose|i: int| 0 <= i < parts.len() && parts[i] == part;
    if n < s.len() {
        let rest = s.skip(n + 1);
        if i == 0 {
            assert(s.subrange(0, n) =~= s.take(n));
            0
        } else {
            assert(split(rest, sep)[i - 1] == part);
            let at = lemma_part_stands(rest, sep, part);
            let here = at + n + 1;
            assert(s.subrange(here, here + part.len()) =~= rest.subrange(at, at + part.len()));
            here
        }
    } else {
        assert(s.take(n) =~= s);
        assert(s.subrange(0, s.len() as int) =~= s);
        0
    }
}

/// What stands between separators is a part.
#[verifier::spinoff_prover]
#[verifier::rlimit(30)]
proof fn lemma_part_is_found(s: Seq<char>, sep: char, part: Seq<char>, at: int)
    requires
        part_at(s, sep, part, at),
    ensures
        split(s, sep).contains(part),
    decreases s.len(),
{
    let n = first_sep(s, sep);
    lemma_first_sep(s, sep);
    lemma_split_first(s, sep);
    let parts = split(s, sep);
    let end = at + part.len();
    if n < s.len() {
        let rest = s.skip(n + 1);
        if at == 0 {
            if end < n {
                assert(s.take(n)[end] == sep);
            } else if end > n {
                assert(part[n] == s.subrange(at, end)[n]);
                assert(part.contains(part[n]));
            }
            assert(s.subrange(0, n) =~= s.take(n));
            assert(parts[0] == part);
        } else if at <= n {
            assert(s.take(n)[at - 1] == sep);
        } else {
            let there = at - n - 1;
            assert(rest.subrange(there, there + part.len()) =~= s.subrange(at, end));
            lemma_part_is_found(rest, sep, part, there);
            let tail = split(rest, sep);
            let i = choose|i: int| 0 <= i < tail.len() && tail[i] == part;
            assert(parts[i + 1] == part);
        }
    } else {
        assert(s.take(n) =~= s);
        if at > 0 {
            assert(s.contains(s[at - 1]));
        }
        if end < s.len() {
            assert(s.contains(s[end]));
        }
        assert(s.subrange(0, s.len() as int) =~= s);
        assert(parts[0] == part);
    }
}

/// The parts of a text are exactly what stands between its separators.
pub proof fn law_parts_stand_between_separators(s: Seq<char>, sep: char, part: Seq<char>)
    ensures
        split(s, sep).contains(part) <==> exists|at: int| part_at(s, sep, part, at),
{
    if split(s, sep).contains(part) {
        let at = lemma_part_stands(s, sep, part);
        assert(part_at(s, sep, part, at));
    }
    if exists|at: int| part_at(s, sep, part, at) {
        let at = choose|at: int| part_at(s, sep, part, at);
        lemma_part_is_found(s, sep, part, at);
    }
}

/// Splitting loses nothing and adds nothing: put back together, the parts are the text.
pub proof fn law_parts_rejoin(s: Seq<char>, sep: char)
    ensures
        rejoined(split(s, sep), sep) == s,
    decreases s.len(),
{
    lemma_split_nonempty(s, sep);
    if s.len() > 0 {
        let init = s.drop_last();
        let before = split(init, sep);
        lemma_split_nonempty(init, sep);
        law_parts_rejoin(init, sep);
        let parts = split(s, sep);
        if s.last() == sep {
            assert(parts.drop_last() =~= before);
            assert(rejoined(parts, sep) =~= s);
        } else {
            let c = s.last();
            assert(parts.drop_last() =~= before.drop_last());
            assert(parts.last() == before.last().push(c));
            assert(init.push(c) =~= s);
            if before.len() > 1 {
                let lead = rejoined(before.drop_last(), sep).push(sep);
                assert(lead + before.last().push(c) =~= (lead + before.last()).push(c));
            }
        }
    }
}

/// The name of a pair is what stands before its first `=`, or all of it.
pub proof fn law_a_pair_is_named_before_its_equals_sign(pair: Seq<char>, key: Seq<char>)
    ensures
        key_of(pair) == key <==> {
            &&& !key.contains('=')
            &&& key.len() <= pair.len()
            &&& pair.take(key.len() as int) == key
            &&& key.len() == pair.len() || pair[key.len() as int] == '='
        },
{
    let n = first_sep(pair, '=');
    lemma_first_sep(pair, '=');
    lemma_split_first(pair, '=');
    if n == pair.len() {
        assert(pair.take(n) =~= pair);
    }
    assert(key_of(pair) == pair.take(n));
    let k = key.len() as int;
    if !key.contains('=') && k <= pair.len() && pair.take(k) == key && (k == pair.len() || pair[k]
        == '=') {
        if k < n {
            assert(pair.take(n)[k] == '=');
        } else if k > n {
            assert(key[n] == pair[n]);
            assert(key.contains(key[n]));
        }
    }
}

/// The pairs of a query string that have a name are those that the text shows under it.
pub proof fn law_pairs_are_found_by_name(q: Seq<char>, key: Seq<char>)
    requires
        !key.contains('&'),
        !key.contains('='),
    ensures
        names_pair(q, key) <==> exists|i: int|
            0 <= i < split(q, '&').len() && key_of(#[trigger] split(q, '&')[i]) == key,
{
    let parts = split(q, '&');
    let k = key.len() as int;
    if exists|i: int| 0 <= i < parts.len() && key_of(#[trigger] parts[i]) == key {
        let i = choose|i: int| 0 <= i < parts.len() && key_of(#[trigger] parts[i]) == key;
        let part = parts[i];
        law_parts_stand_between_separators(q, '&', part);
        law_a_pair_is_named_before_its_equals_sign(part, key);
        let at = choose|at: int| part_at(q, '&', part, at);
        assert(q.subrange(at, at + k) =~= q.subrange(at, at + part.len()).take(k));
        if k < part.len() {
            assert(q[at + k] == q.subrange(at, at + part.len())[k]);
        }
        assert(pair_at(q, key, at));
    }
    if names_pair(q, key) {
        let at = choose|at: int| pair_at(q, key, at);
        let rest = q.skip(at + k);
        let m = first_sep(rest, '&');
        lemma_first_sep(rest, '&');
        let end = at + k + m;
        let part = q.subrange(at, end);
        assert(part.take(k) =~= q.subrange(at, at + k));
        assert forall|j: int| 0 <= j < part.len() implies part[j] != '&' by {
            if j < k {
                assert(key[j] == q.subrange(at, at + k)[j]);
                assert(key.contains(key[j]));
            } else {
                assert(rest.take(m)[j - k] == part[j]);
                assert(rest.take(m).contains(part[j]));
            }
        }
        if end < q.len() {
            assert(q[end] == rest[m]);
        }
        assert(part_at(q, '&', part, at));
        if k < part.len() {
            assert(part[k] == q[at + k]);
            assert(part.contains(part[k]));
        }
        law_parts_stand_between_separators(q, '&', part);
        law_a_pair_is_named_before_its_equals_sign(part, key);
        let i = choose|i: int| 0 <= i < parts.len() && parts[i] == part;
        assert(key_of(parts[i]) == key);
    }
}

/// The number that a text of decimal digits stands for.
pub open spec fn number_of(s: Seq<char>) -> int
    decreases s.len(),
{
    if s.len() == 0 {
        0
    } else {
        10 * number_of(s.drop_last()) + (s.last() as int - '0' as int)
    }
}

/// A number is written in decimal digits that read back as the number, without a leading
/// zero.
pub proof fn law_a_number_reads_back(n: nat)
    ensures
        number_of(decimal_text(n)) == n,
        forall|i: int|
            0 <= i < decimal_text(n).len() ==> '0' <= #[trigger] decimal_text(n)[i] && decimal_text(
                n,
            )[i] <= '9',
        decimal_text(n).len() > 0,
        n > 0 ==> decimal_text(n)[0] != '0',
    decreases n,
{
    let s = decimal_text(n);
    let d = n % 10;
    assert(digit_char(d) as nat == 0x30 + d) by {
        let v = (0x30 + d) as u8;
        assert(v as nat == 0x30 + d);
        assert(v as char as nat == v as nat);
    }
    if n >= 10 {
        law_a_number_reads_back(n / 10);
        assert(s.drop_last() =~= decimal_text(n / 10));
        assert(s[0] == decimal_text(n / 10)[0]);
    } else {
        assert(s.drop_last() =~= Seq::empty());
        assert(number_of(s.drop_last()) == 0);
    }
}

} // verus!
