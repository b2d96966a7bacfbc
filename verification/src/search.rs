//! Live search of the catalogue: each port that matches the query gets a
//! tier (and, for a fuzzy match, a span), and the matches are listed by tier,
//! keeping the catalogue order within a tier.

use crate::models::{texts, Port};
use crate::text::{
    chars_of, contains, contains_seq, spec_to_lowercase, starts_with, starts_with_seq, string_of, to_lowercase,
    trim_ws, trimmed,
};
use vstd::prelude::*;

verus! {

/// Position of the first `c` in `text` at or after `from` (`text.len()` when
/// there is none).
pub open spec fn next_index(text: Seq<char>, c: char, from: int) -> int
    decreases text.len() - from,
{
    if from >= text.len() {
        text.len() as int
    } else if from >= 0 && text[from] == c {
        from
    } else {
        next_index(text, c, from + 1)
    }
}

/// The positions at which the characters of `query` are found in `text`, each
/// one at the first place after the previous (from `from` on); none when one
/// of them is missing.
pub open spec fn match_positions(text: Seq<char>, query: Seq<char>, from: int) -> Option<Seq<int>>
    decreases query.len(),
{
    if query.len() == 0 {
        Some(Seq::empty())
    } else {
        let k = next_index(text, query[0], from);
        if k >= text.len() {
            None
        } else {
            match match_positions(text, query.drop_first(), k + 1) {
                Some(ps) => Some(seq![k] + ps),
                None => None,
            }
        }
    }
}

/// The span of a fuzzy match of `query` in `text`: the distance between the
/// positions of its first and last characters, found greedily; none when
/// `query` is not a subsequence of `text`, or is empty.
pub open spec fn fuzzy(text: Seq<char>, query: Seq<char>) -> Option<int> {
    match match_positions(text, query, 0) {
        Some(ps) => if ps.len() == 0 {
            None
        } else {
            Some(ps.last() - ps[0])
        },
        None => None,
    }
}

/// Some tag begins with `query`.
pub open spec fn some_tag_starts(tags: Seq<Seq<char>>, query: Seq<char>) -> bool {
    exists|i: int| 0 <= i < tags.len() && starts_with_seq(#[trigger] tags[i], query)
}

/// Some tag contains `query`.
pub open spec fn some_tag_contains(tags: Seq<Seq<char>>, query: Seq<char>) -> bool {
    exists|i: int| 0 <= i < tags.len() && contains_seq(#[trigger] tags[i], query)
}

/// How well a port (by its lowercase name and tags) matches a lowercase
/// query, best first: 0 the name begins with it (or the query is empty), 1 the
/// name contains it, 2 a tag begins with it, 3 a tag contains it, 4 a fuzzy
/// match of the name, with its span; none when nothing matches.
pub open spec fn tier(name: Seq<char>, tags: Seq<Seq<char>>, query: Seq<char>) -> Option<(int, int)> {
    if query.len() == 0 || starts_with_seq(name, query) {
        Some((0, 0))
    } else if contains_seq(name, query) {
        Some((1, 0))
    } else if some_tag_starts(tags, query) {
        Some((2, 0))
    } else if some_tag_contains(tags, query) {
        Some((3, 0))
    } else {
        match fuzzy(name, query) {
            Some(s) => Some((4, s)),
            None => None,
        }
    }
}

/// The tier of a port for a lowercase query.
pub open spec fn port_tier(p: Port, query: Seq<char>) -> Option<(int, int)> {
    tier(p.name_lower@, texts(p.tags_lower@), query)
}

/// `a` sorts strictly before `b` (tier first, then span).
pub open spec fn key_lt(a: (int, int), b: (int, int)) -> bool {
    a.0 < b.0 || (a.0 == b.0 && a.1 < b.1)
}

/// The matching ports of `pool` with their tiers, in the order of `pool`.
pub open spec fn scored(pool: Seq<&Port>, query: Seq<char>) -> Seq<((int, int), &Port)>
    decreases pool.len(),
{
    if pool.len() == 0 {
        Seq::empty()
    } else {
        let prev = scored(pool.drop_last(), query);
        match port_tier(*pool.last(), query) {
            Some(t) => prev.push((t, pool.last())),
            None => prev,
        }
    }
}

/// Where `x` goes in `sorted`: after every entry whose key is not greater.
pub open spec fn key_insert_pos(sorted: Seq<((int, int), &Port)>, x: ((int, int), &Port)) -> int
    decreases sorted.len(),
{
    if sorted.len() == 0 {
        0
    } else if key_lt(x.0, sorted.last().0) {
        key_insert_pos(sorted.drop_last(), x)
    } else {
        sorted.len() as int
    }
}

/// `s` stably sorted by key.
pub open spec fn sort_by_key(s: Seq<((int, int), &Port)>) -> Seq<((int, int), &Port)>
    decreases s.len(),
{
    if s.len() == 0 {
        Seq::empty()
    } else {
        let t = sort_by_key(s.drop_last());
        let p = key_insert_pos(t, s.last());
        t.take(p).push(s.last()) + t.skip(p)
    }
}

/// The query as it is matched: trimmed, then lowercase.
pub open spec fn normalized_query(query: Seq<char>) -> Seq<char> {
    spec_to_lowercase(trimmed(query))
}

/// The ports of `pool` that match `query`, by tier then span, in the order of
/// `pool` among equals.
pub open spec fn search_result(pool: Seq<&Port>, query: Seq<char>) -> Seq<&Port> {
    sort_by_key(scored(pool, normalized_query(query))).map_values(|e: ((int, int), &Port)| e.1)
}

pub proof fn lemma_key_insert_pos_bounds(sorted: Seq<((int, int), &Port)>, x: ((int, int), &Port))
    ensures
        0 <= key_insert_pos(sorted, x) <= sorted.len(),
    decreases sorted.len(),
{
    if sorted.len() > 0 {
        lemma_key_insert_pos_bounds(sorted.drop_last(), x);
    }
}

/// Entries ordered by key (tier, then span).
pub open spec fn keys_sorted(s: Seq<((int, int), &Port)>) -> bool {
    forall|i: int, j: int| 0 <= i < j < s.len() ==> !key_lt(#[trigger] s[j].0, #[trigger] s[i].0)
}

proof fn lemma_key_insert_pos_props(t: Seq<((int, int), &Port)>, x: ((int, int), &Port))
    ensures
        0 <= key_insert_pos(t, x) <= t.len(),
        forall|k: int| key_insert_pos(t, x) <= k < t.len() ==> key_lt(x.0, #[trigger] t[k].0),
        key_insert_pos(t, x) > 0 ==> !key_lt(x.0, t[key_insert_pos(t, x) - 1].0),
    decreases t.len(),
{
    if t.len() > 0 {
        let d = t.drop_last();
        lemma_key_insert_pos_props(d, x);
        if key_lt(x.0, t.last().0) {
            assert forall|k: int| key_insert_pos(t, x) <= k < t.len() implies key_lt(x.0, #[trigger] t[k].0) by {
                if k < t.len() - 1 {
                    assert(t[k] == d[k]);
                }
            }
            if key_insert_pos(t, x) > 0 {
                assert(t[key_insert_pos(t, x) - 1] == d[key_insert_pos(t, x) - 1]);
            }
        }
    }
}

/// The stable sort by key orders the entries by key and keeps each of them,
/// as many times as it occurs.
pub proof fn lemma_sort_by_key(s: Seq<((int, int), &Port)>)
    ensures
        keys_sorted(sort_by_key(s)),
        sort_by_key(s).to_multiset() == s.to_multiset(),
    decreases s.len(),
{
    if s.len() > 0 {
        let d = s.drop_last();
        let t = sort_by_key(d);
        let x = s.last();
        lemma_sort_by_key(d);
        lemma_key_insert_pos_props(t, x);
        let p = key_insert_pos(t, x);
        let a = t.take(p).push(x);
        let b = t.skip(p);
        let u = a + b;
        assert(sort_by_key(s) == u);
        assert forall|i: int, j: int| 0 <= i < j < u.len() implies !key_lt(#[trigger] u[j].0, #[trigger] u[i].0) by {
            if j < p {
                assert(u[i] == t[i] && u[j] == t[j]);
            } else if j == p {
                assert(u[j] == x);
                assert(u[i] == t[i]);
                if i < p - 1 {
                    assert(!key_lt(t[p - 1].0, t[i].0));
                }
            } else {
                assert(u[j] == t[j - 1]);
                if i < p {
                    assert(u[i] == t[i]);
                } else if i == p {
                    assert(u[i] == x);
                } else {
                    assert(u[i] == t[i - 1]);
                }
            }
        }
        broadcast use vstd::multiset::group_multiset_axioms;
        vstd::seq_lib::lemma_multiset_commutative(a, b);
        vstd::seq_lib::lemma_multiset_commutative(t.take(p), b);
        t.take(p).to_multiset_ensures();
        d.to_multiset_ensures();
        assert(t.take(p) + b =~= t);
        assert(d.push(x) =~= s);
        assert(u.to_multiset() =~= t.to_multiset().insert(x));
        assert(d.push(x).to_multiset() =~= d.to_multiset().insert(x));
        assert(s.to_multiset() =~= d.to_multiset().insert(x));
    } else {
        assert(sort_by_key(s) =~= s);
    }
}

/// Each scored entry carries the tier of its port, and only matching ports
/// are scored.
pub proof fn lemma_scored(pool: Seq<&Port>, query: Seq<char>)
    ensures
        scored(pool, query).len() <= pool.len(),
        forall|i: int|
            0 <= i < scored(pool, query).len() ==> port_tier(*#[trigger] scored(pool, query)[i].1, query) == Some(
                scored(pool, query)[i].0,
            ),
    decreases pool.len(),
{
    if pool.len() > 0 {
        lemma_scored(pool.drop_last(), query);
    }
}

/// What a search lists: the ports of the pool that match the query (trimmed
/// and lowercased), as many times as they occur there, each with its tier,
/// ordered by tier then span.
pub proof fn lemma_search_ranks_matches(pool: Seq<&Port>, query: Seq<char>)
    ensures
        ({
            let q = normalized_query(query);
            let r = sort_by_key(scored(pool, q));
            &&& r.to_multiset() == scored(pool, q).to_multiset()
            &&& keys_sorted(r)
            &&& forall|i: int| 0 <= i < r.len() ==> port_tier(*#[trigger] r[i].1, q) == Some(r[i].0)
            &&& search_result(pool, query) == r.map_values(|e: ((int, int), &Port)| e.1)
        }),
{
    let q = normalized_query(query);
    let sc = scored(pool, q);
    let r = sort_by_key(sc);
    lemma_sort_by_key(sc);
    lemma_scored(pool, q);
    r.to_multiset_ensures();
    sc.to_multiset_ensures();
    assert forall|i: int| 0 <= i < r.len() implies port_tier(*#[trigger] r[i].1, q) == Some(r[i].0) by {
        assert(r.contains(r[i]));
        assert(r.to_multiset().count(r[i]) > 0);
        assert(sc.to_multiset().count(r[i]) > 0);
        assert(sc.contains(r[i]));
        let k = choose|k: int| 0 <= k < sc.len() && sc[k] == r[i];
        assert(port_tier(*sc[k].1, q) == Some(sc[k].0));
    }
}

/// A search lists better matches first: of two ports listed in turn, the
/// first has a tier no greater than the second's, and, in the same tier, a
/// span no greater (the fuzzy span of the name, for tier-4 matches).
pub proof fn lemma_search_ordered_by_tier_then_span(pool: Seq<&Port>, query: Seq<char>)
    ensures
        forall|i: int, j: int|
            0 <= i < j < search_result(pool, query).len() ==> {
                let a = port_tier(*#[trigger] search_result(pool, query)[i], normalized_query(query));
                let b = port_tier(*#[trigger] search_result(pool, query)[j], normalized_query(query));
                &&& a is Some
                &&& b is Some
                &&& a.unwrap().0 <= b.unwrap().0
                &&& a.unwrap().0 == b.unwrap().0 ==> a.unwrap().1 <= b.unwrap().1
            },
{
    let q = normalized_query(query);
    let r = sort_by_key(scored(pool, q));
    lemma_search_ranks_matches(pool, query);
    let res = search_result(pool, query);
    assert forall|i: int, j: int| 0 <= i < j < res.len() implies {
        let a = port_tier(*#[trigger] res[i], q);
        let b = port_tier(*#[trigger] res[j], q);
        &&& a is Some
        &&& b is Some
        &&& a.unwrap().0 <= b.unwrap().0
        &&& a.unwrap().0 == b.unwrap().0 ==> a.unwrap().1 <= b.unwrap().1
    } by {
        assert(res[i] == r[i].1);
        assert(res[j] == r[j].1);
        assert(port_tier(*r[i].1, q) == Some(r[i].0));
        assert(port_tier(*r[j].1, q) == Some(r[j].0));
        assert(!key_lt(r[j].0, r[i].0));
    }
}

/// Position of the first `c` of `text` at or after `from`.
fn next_index_of(text: &[char], c: char, from: usize) -> (r: usize)
    requires
        from <= text@.len(),
    ensures
        r == next_index(text@, c, from as int),
        from <= r <= text@.len(),
{
    let mut i: usize = from;
    while i < text.len()
        invariant
            from <= i <= text@.len(),
            next_index(text@, c, from as int) == next_index(text@, c, i as int),
        decreases text@.len() - i,
    {
        if text[i] == c {
            return i;
        }
        i = i + 1;
    }
    i
}

/// `ps` put before the positions `rest`, if there are any.
pub open spec fn prepend(ps: Seq<int>, rest: Option<Seq<int>>) -> Option<Seq<int>> {
    match rest {
        Some(x) => Some(ps + x),
        None => None,
    }
}

/// The span of a greedy fuzzy match of `query` in `text` (see `fuzzy`).
pub fn fuzzy_span(text: &str, query: &str) -> (r: Option<usize>)
    ensures
        match r {
            Some(s) => fuzzy(text@, query@) == Some(s as int),
            None => fuzzy(text@, query@) is None,
        },
{
    let t = chars_of(text);
    let q = chars_of(query);
    let mut pos: usize = 0;
    let mut first: usize = 0;
    let mut last: usize = 0;
    let mut j: usize = 0;
    let ghost mut ps: Seq<int> = Seq::empty();
    proof {
        assert(q@.skip(0) =~= q@);
        assert(ps + Seq::<int>::empty() =~= ps);
        match match_positions(t@, q@, 0) {
            Some(x) => {
                assert(ps + x =~= x);
            },
            None => {},
        }
    }
    while j < q.len()
        invariant
            t@ == text@,
            q@ == query@,
            j <= q@.len(),
            pos <= t@.len(),
            ps.len() == j,
            j > 0 ==> ps[0] == first && ps.last() == last && first <= last && last < pos,
            match_positions(t@, q@, 0) == prepend(ps, match_positions(t@, q@.skip(j as int), pos as int)),
        decreases q@.len() - j,
    {
        let k = next_index_of(t.as_slice(), q[j], pos);
        proof {
            assert(q@.skip(j as int)[0] == q@[j as int]);
            assert(q@.skip(j as int).drop_first() =~= q@.skip(j + 1));
        }
        if k == t.len() {
            return None;
        }
        proof {
            match match_positions(t@, q@.skip(j + 1), k + 1) {
                Some(x) => {
                    assert(ps + (seq![k as int] + x) =~= ps.push(k as int) + x);
                },
                None => {},
            }
        }
        if j == 0 {
            first = k;
        }
        last = k;
        proof {
            ps = ps.push(k as int);
        }
        pos = k + 1;
        j = j + 1;
    }
    proof {
        assert(q@.skip(j as int).len() == 0);
        assert(ps + Seq::<int>::empty() =~= ps);
    }
    if j == 0 {
        return None;
    }
    Some(last - first)
}

/// Some tag begins with `query`.
fn any_tag_starts(tags: &Vec<String>, query: &[char]) -> (r: bool)
    ensures
        r == some_tag_starts(texts(tags@), query@),
{
    let mut i: usize = 0;
    while i < tags.len()
        invariant
            i <= tags@.len(),
            forall|k: int| 0 <= k < i ==> !starts_with_seq(#[trigger] texts(tags@)[k], query@),
        decreases tags@.len() - i,
    {
        let t = chars_of(tags[i].as_str());
        if starts_with(t.as_slice(), query) {
            proof {
                assert(texts(tags@)[i as int] == t@);
            }
            return true;
        }
        proof {
            assert(texts(tags@)[i as int] == t@);
        }
        i = i + 1;
    }
    false
}

/// Some tag contains `query`.
fn any_tag_contains(tags: &Vec<String>, query: &[char]) -> (r: bool)
    ensures
        r == some_tag_contains(texts(tags@), query@),
{
    let mut i: usize = 0;
    while i < tags.len()
        invariant
            i <= tags@.len(),
            forall|k: int| 0 <= k < i ==> !contains_seq(#[trigger] texts(tags@)[k], query@),
        decreases tags@.len() - i,
    {
        let t = chars_of(tags[i].as_str());
        if contains(t.as_slice(), query) {
            proof {
                assert(texts(tags@)[i as int] == t@);
            }
            return true;
        }
        proof {
            assert(texts(tags@)[i as int] == t@);
        }
        i = i + 1;
    }
    false
}

/// The tier of `port` for a lowercase `query` (see `tier`).
pub fn search_tier(port: &Port, query: &str) -> (r: Option<(u8, usize)>)
    ensures
        match r {
            Some(t) => port_tier(*port, query@) == Some((t.0 as int, t.1 as int)),
            None => port_tier(*port, query@) is None,
        },
{
    let name = chars_of(port.name_lower.as_str());
    let q = chars_of(query);
    if q.len() == 0 || starts_with(name.as_slice(), q.as_slice()) {
        return Some((0, 0));
    }
    if contains(name.as_slice(), q.as_slice()) {
        return Some((1, 0));
    }
    if any_tag_starts(&port.tags_lower, q.as_slice()) {
        return Some((2, 0));
    }
    if any_tag_contains(&port.tags_lower, q.as_slice()) {
        return Some((3, 0));
    }
    match fuzzy_span(port.name_lower.as_str(), query) {
        Some(span) => Some((4, span)),
        None => None,
    }
}

/// Scores with integer keys.
pub open spec fn key_view<'a>(v: Seq<((u8, usize), &'a Port)>) -> Seq<((int, int), &'a Port)> {
    v.map_values(|e: ((u8, usize), &'a Port)| ((e.0.0 as int, e.0.1 as int), e.1))
}

/// The matching ports of `pool` with their tiers, in the order of `pool`.
fn score_all<'a>(pool: &[&'a Port], query: &str) -> (r: Vec<((u8, usize), &'a Port)>)
    ensures
        key_view(r@) == scored(pool@, query@),
{
    let mut out: Vec<((u8, usize), &'a Port)> = Vec::new();
    let mut i: usize = 0;
    proof {
        assert(pool@.take(0) =~= Seq::<&Port>::empty());
        assert(key_view(out@) =~= Seq::<((int, int), &Port)>::empty());
    }
    while i < pool.len()
        invariant
            i <= pool@.len(),
            key_view(out@) == scored(pool@.take(i as int), query@),
        decreases pool@.len() - i,
    {
        proof {
            assert(pool@.take(i + 1).drop_last() =~= pool@.take(i as int));
            assert(pool@.take(i + 1).last() == pool@[i as int]);
        }
        let p: &'a Port = pool[i];
        let ghost before = out@;
        match search_tier(p, query) {
            Some(t) => {
                out.push((t, p));
                proof {
                    assert(key_view(out@) =~= key_view(before).push(((t.0 as int, t.1 as int), p)));
                }
            },
            None => {},
        }
        i = i + 1;
    }
    proof {
        assert(pool@.take(pool@.len() as int) =~= pool@);
    }
    out
}

/// `a` sorts strictly before `b`.
fn key_less(a: (u8, usize), b: (u8, usize)) -> (r: bool)
    ensures
        r == key_lt((a.0 as int, a.1 as int), (b.0 as int, b.1 as int)),
{
    a.0 < b.0 || (a.0 == b.0 && a.1 < b.1)
}

/// `items` stably sorted by key.
fn sort_scored<'a>(items: &Vec<((u8, usize), &'a Port)>) -> (r: Vec<((u8, usize), &'a Port)>)
    ensures
        key_view(r@) == sort_by_key(key_view(items@)),
{
    let ghost t = key_view(items@);
    let mut sorted: Vec<((u8, usize), &'a Port)> = Vec::new();
    let mut i: usize = 0;
    proof {
        assert(t.take(0) =~= Seq::<((int, int), &Port)>::empty());
        assert(key_view(sorted@) =~= Seq::<((int, int), &Port)>::empty());
    }
    while i < items.len()
        invariant
            i <= items@.len(),
            t == key_view(items@),
            key_view(sorted@) == sort_by_key(t.take(i as int)),
        decreases items@.len() - i,
    {
        let x = items[i];
        let ghost xv = ((x.0.0 as int, x.0.1 as int), x.1);
        let ghost s = key_view(sorted@);
        let mut p: usize = sorted.len();
        proof {
            assert(s.take(p as int) =~= s);
        }
        while p > 0
            invariant
                p <= sorted@.len(),
                s == key_view(sorted@),
                xv == ((x.0.0 as int, x.0.1 as int), x.1),
                key_insert_pos(s, xv) == key_insert_pos(s.take(p as int), xv),
            ensures
                p <= sorted@.len(),
                key_insert_pos(s, xv) == p,
            decreases p,
        {
            proof {
                assert(s.take(p as int).last() == s[p - 1]);
            }
            if !key_less(x.0, sorted[p - 1].0) {
                break;
            }
            proof {
                assert(s.take(p as int).drop_last() =~= s.take(p - 1));
            }
            p = p - 1;
        }
        proof {
            lemma_key_insert_pos_bounds(s, xv);
            assert(t.take(i + 1).drop_last() =~= t.take(i as int));
            assert(t.take(i + 1).last() == xv);
        }
        sorted.insert(p, x);
        proof {
            assert(key_view(sorted@) =~= s.take(p as int).push(xv) + s.skip(p as int));
        }
        i = i + 1;
    }
    proof {
        assert(t.take(items@.len() as int) =~= t);
    }
    sorted
}

/// The ports of `pool` that match `query` (trimmed and lowercased), by tier
/// then span, keeping the order of `pool` among equals.
pub fn filter_and_sort<'a>(pool: &[&'a Port], query: &str) -> (r: Vec<&'a Port>)
    ensures
        r@ == search_result(pool@, query@),
{
    let qc = chars_of(query);
    let tq = trim_ws(qc.as_slice());
    let ts = string_of(tq.as_slice());
    let lq = to_lowercase(ts.as_str());
    let sc = score_all(pool, lq.as_str());
    let sorted = sort_scored(&sc);
    let ghost sv = key_view(sorted@);
    let mut out: Vec<&'a Port> = Vec::new();
    let mut k: usize = 0;
    while k < sorted.len()
        invariant
            k <= sorted@.len(),
            sv == key_view(sorted@),
            out@ == sv.take(k as int).map_values(|e: ((int, int), &Port)| e.1),
        decreases sorted@.len() - k,
    {
        out.push(sorted[k].1);
        k = k + 1;
        proof {
            assert(out@ =~= sv.take(k as int).map_values(|e: ((int, int), &Port)| e.1));
        }
    }
    proof {
        assert(sv.take(sorted@.len() as int) =~= sv);
    }
    out
}

} // verus!
