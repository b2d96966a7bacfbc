//! Character-sequence helpers shared by the parsers of this crate.
//!
//! Text is handled as sequences of Unicode scalar values (`Seq<char>`, the
//! view vstd gives `str` and `String`).

use vstd::prelude::*;

verus! {

/// `pat` occurs in `s` starting at character position `i`.
pub open spec fn matches_at(s: Seq<char>, pat: Seq<char>, i: int) -> bool {
    0 <= i && i + pat.len() <= s.len() && s.subrange(i, i + pat.len()) == pat
}

/// `pat` occurs somewhere in `s` (the empty pattern occurs everywhere).
pub open spec fn contains_seq(s: Seq<char>, pat: Seq<char>) -> bool {
    exists|i: int| #[trigger] matches_at(s, pat, i)
}

pub open spec fn starts_with_seq(s: Seq<char>, pat: Seq<char>) -> bool {
    matches_at(s, pat, 0)
}

pub open spec fn ends_with_seq(s: Seq<char>, pat: Seq<char>) -> bool {
    pat.len() <= s.len() && matches_at(s, pat, s.len() - pat.len())
}

/// `i` is the first position where `pat` occurs in `s`.
pub open spec fn is_first_match(s: Seq<char>, pat: Seq<char>, i: int) -> bool {
    matches_at(s, pat, i) && forall|j: int| 0 <= j < i ==> !#[trigger] matches_at(s, pat, j)
}

/// Position of the first occurrence of `pat` in `s`, if any.
pub open spec fn find_seq(s: Seq<char>, pat: Seq<char>) -> Option<int> {
    if contains_seq(s, pat) {
        Some(choose|i: int| is_first_match(s, pat, i))
    } else {
        None
    }
}

/// The White_Space property of Unicode, which `char::is_whitespace` tests.
pub open spec fn is_white_space(c: char) -> bool {
    ||| '\u{9}' <= c <= '\u{d}'
    ||| c == ' '
    ||| c == '\u{85}'
    ||| c == '\u{a0}'
    ||| c == '\u{1680}'
    ||| '\u{2000}' <= c <= '\u{200a}'
    ||| c == '\u{2028}'
    ||| c == '\u{2029}'
    ||| c == '\u{202f}'
    ||| c == '\u{205f}'
    ||| c == '\u{3000}'
}

/// ASCII lowercase of one character (other characters are unchanged).
pub open spec fn ascii_lower(c: char) -> char {
    if 'A' <= c <= 'Z' {
        ((c as u32) + 32) as char
    } else {
        c
    }
}

/// Every character folded by `ascii_lower`.
pub open spec fn ascii_lower_seq(s: Seq<char>) -> Seq<char> {
    s.map_values(|c: char| ascii_lower(c))
}

/// What `str::to_lowercase` returns for a string (Unicode case mapping).
pub uninterp spec fn spec_to_lowercase(s: Seq<char>) -> Seq<char>;

/// What `char::is_alphanumeric` returns (Unicode Alphabetic or Numeric).
pub uninterp spec fn spec_is_alphanumeric(c: char) -> bool;

/// The characters of `s`, in order.
pub(crate) fn chars_of(s: &str) -> (r: Vec<char>)
    ensures
        r@ == s@,
{
    let mut it = s.chars();
    let mut r: Vec<char> = Vec::new();
    loop
        invariant
            r@ + vstd::std_specs::iter::IteratorSpec::remaining(&it) == s@,
            vstd::std_specs::iter::IteratorSpec::decrease(&it) is Some,
        ensures
            r@ == s@,
        decreases vstd::std_specs::iter::IteratorSpec::decrease(&it)->0,
    {
        match it.next() {
            Some(c) => {
                proof {
                    assert(r@.push(c) + vstd::std_specs::iter::IteratorSpec::remaining(&it) =~= s@);
                }
                r.push(c);
            },
            None => {
                proof {
                    assert(r@ =~= s@);
                }
                break;
            },
        }
    }
    r
}

/// A `String` made of the characters of `v`, in order (`Iterator::collect`).
#[verifier::external_body]
pub(crate) fn string_of(v: &[char]) -> (r: String)
    ensures
        r@ == v@,
{
    v.iter().collect()
}

/// `str::to_lowercase`: the Unicode lowercase mapping of `s`, whose result is
/// only named here (`spec_to_lowercase`), as it follows the Unicode tables.
#[verifier::external_body]
pub(crate) fn to_lowercase(s: &str) -> (r: String)
    ensures
        r@ == spec_to_lowercase(s@),
{
    s.to_lowercase()
}

/// `char::is_alphanumeric`, named (`spec_is_alphanumeric`) as it follows the
/// Unicode tables.
#[verifier::external_body]
pub(crate) fn is_alphanumeric(c: char) -> (r: bool)
    ensures
        r == spec_is_alphanumeric(c),
{
    c.is_alphanumeric()
}

/// `char::is_whitespace`, written out from the White_Space list.
pub fn is_whitespace(c: char) -> (r: bool)
    ensures
        r == is_white_space(c),
{
    ('\u{9}' <= c && c <= '\u{d}') || c == ' ' || c == '\u{85}' || c == '\u{a0}' || c == '\u{1680}'
        || ('\u{2000}' <= c && c <= '\u{200a}') || c == '\u{2028}' || c == '\u{2029}' || c == '\u{202f}'
        || c == '\u{205f}' || c == '\u{3000}'
}

/// ASCII lowercase of one character.
pub fn to_ascii_lower(c: char) -> (r: char)
    ensures
        r == ascii_lower(c),
{
    match c {
        'A' => 'a',
        'B' => 'b',
        'C' => 'c',
        'D' => 'd',
        'E' => 'e',
        'F' => 'f',
        'G' => 'g',
        'H' => 'h',
        'I' => 'i',
        'J' => 'j',
        'K' => 'k',
        'L' => 'l',
        'M' => 'm',
        'N' => 'n',
        'O' => 'o',
        'P' => 'p',
        'Q' => 'q',
        'R' => 'r',
        'S' => 's',
        'T' => 't',
        'U' => 'u',
        'V' => 'v',
        'W' => 'w',
        'X' => 'x',
        'Y' => 'y',
        'Z' => 'z',
        _ => c,
    }
}

/// Two texts are equal.
pub fn same_text(a: &str, b: &str) -> (r: bool)
    ensures
        r == (a@ == b@),
{
    let x = chars_of(a);
    let y = chars_of(b);
    if x.len() != y.len() {
        return false;
    }
    let r = match_at(x.as_slice(), y.as_slice(), 0);
    proof {
        if r {
            assert(x@.subrange(0, y@.len() as int) =~= x@);
        } else {
            assert(x@.subrange(0, y@.len() as int) =~= x@);
        }
    }
    r
}

/// `pat` occurs in `s` at position `i`.
pub fn match_at(s: &[char], pat: &[char], i: usize) -> (r: bool)
    ensures
        r == matches_at(s@, pat@, i as int),
{
    if i > s.len() || pat.len() > s.len() - i {
        return false;
    }
    let mut k: usize = 0;
    while k < pat.len()
        invariant
            i + pat@.len() <= s@.len(),
            s@.len() == s.len(),
            k <= pat@.len(),
            forall|j: int| 0 <= j < k ==> s@[i + j] == pat@[j],
        decreases pat@.len() - k,
    {
        if s[i + k] != pat[k] {
            proof {
                assert(s@.subrange(i as int, i + pat@.len())[k as int] != pat@[k as int]);
            }
            return false;
        }
        k = k + 1;
    }
    proof {
        assert(s@.subrange(i as int, i + pat@.len()) =~= pat@);
    }
    true
}

/// First position of `pat` in `s`.
pub fn find(s: &[char], pat: &[char]) -> (r: Option<usize>)
    ensures
        match r {
            Some(i) => is_first_match(s@, pat@, i as int),
            None => !contains_seq(s@, pat@),
        },
        r matches Some(i) ==> find_seq(s@, pat@) == Some(i as int),
        r is None ==> find_seq(s@, pat@) is None,
{
    if pat.len() > s.len() {
        proof {
            assert forall|j: int| !#[trigger] matches_at(s@, pat@, j) by {}
        }
        return None;
    }
    let last: usize = s.len() - pat.len();
    let mut i: usize = 0;
    while i < last
        invariant
            i <= last,
            last + pat@.len() == s@.len(),
            forall|j: int| 0 <= j < i ==> !#[trigger] matches_at(s@, pat@, j),
        decreases last - i,
    {
        if match_at(s, pat, i) {
            proof {
                lemma_first_match_unique(s@, pat@, i as int);
            }
            return Some(i);
        }
        i = i + 1;
    }
    if match_at(s, pat, last) {
        proof {
            lemma_first_match_unique(s@, pat@, last as int);
        }
        return Some(last);
    }
    proof {
        assert forall|j: int| !#[trigger] matches_at(s@, pat@, j) by {
            if 0 <= j && j < last {
            }
        }
    }
    None
}

/// A first match is the one `find_seq` picks.
pub proof fn lemma_first_match_unique(s: Seq<char>, pat: Seq<char>, i: int)
    requires
        is_first_match(s, pat, i),
    ensures
        find_seq(s, pat) == Some(i),
{
    assert(contains_seq(s, pat));
    let c = choose|c: int| is_first_match(s, pat, c);
    assert(is_first_match(s, pat, c));
    if c < i {
        assert(!matches_at(s, pat, c));
    } else if c > i {
        assert(!matches_at(s, pat, i));
    }
}

/// `pat` occurs in `s`.
pub fn contains(s: &[char], pat: &[char]) -> (r: bool)
    ensures
        r == contains_seq(s@, pat@),
{
    find(s, pat).is_some()
}

/// `s` begins with `pat`.
pub fn starts_with(s: &[char], pat: &[char]) -> (r: bool)
    ensures
        r == starts_with_seq(s@, pat@),
{
    match_at(s, pat, 0)
}

/// `s` ends with `pat`.
pub fn ends_with(s: &[char], pat: &[char]) -> (r: bool)
    ensures
        r == ends_with_seq(s@, pat@),
{
    if pat.len() > s.len() {
        false
    } else {
        match_at(s, pat, s.len() - pat.len())
    }
}

/// A copy of `s[from..to]`.
pub fn slice_vec<T: Copy>(s: &[T], from: usize, to: usize) -> (r: Vec<T>)
    requires
        from <= to <= s@.len(),
    ensures
        r@ == s@.subrange(from as int, to as int),
{
    let mut r: Vec<T> = Vec::new();
    let mut k: usize = from;
    while k < to
        invariant
            from <= k <= to <= s@.len(),
            r@ == s@.subrange(from as int, k as int),
        decreases to - k,
    {
        r.push(s[k]);
        k = k + 1;
        proof {
            assert(r@ =~= s@.subrange(from as int, k as int));
        }
    }
    r
}

/// `s` appended to `out`.
pub fn extend_chars(out: &mut Vec<char>, s: &[char])
    ensures
        final(out)@ == old(out)@ + s@,
{
    let mut k: usize = 0;
    let ghost start = out@;
    while k < s.len()
        invariant
            k <= s@.len(),
            out@ == start + s@.take(k as int),
        decreases s@.len() - k,
    {
        out.push(s[k]);
        k = k + 1;
        proof {
            assert(out@ =~= start + s@.take(k as int));
        }
    }
    proof {
        assert(s@.take(s@.len() as int) =~= s@);
    }
}

/// The chars of a string literal or other `str`, as a `Vec`.
pub fn lit(s: &str) -> (r: Vec<char>)
    ensures
        r@ == s@,
{
    chars_of(s)
}


/// Position of the first character of `s` that is in `stops` (`s.len()` when
/// there is none).
pub open spec fn stop_index(s: Seq<char>, stops: Seq<char>) -> int
    decreases s.len(),
{
    if s.len() == 0 {
        0
    } else if stops.contains(s[0]) {
        0
    } else {
        1 + stop_index(s.drop_first(), stops)
    }
}

/// Position of the first White_Space character of `s` (`s.len()` if none).
pub open spec fn space_index(s: Seq<char>) -> int
    decreases s.len(),
{
    if s.len() == 0 {
        0
    } else if is_white_space(s[0]) {
        0
    } else {
        1 + space_index(s.drop_first())
    }
}

/// `s` without its leading White_Space characters.
pub open spec fn trim_start_ws(s: Seq<char>) -> Seq<char>
    decreases s.len(),
{
    if s.len() > 0 && is_white_space(s[0]) {
        trim_start_ws(s.drop_first())
    } else {
        s
    }
}

/// `s` without its trailing White_Space characters.
pub open spec fn trim_end_ws(s: Seq<char>) -> Seq<char>
    decreases s.len(),
{
    if s.len() > 0 && is_white_space(s.last()) {
        trim_end_ws(s.drop_last())
    } else {
        s
    }
}

/// `str::trim`: `s` without White_Space at either end.
pub open spec fn trimmed(s: Seq<char>) -> Seq<char> {
    trim_end_ws(trim_start_ws(s))
}

/// Position of the last `c` in `s`, or -1.
pub open spec fn last_index_of(s: Seq<char>, c: char) -> int
    decreases s.len(),
{
    if s.len() == 0 {
        -1
    } else if s.last() == c {
        s.len() - 1
    } else {
        last_index_of(s.drop_last(), c)
    }
}

/// What follows the last `c` of `s` (all of `s` when there is none): the
/// first item of `s.rsplit(c)`.
pub open spec fn after_last(s: Seq<char>, c: char) -> Seq<char> {
    s.skip(last_index_of(s, c) + 1)
}

/// The lines of `s`, as `str::lines` gives them: split at `\n`, a `\r` just
/// before it dropped, no last empty line after a final `\n`.
pub open spec fn lines_of(s: Seq<char>) -> Seq<Seq<char>>
    decreases s.len(),
{
    if s.len() == 0 {
        Seq::empty()
    } else {
        let i = stop_index(s, seq!['\n']);
        proof {
            lemma_stop_index_bounds(s, seq!['\n']);
        }
        if i >= s.len() {
            seq![s]
        } else {
            let line = s.take(i);
            let l = if line.len() > 0 && line.last() == '\r' {
                line.drop_last()
            } else {
                line
            };
            seq![l] + lines_of(s.skip(i + 1))
        }
    }
}

pub proof fn lemma_last_index_bounds(s: Seq<char>, c: char)
    ensures
        -1 <= last_index_of(s, c) < s.len(),
        last_index_of(s, c) >= 0 ==> s[last_index_of(s, c)] == c,
    decreases s.len(),
{
    if s.len() > 0 {
        lemma_last_index_bounds(s.drop_last(), c);
    }
}

/// `s` without the characters of `set` at its end (`trim_end_matches`).
pub open spec fn trim_end_set(s: Seq<char>, set: Seq<char>) -> Seq<char>
    decreases s.len(),
{
    if s.len() > 0 && set.contains(s.last()) {
        trim_end_set(s.drop_last(), set)
    } else {
        s
    }
}

/// `s` without the suffix `suf` when it ends with it (`strip_suffix`, or the
/// text unchanged).
pub open spec fn strip_suffix_or_keep(s: Seq<char>, suf: Seq<char>) -> Seq<char> {
    if ends_with_seq(s, suf) {
        s.take(s.len() - suf.len())
    } else {
        s
    }
}

pub proof fn lemma_stop_index_bounds(s: Seq<char>, stops: Seq<char>)
    ensures
        0 <= stop_index(s, stops) <= s.len(),
        stop_index(s, stops) < s.len() ==> stops.contains(s[stop_index(s, stops)]),
        forall|j: int| 0 <= j < stop_index(s, stops) ==> !stops.contains(#[trigger] s[j]),
    decreases s.len(),
{
    if s.len() > 0 && !stops.contains(s[0]) {
        lemma_stop_index_bounds(s.drop_first(), stops);
        assert forall|j: int| 0 <= j < stop_index(s, stops) implies !stops.contains(#[trigger] s[j]) by {
            if j > 0 {
                assert(s[j] == s.drop_first()[j - 1]);
            }
        }
    }
}

pub proof fn lemma_space_index_bounds(s: Seq<char>)
    ensures
        0 <= space_index(s) <= s.len(),
        space_index(s) < s.len() ==> is_white_space(s[space_index(s)]),
        forall|j: int| 0 <= j < space_index(s) ==> !is_white_space(#[trigger] s[j]),
    decreases s.len(),
{
    if s.len() > 0 && !is_white_space(s[0]) {
        lemma_space_index_bounds(s.drop_first());
        assert forall|j: int| 0 <= j < space_index(s) implies !is_white_space(#[trigger] s[j]) by {
            if j > 0 {
                assert(s[j] == s.drop_first()[j - 1]);
            }
        }
    }
}

/// `c` is one of `set`.
pub fn is_one_of(c: char, set: &[char]) -> (r: bool)
    ensures
        r == set@.contains(c),
{
    let mut i: usize = 0;
    while i < set.len()
        invariant
            i <= set@.len(),
            forall|j: int| 0 <= j < i ==> set@[j] != c,
        decreases set@.len() - i,
    {
        if set[i] == c {
            proof {
                assert(set@[i as int] == c);
            }
            return true;
        }
        i = i + 1;
    }
    false
}

/// Position of the first character of `s` that is in `stops`.
pub fn find_stop(s: &[char], stops: &[char]) -> (r: usize)
    ensures
        r == stop_index(s@, stops@),
{
    let mut i: usize = 0;
    proof {
        assert(s@.skip(0) =~= s@);
    }
    while i < s.len()
        invariant
            i <= s@.len(),
            stop_index(s@, stops@) == i + stop_index(s@.skip(i as int), stops@),
        decreases s@.len() - i,
    {
        proof {
            assert(s@.skip(i as int)[0] == s@[i as int]);
            assert(s@.skip(i as int).drop_first() =~= s@.skip(i + 1));
        }
        if is_one_of(s[i], stops) {
            return i;
        }
        i = i + 1;
    }
    i
}

/// Position of the first White_Space character of `s`.
pub fn find_space(s: &[char]) -> (r: usize)
    ensures
        r == space_index(s@),
{
    let mut i: usize = 0;
    proof {
        assert(s@.skip(0) =~= s@);
    }
    while i < s.len()
        invariant
            i <= s@.len(),
            space_index(s@) == i + space_index(s@.skip(i as int)),
        decreases s@.len() - i,
    {
        proof {
            assert(s@.skip(i as int)[0] == s@[i as int]);
            assert(s@.skip(i as int).drop_first() =~= s@.skip(i + 1));
        }
        if is_whitespace(s[i]) {
            return i;
        }
        i = i + 1;
    }
    i
}

/// `s` without the characters of `set` at its end.
pub fn trim_end_matching(s: &[char], set: &[char]) -> (r: Vec<char>)
    ensures
        r@ == trim_end_set(s@, set@),
{
    let mut n: usize = s.len();
    proof {
        assert(s@.take(n as int) =~= s@);
    }
    while n > 0 && is_one_of(s[n - 1], set)
        invariant
            n <= s@.len(),
            trim_end_set(s@, set@) == trim_end_set(s@.take(n as int), set@),
        decreases n,
    {
        proof {
            assert(s@.take(n as int).drop_last() =~= s@.take(n - 1));
            assert(s@.take(n as int).last() == s@[n - 1]);
        }
        n = n - 1;
    }
    proof {
        if n > 0 {
            assert(s@.take(n as int).last() == s@[n - 1]);
        }
    }
    slice_vec(s, 0, n)
}

/// `s` without the suffix `suf`, or `s` itself when it does not end with it.
pub fn strip_suffix_keep(s: &[char], suf: &[char]) -> (r: Vec<char>)
    ensures
        r@ == strip_suffix_or_keep(s@, suf@),
{
    if ends_with(s, suf) {
        slice_vec(s, 0, s.len() - suf.len())
    } else {
        slice_vec(s, 0, s.len())
    }
}

/// `s` without White_Space at either end.
pub fn trim_ws(s: &[char]) -> (r: Vec<char>)
    ensures
        r@ == trimmed(s@),
{
    let mut a: usize = 0;
    proof {
        assert(s@.skip(0) =~= s@);
    }
    while a < s.len() && is_whitespace(s[a])
        invariant
            a <= s@.len(),
            trim_start_ws(s@) == trim_start_ws(s@.skip(a as int)),
        decreases s@.len() - a,
    {
        proof {
            assert(s@.skip(a as int).drop_first() =~= s@.skip(a + 1));
            assert(s@.skip(a as int)[0] == s@[a as int]);
        }
        a = a + 1;
    }
    proof {
        if a < s@.len() {
            assert(s@.skip(a as int)[0] == s@[a as int]);
        }
    }
    let mut n: usize = s.len();
    proof {
        assert(s@.skip(a as int) =~= s@.subrange(a as int, n as int));
    }
    while n > a && is_whitespace(s[n - 1])
        invariant
            a <= n <= s@.len(),
            trim_end_ws(trim_start_ws(s@)) == trim_end_ws(s@.subrange(a as int, n as int)),
        decreases n,
    {
        proof {
            assert(s@.subrange(a as int, n as int).drop_last() =~= s@.subrange(a as int, n - 1));
            assert(s@.subrange(a as int, n as int).last() == s@[n - 1]);
        }
        n = n - 1;
    }
    proof {
        if n > a {
            assert(s@.subrange(a as int, n as int).last() == s@[n - 1]);
        }
    }
    slice_vec(s, a, n)
}

/// What follows the last `c` of `s` (see `after_last`).
pub fn after_last_char(s: &[char], c: char) -> (r: Vec<char>)
    ensures
        r@ == after_last(s@, c),
{
    let mut i: usize = s.len();
    proof {
        assert(s@.take(i as int) =~= s@);
    }
    while i > 0
        invariant
            i <= s@.len(),
            last_index_of(s@, c) == last_index_of(s@.take(i as int), c),
        decreases i,
    {
        proof {
            assert(s@.take(i as int).drop_last() =~= s@.take(i - 1));
        }
        if s[i - 1] == c {
            return slice_vec(s, i, s.len());
        }
        i = i - 1;
    }
    slice_vec(s, 0, s.len())
}

/// The lines of `s` (see `lines_of`).
pub fn lines(s: &[char]) -> (r: Vec<Vec<char>>)
    ensures
        r@.len() == lines_of(s@).len(),
        forall|k: int| 0 <= k < r@.len() ==> #[trigger] r@[k]@ == lines_of(s@)[k],
{
    let nl = vec!['\n'];
    proof {
        assert(nl@ =~= seq!['\n']);
    }
    let mut out: Vec<Vec<char>> = Vec::new();
    let mut i: usize = 0;
    let ghost mut done: Seq<Seq<char>> = Seq::empty();
    proof {
        assert(s@.skip(0) =~= s@);
        assert(done + lines_of(s@) =~= lines_of(s@));
    }
    while i < s.len()
        invariant
            i <= s@.len(),
            nl@ == seq!['\n'],
            out@.len() == done.len(),
            forall|k: int| 0 <= k < out@.len() ==> #[trigger] out@[k]@ == done[k],
            lines_of(s@) == done + lines_of(s@.skip(i as int)),
        decreases s@.len() - i,
    {
        let rest = slice_vec(s, i, s.len());
        proof {
            assert(rest@ =~= s@.skip(i as int));
            lemma_stop_index_bounds(rest@, nl@);
        }
        let a = find_stop(rest.as_slice(), nl.as_slice());
        if a == rest.len() {
            proof {
                assert(lines_of(rest@) == seq![rest@]);
                done = done.push(rest@);
                assert(lines_of(s@) =~= done);
            }
            out.push(rest);
            return out;
        }
        let mut line = slice_vec(rest.as_slice(), 0, a);
        if line.len() > 0 && line[line.len() - 1] == '\r' {
            line.pop();
        }
        proof {
            let l0 = rest@.take(a as int);
            let l = if l0.len() > 0 && l0.last() == '\r' {
                l0.drop_last()
            } else {
                l0
            };
            assert(line@ =~= l);
            assert(rest@.skip(a + 1) =~= s@.skip(i + a + 1));
            assert(lines_of(rest@) == seq![l] + lines_of(rest@.skip(a + 1)));
            assert(done + lines_of(rest@) =~= done.push(l) + lines_of(s@.skip(i + a + 1)));
            done = done.push(l);
        }
        out.push(line);
        i = i + a + 1;
    }
    proof {
        assert(s@.skip(i as int).len() == 0);
        assert(done + lines_of(s@.skip(i as int)) =~= done);
    }
    out
}

} // verus!
