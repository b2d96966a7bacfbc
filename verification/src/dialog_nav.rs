//! Moving the highlighted choice of a dialog with the gamepad or the arrow
//! keys: one step at a time, stopping at the first and last choices, and in
//! the information dialog only over the buttons that are enabled.

use crate::models::texts;
use crate::text::{chars_of, contains, contains_seq, same_text, spec_to_lowercase, to_lowercase};
use vstd::prelude::*;

verus! {

/// The number of buttons of the information dialog.
pub const INFO_BUTTON_COUNT: usize = 10;

/// `x` clamped to `[lo, hi]`.
pub open spec fn clamp(x: int, lo: int, hi: int) -> int {
    if x < lo {
        lo
    } else if x > hi {
        hi
    } else {
        x
    }
}

/// The choice after moving by `delta` from `current` among `count` choices,
/// clamped to the first and last; none when there are no choices or the
/// choice does not change.
pub open spec fn stepped(current: int, delta: int, count: int) -> Option<int> {
    if count <= 0 {
        None
    } else {
        let next = clamp(current + delta, 0, count - 1);
        if next != current {
            Some(next)
        } else {
            None
        }
    }
}

/// Moves a choice by `delta` (see `stepped`).
pub fn step(current: i32, delta: i32, count: i32) -> (r: Option<i32>)
    requires
        i32::MIN <= current + delta <= i32::MAX,
    ensures
        match r {
            Some(n) => stepped(current as int, delta as int, count as int) == Some(n as int),
            None => stepped(current as int, delta as int, count as int) is None,
        },
{
    if count <= 0 {
        return None;
    }
    let sum = current + delta;
    let next = if sum < 0 {
        0
    } else if sum > count - 1 {
        count - 1
    } else {
        sum
    };
    if next != current {
        Some(next)
    } else {
        None
    }
}

/// The positions of the enabled buttons, in order.
pub open spec fn enabled_positions(enabled: Seq<bool>) -> Seq<int>
    decreases enabled.len(),
{
    if enabled.len() == 0 {
        Seq::empty()
    } else {
        let prev = enabled_positions(enabled.drop_last());
        if enabled.last() {
            prev.push(enabled.len() - 1)
        } else {
            prev
        }
    }
}

/// The first position of `x` in `s`.
pub open spec fn index_of(s: Seq<int>, x: int) -> Option<int> {
    if s.contains(x) {
        Some(choose|i: int| 0 <= i < s.len() && s[i] == x && forall|j: int| 0 <= j < i ==> s[j] != x)
    } else {
        None
    }
}

/// The button of the information dialog highlighted after a horizontal move
/// by `dx` from button `current`, skipping disabled buttons; none when it
/// does not change.
pub open spec fn info_button_after(current: int, dx: int, enabled: Seq<bool>) -> Option<int> {
    let c = enabled_positions(enabled);
    let pos = match index_of(c, current) {
        Some(p) => p,
        None => 0,
    };
    match stepped(pos, dx, c.len() as int) {
        Some(p) => Some(c[p]),
        None => None,
    }
}

proof fn lemma_enabled_positions(enabled: Seq<bool>)
    ensures
        enabled_positions(enabled).len() <= enabled.len(),
        forall|i: int|
            0 <= i < enabled_positions(enabled).len() ==> 0 <= #[trigger] enabled_positions(enabled)[i] < enabled.len(),
    decreases enabled.len(),
{
    if enabled.len() > 0 {
        lemma_enabled_positions(enabled.drop_last());
    }
}

/// Moves the highlighted button of the information dialog (see
/// `info_button_after`).
pub fn info_button_step(current: i32, dx: i32, enabled: &[bool; 10]) -> (r: Option<i32>)
    ensures
        match r {
            Some(n) => info_button_after(current as int, dx as int, enabled@) == Some(n as int),
            None => info_button_after(current as int, dx as int, enabled@) is None,
        },
{
    let mut positions: Vec<i32> = Vec::new();
    let mut i: usize = 0;
    proof {
        assert(enabled@.take(0) =~= Seq::<bool>::empty());
    }
    while i < 10
        invariant
            i <= 10,
            enabled@.len() == 10,
            positions@.len() == enabled_positions(enabled@.take(i as int)).len(),
            forall|k: int| 0 <= k < positions@.len() ==> #[trigger] positions@[k] as int == enabled_positions(
                enabled@.take(i as int),
            )[k],
        decreases 10 - i,
    {
        proof {
            assert(enabled@.take(i + 1).drop_last() =~= enabled@.take(i as int));
            assert(enabled@.take(i + 1).last() == enabled@[i as int]);
        }
        if enabled[i] {
            positions.push(i as i32);
        }
        i = i + 1;
    }
    let ghost c = enabled_positions(enabled@);
    proof {
        assert(enabled@.take(10) =~= enabled@);
        lemma_enabled_positions(enabled@);
    }
    let mut pos: usize = 0;
    let mut found = false;
    let mut j: usize = 0;
    while j < positions.len()
        invariant_except_break
            !found,
            pos == 0,
        invariant
            j <= positions@.len(),
            positions@.len() == c.len(),
            c.len() <= 10,
            forall|k: int| 0 <= k < positions@.len() ==> #[trigger] positions@[k] as int == c[k],
            forall|k: int| 0 <= k < j ==> c[k] != current,
        ensures
            pos <= 10,
            found ==> pos < c.len() && c[pos as int] == current && forall|k: int| 0 <= k < pos ==> c[k] != current,
            !found ==> pos == 0 && forall|k: int| 0 <= k < c.len() ==> c[k] != current,
            positions@.len() == c.len(),
            c.len() <= 10,
            forall|k: int| 0 <= k < positions@.len() ==> #[trigger] positions@[k] as int == c[k],
        decreases positions@.len() - j,
    {
        if positions[j] == current {
            pos = j;
            found = true;
            break;
        }
        j = j + 1;
    }
    proof {
        if found {
            assert(c.contains(current as int)) by {
                assert(c[pos as int] == current as int);
            }
            let p = choose|p: int| 0 <= p < c.len() && c[p] == current && forall|q: int| 0 <= q < p ==> c[q] != current;
            if p < pos {
                assert(c[p] != current);
            } else if p > pos {
                assert(c[pos as int] == current);
            }
        } else {
            assert(!c.contains(current as int)) by {
                if c.contains(current as int) {
                    let w = choose|w: int| 0 <= w < c.len() && c[w] == current as int;
                    assert(c[w] != current);
                }
            }
        }
    }
    let count = positions.len() as i64;
    if count <= 0 {
        return None;
    }
    let sum: i64 = (pos as i64) + (dx as i64);
    let next: i64 = if sum < 0 {
        0
    } else if sum > count - 1 {
        count - 1
    } else {
        sum
    };
    if next == pos as i64 {
        return None;
    }
    Some(positions[next as usize])
}

/// The first position of `value` among `values`, or 0.
pub open spec fn start_position(values: Seq<Seq<char>>, value: Seq<char>) -> int
    decreases values.len(),
{
    if values.len() == 0 {
        0
    } else if values[0] == value {
        0
    } else if values.drop_first().contains(value) {
        1 + start_position(values.drop_first(), value)
    } else {
        0
    }
}

/// The row a searchable list opens on: the one whose value is `start_value`,
/// or the first.
pub fn search_list_start(values: &[String], start_value: &str) -> (r: usize)
    ensures
        r == start_position(texts(values@), start_value@),
{
    let ghost v = texts(values@);
    let mut i: usize = 0;
    while i < values.len()
        invariant
            i <= values@.len(),
            v == texts(values@),
            forall|k: int| 0 <= k < i ==> #[trigger] v[k] != start_value@,
        decreases values@.len() - i,
    {
        if same_text(values[i].as_str(), start_value) {
            proof {
                lemma_start_position(v, start_value@, i as int);
            }
            return i;
        }
        i = i + 1;
    }
    proof {
        assert(!v.contains(start_value@));
        lemma_start_position_absent(v, start_value@);
    }
    0
}

proof fn lemma_start_position(v: Seq<Seq<char>>, x: Seq<char>, i: int)
    requires
        0 <= i < v.len(),
        v[i] == x,
        forall|k: int| 0 <= k < i ==> #[trigger] v[k] != x,
    ensures
        start_position(v, x) == i,
    decreases i,
{
    if i > 0 {
        let t = v.drop_first();
        assert(t[i - 1] == x);
        assert(t.contains(x));
        assert forall|k: int| 0 <= k < i - 1 implies #[trigger] t[k] != x by {
            assert(t[k] == v[k + 1]);
        }
        lemma_start_position(t, x, i - 1);
    }
}

proof fn lemma_start_position_absent(v: Seq<Seq<char>>, x: Seq<char>)
    requires
        !v.contains(x),
    ensures
        start_position(v, x) == 0,
{
    if v.len() > 0 {
        assert(v[0] != x) by {
            if v[0] == x {
                assert(v.contains(x));
            }
        }
    }
}

/// The rows of a searchable list whose lowercase label contains the lowercase
/// query, in order.
pub open spec fn matching_rows(labels: Seq<Seq<char>>, query: Seq<char>) -> Seq<int>
    decreases labels.len(),
{
    if labels.len() == 0 {
        Seq::empty()
    } else {
        let prev = matching_rows(labels.drop_last(), query);
        if contains_seq(spec_to_lowercase(labels.last()), spec_to_lowercase(query)) {
            prev.push(labels.len() - 1)
        } else {
            prev
        }
    }
}

/// The rows of a searchable list that a query keeps (see `matching_rows`).
pub fn search_list_filter(labels: &[String], query: &str) -> (r: Vec<usize>)
    ensures
        r@.len() == matching_rows(texts(labels@), query@).len(),
        forall|k: int| 0 <= k < r@.len() ==> #[trigger] r@[k] as int == matching_rows(texts(labels@), query@)[k],
{
    let ghost v = texts(labels@);
    let lq = to_lowercase(query);
    let q = chars_of(lq.as_str());
    let mut out: Vec<usize> = Vec::new();
    let mut i: usize = 0;
    proof {
        assert(v.take(0) =~= Seq::<Seq<char>>::empty());
    }
    while i < labels.len()
        invariant
            i <= labels@.len(),
            v == texts(labels@),
            q@ == spec_to_lowercase(query@),
            out@.len() == matching_rows(v.take(i as int), query@).len(),
            forall|k: int| 0 <= k < out@.len() ==> #[trigger] out@[k] as int == matching_rows(v.take(i as int), query@)[k],
        decreases labels@.len() - i,
    {
        proof {
            assert(v.take(i + 1).drop_last() =~= v.take(i as int));
            assert(v.take(i + 1).last() == labels@[i as int]@);
        }
        let ll = to_lowercase(labels[i].as_str());
        let lc = chars_of(ll.as_str());
        if contains(lc.as_slice(), q.as_slice()) {
            out.push(i);
        }
        i = i + 1;
    }
    proof {
        assert(v.take(labels@.len() as int) =~= v);
    }
    out
}

} // verus!
