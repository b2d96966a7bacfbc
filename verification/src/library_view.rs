//! The lists the launcher shows: the catalogue filtered by the search (by
//! last play when nothing is typed), the recently played games, and the
//! moves of the selection in the list and the grid.

use crate::executable::{chars_less, chars_lt};
use crate::models::Port;
use crate::search::{filter_and_sort, search_result};
use crate::state::InstalledPorts;
use crate::text::{chars_of, trim_ws, trimmed};
use vstd::prelude::*;

verus! {

/// The number of games of the "recently played" menu.
pub const RECENT_GAMES_COUNT: usize = 5;

/// Rows skipped by a horizontal move in the list.
pub const PAGE_ROWS: i32 = 10;

/// The key of a port in the saved state (see `Port::key`).
pub open spec fn port_key(p: Port) -> Seq<char> {
    match p.repo {
        Some(r) => r@,
        None => p.folder@,
    }
}

/// When a port was last played (empty when never, or not installed).
pub open spec fn played_at(installed: InstalledPorts, p: Port) -> Seq<char> {
    match installed.info(port_key(p)) {
        Some(i) => i.last_played,
        None => Seq::empty(),
    }
}

/// Where `x` goes among `sorted` (latest play first): after every port played
/// at the same time or later.
pub open spec fn recent_insert_pos(installed: InstalledPorts, sorted: Seq<&Port>, x: &Port) -> int
    decreases sorted.len(),
{
    if sorted.len() == 0 {
        0
    } else if chars_lt(played_at(installed, *sorted.last()), played_at(installed, *x)) {
        recent_insert_pos(installed, sorted.drop_last(), x)
    } else {
        sorted.len() as int
    }
}

/// `ports` by last play, latest first, keeping their order among equals.
pub open spec fn by_last_played(installed: InstalledPorts, ports: Seq<&Port>) -> Seq<&Port>
    decreases ports.len(),
{
    if ports.len() == 0 {
        Seq::empty()
    } else {
        let s = by_last_played(installed, ports.drop_last());
        let p = recent_insert_pos(installed, s, ports.last());
        s.take(p).push(ports.last()) + s.skip(p)
    }
}

proof fn lemma_recent_insert_pos_bounds(installed: InstalledPorts, sorted: Seq<&Port>, x: &Port)
    ensures
        0 <= recent_insert_pos(installed, sorted, x) <= sorted.len(),
    decreases sorted.len(),
{
    if sorted.len() > 0 {
        lemma_recent_insert_pos_bounds(installed, sorted.drop_last(), x);
    }
}

/// When the port was last played.
fn last_played_of(installed: &InstalledPorts, p: &Port) -> (r: Vec<char>)
    ensures
        r@ == played_at(*installed, *p),
{
    match installed.get(p.key()) {
        Some(i) => chars_of(i.last_played_at.as_str()),
        None => Vec::new(),
    }
}

/// `ports` by last play, latest first, stably.
pub fn sort_by_last_played<'a>(ports: &Vec<&'a Port>, installed: &InstalledPorts) -> (r: Vec<&'a Port>)
    ensures
        r@ == by_last_played(*installed, ports@),
{
    let mut sorted: Vec<&'a Port> = Vec::new();
    let mut keys: Vec<Vec<char>> = Vec::new();
    let mut i: usize = 0;
    proof {
        assert(ports@.take(0) =~= Seq::<&Port>::empty());
    }
    while i < ports.len()
        invariant
            i <= ports@.len(),
            sorted@ == by_last_played(*installed, ports@.take(i as int)),
            keys@.len() == sorted@.len(),
            forall|k: int| 0 <= k < keys@.len() ==> #[trigger] keys@[k]@ == played_at(*installed, *sorted@[k]),
        decreases ports@.len() - i,
    {
        let x: &'a Port = ports[i];
        let xk = last_played_of(installed, x);
        let ghost s = sorted@;
        let mut p: usize = sorted.len();
        proof {
            assert(s.take(p as int) =~= s);
        }
        while p > 0
            invariant
                p <= sorted@.len(),
                s == sorted@,
                keys@.len() == sorted@.len(),
                forall|k: int| 0 <= k < keys@.len() ==> #[trigger] keys@[k]@ == played_at(*installed, *sorted@[k]),
                xk@ == played_at(*installed, *x),
                recent_insert_pos(*installed, s, x) == recent_insert_pos(*installed, s.take(p as int), x),
            ensures
                p <= sorted@.len(),
                recent_insert_pos(*installed, s, x) == p,
            decreases p,
        {
            proof {
                assert(s.take(p as int).last() == sorted@[p - 1]);
            }
            if !chars_less(keys[p - 1].as_slice(), xk.as_slice()) {
                break;
            }
            proof {
                assert(s.take(p as int).drop_last() =~= s.take(p - 1));
            }
            p = p - 1;
        }
        proof {
            lemma_recent_insert_pos_bounds(*installed, s, x);
            assert(ports@.take(i + 1).drop_last() =~= ports@.take(i as int));
            assert(ports@.take(i + 1).last() == x);
        }
        let ghost old_keys = keys@;
        let ghost old_sorted = sorted@;
        sorted.insert(p, x);
        keys.insert(p, xk);
        proof {
            assert(sorted@ =~= s.take(p as int).push(x) + s.skip(p as int));
            assert forall|k: int| 0 <= k < keys@.len() implies #[trigger] keys@[k]@ == played_at(
                *installed,
                *sorted@[k],
            ) by {
                if k < p {
                    assert(keys@[k] == old_keys[k]);
                    assert(sorted@[k] == old_sorted[k]);
                } else if k > p {
                    assert(keys@[k] == old_keys[k - 1]);
                    assert(sorted@[k] == old_sorted[k - 1]);
                }
            }
        }
        i = i + 1;
    }
    proof {
        assert(ports@.take(ports@.len() as int) =~= ports@);
    }
    sorted
}

/// The ports played at least once, in `catalog` order.
pub open spec fn played(installed: InstalledPorts, catalog: Seq<&Port>) -> Seq<&Port> {
    catalog.filter(|p: &Port| played_at(installed, *p).len() > 0)
}

/// The games of the "recently played" menu: the ports played at least once,
/// latest first, at most `RECENT_GAMES_COUNT` of them.
pub open spec fn recent(installed: InstalledPorts, catalog: Seq<&Port>) -> Seq<&Port> {
    let s = by_last_played(installed, played(installed, catalog));
    if s.len() <= 5 {
        s
    } else {
        s.take(5)
    }
}

/// The recently played games (see `recent`).
pub fn recent_games<'a>(catalog: &[&'a Port], installed: &InstalledPorts) -> (r: Vec<&'a Port>)
    ensures
        r@ == recent(*installed, catalog@),
{
    let mut with_play: Vec<&'a Port> = Vec::new();
    let mut i: usize = 0;
    proof {
        reveal(Seq::filter);
        assert(catalog@.take(0) =~= Seq::<&Port>::empty());
    }
    while i < catalog.len()
        invariant
            i <= catalog@.len(),
            with_play@ == played(*installed, catalog@.take(i as int)),
        decreases catalog@.len() - i,
    {
        proof {
            reveal(Seq::filter);
            assert(catalog@.take(i + 1).drop_last() =~= catalog@.take(i as int));
            assert(catalog@.take(i + 1).last() == catalog@[i as int]);
        }
        let k = last_played_of(installed, catalog[i]);
        if k.len() > 0 {
            with_play.push(catalog[i]);
        }
        i = i + 1;
    }
    proof {
        assert(catalog@.take(catalog@.len() as int) =~= catalog@);
    }
    let sorted = sort_by_last_played(&with_play, installed);
    if sorted.len() <= RECENT_GAMES_COUNT {
        return sorted;
    }
    let mut out: Vec<&'a Port> = Vec::new();
    let mut j: usize = 0;
    while j < RECENT_GAMES_COUNT
        invariant
            j <= 5,
            sorted@.len() > 5,
            out@ == sorted@.take(j as int),
        decreases 5 - j,
    {
        out.push(sorted[j]);
        j = j + 1;
        proof {
            assert(out@ =~= sorted@.take(j as int));
        }
    }
    out
}

/// What the list shows for a query: the search's result, by last play
/// (latest first, stably) when the query is blank.
pub open spec fn displayed(installed: InstalledPorts, pool: Seq<&Port>, query: Seq<char>) -> Seq<&Port> {
    let ranked = search_result(pool, query);
    if trimmed(query).len() == 0 {
        by_last_played(installed, ranked)
    } else {
        ranked
    }
}

/// The ports the list shows for `query` (see `displayed`).
pub fn filter_for_display<'a>(pool: &[&'a Port], query: &str, installed: &InstalledPorts) -> (r: Vec<&'a Port>)
    ensures
        r@ == displayed(*installed, pool@, query@),
{
    let ranked = filter_and_sort(pool, query);
    let q = chars_of(query);
    let t = trim_ws(q.as_slice());
    if t.len() == 0 {
        sort_by_last_played(&ranked, installed)
    } else {
        ranked
    }
}

/// The rows a move of the list selection covers: a horizontal move jumps a
/// page (`PAGE_ROWS` rows a step), a vertical one moves row by row.
pub fn list_move_delta(dx: i32, dy: i32) -> (r: i32)
    requires
        -214748364 <= dx <= 214748364,
    ensures
        r == if dx != 0 {
            dx * PAGE_ROWS
        } else {
            dy as int
        },
{
    if dx != 0 {
        dx * PAGE_ROWS
    } else {
        dy
    }
}

/// The row selected after moving by `delta` from `current` in a list of
/// `len` rows, clamped to the first and last; none when it does not change
/// or the list is empty.
pub fn move_list_selection(current: usize, delta: i32, len: usize) -> (r: Option<usize>)
    requires
        len <= i32::MAX,
    ensures
        match r {
            Some(n) => len > 0 && n < len && n != current && n as int == crate::dialog_nav::clamp(
                current + delta,
                0,
                len - 1,
            ),
            None => len == 0 || crate::dialog_nav::clamp(current + delta, 0, len - 1) == current,
        },
{
    if len == 0 {
        return None;
    }
    let target: i128 = (current as i128) + (delta as i128);
    let last: i128 = (len as i128) - 1;
    let next: i128 = if target < 0 {
        0
    } else if target > last {
        last
    } else {
        target
    };
    if next as usize != current {
        Some(next as usize)
    } else {
        None
    }
}

/// The grid cell (row, column) of the `index`-th card, with `columns` cards a
/// row (at least one).
pub fn grid_cell(index: usize, columns: usize) -> (r: (usize, usize))
    ensures
        ({
            let c = if columns == 0 { 1 } else { columns as int };
            r.0 == index as int / c && r.1 == index as int % c
        }),
{
    let c = if columns == 0 { 1 } else { columns };
    (index / c, index % c)
}

} // verus!
