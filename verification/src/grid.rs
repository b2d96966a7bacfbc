//! The fullscreen library grid: cards laid out row by row, and moving the
//! selection inside it.

use vstd::prelude::*;

verus! {

/// Length of row `r` when `n` items are cut into rows of `c`.
pub open spec fn row_len(n: int, c: int, r: int) -> int {
    if (r + 1) * c <= n {
        c
    } else {
        n - r * c
    }
}

proof fn lemma_row_count(n: int, c: int, l: int)
    requires
        c >= 1,
        n >= 0,
        l >= 0,
        l == 0 ==> n == 0,
        l > 0 ==> (l - 1) * c < n <= l * c,
    ensures
        l == (n + c - 1) / c,
{
    if l == 0 {
        assert((c - 1) / c == 0) by (nonlinear_arith)
            requires
                c >= 1,
        ;
    } else {
        assert(l == (n + c - 1) / c) by (nonlinear_arith)
            requires
                c >= 1,
                l >= 1,
                (l - 1) * c < n <= l * c,
        ;
    }
}

/// `items` cut into rows of `columns` (a zero `columns` counts as one); the
/// last row holds what is left. Each card is a clone of the item.
pub fn chunk_into_rows<T: Clone>(items: &[T], columns: usize) -> (rows: Vec<Vec<T>>)
    ensures
        ({
            let c = if columns == 0 { 1 } else { columns as int };
            &&& rows@.len() == (items@.len() + c - 1) / c
            &&& forall|r: int|
                #![trigger rows@[r]]
                0 <= r < rows@.len() ==> {
                    &&& rows@[r]@.len() == row_len(items@.len() as int, c, r)
                    &&& forall|k: int|
                        0 <= k < rows@[r]@.len() ==> cloned::<T>(items@[r * c + k], #[trigger] rows@[r]@[k])
                }
        }),
{
    let ghost n = items@.len() as int;
    let c: usize = if columns == 0 { 1 } else { columns };
    let mut rows: Vec<Vec<T>> = Vec::new();
    let mut start: usize = 0;
    proof {
        assert(rows@.len() * c == 0);
    }
    while start < items.len()
        invariant
            c >= 1,
            c == if columns == 0 { 1 } else { columns as int },
            n == items@.len(),
            start <= n,
            start == if rows@.len() * c <= n { rows@.len() * c } else { n },
            rows@.len() > 0 ==> (rows@.len() - 1) * c < n,
            forall|r: int|
                #![trigger rows@[r]]
                0 <= r < rows@.len() ==> {
                    &&& rows@[r]@.len() == row_len(n, c as int, r)
                    &&& forall|k: int|
                        0 <= k < rows@[r]@.len() ==> cloned::<T>(items@[r * c + k], #[trigger] rows@[r]@[k])
                },
        decreases n - start,
    {
        let ghost l = rows@.len() as int;
        proof {
            assert(start == l * c);
        }
        let end: usize = if items.len() - start < c { items.len() } else { start + c };
        let mut row: Vec<T> = Vec::new();
        let mut k: usize = start;
        while k < end
            invariant
                start <= k <= end <= items@.len(),
                row@.len() == k - start,
                forall|j: int| 0 <= j < row@.len() ==> cloned::<T>(items@[start + j], #[trigger] row@[j]),
            decreases end - k,
        {
            let x = items[k].clone();
            row.push(x);
            k = k + 1;
        }
        let ghost before = rows@;
        rows.push(row);
        proof {
            assert((l + 1) * c == l * c + c) by (nonlinear_arith);
            assert(row_len(n, c as int, l) == end - start);
            assert forall|r: int|
                #![trigger rows@[r]]
                0 <= r < rows@.len() implies {
                    &&& rows@[r]@.len() == row_len(n, c as int, r)
                    &&& forall|k: int|
                        0 <= k < rows@[r]@.len() ==> cloned::<T>(items@[r * c + k], #[trigger] rows@[r]@[k])
                } by {
                if r < l {
                    assert(rows@[r] == before[r]);
                }
            }
        }
        start = end;
    }
    proof {
        let l = rows@.len() as int;
        if l > 0 {
            assert(n <= l * c);
        }
        lemma_row_count(n, c as int, l);
    }
    rows
}

/// The cell reached from `current` by `dx` columns and `dy` rows, counted in
/// reading order over the `len` cards (`columns` of them per row, a zero
/// `columns` counting as one) and clamped to the first and last card; `None`
/// when there is no card.
pub open spec fn grid_target(current: (usize, usize), dx: int, dy: int, columns: int, len: int) -> Option<(int, int)> {
    if len == 0 {
        None
    } else {
        let c = if columns == 0 { 1 } else { columns };
        let flat = current.0 * c + current.1 + dx + dy * c;
        let clamped = if flat < 0 {
            0
        } else if flat > len - 1 {
            len - 1
        } else {
            flat
        };
        Some((clamped / c, clamped % c))
    }
}

/// Moves the grid selection; the result, when there is one, is a real card:
/// `row * columns + col < len`.
pub fn next_grid_position(current: (usize, usize), dx: i32, dy: i32, columns: usize, len: usize) -> (r: Option<(usize, usize)>)
    requires
        len <= i32::MAX,
        columns <= i32::MAX,
        current.0 * (if columns == 0 { 1 } else { columns as int }) + current.1 <= i32::MAX,
        i32::MIN <= dy * (if columns == 0 { 1 } else { columns as int }) <= i32::MAX,
        i32::MIN <= current.0 * (if columns == 0 { 1 } else { columns as int }) + current.1 + dx <= i32::MAX,
        i32::MIN <= current.0 * (if columns == 0 { 1 } else { columns as int }) + current.1 + dx + dy * (
        if columns == 0 { 1 } else { columns as int }) <= i32::MAX,
    ensures
        match (r, grid_target(current, dx as int, dy as int, columns as int, len as int)) {
            (Some(p), Some(q)) => p.0 == q.0 && p.1 == q.1,
            (None, None) => true,
            _ => false,
        },
        r matches Some(p) ==> p.0 * (if columns == 0 { 1 } else { columns as int }) + p.1 < len,
{
    if len == 0 {
        return None;
    }
    let c: usize = if columns == 0 { 1 } else { columns };
    proof {
        assert(current.0 * (c as int) + current.1 <= i32::MAX);
        assert(dy * (c as int) <= i32::MAX);
    }
    let flat: i32 = (current.0 * c + current.1) as i32;
    proof {
        assert(flat == current.0 * (c as int) + current.1);
        assert((c as i32) == c);
    }
    let next: i32 = flat + dx + dy * (c as i32);
    let last: i32 = (len as i32) - 1;
    let clamped: i32 = if next < 0 {
        0
    } else if next > last {
        last
    } else {
        next
    };
    let cl: usize = clamped as usize;
    let row = cl / c;
    let col = cl % c;
    proof {
        assert(row * c + col == cl) by (nonlinear_arith)
            requires
                c >= 1,
                row == cl / c,
                col == cl % c,
        ;
    }
    Some((row, col))
}

/// Milliseconds within which a second click on a card is the same click
/// reported twice.
pub const DUPLICATE_CLICK_MS: u64 = 50;

/// What a click on a card of the library grid does (the card is selected in
/// every case).
#[derive(Debug, Clone, Copy, PartialEq, Eq, Structural)]
pub enum CardClick {
    /// The same click, reported twice: nothing more.
    Duplicate,
    /// The second click of a double click: the selected port is activated.
    Activate,
    /// A first click: remembered, to tell a double click.
    Remembered,
}

/// The last remembered click: the card, and when (in nanoseconds on a
/// monotonic clock).
pub type LastClick = Option<((usize, usize), u64)>;

/// Whole milliseconds from `since` to `now` (none when `now` is earlier).
pub open spec fn click_elapsed_ms(now: u64, since: u64) -> int {
    if now >= since {
        (now - since) / 1000000
    } else {
        0
    }
}

/// What a click on `cell` at `now` does after the click `last`, and the click
/// remembered afterwards.
pub open spec fn card_click_outcome(last: LastClick, cell: (usize, usize), now: u64, double_click_ms: u32) -> (
    CardClick,
    LastClick,
) {
    match last {
        Some((c, t)) => if click_elapsed_ms(now, t) < DUPLICATE_CLICK_MS {
            (CardClick::Duplicate, last)
        } else if c == cell && click_elapsed_ms(now, t) <= double_click_ms {
            (CardClick::Activate, None)
        } else {
            (CardClick::Remembered, Some((cell, now)))
        },
        None => (CardClick::Remembered, Some((cell, now))),
    }
}

/// A click on the card at `cell` at `now` (nanoseconds, monotonic): a second
/// report of the last click within `DUPLICATE_CLICK_MS` is dropped; a second
/// click on the same card within `double_click_ms` activates it and forgets
/// the click; any other click is remembered.
pub fn card_click(last: LastClick, cell: (usize, usize), now: u64, double_click_ms: u32) -> (r: (CardClick, LastClick))
    ensures
        r == card_click_outcome(last, cell, now, double_click_ms),
{
    match last {
        Some((c, t)) => {
            let elapsed_ms: u64 = if now >= t {
                (now - t) / 1000000
            } else {
                0
            };
            if elapsed_ms < DUPLICATE_CLICK_MS {
                (CardClick::Duplicate, last)
            } else if c.0 == cell.0 && c.1 == cell.1 && elapsed_ms <= double_click_ms as u64 {
                (CardClick::Activate, None)
            } else {
                (CardClick::Remembered, Some((cell, now)))
            }
        },
        None => (CardClick::Remembered, Some((cell, now))),
    }
}

} // verus!
