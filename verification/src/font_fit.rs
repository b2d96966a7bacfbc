//! Choosing the font size whose line height fits a target: from an estimate,
//! walk down to the largest size that fits, or up while the next size still
//! fits. The line heights are measured by the caller (they depend on the
//! font), one per size from `MIN_SIZE_PX` to `MAX_SIZE_PX`.

use crate::models::texts;
use crate::text::{chars_of, find_space, is_white_space, is_whitespace, lemma_space_index_bounds, slice_vec, space_index, string_of};
use vstd::prelude::*;

verus! {

/// The smallest size tried.
pub const MIN_SIZE_PX: i32 = 8;

/// The largest size tried.
pub const MAX_SIZE_PX: i32 = 500;

/// The number of measured sizes.
pub const MEASURED_SIZES: usize = 493;

/// The measured line height at size `px`.
pub open spec fn ls(table: Seq<i32>, px: int) -> int {
    table[px - 8] as int
}

/// The first size tried for a target line height: three quarters of it,
/// rounded, within the sizes tried.
pub open spec fn estimate(target: int) -> int {
    let e = (3 * target + 2) / 4;
    if e < 8 {
        8
    } else if e > 500 {
        500
    } else {
        e
    }
}

/// Walking down from `s`, whose line height is too tall: the first smaller
/// size that fits, or the smallest size.
pub open spec fn walk_down(table: Seq<i32>, target: int, s: int) -> (int, int)
    decreases s,
{
    if s <= 8 {
        (s, ls(table, s))
    } else if ls(table, s - 1) <= target {
        (s - 1, ls(table, s - 1))
    } else {
        walk_down(table, target, s - 1)
    }
}

/// Walking up from `s`, which fits: up to the last size before one that does
/// not, or the largest size.
pub open spec fn walk_up(table: Seq<i32>, target: int, s: int) -> (int, int)
    decreases 500 - s,
{
    if s >= 500 {
        (s, ls(table, s))
    } else if ls(table, s + 1) > target {
        (s, ls(table, s))
    } else {
        walk_up(table, target, s + 1)
    }
}

/// The size chosen for `target_linespace` (at least 1), with its line height.
pub open spec fn solved(table: Seq<i32>, target_linespace: int) -> (int, int) {
    let t = if target_linespace < 1 {
        1
    } else {
        target_linespace
    };
    let s = estimate(t);
    if ls(table, s) > t {
        walk_down(table, t, s)
    } else {
        walk_up(table, t, s)
    }
}

/// The line heights grow with the size.
pub open spec fn monotone(table: Seq<i32>) -> bool {
    forall|a: int, b: int| 8 <= a <= b <= 500 ==> ls(table, a) <= ls(table, b)
}

/// The largest size (from `MIN_SIZE_PX` to `MAX_SIZE_PX`) whose measured line
/// height fits `target_linespace` (at least 1), with that height; the smallest
/// size when none fits. `linespaces[k]` is the height measured at size
/// `MIN_SIZE_PX + k`.
pub fn solve_font_for_height(target_linespace: i32, linespaces: &[i32]) -> (r: (i32, i32))
    requires
        linespaces@.len() == 493,
    ensures
        (r.0 as int, r.1 as int) == solved(linespaces@, target_linespace as int),
        8 <= r.0 <= 500,
{
    let t: i32 = if target_linespace < 1 {
        1
    } else {
        target_linespace
    };
    let e: i64 = (3 * (t as i64) + 2) / 4;
    let mut size: i32 = if e < 8 {
        8
    } else if e > 500 {
        500
    } else {
        e as i32
    };
    let linespace = linespaces[(size - 8) as usize];
    if linespace > t {
        while size > 8
            invariant
                8 <= size <= 500,
                linespaces@.len() == 493,
                ls(linespaces@, size as int) > t,
                walk_down(linespaces@, t as int, size as int) == solved(linespaces@, target_linespace as int),
            decreases size,
        {
            let smaller = size - 1;
            let smaller_linespace = linespaces[(smaller - 8) as usize];
            if smaller_linespace <= t {
                return (smaller, smaller_linespace);
            }
            size = smaller;
        }
        return (size, linespaces[(size - 8) as usize]);
    }
    while size < 500
        invariant
            8 <= size <= 500,
            linespaces@.len() == 493,
            walk_up(linespaces@, t as int, size as int) == solved(linespaces@, target_linespace as int),
        ensures
            8 <= size <= 500,
            walk_up(linespaces@, t as int, size as int) == solved(linespaces@, target_linespace as int),
            walk_up(linespaces@, t as int, size as int) == (size as int, ls(linespaces@, size as int)),
        decreases 500 - size,
    {
        let next = size + 1;
        let next_linespace = linespaces[(next - 8) as usize];
        if next_linespace > t {
            break;
        }
        size = next;
    }
    (size, linespaces[(size - 8) as usize])
}

proof fn lemma_walk_up(table: Seq<i32>, target: int, s: int)
    requires
        table.len() == 493,
        8 <= s <= 500,
        ls(table, s) <= target,
        monotone(table),
    ensures
        ls(table, walk_up(table, target, s).0) <= target,
        8 <= walk_up(table, target, s).0 <= 500,
        walk_up(table, target, s).1 == ls(table, walk_up(table, target, s).0),
        forall|p: int| walk_up(table, target, s).0 < p <= 500 ==> ls(table, p) > target,
    decreases 500 - s,
{
    if s < 500 && ls(table, s + 1) <= target {
        lemma_walk_up(table, target, s + 1);
    } else if s < 500 {
        assert forall|p: int| s < p <= 500 implies ls(table, p) > target by {
            assert(ls(table, s + 1) <= ls(table, p));
        }
    }
}

proof fn lemma_walk_down(table: Seq<i32>, target: int, s: int)
    requires
        table.len() == 493,
        8 <= s <= 500,
        ls(table, s) > target,
        monotone(table),
    ensures
        ls(table, walk_down(table, target, s).0) <= target || walk_down(table, target, s).0 == 8,
        8 <= walk_down(table, target, s).0 <= 500,
        walk_down(table, target, s).1 == ls(table, walk_down(table, target, s).0),
        forall|p: int| walk_down(table, target, s).0 < p <= 500 ==> ls(table, p) > target,
    decreases s,
{
    assert forall|p: int| s <= p <= 500 implies ls(table, p) > target by {
        assert(ls(table, s) <= ls(table, p));
    }
    if s > 8 && ls(table, s - 1) > target {
        lemma_walk_down(table, target, s - 1);
    }
}

/// When the line heights grow with the size, the size chosen is the largest
/// one that fits the target (at least 1), unless even the smallest does not
/// fit; no larger size fits.
pub proof fn lemma_largest_fitting_size(table: Seq<i32>, target_linespace: int)
    requires
        table.len() == 493,
        monotone(table),
    ensures
        ({
            let t = if target_linespace < 1 { 1 } else { target_linespace };
            let r = solved(table, target_linespace);
            &&& 8 <= r.0 <= 500
            &&& r.1 == ls(table, r.0)
            &&& ls(table, r.0) <= t || r.0 == 8
            &&& forall|p: int| r.0 < p <= 500 ==> ls(table, p) > t
        }),
{
    let t = if target_linespace < 1 { 1 } else { target_linespace };
    let s = estimate(t);
    if ls(table, s) > t {
        lemma_walk_down(table, t, s);
    } else {
        lemma_walk_up(table, t, s);
    }
}

/// When the line heights grow with the size, a taller target never gives a
/// smaller font: the window growing never shrinks its text.
pub proof fn lemma_size_grows_with_target(table: Seq<i32>, t1: int, t2: int)
    requires
        table.len() == 493,
        monotone(table),
        t1 <= t2,
    ensures
        solved(table, t1).0 <= solved(table, t2).0,
{
    lemma_largest_fitting_size(table, t1);
    lemma_largest_fitting_size(table, t2);
}

/// The words of `s` from position `i` on: the runs of characters between
/// White_Space (as `split_whitespace` gives them).
pub open spec fn words_from(s: Seq<char>, i: int) -> Seq<Seq<char>>
    decreases s.len() - i,
{
    if i < 0 || i >= s.len() {
        Seq::empty()
    } else if is_white_space(s[i]) {
        words_from(s, i + 1)
    } else {
        let k = space_index(s.skip(i));
        proof {
            lemma_space_index_bounds(s.skip(i));
            assert(s.skip(i)[0] == s[i]);
        }
        if k < 1 {
            Seq::empty()
        } else {
            seq![s.subrange(i, i + k)] + words_from(s, i + k)
        }
    }
}

/// The words of `text`, whose widths the caller measures.
pub fn whitespace_words(text: &str) -> (r: Vec<String>)
    ensures
        texts(r@) == words_from(text@, 0),
{
    let s = chars_of(text);
    let mut out: Vec<String> = Vec::new();
    let mut i: usize = 0;
    proof {
        assert(texts(out@) + words_from(s@, 0) =~= words_from(s@, 0));
    }
    while i < s.len()
        invariant
            i <= s@.len(),
            s@ == text@,
            words_from(s@, 0) == texts(out@) + words_from(s@, i as int),
        decreases s@.len() - i,
    {
        if is_whitespace(s[i]) {
            i = i + 1;
        } else {
            let rest = slice_vec(s.as_slice(), i, s.len());
            let k = find_space(rest.as_slice());
            proof {
                assert(rest@ =~= s@.skip(i as int));
                lemma_space_index_bounds(rest@);
                assert(rest@[0] == s@[i as int]);
            }
            let word = slice_vec(s.as_slice(), i, i + k);
            let ghost before = out@;
            out.push(string_of(word.as_slice()));
            proof {
                assert(texts(out@) =~= texts(before).push(word@));
                assert(texts(out@) + words_from(s@, i + k) =~= texts(before) + (seq![word@] + words_from(
                    s@,
                    i + k,
                )));
            }
            i = i + k;
        }
    }
    proof {
        assert(texts(out@) + words_from(s@, i as int) =~= texts(out@));
    }
    out
}

/// The largest of some widths; 0 when there are none.
pub open spec fn widest(widths: Seq<i32>) -> int
    decreases widths.len(),
{
    if widths.len() == 0 {
        0
    } else if widths.len() == 1 {
        widths[0] as int
    } else if widest(widths.drop_last()) >= widths.last() {
        widest(widths.drop_last())
    } else {
        widths.last() as int
    }
}

/// The width of the widest word of a text, from the measured widths of its
/// words (see `whitespace_words`): a dialog is widened to it, since text is
/// only wrapped between words. 0 for a text without words.
pub fn longest_word_width(word_widths: &[i32]) -> (r: i32)
    ensures
        r == widest(word_widths@),
{
    if word_widths.len() == 0 {
        return 0;
    }
    let mut best: i32 = word_widths[0];
    let mut i: usize = 1;
    proof {
        assert(word_widths@.take(1).drop_last() =~= Seq::<i32>::empty());
    }
    while i < word_widths.len()
        invariant
            1 <= i <= word_widths@.len(),
            best == widest(word_widths@.take(i as int)),
        decreases word_widths@.len() - i,
    {
        proof {
            assert(word_widths@.take(i + 1).drop_last() =~= word_widths@.take(i as int));
        }
        if word_widths[i] > best {
            best = word_widths[i];
        }
        i = i + 1;
    }
    proof {
        assert(word_widths@.take(word_widths@.len() as int) =~= word_widths@);
    }
    best
}

/// The smallest font size of a list row.
pub const MIN_ITEM_FONT_PX: i32 = 11;

/// Padding above and below the text of a row.
pub const ROW_VERTICAL_PADDING_PX: i32 = 6;

/// Margin around the content of the window.
pub const CONTENT_MARGIN_PX: i32 = 12;

/// Rows shown by the windowed list.
pub const VISIBLE_ROWS: i32 = 25;

/// The smallest height of a row (one layout unit).
pub const MIN_UNIT_H_PX: i32 = 32;

/// Layout units taken by the search bar, the title bar and the footer.
pub const SEARCH_BAR_UNITS: i32 = 2;

pub const TITLE_BAR_UNITS: i32 = 1;

pub const FOOTER_UNITS: i32 = 1;

/// The sizes of the windowed mode's text and bars, in pixels.
#[derive(Debug, Clone, Copy, PartialEq, Eq, Structural)]
pub struct FontSizes {
    pub item_font_px: i32,
    pub title_font_px: i32,
    pub row_height_px: i32,
    pub search_bar_height_px: i32,
    pub title_bar_height_px: i32,
    pub content_body_height_px: i32,
}

pub open spec fn max_int(a: int, b: int) -> int {
    if a >= b {
        a
    } else {
        b
    }
}

pub open spec fn min_int(a: int, b: int) -> int {
    if a <= b {
        a
    } else {
        b
    }
}

pub open spec fn abs_int(a: int) -> int {
    if a >= 0 {
        a
    } else {
        -a
    }
}

/// Integer division rounded toward zero, as `i32::div` does.
pub open spec fn trunc_div(a: int, b: int) -> int {
    if (a >= 0) == (b > 0) {
        abs_int(a) / abs_int(b)
    } else {
        -(abs_int(a) / abs_int(b))
    }
}

pub open spec fn fits_i32(x: int) -> bool {
    i32::MIN <= x <= i32::MAX
}

/// Layout units of a window showing `rows` rows: the rows and the bars.
pub open spec fn total_units(rows: int) -> int {
    rows + SEARCH_BAR_UNITS + TITLE_BAR_UNITS + FOOTER_UNITS
}

/// The height left for the units, at least one pixel a unit.
pub open spec fn available_px(height: int, border: int, rows: int) -> int {
    max_int(height - border * 2 - CONTENT_MARGIN_PX * 4, total_units(rows))
}

/// The height of one unit (a row), at least `MIN_UNIT_H_PX`.
pub open spec fn unit_px(height: int, border: int, rows: int) -> int {
    max_int(trunc_div(available_px(height, border, rows), total_units(rows)), MIN_UNIT_H_PX as int)
}

/// The height of the list: its rows, or what the bars leave (at least a
/// row) when that is less.
pub open spec fn content_px(height: int, border: int, rows: int) -> int {
    let u = unit_px(height, border, rows);
    min_int(u * rows, max_int(available_px(height, border, rows) - u * 4, u))
}

/// The layout can be computed in `i32` without overflow.
pub open spec fn windowed_layout_fits(height: int, border: int, rows: int) -> bool {
    let u = unit_px(height, border, rows);
    &&& fits_i32(total_units(rows))
    &&& total_units(rows) != 0
    &&& fits_i32(border * 2)
    &&& fits_i32(height - border * 2)
    &&& fits_i32(height - border * 2 - CONTENT_MARGIN_PX * 4)
    &&& fits_i32(u * rows)
    &&& fits_i32(u * 4)
    &&& fits_i32(available_px(height, border, rows) - u * 4)
    &&& fits_i32(u * SEARCH_BAR_UNITS)
}

/// Nine tenths of a size, rounded (halves up), at least 8: the title's size
/// for a row text of size `item`.
pub open spec fn title_size(item: int) -> int {
    max_int((9 * item + 5) / 10, 8)
}

/// The title's font size for row text of size `item_font_px` (see
/// `title_size`).
pub fn title_font_px_for(item_font_px: i32) -> (r: i32)
    requires
        0 <= item_font_px <= 500,
    ensures
        r == title_size(item_font_px as int),
{
    let t = (9 * item_font_px + 5) / 10;
    if t >= 8 {
        t
    } else {
        8
    }
}

/// `a / b` rounded toward zero, for a divisor that is not zero and values
/// above `i32::MIN`.
fn div_toward_zero(a: i32, b: i32) -> (r: i32)
    requires
        b != 0,
        a > i32::MIN,
        b > i32::MIN,
    ensures
        r == trunc_div(a as int, b as int),
{
    let na = a < 0;
    let nb = b < 0;
    let ua: u32 = if na {
        (-a) as u32
    } else {
        a as u32
    };
    let ub: u32 = if nb {
        (-b) as u32
    } else {
        b as u32
    };
    let q: u32 = ua / ub;
    proof {
        assert(q <= ua) by (nonlinear_arith)
            requires
                ub >= 1,
                q == ua / ub,
        ;
    }
    if na == nb {
        q as i32
    } else {
        -(q as i32)
    }
}

/// The sizes of the windowed mode for a window `window_height_px` high with
/// borders `border_width_px` wide, showing `rows` rows: the window's height
/// less its borders and margins is shared between the rows and the bars
/// (search bar two units, title bar and footer one each); the row text takes
/// the largest size whose line fits a row less its padding (see
/// `solve_font_for_height`, over the measured `linespaces`), at least
/// `MIN_ITEM_FONT_PX`.
pub fn windowed_font_sizes(linespaces: &[i32], window_height_px: i32, border_width_px: i32, rows: i32) -> (r: FontSizes)
    requires
        linespaces@.len() == 493,
        windowed_layout_fits(window_height_px as int, border_width_px as int, rows as int),
    ensures
        r.row_height_px == unit_px(window_height_px as int, border_width_px as int, rows as int),
        r.item_font_px == max_int(
            solved(linespaces@, max_int(r.row_height_px - 2 * ROW_VERTICAL_PADDING_PX, 1)).0,
            MIN_ITEM_FONT_PX as int,
        ),
        r.title_font_px == title_size(r.item_font_px as int),
        r.search_bar_height_px == r.row_height_px * SEARCH_BAR_UNITS,
        r.title_bar_height_px == r.row_height_px * TITLE_BAR_UNITS,
        r.content_body_height_px == content_px(window_height_px as int, border_width_px as int, rows as int),
        r.row_height_px >= MIN_UNIT_H_PX,
        r.item_font_px >= MIN_ITEM_FONT_PX,
        r.title_font_px >= 8,
        rows >= 1 ==> 0 < r.content_body_height_px <= r.row_height_px * rows,
{
    let chrome_units: i32 = SEARCH_BAR_UNITS + TITLE_BAR_UNITS + FOOTER_UNITS;
    let total: i32 = rows + chrome_units;
    let inner: i32 = window_height_px - border_width_px * 2 - CONTENT_MARGIN_PX * 4;
    let available: i32 = if inner >= total {
        inner
    } else {
        total
    };
    let q = div_toward_zero(available, total);
    let unit: i32 = if q >= MIN_UNIT_H_PX {
        q
    } else {
        MIN_UNIT_H_PX
    };
    let pad: i32 = unit - 2 * ROW_VERTICAL_PADDING_PX;
    let target: i32 = if pad >= 1 {
        pad
    } else {
        1
    };
    let (solved_px, _) = solve_font_for_height(target, linespaces);
    let item: i32 = if solved_px >= MIN_ITEM_FONT_PX {
        solved_px
    } else {
        MIN_ITEM_FONT_PX
    };
    let all_rows: i32 = unit * rows;
    let left: i32 = available - unit * chrome_units;
    let least: i32 = if left >= unit {
        left
    } else {
        unit
    };
    let content: i32 = if all_rows <= least {
        all_rows
    } else {
        least
    };
    proof {
        if rows >= 1 {
            assert(all_rows >= unit) by (nonlinear_arith)
                requires
                    rows >= 1,
                    unit >= 32,
                    all_rows == unit * rows,
            ;
        }
    }
    FontSizes {
        item_font_px: item,
        title_font_px: title_font_px_for(item),
        row_height_px: unit,
        search_bar_height_px: unit * SEARCH_BAR_UNITS,
        title_bar_height_px: unit * TITLE_BAR_UNITS,
        content_body_height_px: content,
    }
}

} // verus!
