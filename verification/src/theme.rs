//! Colour themes (`themes.json`): hexadecimal colours, the colours of one
//! theme, the sorted theme names, and the edits that change one setting of the
//! hand-written file in place, keeping the rest of its text as it is.

use crate::json::{
    get_model, lemma_members_of, members_of, parse_json, spec_json_parse, text_field, JsonModel, JsonValue,
};
use crate::models::opt_text;
use crate::settings::{flag_or, text_or};
use crate::numbers::{decimal, decimal_text};
use crate::executable::{chars_less, chars_lt, lemma_chars_lt_order};
use crate::models::texts;
use crate::text::{
    match_at, matches_at, chars_of, extend_chars, find, find_seq, find_stop, is_one_of, is_white_space, is_whitespace, lemma_stop_index_bounds,
    lit, slice_vec, stop_index, string_of,
};
use vstd::prelude::*;
use vstd::string::StringSliceAdditionalSpecFns;

verus! {

/// The value of a hexadecimal digit (either case).
pub open spec fn hex_value(c: char) -> Option<nat> {
    if '0' <= c <= '9' {
        Some(((c as u32) - 48) as nat)
    } else if 'a' <= c <= 'f' {
        Some(((c as u32) - 87) as nat)
    } else if 'A' <= c <= 'F' {
        Some(((c as u32) - 55) as nat)
    } else {
        None
    }
}

/// A byte written as two hexadecimal digits.
pub open spec fn hex_byte(a: char, b: char) -> Option<nat> {
    match (hex_value(a), hex_value(b)) {
        (Some(x), Some(y)) => Some(x * 16 + y),
        _ => None,
    }
}

/// A short colour digit, doubled (`f` is `ff`).
pub open spec fn short_channel(c: char) -> Option<nat> {
    match hex_value(c) {
        Some(d) => Some(d * 17),
        None => None,
    }
}

/// The colour that `#rrggbb` or `#rgb` writes (hexadecimal digits only);
/// none for any other text (CSS colour names included).
pub open spec fn hex_color(s: Seq<char>) -> Option<(nat, nat, nat)> {
    if s.len() == 0 || s[0] != '#' {
        None
    } else {
        let r = s.drop_first();
        if r.len() == 6 {
            match (hex_byte(r[0], r[1]), hex_byte(r[2], r[3]), hex_byte(r[4], r[5])) {
                (Some(x), Some(y), Some(z)) => Some((x, y, z)),
                _ => None,
            }
        } else if r.len() == 3 {
            match (short_channel(r[0]), short_channel(r[1]), short_channel(r[2])) {
                (Some(x), Some(y), Some(z)) => Some((x, y, z)),
                _ => None,
            }
        } else {
            None
        }
    }
}

/// The colour of member `key` of a theme entry.
pub open spec fn theme_color(v: JsonModel, key: Seq<char>) -> Option<(nat, nat, nat)> {
    match text_field(v, key) {
        Some(t) => hex_color(t),
        None => None,
    }
}

/// The value of a hexadecimal digit.
fn hex_digit_value(c: char) -> (r: Option<u8>)
    ensures
        match r {
            Some(v) => hex_value(c) == Some(v as nat) && v < 16,
            None => hex_value(c) is None,
        },
{
    if '0' <= c && c <= '9' {
        Some(((c as u32) - 48) as u8)
    } else if 'a' <= c && c <= 'f' {
        Some(((c as u32) - 87) as u8)
    } else if 'A' <= c && c <= 'F' {
        Some(((c as u32) - 55) as u8)
    } else {
        None
    }
}

/// A byte written as two characters in base 16.
fn parse_hex_byte(a: char, b: char) -> (r: Option<u8>)
    ensures
        match r {
            Some(v) => hex_byte(a, b) == Some(v as nat),
            None => hex_byte(a, b) is None,
        },
{
    let x = hex_digit_value(a)?;
    let y = hex_digit_value(b)?;
    Some(x * 16 + y)
}

/// A short colour digit, doubled.
fn parse_short_channel(c: char) -> (r: Option<u8>)
    ensures
        match r {
            Some(v) => short_channel(c) == Some(v as nat),
            None => short_channel(c) is None,
        },
{
    let d = hex_digit_value(c)?;
    Some(d * 16 + d)
}

/// The colour of `#rrggbb` or `#rgb` (see `hex_color`).
pub fn parse_hex_color(s: &str) -> (r: Option<(u8, u8, u8)>)
    ensures
        match r {
            Some((x, y, z)) => hex_color(s@) == Some((x as nat, y as nat, z as nat)),
            None => hex_color(s@) is None,
        },
{
    let c = chars_of(s);
    if c.len() == 0 || c[0] != '#' {
        return None;
    }
    let r = slice_vec(c.as_slice(), 1, c.len());
    proof {
        assert(r@ =~= s@.drop_first());
    }
    if r.len() == 6 {
        let x = parse_hex_byte(r[0], r[1])?;
        let y = parse_hex_byte(r[2], r[3])?;
        let z = parse_hex_byte(r[4], r[5])?;
        Some((x, y, z))
    } else if r.len() == 3 {
        let x = parse_short_channel(r[0])?;
        let y = parse_short_channel(r[1])?;
        let z = parse_short_channel(r[2])?;
        Some((x, y, z))
    } else {
        None
    }
}

/// The colours of a theme, as (red, green, blue).
#[derive(Clone, Copy, Debug)]
pub struct ThemeColors {
    pub search_background: (u8, u8, u8),
    pub search_text: (u8, u8, u8),
    pub list_background: (u8, u8, u8),
    pub list_text: (u8, u8, u8),
    pub selected_background: (u8, u8, u8),
    pub selected_text: (u8, u8, u8),
    pub border: (u8, u8, u8),
}

/// The colour of member `key` of a theme entry.
fn color_field(v: &JsonValue, key: &str) -> (r: Option<(u8, u8, u8)>)
    ensures
        match r {
            Some(c) => theme_color(v.model(), key@) == Some((c.0 as nat, c.1 as nat, c.2 as nat)),
            None => theme_color(v.model(), key@) is None,
        },
{
    let t = v.text_field(key)?;
    parse_hex_color(t)
}

/// The colours of a theme entry, when all seven are valid colours.
pub open spec fn theme_entry_colors(v: JsonModel) -> Option<ThemeColors> {
    match (
        theme_color(v, "search_background"@),
        theme_color(v, "search_text"@),
        theme_color(v, "list_background"@),
        theme_color(v, "list_text"@),
        theme_color(v, "selected_background"@),
        theme_color(v, "selected_text"@),
        theme_color(v, "border"@),
    ) {
        (Some(a), Some(b), Some(c), Some(d), Some(e), Some(f), Some(g)) => Some(
            ThemeColors {
                search_background: (a.0 as u8, a.1 as u8, a.2 as u8),
                search_text: (b.0 as u8, b.1 as u8, b.2 as u8),
                list_background: (c.0 as u8, c.1 as u8, c.2 as u8),
                list_text: (d.0 as u8, d.1 as u8, d.2 as u8),
                selected_background: (e.0 as u8, e.1 as u8, e.2 as u8),
                selected_text: (f.0 as u8, f.1 as u8, f.2 as u8),
                border: (g.0 as u8, g.1 as u8, g.2 as u8),
            },
        ),
        _ => None,
    }
}

/// The colours of a theme entry (see `theme_entry_colors`).
pub fn parse_theme_entry(v: &JsonValue) -> (r: Option<ThemeColors>)
    ensures
        r == theme_entry_colors(v.model()),
{
    let a = color_field(v, "search_background");
    let b = color_field(v, "search_text");
    let c = color_field(v, "list_background");
    let d = color_field(v, "list_text");
    let e = color_field(v, "selected_background");
    let f = color_field(v, "selected_text");
    let g = color_field(v, "border");
    match (a, b, c, d, e, f, g) {
        (Some(a), Some(b), Some(c), Some(d), Some(e), Some(f), Some(g)) => Some(
            ThemeColors {
                search_background: a,
                search_text: b,
                list_background: c,
                list_text: d,
                selected_background: e,
                selected_text: f,
                border: g,
            },
        ),
        _ => None,
    }
}

/// The font family of the settings, else `Segoe UI`.
pub fn resolve_font_family(font_family: Option<&str>) -> (r: String)
    ensures
        r@ == match font_family {
            Some(f) => f@,
            None => "Segoe UI"@,
        },
{
    match font_family {
        Some(f) => f.to_owned(),
        None => "Segoe UI".to_owned(),
    }
}

/// The text of an `i64` (`to_string`).
pub open spec fn signed_decimal(v: int) -> Seq<char> {
    if v < 0 {
        seq!['-'] + decimal((-v) as nat)
    } else {
        decimal(v as nat)
    }
}

/// The text of an `i64`.
pub fn i64_text(v: i64) -> (r: Vec<char>)
    ensures
        r@ == signed_decimal(v as int),
{
    if v < 0 {
        let m: u64 = if v == i64::MIN {
            9223372036854775808
        } else {
            (-v) as u64
        };
        let mut out = vec!['-'];
        let d = decimal_text(m);
        extend_chars(&mut out, d.as_slice());
        proof {
            assert(out@ =~= seq!['-'] + decimal((-(v as int)) as nat));
        }
        out
    } else {
        decimal_text(v as u64)
    }
}

/// Position of the first character of `s` that is not White_Space
/// (`s.len()` when there is none).
pub open spec fn non_space_index(s: Seq<char>) -> int
    decreases s.len(),
{
    if s.len() == 0 {
        0
    } else if !is_white_space(s[0]) {
        0
    } else {
        1 + non_space_index(s.drop_first())
    }
}

/// The characters a JSON number is written with.
pub open spec fn number_chars() -> Seq<char> {
    seq!['0', '1', '2', '3', '4', '5', '6', '7', '8', '9', '-', '+', '.', 'e', 'E']
}

/// Position of the first character of `s` that cannot be part of a number
/// (`s.len()` when there is none).
pub open spec fn number_end(s: Seq<char>) -> int
    decreases s.len(),
{
    if s.len() == 0 {
        0
    } else if !number_chars().contains(s[0]) {
        0
    } else {
        1 + number_end(s.drop_first())
    }
}

proof fn lemma_non_space_bounds(s: Seq<char>)
    ensures
        0 <= non_space_index(s) <= s.len(),
    decreases s.len(),
{
    if s.len() > 0 {
        lemma_non_space_bounds(s.drop_first());
    }
}

proof fn lemma_number_end_bounds(s: Seq<char>)
    ensures
        0 <= number_end(s) <= s.len(),
    decreases s.len(),
{
    if s.len() > 0 {
        lemma_number_end_bounds(s.drop_first());
    }
}

/// The scanning state after one more character: the nesting depth of
/// objects and arrays, whether a string is open, and whether its last
/// character was an unescaped backslash.
pub open spec fn scan_step(st: (int, bool, bool), c: char) -> (int, bool, bool) {
    if st.1 {
        if st.2 {
            (st.0, true, false)
        } else if c == '\\' {
            (st.0, true, true)
        } else if c == '"' {
            (st.0, false, false)
        } else {
            st
        }
    } else if c == '"' {
        (st.0, true, false)
    } else if c == '{' || c == '[' {
        (st.0 + 1, false, false)
    } else if c == '}' || c == ']' {
        (st.0 - 1, false, false)
    } else {
        st
    }
}

/// The scanning state before character `n` of `text`.
pub open spec fn scan_state(text: Seq<char>, n: int) -> (int, bool, bool)
    decreases n,
{
    if n <= 0 {
        (0, false, false)
    } else {
        scan_step(scan_state(text, n - 1), text[n - 1])
    }
}

/// A member named by the quoted key `qk` starts at `i` in the root object:
/// `i` is at depth one outside any string, and a `:` follows the key.
pub open spec fn root_member_at(text: Seq<char>, qk: Seq<char>, i: int) -> bool {
    &&& 0 <= i <= text.len()
    &&& scan_state(text, i) == (1int, false, false)
    &&& matches_at(text, qk, i)
    &&& i + qk.len() + non_space_index(text.skip(i + qk.len())) < text.len()
    &&& text[i + qk.len() + non_space_index(text.skip(i + qk.len()))] == ':'
}

/// `i` is the first such member.
pub open spec fn is_first_root_member(text: Seq<char>, qk: Seq<char>, i: int) -> bool {
    root_member_at(text, qk, i) && forall|j: int| 0 <= j < i ==> !#[trigger] root_member_at(text, qk, j)
}

/// The position of the first member of the root object named by `qk`.
pub open spec fn first_root_member(text: Seq<char>, qk: Seq<char>) -> Option<int> {
    if exists|i: int| root_member_at(text, qk, i) {
        Some(choose|i: int| is_first_root_member(text, qk, i))
    } else {
        None
    }
}

/// Where the colon after a member's key stands.
pub open spec fn colon_after(text: Seq<char>, qk: Seq<char>, k: int) -> int {
    k + qk.len() + non_space_index(text.skip(k + qk.len()))
}

/// Whether a member named by `qk` starts at `i`, the scanning state there
/// being `(depth, in_string, escaped)`.
fn member_here(t: &[char], qk: &[char], i: usize, depth: i128, in_string: bool, escaped: bool) -> (r: bool)
    requires
        i <= t@.len(),
        (depth as int, in_string, escaped) == scan_state(t@, i as int),
    ensures
        r == root_member_at(t@, qk@, i as int),
{
    if !(depth == 1 && !in_string && !escaped && match_at(t, qk, i)) {
        return false;
    }
    let tl = t.len();
    proof {
        assert(matches_at(t@, qk@, i as int));
        assert(tl == t@.len());
    }
    let j = i + qk.len();
    let rest = slice_vec(t, j, t.len());
    let w = find_non_space(rest.as_slice());
    proof {
        lemma_non_space_bounds(rest@);
        assert(rest@ =~= t@.skip(j as int));
    }
    j + w < t.len() && t[j + w] == ':'
}

/// The first member of the root object named by `qk`.
fn find_root_member(t: &[char], qk: &[char]) -> (r: Option<usize>)
    ensures
        match r {
            Some(i) => first_root_member(t@, qk@) == Some(i as int) && is_first_root_member(t@, qk@, i as int),
            None => first_root_member(t@, qk@) is None,
        },
{
    let mut depth: i128 = 0;
    let mut in_string = false;
    let mut escaped = false;
    let mut i: usize = 0;
    loop
        invariant
            i <= t@.len(),
            (depth as int, in_string, escaped) == scan_state(t@, i as int),
            !in_string ==> !escaped,
            -(i as int) <= depth <= i,
            forall|j: int| 0 <= j < i ==> !#[trigger] root_member_at(t@, qk@, j),
        decreases t@.len() - i,
    {
        if member_here(t, qk, i, depth, in_string, escaped) {
            proof {
                assert(is_first_root_member(t@, qk@, i as int));
                let c = choose|x: int| is_first_root_member(t@, qk@, x);
                if c < i {
                    assert(!root_member_at(t@, qk@, c));
                } else if c > i {
                    assert(!root_member_at(t@, qk@, i as int));
                }
            }
            return Some(i);
        }
        if i == t.len() {
            proof {
                assert forall|x: int| !#[trigger] root_member_at(t@, qk@, x) by {
                    if 0 <= x && x <= t@.len() && x != i {
                        assert(x < i);
                    }
                }
            }
            return None;
        }
        let c = t[i];
        if in_string {
            if escaped {
                escaped = false;
            } else if c == '\\' {
                escaped = true;
            } else if c == '"' {
                in_string = false;
            }
        } else if c == '"' {
            in_string = true;
            escaped = false;
        } else if c == '{' || c == '[' {
            depth = depth + 1;
        } else if c == '}' || c == ']' {
            depth = depth - 1;
        }
        proof {
            assert(scan_state(t@, i + 1) == scan_step(scan_state(t@, i as int), t@[i as int]));
        }
        i = i + 1;
    }
}

/// The file text with the value of the root setting `theme` replaced by
/// `new_name`, the rest kept as written; or why it cannot be found.
pub open spec fn theme_committed(text: Seq<char>, new_name: Seq<char>) -> Result<Seq<char>, Seq<char>> {
    match first_root_member(text, "\"theme\""@) {
        None => Err("'theme' key not found in themes.json"@),
        Some(k) => {
            let colon = colon_after(text, "\"theme\""@, k);
            let after_colon = text.skip(colon + 1);
            let q = stop_index(after_colon, seq!['"']);
            if q >= after_colon.len() {
                Err("'theme' value not found"@)
            } else {
                let value_start = colon + 1 + q + 1;
                let rest = text.skip(value_start);
                let e = stop_index(rest, seq!['"']);
                if e >= rest.len() {
                    Err("'theme' value not terminated"@)
                } else {
                    Ok(text.take(value_start) + new_name + text.skip(value_start + e))
                }
            }
        },
    }
}

/// Position of the first `c` in `s`, or `s.len()`.
fn find_char(s: &[char], c: char) -> (r: usize)
    ensures
        r == stop_index(s@, seq![c]),
        r <= s@.len(),
{
    let stops = vec![c];
    proof {
        assert(stops@ =~= seq![c]);
        lemma_stop_index_bounds(s@, seq![c]);
    }
    find_stop(s, stops.as_slice())
}

/// Writes `new_name` as the active theme in the text of `themes.json` (see
/// `theme_committed`).
pub fn commit_theme(text: &str, new_name: &str) -> (r: Result<String, String>)
    ensures
        match r {
            Ok(t) => theme_committed(text@, new_name@) == Ok::<Seq<char>, Seq<char>>(t@),
            Err(m) => theme_committed(text@, new_name@) == Err::<Seq<char>, Seq<char>>(m@),
        },
{
    let t = chars_of(text);
    let key = lit("\"theme\"");
    let k = match find_root_member(t.as_slice(), key.as_slice()) {
        Some(k) => k,
        None => return Err("'theme' key not found in themes.json".to_owned()),
    };
    proof {
        reveal_strlit("\"theme\"");
        assert(key@.len() == 7);
        let c = choose|i: int| is_first_root_member(t@, key@, i);
        assert(c == k);
        lemma_non_space_bounds(t@.skip(k + 7));
    }
    let after_key = slice_vec(t.as_slice(), k + 7, t.len());
    let w = find_non_space(after_key.as_slice());
    let colon = k + 7 + w;
    proof {
        assert(after_key@ =~= t@.skip(k + 7));
    }
    let after_colon = slice_vec(t.as_slice(), colon + 1, t.len());
    let q = find_char(after_colon.as_slice(), '"');
    if q == after_colon.len() {
        return Err("'theme' value not found".to_owned());
    }
    let value_start = colon + 1 + q + 1;
    proof {
        assert(after_colon@ =~= t@.skip(colon + 1));
    }
    let rest = slice_vec(t.as_slice(), value_start, t.len());
    let e = find_char(rest.as_slice(), '"');
    if e == rest.len() {
        return Err("'theme' value not terminated".to_owned());
    }
    let mut out = slice_vec(t.as_slice(), 0, value_start);
    let n = chars_of(new_name);
    let tail = slice_vec(t.as_slice(), value_start + e, t.len());
    extend_chars(&mut out, n.as_slice());
    extend_chars(&mut out, tail.as_slice());
    proof {
        assert(rest@ =~= t@.skip(value_start as int));
        assert(out@ =~= t@.take(value_start as int) + new_name@ + t@.skip(value_start + e));
    }
    Ok(string_of(out.as_slice()))
}

/// The file text with the number of the root setting `key` replaced by
/// `value`, the rest kept as written; or why it cannot be found.
pub open spec fn number_committed(text: Seq<char>, key: Seq<char>, value: int) -> Result<Seq<char>, Seq<char>> {
    let qk = seq!['"'] + key + seq!['"'];
    match first_root_member(text, qk) {
        None => Err("key '"@ + key + "' not found in themes.json"@),
        Some(k) => {
            let colon = colon_after(text, qk, k);
            let after_colon = text.skip(colon + 1);
            let vs = non_space_index(after_colon);
            if vs >= after_colon.len() {
                Err(seq!['\''] + key + "' value not found"@)
            } else {
                let value_start = colon + 1 + vs;
                let value_end = value_start + number_end(text.skip(value_start));
                Ok(text.take(value_start) + signed_decimal(value) + text.skip(value_end))
            }
        },
    }
}

/// Position of the first character of `s` that is not White_Space.
fn find_non_space(s: &[char]) -> (r: usize)
    ensures
        r == non_space_index(s@),
{
    let mut i: usize = 0;
    proof {
        assert(s@.skip(0) =~= s@);
    }
    while i < s.len() && is_whitespace(s[i])
        invariant
            i <= s@.len(),
            non_space_index(s@) == i + non_space_index(s@.skip(i as int)),
        decreases s@.len() - i,
    {
        proof {
            assert(s@.skip(i as int)[0] == s@[i as int]);
            assert(s@.skip(i as int).drop_first() =~= s@.skip(i + 1));
        }
        i = i + 1;
    }
    proof {
        if i < s@.len() {
            assert(s@.skip(i as int)[0] == s@[i as int]);
        }
    }
    i
}

/// Position of the first character of `s` that cannot be part of a number.
fn find_number_end(s: &[char]) -> (r: usize)
    ensures
        r == number_end(s@),
{
    let set = vec!['0', '1', '2', '3', '4', '5', '6', '7', '8', '9', '-', '+', '.', 'e', 'E'];
    proof {
        assert(set@ =~= number_chars());
        assert(s@.skip(0) =~= s@);
    }
    let mut i: usize = 0;
    while i < s.len() && is_one_of(s[i], set.as_slice())
        invariant
            i <= s@.len(),
            set@ == number_chars(),
            number_end(s@) == i + number_end(s@.skip(i as int)),
        decreases s@.len() - i,
    {
        proof {
            assert(s@.skip(i as int)[0] == s@[i as int]);
            assert(s@.skip(i as int).drop_first() =~= s@.skip(i + 1));
        }
        i = i + 1;
    }
    proof {
        if i < s@.len() {
            assert(s@.skip(i as int)[0] == s@[i as int]);
        }
    }
    i
}

/// Writes `value` as the root number setting `key` in the text of
/// `themes.json` (see `number_committed`).
fn commit_number(text: &str, key: &str, value: i64) -> (r: Result<String, String>)
    ensures
        match r {
            Ok(t) => number_committed(text@, key@, value as int) == Ok::<Seq<char>, Seq<char>>(t@),
            Err(m) => number_committed(text@, key@, value as int) == Err::<Seq<char>, Seq<char>>(m@),
        },
{
    let t = chars_of(text);
    let kc = chars_of(key);
    let mut qk = vec!['"'];
    extend_chars(&mut qk, kc.as_slice());
    qk.push('"');
    let ghost qkv = seq!['"'] + key@ + seq!['"'];
    proof {
        assert(qk@ =~= qkv);
    }
    let k = match find_root_member(t.as_slice(), qk.as_slice()) {
        Some(k) => k,
        None => {
            let mut m = lit("key '");
            let tail = lit("' not found in themes.json");
            extend_chars(&mut m, kc.as_slice());
            extend_chars(&mut m, tail.as_slice());
            return Err(string_of(m.as_slice()));
        },
    };
    proof {
        let c = choose|i: int| is_first_root_member(t@, qkv, i);
        assert(c == k);
        lemma_non_space_bounds(t@.skip(k + qkv.len()));
    }
    let after_key = slice_vec(t.as_slice(), k + qk.len(), t.len());
    let w = find_non_space(after_key.as_slice());
    let colon = k + qk.len() + w;
    proof {
        assert(after_key@ =~= t@.skip(k + qkv.len()));
    }
    let after_colon = slice_vec(t.as_slice(), colon + 1, t.len());
    let vs = find_non_space(after_colon.as_slice());
    proof {
        lemma_non_space_bounds(after_colon@);
        assert(after_colon@ =~= t@.skip(colon + 1));
    }
    if vs == after_colon.len() {
        let mut m = vec!['\''];
        let tail = lit("' value not found");
        extend_chars(&mut m, kc.as_slice());
        extend_chars(&mut m, tail.as_slice());
        proof {
            assert(m@ =~= seq!['\''] + key@ + "' value not found"@);
        }
        return Err(string_of(m.as_slice()));
    }
    let value_start = colon + 1 + vs;
    let rest = slice_vec(t.as_slice(), value_start, t.len());
    let len = find_number_end(rest.as_slice());
    proof {
        lemma_number_end_bounds(rest@);
        assert(rest@ =~= t@.skip(value_start as int));
    }
    let value_end = value_start + len;
    let mut out = slice_vec(t.as_slice(), 0, value_start);
    let v = i64_text(value);
    let tail = slice_vec(t.as_slice(), value_end, t.len());
    extend_chars(&mut out, v.as_slice());
    extend_chars(&mut out, tail.as_slice());
    proof {
        assert(out@ =~= t@.take(value_start as int) + signed_decimal(value as int) + t@.skip(value_end as int));
    }
    Ok(string_of(out.as_slice()))
}

/// Writes the window size (a percentage of the screen) in the text of
/// `themes.json`, as its root `window_size` number.
pub fn commit_window_size(text: &str, size_percent: i32) -> (r: Result<String, String>)
    ensures
        match r {
            Ok(t) => number_committed(text@, "window_size"@, size_percent as int) == Ok::<Seq<char>, Seq<char>>(
                t@,
            ),
            Err(m) => number_committed(text@, "window_size"@, size_percent as int) == Err::<Seq<char>, Seq<char>>(
                m@,
            ),
        },
{
    commit_number(text, "window_size", size_percent as i64)
}

/// Writes the border width in pixels in the text of `themes.json`, as its
/// root `border` number.
pub fn commit_border(text: &str, border_px: i32) -> (r: Result<String, String>)
    ensures
        match r {
            Ok(t) => number_committed(text@, "border"@, border_px as int) == Ok::<Seq<char>, Seq<char>>(t@),
            Err(m) => number_committed(text@, "border"@, border_px as int) == Err::<Seq<char>, Seq<char>>(m@),
        },
{
    commit_number(text, "border", border_px as i64)
}

/// Where `x` goes in the sorted `names`: after every name not greater.
pub open spec fn name_insert_pos(names: Seq<Seq<char>>, x: Seq<char>) -> int
    decreases names.len(),
{
    if names.len() == 0 {
        0
    } else if chars_lt(x, names.last()) {
        name_insert_pos(names.drop_last(), x)
    } else {
        names.len() as int
    }
}

/// `names` in lexicographic order.
pub open spec fn sorted_names(names: Seq<Seq<char>>) -> Seq<Seq<char>>
    decreases names.len(),
{
    if names.len() == 0 {
        Seq::empty()
    } else {
        let s = sorted_names(names.drop_last());
        let p = name_insert_pos(s, names.last());
        s.take(p).push(names.last()) + s.skip(p)
    }
}

proof fn lemma_name_insert_pos_bounds(names: Seq<Seq<char>>, x: Seq<char>)
    ensures
        0 <= name_insert_pos(names, x) <= names.len(),
    decreases names.len(),
{
    if names.len() > 0 {
        lemma_name_insert_pos_bounds(names.drop_last(), x);
    }
}

proof fn lemma_name_insert_pos_props(t: Seq<Seq<char>>, x: Seq<char>)
    ensures
        0 <= name_insert_pos(t, x) <= t.len(),
        forall|k: int| name_insert_pos(t, x) <= k < t.len() ==> chars_lt(x, #[trigger] t[k]),
        name_insert_pos(t, x) > 0 ==> !chars_lt(x, t[name_insert_pos(t, x) - 1]),
    decreases t.len(),
{
    if t.len() > 0 {
        let d = t.drop_last();
        lemma_name_insert_pos_props(d, x);
        if chars_lt(x, t.last()) {
            assert forall|k: int| name_insert_pos(t, x) <= k < t.len() implies chars_lt(x, #[trigger] t[k]) by {
                if k < t.len() - 1 {
                    assert(t[k] == d[k]);
                }
            }
            if name_insert_pos(t, x) > 0 {
                assert(t[name_insert_pos(t, x) - 1] == d[name_insert_pos(t, x) - 1]);
            }
        }
    }
}

/// The theme picker lists the names in lexicographic order, each name as
/// often as it was given.
pub proof fn lemma_sorted_names(names: Seq<Seq<char>>)
    ensures
        forall|i: int, j: int|
            0 <= i < j < sorted_names(names).len() ==> !chars_lt(
                #[trigger] sorted_names(names)[j],
                #[trigger] sorted_names(names)[i],
            ),
        sorted_names(names).to_multiset() == names.to_multiset(),
    decreases names.len(),
{
    if names.len() > 0 {
        let d = names.drop_last();
        let t = sorted_names(d);
        let x = names.last();
        lemma_sorted_names(d);
        lemma_name_insert_pos_props(t, x);
        let p = name_insert_pos(t, x);
        let a = t.take(p).push(x);
        let b = t.skip(p);
        let u = a + b;
        assert(sorted_names(names) == u);
        assert forall|i: int, j: int| 0 <= i < j < u.len() implies !chars_lt(#[trigger] u[j], #[trigger] u[i]) by {
            if j < p {
                assert(u[i] == t[i] && u[j] == t[j]);
            } else if j == p {
                assert(u[j] == x);
                assert(u[i] == t[i]);
                lemma_chars_lt_order(x, t[p - 1], t[i]);
                lemma_chars_lt_order(t[p - 1], x, t[i]);
                lemma_chars_lt_order(x, t[i], t[p - 1]);
                if i < p - 1 {
                    assert(!chars_lt(t[p - 1], t[i]));
                }
            } else {
                assert(u[j] == t[j - 1]);
                if i < p {
                    assert(u[i] == t[i]);
                } else if i == p {
                    assert(u[i] == x);
                    lemma_chars_lt_order(x, t[j - 1], x);
                } else {
                    assert(u[i] == t[i - 1]);
                }
            }
        }
        broadcast use vstd::multiset::group_multiset_axioms;
        vstd::seq_lib::lemma_multiset_commutative(a, b);
        vstd::seq_lib::lemma_multiset_commutative(t.take(p), b);
        t.take(p).to_multiset_ensures();
        d.to_multiset_ensures();
        assert(t.take(p) + b =~= t);
        assert(d.push(x) =~= names);
        assert(u.to_multiset() =~= t.to_multiset().insert(x));
        assert(d.push(x).to_multiset() =~= d.to_multiset().insert(x));
        assert(names.to_multiset() =~= d.to_multiset().insert(x));
    } else {
        assert(sorted_names(names) =~= names);
    }
}

/// The theme names in lexicographic order, for the theme picker.
pub fn list_theme_names(names: &[String]) -> (r: Vec<String>)
    ensures
        texts(r@) == sorted_names(texts(names@)),
{
    let ghost t = texts(names@);
    let mut sorted: Vec<String> = Vec::new();
    let mut i: usize = 0;
    proof {
        assert(t.take(0) =~= Seq::<Seq<char>>::empty());
        assert(texts(sorted@) =~= Seq::<Seq<char>>::empty());
    }
    while i < names.len()
        invariant
            i <= names@.len(),
            t == texts(names@),
            texts(sorted@) == sorted_names(t.take(i as int)),
        decreases names@.len() - i,
    {
        let x = names[i].clone();
        let xc = chars_of(x.as_str());
        let ghost s = texts(sorted@);
        let mut p: usize = sorted.len();
        proof {
            assert(s.take(p as int) =~= s);
        }
        while p > 0
            invariant
                p <= sorted@.len(),
                s == texts(sorted@),
                xc@ == x@,
                name_insert_pos(s, x@) == name_insert_pos(s.take(p as int), x@),
            ensures
                p <= sorted@.len(),
                name_insert_pos(s, x@) == p,
            decreases p,
        {
            let yc = chars_of(sorted[p - 1].as_str());
            proof {
                assert(s.take(p as int).last() == sorted@[p - 1]@);
            }
            if !chars_less(xc.as_slice(), yc.as_slice()) {
                break;
            }
            proof {
                assert(s.take(p as int).drop_last() =~= s.take(p - 1));
            }
            p = p - 1;
        }
        proof {
            lemma_name_insert_pos_bounds(s, x@);
            assert(t.take(i + 1).drop_last() =~= t.take(i as int));
            assert(t.take(i + 1).last() == x@);
        }
        sorted.insert(p, x);
        proof {
            assert(texts(sorted@) =~= s.take(p as int).push(x@) + s.skip(p as int));
        }
        i = i + 1;
    }
    proof {
        assert(t.take(names@.len() as int) =~= t);
    }
    sorted
}

/// The theme used when `themes.json` is missing or holds no valid theme.
pub fn fallback_theme() -> (r: ThemeColors)
    ensures
        r.search_background == (0x40u8, 0x45u8, 0x52u8),
        r.search_text == (0x7cu8, 0x81u8, 0x8cu8),
        r.list_background == (0x38u8, 0x3cu8, 0x4au8),
        r.list_text == (0xd3u8, 0xdau8, 0xe3u8),
        r.selected_background == (0x52u8, 0x94u8, 0xe2u8),
        r.selected_text == (0xffu8, 0xffu8, 0xffu8),
        r.border == (0x4bu8, 0x51u8, 0x62u8),
{
    ThemeColors {
        search_background: (0x40, 0x45, 0x52),
        search_text: (0x7c, 0x81, 0x8c),
        list_background: (0x38, 0x3c, 0x4a),
        list_text: (0xd3, 0xda, 0xe3),
        selected_background: (0x52, 0x94, 0xe2),
        selected_text: (0xff, 0xff, 0xff),
        border: (0x4b, 0x51, 0x62),
    }
}

/// The colours of brands and actions, the same whatever the theme.
#[derive(Clone, Copy, Debug)]
pub struct SemanticColors {
    pub brand_github: (u8, u8, u8),
    pub brand_github_hover: (u8, u8, u8),
    pub brand_discord: (u8, u8, u8),
    pub brand_discord_hover: (u8, u8, u8),
    pub success: (u8, u8, u8),
    pub success_hover: (u8, u8, u8),
    pub warning: (u8, u8, u8),
    pub warning_hover: (u8, u8, u8),
    pub danger: (u8, u8, u8),
    pub danger_hover: (u8, u8, u8),
    pub info: (u8, u8, u8),
    pub info_hover: (u8, u8, u8),
    /// The border of the selected card in the fullscreen grid.
    pub border_strong: (u8, u8, u8),
    /// Text on the coloured action buttons.
    pub text_on_accent: (u8, u8, u8),
}

/// The colours of brands and actions.
pub fn semantic_colors() -> (r: SemanticColors)
    ensures
        r.brand_github == (0x24u8, 0x29u8, 0x2fu8),
        r.brand_discord == (0x58u8, 0x65u8, 0xf2u8),
        r.success == (0x78u8, 0xb1u8, 0x59u8),
        r.warning == (0xf4u8, 0x90u8, 0x0cu8),
        r.danger == (0xddu8, 0x2eu8, 0x44u8),
        r.info == (0x55u8, 0xacu8, 0xeeu8),
        r.border_strong == (0xffu8, 0xffu8, 0xffu8),
        r.text_on_accent == (0xffu8, 0xffu8, 0xffu8),
        r.brand_github_hover == (0x32u8, 0x38u8, 0x3fu8),
        r.brand_discord_hover == (0x6bu8, 0x76u8, 0xf5u8),
        r.success_hover == (0x93u8, 0xc1u8, 0x7au8),
        r.warning_hover == (0xf6u8, 0xa6u8, 0x3du8),
        r.danger_hover == (0xe4u8, 0x58u8, 0x69u8),
        r.info_hover == (0x77u8, 0xbdu8, 0xf1u8),
{
    SemanticColors {
        brand_github: (0x24, 0x29, 0x2f),
        brand_github_hover: (0x32, 0x38, 0x3f),
        brand_discord: (0x58, 0x65, 0xf2),
        brand_discord_hover: (0x6b, 0x76, 0xf5),
        success: (0x78, 0xb1, 0x59),
        success_hover: (0x93, 0xc1, 0x7a),
        warning: (0xf4, 0x90, 0x0c),
        warning_hover: (0xf6, 0xa6, 0x3d),
        danger: (0xdd, 0x2e, 0x44),
        danger_hover: (0xe4, 0x58, 0x69),
        info: (0x55, 0xac, 0xee),
        info_hover: (0x77, 0xbd, 0xf1),
        border_strong: (0xff, 0xff, 0xff),
        text_on_accent: (0xff, 0xff, 0xff),
    }
}

/// A theme of `themes.json`: its name and colours.
pub struct NamedTheme {
    pub name: String,
    pub colors: ThemeColors,
}

/// The valid themes among members of the `themes` object, in order.
pub open spec fn valid_themes(members: Seq<(Seq<char>, JsonModel)>) -> Seq<(Seq<char>, ThemeColors)>
    decreases members.len(),
{
    if members.len() == 0 {
        Seq::empty()
    } else {
        let prev = valid_themes(members.drop_last());
        match theme_entry_colors(members.last().1) {
            Some(c) => prev.push((members.last().0, c)),
            None => prev,
        }
    }
}

/// The valid themes of a `themes.json` value (none without a `themes` object).
pub open spec fn file_themes(root: JsonModel) -> Seq<(Seq<char>, ThemeColors)> {
    match get_model(root, "themes"@) {
        Some(JsonModel::Object(m)) => valid_themes(m),
        _ => Seq::empty(),
    }
}

/// The colours of the first theme named `name`.
pub open spec fn theme_named(themes: Seq<(Seq<char>, ThemeColors)>, name: Seq<char>) -> Option<ThemeColors>
    decreases themes.len(),
{
    if themes.len() == 0 {
        None
    } else if themes[0].0 == name {
        Some(themes[0].1)
    } else {
        theme_named(themes.drop_first(), name)
    }
}

/// The names and colours of some themes.
pub open spec fn named_view(v: Seq<NamedTheme>) -> Seq<(Seq<char>, ThemeColors)> {
    v.map_values(|t: NamedTheme| (t.name@, t.colors))
}

/// What `themes.json` sets, but for the window size and border.
pub struct ThemeFile {
    pub themes: Vec<NamedTheme>,
    /// The theme chosen in the file, or the one active before.
    pub active_theme: String,
    /// The colours applied: those of the active theme, else of the first one.
    pub current: ThemeColors,
    pub font_family: Option<String>,
    pub placeholder_text: String,
    pub show_clock: bool,
}

/// `f` is what the `themes.json` value `root` sets, `active` being the theme
/// active before.
pub open spec fn theme_file_read(f: ThemeFile, root: JsonModel, active: Seq<char>) -> bool {
    let ts = file_themes(root);
    &&& named_view(f.themes@) == ts
    &&& f.active_theme@ == text_or(root, "theme"@, active)
    &&& f.current == match theme_named(ts, f.active_theme@) {
        Some(c) => c,
        None => ts[0].1,
    }
    &&& opt_text(f.font_family) == match text_field(root, "font_family"@) {
        Some(t) => if t.len() > 0 {
            Some(t)
        } else {
            None
        },
        None => None,
    }
    &&& f.placeholder_text@ == text_or(root, "placeholder_text"@, "Type to search..."@)
    &&& f.show_clock == flag_or(root, "show_clock"@, true)
}

/// The colours of the first theme named `name` in `themes`.
pub fn preview_theme(themes: &[NamedTheme], name: &str) -> (r: Option<ThemeColors>)
    ensures
        r == theme_named(named_view(themes@), name@),
{
    let ghost v = named_view(themes@);
    let mut i: usize = 0;
    proof {
        assert(v.skip(0) =~= v);
    }
    while i < themes.len()
        invariant
            i <= themes@.len(),
            v == named_view(themes@),
            theme_named(v, name@) == theme_named(v.skip(i as int), name@),
        decreases themes@.len() - i,
    {
        proof {
            assert(v.skip(i as int)[0] == (themes@[i as int].name@, themes@[i as int].colors));
            assert(v.skip(i as int).drop_first() =~= v.skip(i + 1));
        }
        if crate::text::same_text(themes[i].name.as_str(), name) {
            return Some(themes[i].colors);
        }
        i = i + 1;
    }
    proof {
        assert(v.skip(i as int).len() == 0);
    }
    None
}

/// The valid themes of the `themes` members.
fn read_themes(members: &Vec<(String, JsonValue)>) -> (r: Vec<NamedTheme>)
    ensures
        named_view(r@) == valid_themes(members_of(members@)),
{
    let ghost ms = members_of(members@);
    proof {
        lemma_members_of(members@);
        assert(ms.take(0) =~= Seq::<(Seq<char>, JsonModel)>::empty());
    }
    let mut out: Vec<NamedTheme> = Vec::new();
    let mut i: usize = 0;
    while i < members.len()
        invariant
            i <= members@.len(),
            ms == members_of(members@),
            ms.len() == members@.len(),
            forall|k: int| 0 <= k < members@.len() ==> #[trigger] ms[k] == (members@[k].0@, members@[k].1.model()),
            named_view(out@) == valid_themes(ms.take(i as int)),
        decreases members@.len() - i,
    {
        proof {
            assert(ms.take(i + 1).drop_last() =~= ms.take(i as int));
            assert(ms.take(i + 1).last() == ms[i as int]);
        }
        let ghost before = out@;
        match parse_theme_entry(&members[i].1) {
            Some(c) => {
                out.push(NamedTheme { name: members[i].0.clone(), colors: c });
                proof {
                    assert(named_view(out@) =~= named_view(before).push((members@[i as int].0@, c)));
                }
            },
            None => {},
        }
        i = i + 1;
    }
    proof {
        assert(ms.take(members@.len() as int) =~= ms);
    }
    out
}

/// The literal of the root number `key` of the text of `themes.json`.
pub open spec fn root_number_of(text: Seq<char>, key: Seq<char>) -> Option<Seq<char>> {
    match spec_json_parse(text) {
        Some(root) => match get_model(root, key) {
            Some(JsonModel::Number(l)) => Some(l),
            _ => None,
        },
        None => None,
    }
}

/// The literal of the root number `key` of `themes.json` (the window size and
/// border, which the caller reads as it can).
pub fn root_number(text: &str, key: &str) -> (r: Option<String>)
    ensures
        opt_text(r) == root_number_of(text@, key@),
{
    let root = match parse_json(text) {
        Ok(v) => v,
        Err(_) => return None,
    };
    match root.get(key) {
        Some(JsonValue::Number(n)) => Some(n.literal.clone()),
        _ => None,
    }
}

/// Reads the text of `themes.json`, `active` being the theme active before:
/// none (the settings stay as they were) when it is not a JSON object or
/// holds no valid theme (see `theme_file_read` otherwise).
pub fn load_theme_file(text: &str, active: &str) -> (r: Option<ThemeFile>)
    ensures
        match spec_json_parse(text@) {
            Some(root) => if root is Object && file_themes(root).len() > 0 {
                r matches Some(f) && theme_file_read(f, root, active@)
            } else {
                r is None
            },
            None => r is None,
        },
{
    let root = match parse_json(text) {
        Ok(v) => v,
        Err(_) => return None,
    };
    if !root.is_object() {
        return None;
    }
    let themes = match root.get("themes") {
        Some(JsonValue::Object(m)) => read_themes(m),
        _ => Vec::new(),
    };
    if themes.len() == 0 {
        return None;
    }
    let active_theme = match root.text_field("theme") {
        Some(t) => t.to_owned(),
        None => active.to_owned(),
    };
    let current = match preview_theme(themes.as_slice(), active_theme.as_str()) {
        Some(c) => c,
        None => themes[0].colors,
    };
    let font_family = match root.text_field("font_family") {
        Some(f) => if f.is_empty() {
            None
        } else {
            Some(f.to_owned())
        },
        None => None,
    };
    let placeholder_text = match root.text_field("placeholder_text") {
        Some(t) => t.to_owned(),
        None => "Type to search...".to_owned(),
    };
    let show_clock = match root.get("show_clock") {
        Some(x) => match x.as_bool() {
            Some(b) => b,
            None => true,
        },
        None => true,
    };
    proof {
        assert(named_view(themes@)[0] == (themes@[0].name@, themes@[0].colors));
    }
    Some(ThemeFile { themes, active_theme, current, font_family, placeholder_text, show_clock })
}

} // verus!
