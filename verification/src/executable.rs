//! Choosing the program to start in an installed game's folder: the one
//! `.exe`, `.lnk` or `.bat` file that is not an uninstaller, or the list to
//! choose from when there are several.

use crate::json::{is_truthy, text_of, truthy, JsonModel, JsonValue};
use crate::models::texts;
use crate::path_safety::{escape_message, joined_normalized, parent_part, path_parts, safe_join, split_parts, stays_under, views_of};
use crate::platform_resolve::{linux_key, per_platform, resolve_per_platform};
use crate::text::{
    ascii_lower_seq, chars_of, contains, extend_chars, contains_seq, lit, slice_vec, spec_to_lowercase, string_of, to_ascii_lower,
    to_lowercase,
};
use vstd::prelude::*;

verus! {

/// The last component of a path; none when it has no component or ends in `..`.
pub open spec fn file_name_of(p: Seq<char>) -> Option<Seq<char>> {
    let parts = path_parts(p);
    if parts.len() == 0 || parts.last() == parent_part() {
        None
    } else {
        Some(parts.last())
    }
}

/// Position of the last `.` of `s`, or -1.
pub open spec fn last_dot(s: Seq<char>) -> int
    decreases s.len(),
{
    if s.len() == 0 {
        -1
    } else if s.last() == '.' {
        s.len() - 1
    } else {
        last_dot(s.drop_last())
    }
}

/// The extension of a file name: what follows its last `.`, when that `.` is
/// not its first character.
pub open spec fn extension_of(name: Seq<char>) -> Option<Seq<char>> {
    if name == parent_part() || last_dot(name) < 1 {
        None
    } else {
        Some(name.skip(last_dot(name) + 1))
    }
}

/// `exe`, `lnk` or `bat`, in any ASCII case.
pub open spec fn is_launcher_extension(e: Seq<char>) -> bool {
    let l = ascii_lower_seq(e);
    l == seq!['e', 'x', 'e'] || l == seq!['l', 'n', 'k'] || l == seq!['b', 'a', 't']
}

/// `unins`, the start of the names of uninstallers (`uninstall.exe`,
/// `unins000.exe`).
pub open spec fn uninstaller_marker() -> Seq<char> {
    seq!['u', 'n', 'i', 'n', 's']
}

/// A file that can start the game: a launcher extension, and a lowercase name
/// without the uninstaller marker.
pub open spec fn is_candidate(path: Seq<char>) -> bool {
    match file_name_of(path) {
        Some(n) => match extension_of(n) {
            Some(e) => is_launcher_extension(e) && !contains_seq(spec_to_lowercase(n), uninstaller_marker()),
            None => false,
        },
        None => false,
    }
}

/// The candidates among `files`, in their order.
pub open spec fn candidates(files: Seq<Seq<char>>) -> Seq<Seq<char>>
    decreases files.len(),
{
    if files.len() == 0 {
        Seq::empty()
    } else {
        let prev = candidates(files.drop_last());
        if is_candidate(files.last()) {
            prev.push(files.last())
        } else {
            prev
        }
    }
}

/// The file name of a path, empty when it has none.
pub open spec fn name_key(p: Seq<char>) -> Seq<char> {
    match file_name_of(p) {
        Some(n) => n,
        None => Seq::empty(),
    }
}

/// Lexicographic "less than" on characters (code points), which is also the
/// byte order of their UTF-8 encodings.
pub open spec fn chars_lt(a: Seq<char>, b: Seq<char>) -> bool
    decreases a.len(),
{
    if a.len() == 0 {
        b.len() > 0
    } else if b.len() == 0 {
        false
    } else if a[0] != b[0] {
        a[0] < b[0]
    } else {
        chars_lt(a.drop_first(), b.drop_first())
    }
}

/// Where `x` goes in `sorted`: after every path whose file name is not greater.
pub open spec fn insert_pos(sorted: Seq<Seq<char>>, x: Seq<char>) -> int
    decreases sorted.len(),
{
    if sorted.len() == 0 {
        0
    } else if chars_lt(name_key(x), name_key(sorted.last())) {
        insert_pos(sorted.drop_last(), x)
    } else {
        sorted.len() as int
    }
}

/// `paths` in the order of their file names; paths with equal names keep
/// their order (a stable sort).
pub open spec fn sort_by_name(paths: Seq<Seq<char>>) -> Seq<Seq<char>>
    decreases paths.len(),
{
    if paths.len() == 0 {
        Seq::empty()
    } else {
        let s = sort_by_name(paths.drop_last());
        let p = insert_pos(s, paths.last());
        s.take(p).push(paths.last()) + s.skip(p)
    }
}

/// `items` joined with `sep`.
pub open spec fn joined_with(items: Seq<Seq<char>>, sep: Seq<char>) -> Seq<char>
    decreases items.len(),
{
    if items.len() == 0 {
        Seq::empty()
    } else if items.len() == 1 {
        items[0]
    } else {
        joined_with(items.drop_last(), sep) + sep + items.last()
    }
}

/// The message when no candidate was found in the folder named `dir`.
pub open spec fn no_executable_message(dir: Seq<char>) -> Seq<char> {
    "No executable found automatically in \""@ + dir
        + "\". Add the \"executable\" key in ports.json for this port."@
}

/// The message when several candidates (with these file names) were found.
pub open spec fn ambiguous_message(dir: Seq<char>, names: Seq<Seq<char>>) -> Seq<char> {
    "Multiple possible executables in \""@ + dir + "\": "@ + joined_with(names, ", "@) + ". Please choose one."@
}

/// Why no single executable could be chosen.
#[derive(Debug)]
pub enum ExecutableSelectionError {
    /// No candidate, or a configured path that cannot be used: shown as is.
    Message(String),
    /// Several candidates, sorted by file name, for the user to choose from.
    Ambiguous(String, Vec<String>),
}

pub proof fn lemma_last_dot_bounds(s: Seq<char>)
    ensures
        -1 <= last_dot(s) < s.len(),
        last_dot(s) >= 0 ==> s[last_dot(s)] == '.',
    decreases s.len(),
{
    if s.len() > 0 {
        lemma_last_dot_bounds(s.drop_last());
    }
}

/// No `.` in `t`.
pub open spec fn no_dot(t: Seq<char>) -> bool {
    forall|j: int| 0 <= j < t.len() ==> t[j] != '.'
}

/// Nothing after the last `.` is a `.`.
proof fn lemma_last_dot_is_last(s: Seq<char>)
    ensures
        forall|j: int| last_dot(s) < j < s.len() ==> #[trigger] s[j] != '.',
    decreases s.len(),
{
    lemma_last_dot_bounds(s);
    if s.len() > 0 && s.last() != '.' {
        let d = s.drop_last();
        lemma_last_dot_is_last(d);
        assert forall|j: int| last_dot(s) < j < s.len() implies #[trigger] s[j] != '.' by {
            if j < s.len() - 1 {
                assert(s[j] == d[j]);
            }
        }
    }
}

/// A `.` with none after it is the last one.
proof fn lemma_last_dot_at(s: Seq<char>, k: int)
    requires
        0 <= k < s.len(),
        s[k] == '.',
        forall|j: int| k < j < s.len() ==> #[trigger] s[j] != '.',
    ensures
        last_dot(s) == k,
    decreases s.len(),
{
    if k < s.len() - 1 {
        let d = s.drop_last();
        assert forall|j: int| k < j < d.len() implies #[trigger] d[j] != '.' by {
            assert(d[j] == s[j]);
        }
        assert(s.last() == s[s.len() - 1]);
        lemma_last_dot_at(d, k);
    }
}

/// The extension of a file name is the text after its last `.`: it holds no
/// `.`, and the name is a non-empty stem, a `.` and the extension; and any
/// such name (but `..`) has that extension.
pub proof fn lemma_extension_after_last_dot(name: Seq<char>, stem: Seq<char>, ext: Seq<char>)
    ensures
        extension_of(name) matches Some(e) ==> {
            &&& no_dot(e)
            &&& e.len() + 2 <= name.len()
            &&& name == name.take(name.len() - e.len() - 1) + seq!['.'] + e
        },
        stem.len() >= 1 && no_dot(ext) && stem + seq!['.'] + ext != parent_part() ==> extension_of(
            stem + seq!['.'] + ext,
        ) == Some(ext),
{
    lemma_last_dot_bounds(name);
    lemma_last_dot_is_last(name);
    if extension_of(name) is Some {
        let k = last_dot(name);
        let e = name.skip(k + 1);
        assert forall|j: int| 0 <= j < e.len() implies e[j] != '.' by {
            assert(e[j] == name[k + 1 + j]);
        }
        assert(name =~= name.take(name.len() - e.len() - 1) + seq!['.'] + e);
    }
    let n = stem + seq!['.'] + ext;
    if stem.len() >= 1 && no_dot(ext) && n != parent_part() {
        let k = stem.len() as int;
        assert(n[k] == '.');
        assert forall|j: int| k < j < n.len() implies #[trigger] n[j] != '.' by {
            assert(n[j] == ext[j - k - 1]);
        }
        lemma_last_dot_at(n, k);
        assert(n.skip(k + 1) =~= ext);
    }
}

pub proof fn lemma_insert_pos_bounds(sorted: Seq<Seq<char>>, x: Seq<char>)
    ensures
        0 <= insert_pos(sorted, x) <= sorted.len(),
    decreases sorted.len(),
{
    if sorted.len() > 0 {
        lemma_insert_pos_bounds(sorted.drop_last(), x);
    }
}

/// `chars_lt` is a strict total order: irreflexive, transitive, and any two
/// different texts are ordered one way or the other.
pub proof fn lemma_chars_lt_order(a: Seq<char>, b: Seq<char>, c: Seq<char>)
    ensures
        !chars_lt(a, a),
        chars_lt(a, b) && chars_lt(b, c) ==> chars_lt(a, c),
        a != b ==> chars_lt(a, b) || chars_lt(b, a),
        !(chars_lt(a, b) && chars_lt(b, a)),
    decreases a.len(),
{
    if a.len() > 0 {
        lemma_chars_lt_order(a.drop_first(), a.drop_first(), a.drop_first());
        if b.len() > 0 && c.len() > 0 {
            lemma_chars_lt_order(a.drop_first(), b.drop_first(), c.drop_first());
        } else if b.len() > 0 {
            lemma_chars_lt_order(a.drop_first(), b.drop_first(), b.drop_first());
        }
        if a != b && b.len() > 0 && a[0] == b[0] {
            assert(a.drop_first() != b.drop_first()) by {
                if a.drop_first() == b.drop_first() {
                    assert(a =~= seq![a[0]] + a.drop_first());
                    assert(b =~= seq![b[0]] + b.drop_first());
                }
            }
        }
    } else {
        if b.len() == 0 {
            assert(a =~= b);
        }
    }
}

/// Paths ordered by file name.
pub open spec fn names_sorted(s: Seq<Seq<char>>) -> bool {
    forall|i: int, j: int| 0 <= i < j < s.len() ==> !chars_lt(#[trigger] name_key(s[j]), #[trigger] name_key(s[i]))
}

proof fn lemma_insert_pos_props(t: Seq<Seq<char>>, x: Seq<char>)
    ensures
        0 <= insert_pos(t, x) <= t.len(),
        forall|k: int| insert_pos(t, x) <= k < t.len() ==> chars_lt(name_key(x), #[trigger] name_key(t[k])),
        insert_pos(t, x) > 0 ==> !chars_lt(name_key(x), name_key(t[insert_pos(t, x) - 1])),
    decreases t.len(),
{
    if t.len() > 0 {
        let d = t.drop_last();
        lemma_insert_pos_props(d, x);
        if chars_lt(name_key(x), name_key(t.last())) {
            assert forall|k: int| insert_pos(t, x) <= k < t.len() implies chars_lt(
                name_key(x),
                #[trigger] name_key(t[k]),
            ) by {
                if k < t.len() - 1 {
                    assert(t[k] == d[k]);
                }
            }
            if insert_pos(t, x) > 0 {
                assert(t[insert_pos(t, x) - 1] == d[insert_pos(t, x) - 1]);
            }
        }
    }
}

/// The candidates offered to choose from are in the order of their file
/// names, and are exactly the candidates found, each as often as it was
/// found.
pub proof fn lemma_sort_by_name(paths: Seq<Seq<char>>)
    ensures
        names_sorted(sort_by_name(paths)),
        sort_by_name(paths).to_multiset() == paths.to_multiset(),
    decreases paths.len(),
{
    if paths.len() > 0 {
        let d = paths.drop_last();
        let t = sort_by_name(d);
        let x = paths.last();
        lemma_sort_by_name(d);
        lemma_insert_pos_props(t, x);
        let p = insert_pos(t, x);
        let a = t.take(p).push(x);
        let b = t.skip(p);
        let u = a + b;
        assert(sort_by_name(paths) == u);
        assert forall|i: int, j: int| 0 <= i < j < u.len() implies !chars_lt(
            #[trigger] name_key(u[j]),
            #[trigger] name_key(u[i]),
        ) by {
            if j < p {
                assert(u[i] == t[i] && u[j] == t[j]);
            } else if j == p {
                assert(u[j] == x);
                assert(u[i] == t[i]);
                lemma_chars_lt_order(name_key(x), name_key(t[p - 1]), name_key(t[i]));
                lemma_chars_lt_order(name_key(t[p - 1]), name_key(x), name_key(t[i]));
                lemma_chars_lt_order(name_key(x), name_key(t[i]), name_key(t[p - 1]));
                if i < p - 1 {
                    assert(!chars_lt(name_key(t[p - 1]), name_key(t[i])));
                }
            } else {
                assert(u[j] == t[j - 1]);
                if i < p {
                    assert(u[i] == t[i]);
                } else if i == p {
                    assert(u[i] == x);
                    lemma_chars_lt_order(name_key(x), name_key(t[j - 1]), name_key(x));
                } else {
                    assert(u[i] == t[i - 1]);
                }
            }
        }
        broadcast use vstd::multiset::group_multiset_axioms;
        vstd::seq_lib::lemma_multiset_commutative(a, b);
        vstd::seq_lib::lemma_multiset_commutative(t.take(p), b);
        t.take(p).to_multiset_ensures();
        d.to_multiset_ensures();
        assert(t.take(p) + b =~= t);
        assert(d.push(x) =~= paths);
        assert(u.to_multiset() =~= t.to_multiset().insert(x));
        assert(d.push(x).to_multiset() =~= d.to_multiset().insert(x));
        assert(paths.to_multiset() =~= d.to_multiset().insert(x));
    } else {
        assert(sort_by_name(paths) =~= paths);
    }
}

/// The file name of a path.
fn file_name(path: &[char]) -> (r: Option<Vec<char>>)
    ensures
        match r {
            Some(n) => file_name_of(path@) == Some(n@),
            None => file_name_of(path@) is None,
        },
{
    let parts = split_parts(path);
    proof {
        assert(views_of(parts@).len() == parts@.len());
    }
    if parts.len() == 0 {
        return None;
    }
    let last = &parts[parts.len() - 1];
    proof {
        assert(views_of(parts@)[parts@.len() - 1] == last@);
    }
    if last.len() == 2 && last[0] == '.' && last[1] == '.' {
        proof {
            assert(last@ =~= parent_part());
        }
        return None;
    }
    proof {
        if last@ == parent_part() {
            assert(last@[0] == '.' && last@[1] == '.');
        }
    }
    Some(slice_vec(last.as_slice(), 0, last.len()))
}

/// Position of the last `.` of `s`.
fn find_last_dot(s: &[char]) -> (r: Option<usize>)
    ensures
        match r {
            Some(k) => last_dot(s@) == k,
            None => last_dot(s@) == -1,
        },
{
    let mut i: usize = s.len();
    proof {
        assert(s@.take(i as int) =~= s@);
    }
    while i > 0
        invariant
            i <= s@.len(),
            last_dot(s@) == last_dot(s@.take(i as int)),
        decreases i,
    {
        proof {
            assert(s@.take(i as int).drop_last() =~= s@.take(i - 1));
        }
        if s[i - 1] == '.' {
            return Some(i - 1);
        }
        i = i - 1;
    }
    None
}

/// `s` folded to ASCII lowercase.
pub fn ascii_lowered(s: &[char]) -> (r: Vec<char>)
    ensures
        r@ == ascii_lower_seq(s@),
{
    let mut out: Vec<char> = Vec::new();
    let mut i: usize = 0;
    while i < s.len()
        invariant
            i <= s@.len(),
            out@ == ascii_lower_seq(s@.take(i as int)),
        decreases s@.len() - i,
    {
        out.push(to_ascii_lower(s[i]));
        i = i + 1;
        proof {
            assert(ascii_lower_seq(s@.take(i as int)) =~= ascii_lower_seq(s@.take(i - 1)).push(
                crate::text::ascii_lower(s@[i - 1]),
            ));
        }
    }
    proof {
        assert(s@.take(s@.len() as int) =~= s@);
    }
    out
}

/// `a` and `b` hold the same characters.
pub fn same_chars(a: &[char], b: &[char]) -> (r: bool)
    ensures
        r == (a@ == b@),
{
    if a.len() != b.len() {
        return false;
    }
    let mut i: usize = 0;
    while i < a.len()
        invariant
            i <= a@.len(),
            a@.len() == b@.len(),
            forall|j: int| 0 <= j < i ==> a@[j] == b@[j],
        decreases a@.len() - i,
    {
        if a[i] != b[i] {
            return false;
        }
        i = i + 1;
    }
    proof {
        assert(a@ =~= b@);
    }
    true
}

/// The extension of the file named by `path`.
pub fn file_extension(path: &str) -> (r: Option<Vec<char>>)
    ensures
        match r {
            Some(e) => file_name_of(path@) matches Some(n) && extension_of(n) == Some(e@),
            None => match file_name_of(path@) {
                Some(n) => extension_of(n) is None,
                None => true,
            },
        },
{
    let p = chars_of(path);
    let name = match file_name(p.as_slice()) {
        Some(n) => n,
        None => return None,
    };
    if name.len() == 2 && name[0] == '.' && name[1] == '.' {
        proof {
            assert(name@ =~= parent_part());
        }
        return None;
    }
    proof {
        if name@ == parent_part() {
            assert(name@[0] == '.' && name@[1] == '.');
        }
    }
    let k = match find_last_dot(name.as_slice()) {
        Some(k) => k,
        None => return None,
    };
    if k < 1 {
        return None;
    }
    proof {
        lemma_last_dot_bounds(name@);
    }
    let ext = slice_vec(name.as_slice(), k + 1, name.len());
    proof {
        assert(ext@ =~= name@.skip(k + 1));
    }
    Some(ext)
}

/// Whether `path` names a file that can start the game.
pub fn is_candidate_path(path: &str) -> (r: bool)
    ensures
        r == is_candidate(path@),
{
    let p = chars_of(path);
    let name = match file_name(p.as_slice()) {
        Some(n) => n,
        None => return false,
    };
    if name.len() == 2 && name[0] == '.' && name[1] == '.' {
        proof {
            assert(name@ =~= parent_part());
        }
        return false;
    }
    proof {
        if name@ == parent_part() {
            assert(name@[0] == '.' && name@[1] == '.');
        }
    }
    let k = match find_last_dot(name.as_slice()) {
        Some(k) => k,
        None => return false,
    };
    if k < 1 {
        return false;
    }
    proof {
        lemma_last_dot_bounds(name@);
    }
    let ext = slice_vec(name.as_slice(), k + 1, name.len());
    let lower = ascii_lowered(ext.as_slice());
    let exe = lit("exe");
    let lnk = lit("lnk");
    let bat = lit("bat");
    proof {
        reveal_strlit("exe");
        reveal_strlit("lnk");
        reveal_strlit("bat");
        assert(exe@ =~= seq!['e', 'x', 'e']);
        assert(lnk@ =~= seq!['l', 'n', 'k']);
        assert(bat@ =~= seq!['b', 'a', 't']);
        assert(ext@ =~= name@.skip(k + 1));
    }
    let launchable = same_chars(lower.as_slice(), exe.as_slice()) || same_chars(lower.as_slice(), lnk.as_slice())
        || same_chars(lower.as_slice(), bat.as_slice());
    if !launchable {
        return false;
    }
    let name_text = string_of(name.as_slice());
    let lowered = to_lowercase(name_text.as_str());
    let lowered_chars = chars_of(lowered.as_str());
    let marker = lit("unins");
    proof {
        reveal_strlit("unins");
        assert(marker@ =~= uninstaller_marker());
    }
    !contains(lowered_chars.as_slice(), marker.as_slice())
}

/// `a < b`, character by character.
pub fn chars_less(a: &[char], b: &[char]) -> (r: bool)
    ensures
        r == chars_lt(a@, b@),
{
    let mut i: usize = 0;
    proof {
        assert(a@.skip(0) =~= a@);
        assert(b@.skip(0) =~= b@);
    }
    while i < a.len() && i < b.len()
        invariant
            i <= a@.len(),
            i <= b@.len(),
            chars_lt(a@, b@) == chars_lt(a@.skip(i as int), b@.skip(i as int)),
        decreases a@.len() - i,
    {
        proof {
            assert(a@.skip(i as int)[0] == a@[i as int]);
            assert(b@.skip(i as int)[0] == b@[i as int]);
        }
        if a[i] != b[i] {
            return a[i] < b[i];
        }
        proof {
            assert(a@.skip(i as int).drop_first() =~= a@.skip(i + 1));
            assert(b@.skip(i as int).drop_first() =~= b@.skip(i + 1));
        }
        i = i + 1;
    }
    proof {
        assert(a@.skip(i as int).len() == a@.len() - i);
        assert(b@.skip(i as int).len() == b@.len() - i);
    }
    i < b.len()
}

/// The file names of some paths.
pub open spec fn names_of(paths: Seq<Seq<char>>) -> Seq<Seq<char>> {
    paths.map_values(|p: Seq<char>| name_key(p))
}

/// What choosing among `files` (the files found under `game_dir`) gives: the
/// single candidate; a message when there is none; the candidates sorted by
/// file name, with a message listing their names, when there are several.
pub open spec fn autodetect_result(
    game_dir: Seq<char>,
    files: Seq<Seq<char>>,
    r: Result<String, ExecutableSelectionError>,
) -> bool {
    let c = candidates(files);
    match r {
        Ok(p) => c.len() == 1 && p@ == c[0],
        Err(ExecutableSelectionError::Message(m)) => c.len() == 0 && m@ == no_executable_message(name_key(game_dir)),
        Err(ExecutableSelectionError::Ambiguous(m, list)) => {
            &&& c.len() >= 2
            &&& texts(list@) == sort_by_name(c)
            &&& m@ == ambiguous_message(name_key(game_dir), names_of(sort_by_name(c)))
        },
    }
}

/// The path an `executable` value gives for this platform, when it is a string.
pub open spec fn configured_path(exe: JsonModel) -> Option<Seq<char>> {
    match per_platform(exe, linux_key()) {
        Some(v) => text_of(v),
        None => None,
    }
}

/// The message for an `executable` value that gives no path here.
pub open spec fn unusable_executable_message() -> Seq<char> {
    "\"executable\" n'est pas un chemin exploitable pour ce port"@
}

/// What a configured (truthy) `executable` gives: its path joined to
/// `game_dir` when it stays inside it, else the message of `safe_join`; a
/// message when it gives no path for this platform.
pub open spec fn configured_result(
    exe: JsonModel,
    game_dir: Seq<char>,
    r: Result<String, ExecutableSelectionError>,
) -> bool {
    match configured_path(exe) {
        Some(s) => match r {
            Ok(p) => stays_under(game_dir, s) && p@ == joined_normalized(game_dir, s),
            Err(ExecutableSelectionError::Message(m)) => !stays_under(game_dir, s) && m@ == escape_message(game_dir, s),
            Err(ExecutableSelectionError::Ambiguous(..)) => false,
        },
        None => match r {
            Err(ExecutableSelectionError::Message(m)) => m@ == unusable_executable_message(),
            _ => false,
        },
    }
}

/// The file name of a path, empty when it has none.
fn name_of_path(p: &str) -> (r: Vec<char>)
    ensures
        r@ == name_key(p@),
{
    let c = chars_of(p);
    match file_name(c.as_slice()) {
        Some(n) => n,
        None => Vec::new(),
    }
}

/// `paths` stably sorted by file name.
fn sort_paths_by_name(paths: &Vec<String>) -> (r: Vec<String>)
    ensures
        texts(r@) == sort_by_name(texts(paths@)),
{
    let ghost t = texts(paths@);
    let mut sorted: Vec<String> = Vec::new();
    let mut names: Vec<Vec<char>> = Vec::new();
    let mut i: usize = 0;
    proof {
        assert(t.take(0) =~= Seq::<Seq<char>>::empty());
        assert(texts(sorted@) =~= Seq::<Seq<char>>::empty());
    }
    while i < paths.len()
        invariant
            i <= paths@.len(),
            t == texts(paths@),
            texts(sorted@) == sort_by_name(t.take(i as int)),
            names@.len() == sorted@.len(),
            forall|k: int| 0 <= k < names@.len() ==> #[trigger] names@[k]@ == name_key(sorted@[k]@),
        decreases paths@.len() - i,
    {
        let x = paths[i].clone();
        let xn = name_of_path(x.as_str());
        let ghost s = texts(sorted@);
        let mut p: usize = sorted.len();
        proof {
            assert(s.take(p as int) =~= s);
        }
        while p > 0
            invariant
                p <= sorted@.len(),
                s == texts(sorted@),
                names@.len() == sorted@.len(),
                forall|k: int| 0 <= k < names@.len() ==> #[trigger] names@[k]@ == name_key(sorted@[k]@),
                xn@ == name_key(x@),
                insert_pos(s, x@) == insert_pos(s.take(p as int), x@),
            ensures
                p <= sorted@.len(),
                insert_pos(s, x@) == p,
            decreases p,
        {
            proof {
                assert(s.take(p as int).last() == sorted@[p - 1]@);
                assert(names@[p - 1]@ == name_key(sorted@[p - 1]@));
            }
            if !chars_less(xn.as_slice(), names[p - 1].as_slice()) {
                break;
            }
            proof {
                assert(s.take(p as int).drop_last() =~= s.take(p - 1));
            }
            p = p - 1;
        }
        proof {
            lemma_insert_pos_bounds(s, x@);
            if p == 0 {
                assert(s.take(0) =~= Seq::<Seq<char>>::empty());
            }
            assert(insert_pos(s, x@) == p);
            assert(t.take(i + 1).drop_last() =~= t.take(i as int));
            assert(t.take(i + 1).last() == x@);
        }
        let ghost old_sorted = sorted@;
        let ghost old_names = names@;
        sorted.insert(p, x);
        names.insert(p, xn);
        proof {
            assert(texts(sorted@) =~= s.take(p as int).push(x@) + s.skip(p as int));
            assert forall|k: int| 0 <= k < names@.len() implies #[trigger] names@[k]@ == name_key(sorted@[k]@) by {
                if k < p {
                    assert(names@[k] == old_names[k]);
                    assert(sorted@[k] == old_sorted[k]);
                } else if k > p {
                    assert(names@[k] == old_names[k - 1]);
                    assert(sorted@[k] == old_sorted[k - 1]);
                }
            }
        }
        i = i + 1;
    }
    proof {
        assert(t.take(paths@.len() as int) =~= t);
    }
    sorted
}

/// The file names of `paths`, joined with `, `.
fn joined_names(paths: &Vec<String>) -> (r: Vec<char>)
    ensures
        r@ == joined_with(names_of(texts(paths@)), ", "@),
{
    let ghost ns = names_of(texts(paths@));
    let sep = lit(", ");
    let mut out: Vec<char> = Vec::new();
    let mut k: usize = 0;
    proof {
        assert(ns.take(0) =~= Seq::<Seq<char>>::empty());
    }
    while k < paths.len()
        invariant
            k <= paths@.len(),
            ns == names_of(texts(paths@)),
            sep@ == ", "@,
            out@ == joined_with(ns.take(k as int), ", "@),
        decreases paths@.len() - k,
    {
        let n = name_of_path(paths[k].as_str());
        proof {
            assert(ns[k as int] == n@);
            assert(ns.take(k + 1).drop_last() =~= ns.take(k as int));
            if k == 0 {
                assert(ns.take(1) =~= seq![n@]);
            }
        }
        if k > 0 {
            extend_chars(&mut out, sep.as_slice());
        }
        extend_chars(&mut out, n.as_slice());
        k = k + 1;
    }
    proof {
        assert(ns.take(paths@.len() as int) =~= ns);
    }
    out
}

/// The executable of the game installed in `game_dir`, chosen among `files`,
/// the paths of the regular files found under it at any depth (see
/// `autodetect_result`).
pub fn autodetect_executable(game_dir: &str, files: &[String]) -> (r: Result<String, ExecutableSelectionError>)
    ensures
        autodetect_result(game_dir@, texts(files@), r),
{
    let ghost t = texts(files@);
    let mut found: Vec<String> = Vec::new();
    let mut i: usize = 0;
    proof {
        assert(t.take(0) =~= Seq::<Seq<char>>::empty());
        assert(texts(found@) =~= Seq::<Seq<char>>::empty());
    }
    while i < files.len()
        invariant
            i <= files@.len(),
            t == texts(files@),
            texts(found@) == candidates(t.take(i as int)),
        decreases files@.len() - i,
    {
        proof {
            assert(t.take(i + 1).drop_last() =~= t.take(i as int));
            assert(t.take(i + 1).last() == files@[i as int]@);
        }
        let ghost before = found@;
        if is_candidate_path(files[i].as_str()) {
            found.push(files[i].clone());
            proof {
                assert(texts(found@) =~= texts(before).push(files@[i as int]@));
            }
        }
        i = i + 1;
    }
    proof {
        assert(t.take(files@.len() as int) =~= t);
        assert(texts(found@).len() == found@.len());
    }
    let dir = name_of_path(game_dir);
    if found.len() == 1 {
        proof {
            assert(texts(found@)[0] == found@[0]@);
        }
        return Ok(found[0].clone());
    }
    if found.len() == 0 {
        let mut msg = lit("No executable found automatically in \"");
        let tail = lit("\". Add the \"executable\" key in ports.json for this port.");
        extend_chars(&mut msg, dir.as_slice());
        extend_chars(&mut msg, tail.as_slice());
        return Err(ExecutableSelectionError::Message(string_of(msg.as_slice())));
    }
    let sorted = sort_paths_by_name(&found);
    let names = joined_names(&sorted);
    let mut msg = lit("Multiple possible executables in \"");
    let mid = lit("\": ");
    let tail = lit(". Please choose one.");
    extend_chars(&mut msg, dir.as_slice());
    extend_chars(&mut msg, mid.as_slice());
    extend_chars(&mut msg, names.as_slice());
    extend_chars(&mut msg, tail.as_slice());
    Err(ExecutableSelectionError::Ambiguous(string_of(msg.as_slice()), sorted))
}

/// The executable to start for a port installed in `game_dir`: its configured
/// `executable` when that is truthy (see `configured_result`), else the one
/// found among `files` (see `autodetect_executable`).
pub fn resolve_executable(executable: Option<&JsonValue>, game_dir: &str, files: &[String]) -> (r: Result<
    String,
    ExecutableSelectionError,
>)
    ensures
        match executable {
            Some(e) => if truthy(e.model()) {
                configured_result(e.model(), game_dir@, r)
            } else {
                autodetect_result(game_dir@, texts(files@), r)
            },
            None => autodetect_result(game_dir@, texts(files@), r),
        },
{
    if let Some(exe) = executable {
        if is_truthy(exe) {
            let resolved = resolve_per_platform(exe);
            let path = match &resolved {
                Some(v) => v.as_str(),
                None => None,
            };
            return match path {
                Some(s) => match safe_join(game_dir, s) {
                    Ok(p) => Ok(p),
                    Err(m) => Err(ExecutableSelectionError::Message(m)),
                },
                None => {
                    let m = "\"executable\" n'est pas un chemin exploitable pour ce port";
                    proof {
                        reveal_strlit("\"executable\" n'est pas un chemin exploitable pour ce port");
                    }
                    Err(ExecutableSelectionError::Message(m.to_owned()))
                },
            };
        }
    }
    autodetect_executable(game_dir, files)
}

} // verus!
