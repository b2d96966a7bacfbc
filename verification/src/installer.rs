//! The decisions of installing a port: where it goes, what to download and
//! under which name, which archives to extract and how much they may hold, and
//! what to say when the extraction tool fails. Downloading, extracting and
//! moving files is done by the caller.

use crate::asset_select::AssetSelectionError;
use crate::executable::file_name_of;
use crate::json::{parse_json, spec_json_parse, text_field, text_of, JsonModel, JsonValue};
use crate::numbers::{decimal, decimal_text, parse_u64, parsed_u64};
use crate::path_safety::{escape_message, joined_normalized, safe_join, split_parts, stays_under, views_of};
use crate::platform_resolve::{linux_key, per_platform, resolve_per_platform};
use crate::text::{
    after_last, after_last_char, chars_of, contains, contains_seq, lines, lines_of, ends_with, ends_with_seq, extend_chars, find_stop, lemma_stop_index_bounds, lit,
    slice_vec, spec_to_lowercase, starts_with, starts_with_seq, stop_index, string_of, to_lowercase, trim_ws, trimmed,
};
use vstd::prelude::*;

verus! {

/// The most an archive may claim to hold once extracted (20 GiB): enough for
/// any real game, and a stop to an archive of a few kilobytes that claims
/// terabytes (a "zip bomb").
pub const MAX_UNCOMPRESSED_SIZE: u64 = 21474836480;

/// Why an installation failed.
#[derive(Debug)]
pub enum InstallError {
    Message(String),
    /// Release files among which the user can choose by hand.
    Ambiguous(String, Vec<JsonValue>),
}

impl From<AssetSelectionError> for InstallError {
    fn from(e: AssetSelectionError) -> (r: InstallError) {
        match e {
            AssetSelectionError::Message(m) => InstallError::Message(m),
            AssetSelectionError::Ambiguous(m, a) => InstallError::Ambiguous(m, a),
        }
    }
}

impl vstd::std_specs::convert::FromSpecImpl<AssetSelectionError> for InstallError {
    open spec fn obeys_from_spec() -> bool {
        true
    }

    open spec fn from_spec(v: AssetSelectionError) -> InstallError {
        match v {
            AssetSelectionError::Message(m) => InstallError::Message(m),
            AssetSelectionError::Ambiguous(m, a) => InstallError::Ambiguous(m, a),
        }
    }
}

/// `download`
pub open spec fn default_download_name() -> Seq<char> {
    seq!['d', 'o', 'w', 'n', 'l', 'o', 'a', 'd']
}

/// The last component of a name announced by a release or a link, so that
/// `../../evil.exe` cannot lead a download out of its folder; `download` when
/// it has none.
pub open spec fn download_name(name: Seq<char>) -> Seq<char> {
    match file_name_of(name) {
        Some(n) => n,
        None => default_download_name(),
    }
}

/// The file name to save a download announced as `name` under.
pub fn safe_download_name(name: &str) -> (r: String)
    ensures
        r@ == download_name(name@),
{
    let c = chars_of(name);
    let parts = split_parts(c.as_slice());
    proof {
        assert(views_of(parts@).len() == parts@.len());
    }
    if parts.len() > 0 {
        let last = &parts[parts.len() - 1];
        proof {
            assert(views_of(parts@)[parts@.len() - 1] == last@);
        }
        let is_parent = last.len() == 2 && last[0] == '.' && last[1] == '.';
        proof {
            if last@ == seq!['.', '.'] {
                assert(last@[0] == '.' && last@[1] == '.');
            }
            if is_parent {
                assert(last@ =~= seq!['.', '.']);
            }
        }
        if !is_parent {
            return string_of(last.as_slice());
        }
    }
    let d = "download";
    proof {
        reveal_strlit("download");
        assert(d@ =~= default_download_name());
    }
    d.to_owned()
}

/// The characters that end the id of a shared pixeldrain file.
pub open spec fn id_stops() -> Seq<char> {
    seq!['/', '?', '#']
}

/// The id that follows `prefix` in `url`, when `url` begins with it.
pub open spec fn id_after(url: Seq<char>, prefix: Seq<char>) -> Option<Seq<char>> {
    if starts_with_seq(url, prefix) {
        let rest = url.skip(prefix.len() as int);
        Some(rest.take(stop_index(rest, id_stops())))
    } else {
        None
    }
}

/// The id of a pixeldrain sharing page (`pixeldrain.com/u/<id>`, over https or
/// http), whose file is downloaded from `/api/file/<id>`; none for any other
/// link or an empty id.
pub open spec fn pixeldrain_id(url: Seq<char>) -> Option<Seq<char>> {
    let a = id_after(url, "https://pixeldrain.com/u/"@);
    let b = id_after(url, "http://pixeldrain.com/u/"@);
    if a is Some && a->Some_0.len() > 0 {
        a
    } else if b is Some && b->Some_0.len() > 0 {
        b
    } else {
        None
    }
}

/// The id after `prefix` in `url`.
fn id_after_prefix(url: &[char], prefix: &str) -> (r: Option<Vec<char>>)
    ensures
        match r {
            Some(id) => id_after(url@, prefix@) == Some(id@),
            None => id_after(url@, prefix@) is None,
        },
{
    let p = lit(prefix);
    if !starts_with(url, p.as_slice()) {
        return None;
    }
    let rest = slice_vec(url, p.len(), url.len());
    let stops = vec!['/', '?', '#'];
    proof {
        assert(rest@ =~= url@.skip(prefix@.len() as int));
        assert(stops@ =~= id_stops());
        lemma_stop_index_bounds(rest@, stops@);
    }
    let end = find_stop(rest.as_slice(), stops.as_slice());
    Some(slice_vec(rest.as_slice(), 0, end))
}

/// The id of a pixeldrain sharing page (see `pixeldrain_id`).
pub fn pixeldrain_file_id(url: &str) -> (r: Option<String>)
    ensures
        match r {
            Some(id) => pixeldrain_id(url@) == Some(id@),
            None => pixeldrain_id(url@) is None,
        },
{
    let u = chars_of(url);
    if let Some(id) = id_after_prefix(u.as_slice(), "https://pixeldrain.com/u/") {
        if id.len() > 0 {
            return Some(string_of(id.as_slice()));
        }
    }
    if let Some(id) = id_after_prefix(u.as_slice(), "http://pixeldrain.com/u/") {
        if id.len() > 0 {
            return Some(string_of(id.as_slice()));
        }
    }
    None
}

/// `total` bytes in tenths of a GiB, rounded to the nearest tenth, ties to
/// the even tenth (as `{:.1}` prints the exact quotient).
pub open spec fn gib_tenths(total: nat) -> nat {
    let q = total * 10 / 1073741824;
    let r = total * 10 % 1073741824;
    if r > 536870912 || (r == 536870912 && q % 2 == 1) {
        q + 1
    } else {
        q
    }
}

/// The message that refuses an archive claiming `total` bytes.
pub open spec fn too_large_message(total: nat) -> Seq<char> {
    let t = gib_tenths(total);
    "This archive claims to decompress to "@ + decimal(t / 10) + seq!['.'] + decimal(t % 10)
        + " GB, which looks like a zip bomb -- refusing to extract it."@
}

/// Refuses an archive that claims more than `max_uncompressed_size` bytes once
/// extracted, with its size in GiB to one decimal.
pub fn reject_if_too_large(total_bytes: u64, max_uncompressed_size: u64) -> (r: Result<(), InstallError>)
    ensures
        match r {
            Ok(()) => total_bytes <= max_uncompressed_size,
            Err(InstallError::Message(m)) => total_bytes > max_uncompressed_size && m@ == too_large_message(
                total_bytes as nat,
            ),
            Err(InstallError::Ambiguous(..)) => false,
        },
{
    if total_bytes <= max_uncompressed_size {
        return Ok(());
    }
    let scaled: u128 = (total_bytes as u128) * 10;
    let q: u128 = scaled / 1073741824;
    let rem: u128 = scaled % 1073741824;
    let tenths: u128 = if rem > 536870912 || (rem == 536870912 && q % 2 == 1) {
        q + 1
    } else {
        q
    };
    proof {
        assert(tenths == gib_tenths(total_bytes as nat));
        assert(q <= (total_bytes as u128) * 10);
        assert(tenths / 10 <= u64::MAX);
    }
    let whole = decimal_text((tenths / 10) as u64);
    let frac = decimal_text((tenths % 10) as u64);
    let mut msg = lit("This archive claims to decompress to ");
    let tail = lit(" GB, which looks like a zip bomb -- refusing to extract it.");
    extend_chars(&mut msg, whole.as_slice());
    msg.push('.');
    extend_chars(&mut msg, frac.as_slice());
    extend_chars(&mut msg, tail.as_slice());
    proof {
        assert(msg@ =~= too_large_message(total_bytes as nat));
    }
    Err(InstallError::Message(string_of(msg.as_slice())))
}

/// What `String::from_utf8_lossy` gives for `bytes`: their UTF-8 text, each
/// invalid sequence replaced by U+FFFD.
pub uninterp spec fn spec_utf8_lossy(bytes: Seq<u8>) -> Seq<char>;

/// `String::from_utf8_lossy`: valid UTF-8 is decoded as it is; the
/// replacement of invalid sequences is only named here.
#[verifier::external_body]
fn utf8_lossy(bytes: &[u8]) -> (r: String)
    ensures
        r@ == spec_utf8_lossy(bytes@),
        vstd::utf8::valid_utf8(bytes@) ==> r@ == vstd::utf8::decode_utf8(bytes@),
{
    String::from_utf8_lossy(bytes).into_owned()
}

/// The first line that contains `ERROR`.
pub open spec fn first_error_line(lines: Seq<Seq<char>>) -> Option<Seq<char>>
    decreases lines.len(),
{
    if lines.len() == 0 {
        None
    } else if contains_seq(lines[0], "ERROR"@) {
        Some(lines[0])
    } else {
        first_error_line(lines.drop_first())
    }
}

/// What the extraction tool's outputs say went wrong: its first line with
/// `ERROR` (in its error output, then in its normal output), trimmed, or
/// `unknown error`.
pub open spec fn seven_zip_message(stdout: Seq<u8>, stderr: Seq<u8>) -> Seq<char> {
    match first_error_line(lines_of(spec_utf8_lossy(stderr)) + lines_of(spec_utf8_lossy(stdout))) {
        Some(l) => trimmed(l),
        None => "unknown error"@,
    }
}

/// The lines of a text, as `Vec`s, one after the other.
fn push_lines(out: &mut Vec<Vec<char>>, text: &[char])
    ensures
        final(out)@.len() == old(out)@.len() + lines_of(text@).len(),
        forall|k: int| 0 <= k < old(out)@.len() ==> #[trigger] final(out)@[k] == old(out)@[k],
        forall|k: int|
            0 <= k < lines_of(text@).len() ==> #[trigger] final(out)@[old(out)@.len() + k]@ == lines_of(text@)[k],
{
    let ls = lines(text);
    let ghost start = out@;
    let mut k: usize = 0;
    while k < ls.len()
        invariant
            k <= ls@.len(),
            out@.len() == start.len() + k,
            forall|j: int| 0 <= j < start.len() ==> #[trigger] out@[j] == start[j],
            forall|j: int| 0 <= j < k ==> #[trigger] out@[start.len() + j]@ == ls@[j]@,
        decreases ls@.len() - k,
    {
        let l = slice_vec(ls[k].as_slice(), 0, ls[k].len());
        proof {
            assert(l@ =~= ls@[k as int]@);
        }
        out.push(l);
        proof {
            assert(out@[start.len() + k]@ == ls@[k as int]@);
        }
        k = k + 1;
    }
}

/// The line of the extraction tool's outputs that says what went wrong (see
/// `seven_zip_message`).
pub fn seven_zip_error(stdout: &[u8], stderr: &[u8]) -> (r: String)
    ensures
        r@ == seven_zip_message(stdout@, stderr@),
{
    let err = utf8_lossy(stderr);
    let out = utf8_lossy(stdout);
    let e = chars_of(err.as_str());
    let o = chars_of(out.as_str());
    let mut all: Vec<Vec<char>> = Vec::new();
    push_lines(&mut all, e.as_slice());
    let ghost mid = all@;
    push_lines(&mut all, o.as_slice());
    let ghost ls = lines_of(spec_utf8_lossy(stderr@)) + lines_of(spec_utf8_lossy(stdout@));
    proof {
        assert forall|k: int| 0 <= k < all@.len() implies #[trigger] all@[k]@ == ls[k] by {
            if k >= lines_of(e@).len() {
                assert(all@[lines_of(e@).len() + (k - lines_of(e@).len())]@ == lines_of(o@)[k - lines_of(e@).len()]);
            } else {
                assert(all@[k] == mid[k]);
                assert(mid[0 + k]@ == lines_of(e@)[k]);
            }
        }
        assert(ls.skip(0) =~= ls);
    }
    let marker = lit("ERROR");
    let mut i: usize = 0;
    while i < all.len()
        invariant
            i <= all@.len(),
            all@.len() == ls.len(),
            forall|k: int| 0 <= k < all@.len() ==> #[trigger] all@[k]@ == ls[k],
            marker@ == "ERROR"@,
            ls == lines_of(spec_utf8_lossy(stderr@)) + lines_of(spec_utf8_lossy(stdout@)),
            first_error_line(ls) == first_error_line(ls.skip(i as int)),
        decreases all@.len() - i,
    {
        proof {
            assert(ls.skip(i as int)[0] == ls[i as int]);
            assert(ls.skip(i as int).drop_first() =~= ls.skip(i + 1));
        }
        if contains(all[i].as_slice(), marker.as_slice()) {
            proof {
                assert(contains_seq(ls.skip(i as int)[0], "ERROR"@));
                assert(first_error_line(ls.skip(i as int)) == Some(ls[i as int]));
            }
            let t = trim_ws(all[i].as_slice());
            return string_of(t.as_slice());
        }
        i = i + 1;
    }
    proof {
        assert(ls.skip(i as int).len() == 0);
    }
    "unknown error".to_owned()
}

/// What follows `prefix` on the first line that begins with it.
pub open spec fn first_with_prefix(lines: Seq<Seq<char>>, prefix: Seq<char>) -> Option<Seq<char>>
    decreases lines.len(),
{
    if lines.len() == 0 {
        None
    } else if starts_with_seq(lines[0], prefix) {
        Some(lines[0].skip(prefix.len() as int))
    } else {
        first_with_prefix(lines.drop_first(), prefix)
    }
}

/// The archive type named in a technical listing (`Type = ...`), trimmed;
/// empty when there is none.
pub open spec fn listed_type(listing: Seq<char>) -> Seq<char> {
    trimmed(
        match first_with_prefix(lines_of(listing), "Type = "@) {
            Some(t) => t,
            None => Seq::empty(),
        },
    )
}

/// The sum of the sizes (`Size = n`) of a listing's lines; a size that is not
/// a number counts for nothing.
pub open spec fn sizes_total(lines: Seq<Seq<char>>) -> nat
    decreases lines.len(),
{
    if lines.len() == 0 {
        0
    } else {
        let prev = sizes_total(lines.drop_last());
        let l = lines.last();
        if starts_with_seq(l, "Size = "@) {
            match parsed_u64(trimmed(l.skip(7))) {
                Some(n) => prev + n,
                None => prev,
            }
        } else {
            prev
        }
    }
}

/// The archive type and total extracted size (at most `u64::MAX`) that the
/// listing (`7z l -slt`) of an archive announces.
pub fn listing_summary(listing: &[u8]) -> (r: (String, u64))
    ensures
        r.0@ == listed_type(spec_utf8_lossy(listing@)),
        r.1 == if sizes_total(lines_of(spec_utf8_lossy(listing@))) <= u64::MAX {
            sizes_total(lines_of(spec_utf8_lossy(listing@)))
        } else {
            u64::MAX as nat
        },
{
    let text = utf8_lossy(listing);
    let t = chars_of(text.as_str());
    let ls = lines(t.as_slice());
    let ghost lv = lines_of(t@);
    let type_prefix = lit("Type = ");
    let size_prefix = lit("Size = ");
    proof {
        reveal_strlit("Size = ");
        reveal_strlit("Type = ");
        assert(size_prefix@.len() == 7);
        assert(type_prefix@.len() == 7);
    }
    let mut kind: Option<Vec<char>> = None;
    let mut total: u64 = 0;
    let mut i: usize = 0;
    proof {
        assert(lv.skip(0) =~= lv);
        assert(lv.take(0) =~= Seq::<Seq<char>>::empty());
    }
    while i < ls.len()
        invariant
            i <= ls@.len(),
            ls@.len() == lv.len(),
            forall|k: int| 0 <= k < ls@.len() ==> #[trigger] ls@[k]@ == lv[k],
            type_prefix@ == "Type = "@,
            size_prefix@ == "Size = "@,
            size_prefix@.len() == 7,
            type_prefix@.len() == 7,
            match kind {
                Some(k) => first_with_prefix(lv, "Type = "@) == Some(k@),
                None => first_with_prefix(lv, "Type = "@) == first_with_prefix(lv.skip(i as int), "Type = "@),
            },
            total == if sizes_total(lv.take(i as int)) <= u64::MAX {
                sizes_total(lv.take(i as int))
            } else {
                u64::MAX as nat
            },
        decreases ls@.len() - i,
    {
        let line = &ls[i];
        proof {
            assert(lv.skip(i as int)[0] == lv[i as int]);
            assert(lv.skip(i as int).drop_first() =~= lv.skip(i + 1));
            assert(lv.take(i + 1).drop_last() =~= lv.take(i as int));
            assert(lv.take(i + 1).last() == lv[i as int]);
        }
        if kind.is_none() && starts_with(line.as_slice(), type_prefix.as_slice()) {
            kind = Some(slice_vec(line.as_slice(), 7, line.len()));
        }
        if starts_with(line.as_slice(), size_prefix.as_slice()) {
            let rest = slice_vec(line.as_slice(), 7, line.len());
            let trimmed_rest = trim_ws(rest.as_slice());
            proof {
                assert(rest@ =~= line@.skip(7));
            }
            match parse_u64(trimmed_rest.as_slice()) {
                Some(n) => {
                    total = if total > u64::MAX - n {
                        u64::MAX
                    } else {
                        total + n
                    };
                },
                None => {},
            }
        }
        i = i + 1;
    }
    proof {
        assert(lv.take(lv.len() as int) =~= lv);
        assert(lv.skip(i as int).len() == 0);
    }
    let k = match kind {
        Some(k) => k,
        None => Vec::new(),
    };
    let kt = trim_ws(k.as_slice());
    (string_of(kt.as_slice()), total)
}

/// An archive to extract, by its lowercase path: a `.exe` only when the port
/// names an anchor file inside it; otherwise the file is copied as it is.
pub open spec fn is_known_archive(name_lower: Seq<char>, has_anchor: bool) -> bool {
    ||| (ends_with_seq(name_lower, ".exe"@) && has_anchor)
    ||| ends_with_seq(name_lower, ".zip"@)
    ||| ends_with_seq(name_lower, ".tar.gz"@)
    ||| ends_with_seq(name_lower, ".tgz"@)
    ||| ends_with_seq(name_lower, ".tar"@)
    ||| ends_with_seq(name_lower, ".7z"@)
    ||| ends_with_seq(name_lower, ".rar"@)
}

/// A download is extracted exactly when its lowercase name ends with `.zip`,
/// `.tar.gz`, `.tgz`, `.tar`, `.7z` or `.rar` (whatever the anchor), or with
/// `.exe` when the port names an anchor file to find inside it.
pub proof fn lemma_archives_are_extracted(name_lower: Seq<char>, has_anchor: bool)
    ensures
        ends_with_seq(name_lower, ".zip"@) ==> is_known_archive(name_lower, has_anchor),
        ends_with_seq(name_lower, ".tar.gz"@) ==> is_known_archive(name_lower, has_anchor),
        ends_with_seq(name_lower, ".tgz"@) ==> is_known_archive(name_lower, has_anchor),
        ends_with_seq(name_lower, ".tar"@) ==> is_known_archive(name_lower, has_anchor),
        ends_with_seq(name_lower, ".7z"@) ==> is_known_archive(name_lower, has_anchor),
        ends_with_seq(name_lower, ".rar"@) ==> is_known_archive(name_lower, has_anchor),
        ends_with_seq(name_lower, ".exe"@) ==> is_known_archive(name_lower, has_anchor) == has_anchor,
        !ends_with_seq(name_lower, ".zip"@) && !ends_with_seq(name_lower, ".tar.gz"@) && !ends_with_seq(
            name_lower,
            ".tgz"@,
        ) && !ends_with_seq(name_lower, ".tar"@) && !ends_with_seq(name_lower, ".7z"@) && !ends_with_seq(
            name_lower,
            ".rar"@,
        ) && !(ends_with_seq(name_lower, ".exe"@) && has_anchor) ==> !is_known_archive(name_lower, has_anchor),
{
    reveal_strlit(".exe");
    reveal_strlit(".zip");
    reveal_strlit(".tar.gz");
    reveal_strlit(".tgz");
    reveal_strlit(".tar");
    reveal_strlit(".7z");
    reveal_strlit(".rar");
    if ends_with_seq(name_lower, ".exe"@) {
        let n = name_lower.len() as int;
        let tail = name_lower.subrange(n - 4, n);
        assert(tail =~= ".exe"@);
        assert(!ends_with_seq(name_lower, ".zip"@)) by {
            if ends_with_seq(name_lower, ".zip"@) {
                assert(name_lower[n - 1] == tail[3]);
                assert(name_lower[n - 1] == name_lower.subrange(n - 4, n)[3]);
            }
        }
        assert(!ends_with_seq(name_lower, ".tar.gz"@)) by {
            if ends_with_seq(name_lower, ".tar.gz"@) {
                assert(name_lower[n - 1] == tail[3]);
                assert(name_lower[n - 1] == name_lower.subrange(n - 7, n)[6]);
            }
        }
        assert(!ends_with_seq(name_lower, ".tgz"@)) by {
            if ends_with_seq(name_lower, ".tgz"@) {
                assert(name_lower[n - 1] == tail[3]);
                assert(name_lower[n - 1] == name_lower.subrange(n - 4, n)[3]);
            }
        }
        assert(!ends_with_seq(name_lower, ".tar"@)) by {
            if ends_with_seq(name_lower, ".tar"@) {
                assert(name_lower[n - 1] == tail[3]);
            }
        }
        assert(!ends_with_seq(name_lower, ".7z"@)) by {
            if ends_with_seq(name_lower, ".7z"@) {
                assert(name_lower[n - 1] == tail[3]);
                assert(name_lower[n - 1] == name_lower.subrange(n - 3, n)[2]);
            }
        }
        assert(!ends_with_seq(name_lower, ".rar"@)) by {
            if ends_with_seq(name_lower, ".rar"@) {
                assert(name_lower[n - 1] == tail[3]);
                assert(name_lower[n - 1] == name_lower.subrange(n - 4, n)[3]);
            }
        }
    }
}

/// Whether `s` ends with `pat`.
fn ends_lit(s: &[char], pat: &str) -> (r: bool)
    ensures
        r == ends_with_seq(s@, pat@),
{
    let p = lit(pat);
    ends_with(s, p.as_slice())
}

/// Whether the downloaded file at `archive_path` is extracted (rather than
/// copied as it is), given the port's anchor file, if any.
pub fn needs_extraction(archive_path: &str, exe_is_archive: Option<&str>) -> (r: bool)
    ensures
        r == is_known_archive(spec_to_lowercase(archive_path@), exe_is_archive is Some),
{
    let lowered = to_lowercase(archive_path);
    let n = chars_of(lowered.as_str());
    let s = n.as_slice();
    (ends_lit(s, ".exe") && exe_is_archive.is_some()) || ends_lit(s, ".zip") || ends_lit(s, ".tar.gz") || ends_lit(
        s,
        ".tgz",
    ) || ends_lit(s, ".tar") || ends_lit(s, ".7z") || ends_lit(s, ".rar")
}

/// `kind` equals `name`, ignoring ASCII case.
fn same_ignoring_ascii_case(kind: &str, name: &str) -> (r: bool)
    ensures
        r == (crate::text::ascii_lower_seq(kind@) == crate::text::ascii_lower_seq(name@)),
{
    let a = chars_of(kind);
    let b = chars_of(name);
    if a.len() != b.len() {
        proof {
            assert(crate::text::ascii_lower_seq(a@).len() != crate::text::ascii_lower_seq(b@).len());
        }
        return false;
    }
    let mut i: usize = 0;
    while i < a.len()
        invariant
            i <= a@.len(),
            a@.len() == b@.len(),
            a@ == kind@,
            b@ == name@,
            forall|k: int| 0 <= k < i ==> crate::text::ascii_lower(#[trigger] a@[k]) == crate::text::ascii_lower(b@[k]),
        decreases a@.len() - i,
    {
        if crate::text::to_ascii_lower(a[i]) != crate::text::to_ascii_lower(b[i]) {
            proof {
                assert(crate::text::ascii_lower_seq(a@)[i as int] != crate::text::ascii_lower_seq(b@)[i as int]);
            }
            return false;
        }
        i = i + 1;
    }
    proof {
        assert(crate::text::ascii_lower_seq(a@) =~= crate::text::ascii_lower_seq(b@));
    }
    true
}

/// The archive is an NSIS installer (its listed type, in any ASCII case):
/// its own plug-in folder is then left out of the extraction.
pub fn is_nsis_kind(kind: &str) -> (r: bool)
    ensures
        r == (crate::text::ascii_lower_seq(kind@) == crate::text::ascii_lower_seq("Nsis"@)),
{
    same_ignoring_ascii_case(kind, "Nsis")
}

/// The archive is gzip, whose single inner file (a tar) is extracted next.
pub fn is_gzip_kind(kind: &str) -> (r: bool)
    ensures
        r == (crate::text::ascii_lower_seq(kind@) == crate::text::ascii_lower_seq("gzip"@)),
{
    same_ignoring_ascii_case(kind, "gzip")
}

/// The positions of the names whose lowercase form contains `target_lower`.
pub open spec fn anchor_hits(names: Seq<Seq<char>>, target_lower: Seq<char>) -> Seq<int>
    decreases names.len(),
{
    if names.len() == 0 {
        Seq::empty()
    } else {
        let prev = anchor_hits(names.drop_last(), target_lower);
        if contains_seq(spec_to_lowercase(names.last()), target_lower) {
            prev.push(names.len() - 1)
        } else {
            prev
        }
    }
}

pub open spec fn no_anchor_message(target: Seq<char>) -> Seq<char> {
    "No file matches \""@ + target + "\" (see \"exe_is_archive\" for this port)."@
}

pub open spec fn several_anchors_message(n: nat, target: Seq<char>) -> Seq<char> {
    decimal(n) + " files match \""@ + target + "\" -- please report this port."@
}

/// The one extracted file (among `file_names`) whose name contains the
/// port's anchor `target`, ignoring case: its folder is the one installed.
pub fn anchor_match(file_names: &[String], target: &str) -> (r: Result<usize, InstallError>)
    ensures
        ({
            let hits = anchor_hits(crate::models::texts(file_names@), spec_to_lowercase(target@));
            match r {
                Ok(i) => hits.len() == 1 && i == hits[0],
                Err(InstallError::Message(m)) => (hits.len() == 0 && m@ == no_anchor_message(target@)) || (hits.len()
                    >= 2 && m@ == several_anchors_message(hits.len(), target@)),
                Err(InstallError::Ambiguous(..)) => false,
            }
        }),
{
    let ghost names = crate::models::texts(file_names@);
    let lowered = to_lowercase(target);
    let t = chars_of(lowered.as_str());
    let mut count: usize = 0;
    let mut first: usize = 0;
    let mut i: usize = 0;
    proof {
        assert(names.take(0) =~= Seq::<Seq<char>>::empty());
    }
    while i < file_names.len()
        invariant
            i <= file_names@.len(),
            names == crate::models::texts(file_names@),
            t@ == spec_to_lowercase(target@),
            count == anchor_hits(names.take(i as int), t@).len(),
            count > 0 ==> first == anchor_hits(names.take(i as int), t@)[0],
            count <= i,
        decreases file_names@.len() - i,
    {
        proof {
            assert(names.take(i + 1).drop_last() =~= names.take(i as int));
            assert(names.take(i + 1).last() == file_names@[i as int]@);
        }
        let l = to_lowercase(file_names[i].as_str());
        let lc = chars_of(l.as_str());
        if contains(lc.as_slice(), t.as_slice()) {
            if count == 0 {
                first = i;
            }
            count = count + 1;
        }
        i = i + 1;
    }
    proof {
        assert(names.take(file_names@.len() as int) =~= names);
    }
    if count == 1 {
        return Ok(first);
    }
    if count == 0 {
        let mut m = lit("No file matches \"");
        let tc = chars_of(target);
        let tail = lit("\" (see \"exe_is_archive\" for this port).");
        extend_chars(&mut m, tc.as_slice());
        extend_chars(&mut m, tail.as_slice());
        return Err(InstallError::Message(string_of(m.as_slice())));
    }
    let mut m = decimal_text(count as u64);
    let mid = lit(" files match \"");
    let tc = chars_of(target);
    let tail = lit("\" -- please report this port.");
    extend_chars(&mut m, mid.as_slice());
    extend_chars(&mut m, tc.as_slice());
    extend_chars(&mut m, tail.as_slice());
    Err(InstallError::Message(string_of(m.as_slice())))
}

/// What to download for a release file: the name to save it under, its link,
/// and the release's tag.
pub struct ReleaseDownload {
    pub file_name: String,
    pub url: String,
    pub tag: Option<String>,
}

pub open spec fn missing_url_message(url_field: Seq<char>) -> Seq<char> {
    "Asset without a \""@ + url_field + "\" field -- please report this port."@
}

/// The download of the release file `asset` of `release`, its link read from
/// `url_field` (`browser_download_url` on GitHub, `url` on GitLab).
pub fn release_download(release: &JsonValue, asset: &JsonValue, url_field: &str) -> (r: Result<
    ReleaseDownload,
    InstallError,
>)
    ensures
        match r {
            Ok(d) => {
                &&& text_field(asset.model(), url_field@) == Some(d.url@)
                &&& d.file_name@ == download_name(
                    match text_field(asset.model(), "name"@) {
                        Some(n) => n,
                        None => default_download_name(),
                    },
                )
                &&& crate::models::opt_text(d.tag) == text_field(release.model(), "tag_name"@)
            },
            Err(InstallError::Message(m)) => text_field(asset.model(), url_field@) is None && m@
                == missing_url_message(url_field@),
            Err(InstallError::Ambiguous(..)) => false,
        },
{
    let tag = match release.text_field("tag_name") {
        Some(t) => Some(t.to_owned()),
        None => None,
    };
    let file_name = match asset.text_field("name") {
        Some(n) => safe_download_name(n),
        None => {
            let d = "download";
            proof {
                reveal_strlit("download");
                assert(d@ =~= default_download_name());
            }
            safe_download_name(d)
        },
    };
    match asset.text_field(url_field) {
        Some(u) => Ok(ReleaseDownload { file_name, url: u.to_owned(), tag }),
        None => {
            let mut m = lit("Asset without a \"");
            let f = chars_of(url_field);
            let tail = lit("\" field -- please report this port.");
            extend_chars(&mut m, f.as_slice());
            extend_chars(&mut m, tail.as_slice());
            Err(InstallError::Message(string_of(m.as_slice())))
        },
    }
}

pub open spec fn unusable_source_message() -> Seq<char> {
    "\"source\" is not a usable link for this port"@
}

/// The link of a direct download for this platform.
pub open spec fn direct_url(source: JsonModel) -> Option<Seq<char>> {
    match per_platform(source, linux_key()) {
        Some(v) => text_of(v),
        None => None,
    }
}

/// The name to save a direct download under, and its link.
pub fn direct_download(source: &JsonValue) -> (r: Result<(String, String), InstallError>)
    ensures
        match r {
            Ok((name, url)) => direct_url(source.model()) == Some(url@) && name@ == download_name(
                after_last(url@, '/'),
            ),
            Err(InstallError::Message(m)) => direct_url(source.model()) is None && m@ == unusable_source_message(),
            Err(InstallError::Ambiguous(..)) => false,
        },
{
    let resolved = resolve_per_platform(source);
    let url = match &resolved {
        Some(v) => v.as_str(),
        None => None,
    };
    match url {
        Some(u) => {
            let c = chars_of(u);
            let last = after_last_char(c.as_slice(), '/');
            let ls = string_of(last.as_slice());
            Ok((safe_download_name(ls.as_str()), u.to_owned()))
        },
        None => Err(InstallError::Message("\"source\" is not a usable link for this port".to_owned())),
    }
}

pub open spec fn no_source_message(dest: Seq<char>) -> Seq<char> {
    "This port has no download source -- place the game files yourself in \""@ + dest + "\"."@
}

/// The folder a port is installed in: `folder` under `library_dir`, refused
/// when it leads out of it; a local port (no source) cannot be installed.
pub fn install_destination(library_dir: &str, folder: &str, local: bool) -> (r: Result<String, InstallError>)
    ensures
        match r {
            Ok(d) => !local && stays_under(library_dir@, folder@) && d@ == joined_normalized(library_dir@, folder@),
            Err(InstallError::Message(m)) => if stays_under(library_dir@, folder@) {
                local && m@ == no_source_message(joined_normalized(library_dir@, folder@))
            } else {
                m@ == escape_message(library_dir@, folder@)
            },
            Err(InstallError::Ambiguous(..)) => false,
        },
{
    match safe_join(library_dir, folder) {
        Err(m) => Err(InstallError::Message(m)),
        Ok(d) => {
            if local {
                let mut m = lit("This port has no download source -- place the game files yourself in \"");
                let dc = chars_of(d.as_str());
                let tail = lit("\".");
                extend_chars(&mut m, dc.as_slice());
                extend_chars(&mut m, tail.as_slice());
                Err(InstallError::Message(string_of(m.as_slice())))
            } else {
                Ok(d)
            }
        },
    }
}

/// A port's image is cached only from an `http://` or `https://` link.
pub fn is_web_link(url: &str) -> (r: bool)
    ensures
        r == (starts_with_seq(url@, "http://"@) || starts_with_seq(url@, "https://"@)),
{
    let c = chars_of(url);
    let a = lit("http://");
    let b = lit("https://");
    starts_with(c.as_slice(), a.as_slice()) || starts_with(c.as_slice(), b.as_slice())
}

/// The progress message shown while `url` downloads: its last path segment.
pub fn download_label(url: &str) -> (r: String)
    ensures
        r@ == "Downloading "@ + after_last(url@, '/') + "..."@,
{
    let c = chars_of(url);
    let last = after_last_char(c.as_slice(), '/');
    let mut m = lit("Downloading ");
    let tail = lit("...");
    extend_chars(&mut m, last.as_slice());
    extend_chars(&mut m, tail.as_slice());
    string_of(m.as_slice())
}

/// The name a redirected download is saved under: the last segment of the
/// final link's path, when it has an extension and differs from the name of
/// the first link (`name`).
pub fn redirected_name(final_path: &str, name: &str) -> (r: Option<String>)
    ensures
        ({
            let last = after_last(final_path@, '/');
            match r {
                Some(n) => n@ == last && contains_seq(last, seq!['.']) && last != name@,
                None => !(contains_seq(last, seq!['.']) && last != name@),
            }
        }),
{
    let c = chars_of(final_path);
    let last = after_last_char(c.as_slice(), '/');
    let dot = vec!['.'];
    proof {
        assert(dot@ =~= seq!['.']);
    }
    let n = chars_of(name);
    if contains(last.as_slice(), dot.as_slice()) && !crate::executable::same_chars(last.as_slice(), n.as_slice()) {
        Some(string_of(last.as_slice()))
    } else {
        None
    }
}

/// The extraction tool failed: it was stopped by a signal, or its exit
/// code is 2 or more (1 is a warning it recovers from).
pub fn seven_zip_failed(code: Option<i32>) -> (r: bool)
    ensures
        r == match code {
            Some(c) => c >= 2,
            None => true,
        },
{
    match code {
        Some(c) => c >= 2,
        None => true,
    }
}

/// The message when the extraction tool failed to `action` an archive.
pub fn seven_zip_failure(action: &str, stdout: &[u8], stderr: &[u8]) -> (r: String)
    ensures
        r@ == "7z.exe failed to "@ + action@ + " this archive: "@ + seven_zip_message(stdout@, stderr@),
{
    let mut m = lit("7z.exe failed to ");
    let a = chars_of(action);
    let mid = lit(" this archive: ");
    let e = seven_zip_error(stdout, stderr);
    let ec = chars_of(e.as_str());
    extend_chars(&mut m, a.as_slice());
    extend_chars(&mut m, mid.as_slice());
    extend_chars(&mut m, ec.as_slice());
    string_of(m.as_slice())
}

/// The folders an installation uses.
pub struct InstallPaths {
    pub library_dir: String,
    pub cache_dir: String,
    pub saves_backup_dir: String,
}

/// The real file name that pixeldrain's file information (its JSON text)
/// gives.
pub fn pixeldrain_info_name(text: &str) -> (r: Option<String>)
    ensures
        crate::models::opt_text(r) == match spec_json_parse(text@) {
            Some(v) => text_field(v, "name"@),
            None => None,
        },
{
    match parse_json(text) {
        Ok(v) => match v.text_field("name") {
            Some(n) => Some(n.to_owned()),
            None => None,
        },
        Err(_) => None,
    }
}

} // verus!
