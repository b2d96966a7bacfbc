//! Per-platform values (`executable`, `save`, `source`... given as
//! `{"windows": ..., "linux": ...}`) and `%VARIABLE%` expansion in paths.

use crate::json::{get_model, lemma_member_first, lemma_members_of, members_of, text_of, JsonModel, JsonValue};
use crate::path_safety::is_absolute;
use crate::text::{
    ascii_lower_seq, chars_of, ends_with_seq, find_stop, lemma_stop_index_bounds, lit, same_text, slice_vec,
    starts_with, starts_with_seq, stop_index, string_of, to_ascii_lower,
};
use vstd::prelude::*;

verus! {

/// `linux`
pub open spec fn linux_key() -> Seq<char> {
    seq!['l', 'i', 'n', 'u', 'x']
}

/// `windows`
pub open spec fn windows_key() -> Seq<char> {
    seq!['w', 'i', 'n', 'd', 'o', 'w', 's']
}

/// The platform this library runs on, as named in per-platform values.
pub fn get_platform_key() -> (r: &'static str)
    ensures
        r@ == linux_key(),
{
    let k = "linux";
    proof {
        reveal_strlit("linux");
    }
    k
}

/// The value a per-platform field takes here: a plain value as it is; for an
/// object, none when it is empty, else the member of this platform, else
/// `linux` (for any Linux flavour), else `windows`, else its first member.
pub open spec fn per_platform(v: JsonModel, platform: Seq<char>) -> Option<JsonModel> {
    match v {
        JsonModel::Object(m) => if m.len() == 0 {
            None
        } else if get_model(v, platform) is Some {
            get_model(v, platform)
        } else if starts_with_seq(platform, linux_key()) && get_model(v, linux_key()) is Some {
            get_model(v, linux_key())
        } else if get_model(v, windows_key()) is Some {
            get_model(v, windows_key())
        } else {
            Some(m[0].1)
        },
        _ => Some(v),
    }
}

/// The value of a per-platform field for this platform.
pub fn resolve_per_platform(value: &JsonValue) -> (r: Option<JsonValue>)
    ensures
        match r {
            Some(x) => per_platform(value.model(), linux_key()) == Some(x.model()),
            None => per_platform(value.model(), linux_key()) is None,
        },
{
    resolve_per_platform_for(value, get_platform_key())
}

/// The value of a per-platform field on the platform named `key`.
pub fn resolve_per_platform_for(value: &JsonValue, key: &str) -> (r: Option<JsonValue>)
    ensures
        match r {
            Some(x) => per_platform(value.model(), key@) == Some(x.model()),
            None => per_platform(value.model(), key@) is None,
        },
{
    match value {
        JsonValue::Object(m) => {
            proof {
                lemma_members_of(m@);
            }
            if m.len() == 0 {
                return None;
            }
            if let Some(v) = value.get(key) {
                return Some(v.duplicate());
            }
            let linux = lit("linux");
            let key_chars = chars_of(key);
            proof {
                reveal_strlit("linux");
                assert(linux@ =~= linux_key());
            }
            if starts_with(key_chars.as_slice(), linux.as_slice()) {
                let l = "linux";
                proof {
                    reveal_strlit("linux");
                }
                if let Some(v) = value.get(l) {
                    return Some(v.duplicate());
                }
            }
            let w = "windows";
            proof {
                reveal_strlit("windows");
                assert(w@ =~= windows_key());
            }
            if let Some(v) = value.get(w) {
                return Some(v.duplicate());
            }
            proof {
                assert(members_of(m@)[0] == (m@[0].0@, m@[0].1.model()));
            }
            Some(m[0].1.duplicate())
        },
        _ => Some(value.duplicate()),
    }
}

/// The value of `name` in an environment (its first entry with that name).
pub open spec fn env_lookup(env: Seq<(Seq<char>, Seq<char>)>, name: Seq<char>) -> Option<Seq<char>>
    decreases env.len(),
{
    if env.len() == 0 {
        None
    } else if env[0].0 == name {
        Some(env[0].1)
    } else {
        env_lookup(env.drop_first(), name)
    }
}

/// The environment `env` as texts.
pub open spec fn env_view(env: Seq<(String, String)>) -> Seq<(Seq<char>, Seq<char>)> {
    env.map_values(|e: (String, String)| (e.0@, e.1@))
}

/// `%NAME%` replaced by the value of `NAME` in `env`; an unknown name is kept
/// as it is written, and a `%` that is never closed stays with the rest of
/// the path.
pub open spec fn expand_env(s: Seq<char>, env: Seq<(Seq<char>, Seq<char>)>) -> Seq<char>
    decreases s.len(),
{
    let i = stop_index(s, seq!['%']);
    proof {
        lemma_stop_index_bounds(s, seq!['%']);
    }
    if i >= s.len() {
        s
    } else {
        let before = s.take(i);
        let after = s.skip(i + 1);
        let j = stop_index(after, seq!['%']);
        proof {
            lemma_stop_index_bounds(after, seq!['%']);
        }
        if j >= after.len() {
            before + seq!['%'] + after
        } else {
            let name = after.take(j);
            let value = match env_lookup(env, name) {
                Some(v) => v,
                None => seq!['%'] + name + seq!['%'],
            };
            before + value + expand_env(after.skip(j + 1), env)
        }
    }
}

/// The value of `name` in `env`.
fn lookup(env: &[(String, String)], name: &[char]) -> (r: Option<Vec<char>>)
    ensures
        match r {
            Some(v) => env_lookup(env_view(env@), name@) == Some(v@),
            None => env_lookup(env_view(env@), name@) is None,
        },
{
    let ghost ev = env_view(env@);
    let mut i: usize = 0;
    let name_text = string_of(name);
    proof {
        assert(ev.skip(0) =~= ev);
    }
    while i < env.len()
        invariant
            i <= env@.len(),
            ev == env_view(env@),
            name_text@ == name@,
            env_lookup(ev, name@) == env_lookup(ev.skip(i as int), name@),
        decreases env@.len() - i,
    {
        proof {
            assert(ev.skip(i as int)[0] == (env@[i as int].0@, env@[i as int].1@));
            assert(ev.skip(i as int).drop_first() =~= ev.skip(i + 1));
        }
        if same_text(env[i].0.as_str(), name_text.as_str()) {
            return Some(chars_of(env[i].1.as_str()));
        }
        i = i + 1;
    }
    None
}

/// Expands the `%NAME%` variables of a path with the values of `env` (the
/// process environment, as name/value pairs).
pub fn expand_env_path(path: &str, env: &[(String, String)]) -> (r: String)
    ensures
        r@ == expand_env(path@, env_view(env@)),
{
    let s = chars_of(path);
    let pct = vec!['%'];
    proof {
        assert(pct@ =~= seq!['%']);
    }
    let mut out: Vec<char> = Vec::new();
    let mut pos: usize = 0;
    proof {
        assert(s@.skip(0) =~= s@);
        assert(out@ + expand_env(s@, env_view(env@)) =~= expand_env(s@, env_view(env@)));
    }
    loop
        invariant
            pos <= s@.len(),
            s@ == path@,
            pct@ == seq!['%'],
            expand_env(s@, env_view(env@)) == out@ + expand_env(s@.skip(pos as int), env_view(env@)),
        decreases s@.len() - pos,
    {
        let rest = slice_vec(s.as_slice(), pos, s.len());
        proof {
            assert(rest@ =~= s@.skip(pos as int));
            lemma_stop_index_bounds(rest@, pct@);
        }
        let i = find_stop(rest.as_slice(), pct.as_slice());
        let ghost out0 = out@;
        if i == rest.len() {
            proof {
                assert(expand_env(rest@, env_view(env@)) == rest@);
            }
            let mut tail = rest;
            out.append(&mut tail);
            proof {
                assert(out@ =~= out0 + rest@);
                assert(out@ == expand_env(s@, env_view(env@)));
            }
            return string_of(out.as_slice());
        }
        let mut before = slice_vec(rest.as_slice(), 0, i);
        out.append(&mut before);
        let after = slice_vec(rest.as_slice(), i + 1, rest.len());
        let j = find_stop(after.as_slice(), pct.as_slice());
        proof {
            lemma_stop_index_bounds(after@, pct@);
        }
        if j == after.len() {
            out.push('%');
            let mut a2 = after;
            out.append(&mut a2);
            proof {
                assert(after@ =~= rest@.skip(i + 1));
                assert(expand_env(rest@, env_view(env@)) == rest@.take(i as int) + seq!['%'] + rest@.skip(i + 1));
                assert(out@ =~= out0 + (rest@.take(i as int) + seq!['%'] + rest@.skip(i + 1)));
                assert(out@ == expand_env(s@, env_view(env@)));
            }
            return string_of(out.as_slice());
        }
        let name = slice_vec(after.as_slice(), 0, j);
        let ghost out1 = out@;
        match lookup(env, name.as_slice()) {
            Some(v) => {
                let mut v2 = v;
                out.append(&mut v2);
            },
            None => {
                out.push('%');
                let mut n2 = slice_vec(name.as_slice(), 0, name.len());
                out.append(&mut n2);
                out.push('%');
                proof {
                    assert(name@.subrange(0, name@.len() as int) =~= name@);
                }
            },
        }
        proof {
            let value = match env_lookup(env_view(env@), name@) {
                Some(v) => v,
                None => seq!['%'] + name@ + seq!['%'],
            };
            assert(out@ =~= out0 + rest@.take(i as int) + value);
            assert(after@ =~= rest@.skip(i + 1));
            assert(after@.skip(j + 1) =~= s@.skip(pos + i + 1 + j + 1));
        }
        pos = pos + i + 1 + j + 1;
    }
}

/// `rel` appended to the path `base`, as `PathBuf::push` does: an absolute
/// `rel` replaces `base`, otherwise a `/` is put between them when needed.
pub open spec fn path_join_text(base: Seq<char>, rel: Seq<char>) -> Seq<char> {
    if is_absolute(rel) {
        rel
    } else if base.len() == 0 || base.last() == '/' {
        base + rel
    } else {
        base + seq!['/'] + rel
    }
}

/// `rel` appended to the path `base`.
pub fn path_join(base: &str, rel: &str) -> (r: String)
    ensures
        r@ == path_join_text(base@, rel@),
{
    let b = chars_of(base);
    let mut r = chars_of(rel);
    if r.len() > 0 && r[0] == '/' {
        return string_of(r.as_slice());
    }
    let mut out = slice_vec(b.as_slice(), 0, b.len());
    proof {
        assert(b@.subrange(0, b@.len() as int) =~= b@);
    }
    if !(b.len() == 0 || b[b.len() - 1] == '/') {
        out.push('/');
    }
    out.append(&mut r);
    string_of(out.as_slice())
}

/// The save folder of a port as an absolute path: its value for this platform,
/// variables expanded, joined to the game folder when it is relative; none
/// when it is not a non-empty string.
pub open spec fn save_folder_path(save: JsonModel, game_dir: Seq<char>, env: Seq<(Seq<char>, Seq<char>)>) -> Option<Seq<char>> {
    match per_platform(save, linux_key()) {
        Some(v) => match text_of(v) {
            Some(s) => if s.len() == 0 {
                None
            } else {
                Some(path_join_text(game_dir, expand_env(s, env)))
            },
            None => None,
        },
        None => None,
    }
}

/// Resolves a save folder (see `save_folder_path`).
pub fn resolve_save_folder(save_folder: &JsonValue, game_dir: &str, env: &[(String, String)]) -> (r: Option<String>)
    ensures
        match r {
            Some(p) => save_folder_path(save_folder.model(), game_dir@, env_view(env@)) == Some(p@),
            None => save_folder_path(save_folder.model(), game_dir@, env_view(env@)) is None,
        },
{
    let resolved = resolve_per_platform(save_folder)?;
    let s = resolved.as_str()?;
    if s.is_empty() {
        return None;
    }
    let expanded = expand_env_path(s, env);
    Some(path_join(game_dir, expanded.as_str()))
}

/// `.exe`
pub open spec fn exe_suffix() -> Seq<char> {
    seq!['.', 'e', 'x', 'e']
}

/// The part of a release file name to look for: the value of
/// `preferred_asset` for this platform, when it is a non-empty string — except
/// a plain (not per-platform) value ending in `.exe` (in any ASCII case),
/// which cannot name a Linux build and is ignored.
pub open spec fn preferred_asset_text(v: JsonModel) -> Option<Seq<char>> {
    match per_platform(v, linux_key()) {
        Some(r) => match text_of(r) {
            Some(s) => if s.len() == 0 {
                None
            } else if !(v is Object) && ends_with_seq(ascii_lower_seq(s), exe_suffix()) {
                None
            } else {
                Some(s)
            },
            None => None,
        },
        None => None,
    }
}

/// Resolves `preferred_asset` (see `preferred_asset_text`).
pub fn resolve_preferred_asset(preferred_asset: &JsonValue) -> (r: Option<String>)
    ensures
        match r {
            Some(s) => preferred_asset_text(preferred_asset.model()) == Some(s@),
            None => preferred_asset_text(preferred_asset.model()) is None,
        },
{
    let resolved = resolve_per_platform(preferred_asset)?;
    let s = resolved.as_str()?;
    if s.is_empty() {
        return None;
    }
    if !preferred_asset.is_object() {
        let c = chars_of(s);
        let mut lower: Vec<char> = Vec::new();
        let mut i: usize = 0;
        while i < c.len()
            invariant
                i <= c@.len(),
                lower@ == ascii_lower_seq(c@.take(i as int)),
            decreases c@.len() - i,
        {
            lower.push(to_ascii_lower(c[i]));
            i = i + 1;
            proof {
                assert(ascii_lower_seq(c@.take(i as int)) =~= ascii_lower_seq(c@.take(i - 1)).push(
                    crate::text::ascii_lower(c@[i - 1]),
                ));
            }
        }
        proof {
            assert(c@.take(c@.len() as int) =~= c@);
        }
        let exe = lit(".exe");
        proof {
            reveal_strlit(".exe");
            assert(exe@ =~= exe_suffix());
        }
        if crate::text::ends_with(lower.as_slice(), exe.as_slice()) {
            return None;
        }
    }
    Some(s.to_owned())
}

} // verus!
