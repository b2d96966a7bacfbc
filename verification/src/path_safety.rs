//! Checking that a path built from untrusted data (a hand-edited
//! `ports.json`, a path inside an archive) stays under the folder it is
//! meant for.
//!
//! Paths follow the POSIX syntax: `/` separates components, a leading `/`
//! makes a path absolute, empty and `.` components are no components.

use crate::text::{chars_of, find_stop, lemma_stop_index_bounds, slice_vec, stop_index, string_of};
use vstd::prelude::*;

verus! {

/// `..`
pub open spec fn parent_part() -> Seq<char> {
    seq!['.', '.']
}

/// A path component that counts: neither empty nor `.`.
pub open spec fn is_part(p: Seq<char>) -> bool {
    p.len() > 0 && p != seq!['.']
}

/// The texts of some character vectors.
pub open spec fn views_of(v: Seq<Vec<char>>) -> Seq<Seq<char>> {
    v.map_values(|p: Vec<char>| p@)
}

/// The components of a path, in order (`..` included).
pub open spec fn path_parts(s: Seq<char>) -> Seq<Seq<char>>
    decreases s.len(),
{
    let a = stop_index(s, seq!['/']);
    proof {
        lemma_stop_index_bounds(s, seq!['/']);
    }
    let head = s.take(a);
    let rest = if a >= s.len() {
        Seq::empty()
    } else {
        path_parts(s.skip(a + 1))
    };
    if is_part(head) {
        seq![head] + rest
    } else {
        rest
    }
}

/// The path is absolute.
pub open spec fn is_absolute(s: Seq<char>) -> bool {
    s.len() > 0 && s[0] == '/'
}

/// Components resolved one by one: `..` removes the last kept component (if
/// any), every other component is kept.
pub open spec fn normalize_parts(parts: Seq<Seq<char>>) -> Seq<Seq<char>>
    decreases parts.len(),
{
    if parts.len() == 0 {
        Seq::empty()
    } else {
        let prev = normalize_parts(parts.drop_last());
        if parts.last() == parent_part() {
            if prev.len() > 0 {
                prev.drop_last()
            } else {
                prev
            }
        } else {
            prev.push(parts.last())
        }
    }
}

/// Components joined with `/`.
pub open spec fn joined(parts: Seq<Seq<char>>) -> Seq<char>
    decreases parts.len(),
{
    if parts.len() == 0 {
        Seq::empty()
    } else if parts.len() == 1 {
        parts[0]
    } else {
        joined(parts.drop_last()) + seq!['/'] + parts.last()
    }
}

/// The text of a path made of `parts`.
pub open spec fn render(absolute: bool, parts: Seq<Seq<char>>) -> Seq<char> {
    if absolute {
        seq!['/'] + joined(parts)
    } else {
        joined(parts)
    }
}

/// Purely lexical normalization of a path: `.` and empty components dropped,
/// `..` resolved against the components before it (never above the root).
pub open spec fn normalized(s: Seq<char>) -> Seq<char> {
    render(is_absolute(s), normalize_parts(path_parts(s)))
}

/// The components of `base` joined with `relative`: an absolute `relative`
/// replaces `base`, as `Path::join` does.
pub open spec fn joined_parts(base: Seq<char>, relative: Seq<char>) -> (bool, Seq<Seq<char>>) {
    if is_absolute(relative) {
        (true, path_parts(relative))
    } else {
        (is_absolute(base), path_parts(base) + path_parts(relative))
    }
}

/// `relative` joined to `base` stays under `base` once both are normalized:
/// same kind of path, and the components of `base` begin those of the
/// result.
pub open spec fn stays_under(base: Seq<char>, relative: Seq<char>) -> bool {
    let b = normalize_parts(path_parts(base));
    let t = normalize_parts(joined_parts(base, relative).1);
    &&& joined_parts(base, relative).0 == is_absolute(base)
    &&& b.len() <= t.len()
    &&& t.take(b.len() as int) == b
}

/// The message of `safe_join` for a `relative` that leads out of `base`.
pub open spec fn escape_message(base: Seq<char>, relative: Seq<char>) -> Seq<char> {
    seq!['"'] + relative + "\" sort de \""@ + base + seq!['"']
}

/// The normalized text of `relative` joined to `base`.
pub open spec fn joined_normalized(base: Seq<char>, relative: Seq<char>) -> Seq<char> {
    render(joined_parts(base, relative).0, normalize_parts(joined_parts(base, relative).1))
}

/// Splits a path into its components.
pub fn split_parts(s: &[char]) -> (r: Vec<Vec<char>>)
    ensures
        views_of(r@) == path_parts(s@),
{
    let slash = vec!['/'];
    proof {
        assert(slash@ =~= seq!['/']);
    }
    let mut out: Vec<Vec<char>> = Vec::new();
    let mut i: usize = 0;
    proof {
        assert(s@.skip(0) =~= s@);
        assert(views_of(out@) =~= Seq::<Seq<char>>::empty());
    }
    loop
        invariant
            i <= s@.len(),
            slash@ == seq!['/'],
            path_parts(s@) == views_of(out@) + path_parts(s@.skip(i as int)),
        decreases s@.len() - i,
    {
        let rest = slice_vec(s, i, s.len());
        let a = find_stop(rest.as_slice(), slash.as_slice());
        proof {
            lemma_stop_index_bounds(rest@, slash@);
            assert(rest@ =~= s@.skip(i as int));
        }
        let head = slice_vec(rest.as_slice(), 0, a);
        let keep = head.len() > 0 && !(head.len() == 1 && head[0] == '.');
        proof {
            if head@.len() == 1 && head@[0] == '.' {
                assert(head@ =~= seq!['.']);
            }
            assert(keep == is_part(head@));
        }
        let ghost before = out@;
        if keep {
            out.push(head);
        }
        proof {
            if keep {
                assert(views_of(out@) =~= views_of(before).push(head@));
            } else {
                assert(views_of(out@) =~= views_of(before));
            }
        }
        if a == rest.len() {
            proof {
                assert(path_parts(s@.skip(i as int)) == if is_part(head@) { seq![head@] } else { Seq::<Seq<char>>::empty() }) by {
                    assert(Seq::<Seq<char>>::empty() + Seq::<Seq<char>>::empty() =~= Seq::<Seq<char>>::empty());
                    assert(seq![head@] + Seq::<Seq<char>>::empty() =~= seq![head@]);
                }
                if keep {
                    assert(views_of(before) + seq![head@] =~= views_of(before).push(head@));
                } else {
                    assert(views_of(before) + Seq::<Seq<char>>::empty() =~= views_of(before));
                }
            }
            return out;
        }
        proof {
            assert(s@.skip(i as int).skip(a + 1) =~= s@.skip(i + a + 1));
            let tail = path_parts(s@.skip(i + a + 1));
            if keep {
                assert(views_of(before) + (seq![head@] + tail) =~= views_of(before).push(head@) + tail);
            }
        }
        i = i + a + 1;
    }
}

/// Resolves `..` components.
fn normalize_vec(parts: &Vec<Vec<char>>) -> (r: Vec<Vec<char>>)
    ensures
        views_of(r@) == normalize_parts(views_of(parts@)),
{
    let ghost views = views_of(parts@);
    let mut out: Vec<Vec<char>> = Vec::new();
    let mut k: usize = 0;
    proof {
        assert(views.take(0) =~= Seq::<Seq<char>>::empty());
        assert(views_of(out@) =~= Seq::<Seq<char>>::empty());
    }
    while k < parts.len()
        invariant
            k <= parts@.len(),
            views == views_of(parts@),
            views_of(out@) == normalize_parts(views.take(k as int)),
        decreases parts@.len() - k,
    {
        let p = &parts[k];
        let is_parent = p.len() == 2 && p[0] == '.' && p[1] == '.';
        proof {
            assert(views.take(k + 1).drop_last() =~= views.take(k as int));
            assert(views.take(k + 1).last() == p@);
            if p@.len() == 2 && p@[0] == '.' && p@[1] == '.' {
                assert(p@ =~= parent_part());
            }
            assert(is_parent == (p@ == parent_part()));
        }
        let ghost before = out@;
        if is_parent {
            if out.len() > 0 {
                out.pop();
                proof {
                    assert(views_of(out@) =~= views_of(before).drop_last());
                }
            }
        } else {
            let copy = slice_vec(p.as_slice(), 0, p.len());
            proof {
                assert(copy@ =~= p@);
            }
            out.push(copy);
            proof {
                assert(views_of(out@) =~= views_of(before).push(p@));
            }
        }
        k = k + 1;
    }
    proof {
        assert(views.take(parts@.len() as int) =~= views);
    }
    out
}

/// Two character vectors are equal.
fn same_chars(x: &Vec<char>, y: &Vec<char>) -> (r: bool)
    ensures
        r == (x@ == y@),
{
    if x.len() != y.len() {
        return false;
    }
    let mut j: usize = 0;
    while j < x.len()
        invariant
            j <= x@.len(),
            x@.len() == y@.len(),
            forall|i: int| 0 <= i < j ==> x@[i] == y@[i],
        decreases x@.len() - j,
    {
        if x[j] != y[j] {
            return false;
        }
        j = j + 1;
    }
    proof {
        assert(x@ =~= y@);
    }
    true
}

/// The components `a` begin the components `b`.
pub fn is_parts_prefix(a: &Vec<Vec<char>>, b: &Vec<Vec<char>>) -> (r: bool)
    ensures
        r == (views_of(a@).len() <= views_of(b@).len() && views_of(b@).take(views_of(a@).len() as int) == views_of(
            a@,
        )),
{
    if a.len() > b.len() {
        return false;
    }
    let mut k: usize = 0;
    while k < a.len()
        invariant
            k <= a@.len() <= b@.len(),
            forall|j: int| 0 <= j < k ==> #[trigger] a@[j]@ == b@[j]@,
        decreases a@.len() - k,
    {
        if !same_chars(&a[k], &b[k]) {
            proof {
                assert(views_of(b@).take(a@.len() as int)[k as int] == b@[k as int]@);
                assert(views_of(a@)[k as int] == a@[k as int]@);
            }
            return false;
        }
        k = k + 1;
    }
    proof {
        assert(views_of(b@).take(a@.len() as int) =~= views_of(a@));
    }
    true
}

/// Joins components with `/`, after a leading `/` for an absolute path.
fn render_vec(absolute: bool, parts: &Vec<Vec<char>>) -> (r: Vec<char>)
    ensures
        r@ == render(absolute, views_of(parts@)),
{
    let ghost views = views_of(parts@);
    let mut out: Vec<char> = Vec::new();
    let mut k: usize = 0;
    proof {
        assert(views.take(0) =~= Seq::<Seq<char>>::empty());
    }
    while k < parts.len()
        invariant
            k <= parts@.len(),
            views == views_of(parts@),
            out@ == joined(views.take(k as int)),
        decreases parts@.len() - k,
    {
        let ghost before = out@;
        if k > 0 {
            out.push('/');
        }
        let p = &parts[k];
        let mut j: usize = 0;
        let ghost mid = out@;
        while j < p.len()
            invariant
                j <= p@.len(),
                out@ == mid + p@.take(j as int),
            decreases p@.len() - j,
        {
            out.push(p[j]);
            j = j + 1;
            proof {
                assert(p@.take(j as int) =~= p@.take(j - 1).push(p@[j - 1]));
            }
        }
        proof {
            assert(p@.take(p@.len() as int) =~= p@);
            assert(views.take(k + 1).drop_last() =~= views.take(k as int));
            assert(views.take(k + 1).last() == p@);
            if k == 0 {
                assert(views.take(1) =~= seq![p@]);
            } else {
                assert(out@ =~= before + seq!['/'] + p@);
            }
        }
        k = k + 1;
    }
    proof {
        assert(views.take(parts@.len() as int) =~= views);
    }
    if absolute {
        let mut r = vec!['/'];
        let mut j: usize = 0;
        while j < out.len()
            invariant
                j <= out@.len(),
                r@ == seq!['/'] + out@.take(j as int),
            decreases out@.len() - j,
        {
            r.push(out[j]);
            j = j + 1;
            proof {
                assert(out@.take(j as int) =~= out@.take(j - 1).push(out@[j - 1]));
            }
        }
        proof {
            assert(out@.take(out@.len() as int) =~= out@);
        }
        r
    } else {
        out
    }
}

/// Lexical normalization of a path (`.` and `..` resolved component by
/// component, nothing read from the disk): works for a path that does not
/// exist yet.
pub fn lexical_normalize(path: &str) -> (r: String)
    ensures
        r@ == normalized(path@),
{
    let s = chars_of(path);
    let parts = split_parts(s.as_slice());
    let norm = normalize_vec(&parts);
    let absolute = s.len() > 0 && s[0] == '/';
    let out = render_vec(absolute, &norm);
    proof {
        assert(absolute == is_absolute(path@));
    }
    string_of(out.as_slice())
}

/// `base` joined with `relative`, checked to stay under `base` once
/// normalized: an absolute `relative` or enough `..` would otherwise lead an
/// operation out of the intended folder. The normalized result, or a message
/// naming both paths.
pub fn safe_join(base: &str, relative: &str) -> (r: Result<String, String>)
    ensures
        match r {
            Ok(p) => stays_under(base@, relative@) && p@ == joined_normalized(base@, relative@),
            Err(m) => !stays_under(base@, relative@) && m@ == escape_message(base@, relative@),
        },
{
    let b = chars_of(base);
    let rel = chars_of(relative);
    let base_parts = split_parts(b.as_slice());
    let rel_parts = split_parts(rel.as_slice());
    let base_abs = b.len() > 0 && b[0] == '/';
    let rel_abs = rel.len() > 0 && rel[0] == '/';
    let mut all: Vec<Vec<char>> = Vec::new();
    if !rel_abs {
        let mut k: usize = 0;
        while k < base_parts.len()
            invariant
                k <= base_parts@.len(),
                views_of(all@) == views_of(base_parts@).take(k as int),
            decreases base_parts@.len() - k,
        {
            let p = slice_vec(base_parts[k].as_slice(), 0, base_parts[k].len());
            proof {
                assert(p@ =~= base_parts@[k as int]@);
            }
            let ghost old_all = all@;
            all.push(p);
            proof {
                assert(views_of(all@) =~= views_of(old_all).push(p@));
                assert(views_of(base_parts@)[k as int] == base_parts@[k as int]@);
            }
            k = k + 1;
            proof {
                assert(views_of(all@) =~= views_of(base_parts@).take(k as int));
            }
        }
        proof {
            assert(views_of(base_parts@).take(base_parts@.len() as int) =~= views_of(base_parts@));
        }
    }
    let ghost prefix = views_of(all@);
    let mut k: usize = 0;
    while k < rel_parts.len()
        invariant
            k <= rel_parts@.len(),
            views_of(all@) == prefix + views_of(rel_parts@).take(k as int),
        decreases rel_parts@.len() - k,
    {
        let p = slice_vec(rel_parts[k].as_slice(), 0, rel_parts[k].len());
        proof {
            assert(p@ =~= rel_parts@[k as int]@);
        }
        let ghost old_all = all@;
        all.push(p);
        proof {
            assert(views_of(all@) =~= views_of(old_all).push(p@));
            assert(views_of(rel_parts@)[k as int] == rel_parts@[k as int]@);
        }
        k = k + 1;
        proof {
            assert(views_of(all@) =~= prefix + views_of(rel_parts@).take(k as int));
        }
    }
    proof {
        assert(views_of(rel_parts@).take(rel_parts@.len() as int) =~= views_of(rel_parts@));
        if rel_abs {
            assert(prefix =~= Seq::<Seq<char>>::empty());
            assert(views_of(all@) =~= path_parts(rel@));
        } else {
            assert(views_of(all@) =~= path_parts(b@) + path_parts(rel@));
        }
    }
    let target_abs = if rel_abs { true } else { base_abs };
    let base_norm = normalize_vec(&base_parts);
    let target = normalize_vec(&all);
    let under = target_abs == base_abs && is_parts_prefix(&base_norm, &target);
    if !under {
        let mut msg = vec!['"'];
        let tail = chars_of("\" sort de \"");
        let mut r2 = slice_vec(rel.as_slice(), 0, rel.len());
        msg.append(&mut r2);
        let mut t2 = slice_vec(tail.as_slice(), 0, tail.len());
        msg.append(&mut t2);
        let mut b2 = slice_vec(b.as_slice(), 0, b.len());
        msg.append(&mut b2);
        msg.push('"');
        proof {
            assert(rel@.subrange(0, rel@.len() as int) =~= rel@);
            assert(tail@.subrange(0, tail@.len() as int) =~= tail@);
            assert(b@.subrange(0, b@.len() as int) =~= b@);
        }
        proof {
            assert(msg@ =~= seq!['"'] + relative@ + "\" sort de \""@ + base@ + seq!['"']);
        }
        return Err(string_of(msg.as_slice()));
    }
    let out = render_vec(target_abs, &target);
    Ok(string_of(out.as_slice()))
}

/// `p` begins with the components of `base` (`Path::starts_with`): same kind
/// of path, and the components of `base` begin those of `p`.
pub open spec fn starts_with_path(p: Seq<char>, base: Seq<char>) -> bool {
    &&& is_absolute(p) == is_absolute(base)
    &&& path_parts(base).len() <= path_parts(p).len()
    &&& path_parts(p).take(path_parts(base).len() as int) == path_parts(base)
}

/// Whether the path `p` lies under (or is) `base`, component by component.
pub fn path_starts_with(p: &str, base: &str) -> (r: bool)
    ensures
        r == starts_with_path(p@, base@),
{
    let pc = chars_of(p);
    let bc = chars_of(base);
    let pp = split_parts(pc.as_slice());
    let bp = split_parts(bc.as_slice());
    let pa = pc.len() > 0 && pc[0] == '/';
    let ba = bc.len() > 0 && bc[0] == '/';
    pa == ba && is_parts_prefix(&bp, &pp)
}

} // verus!
