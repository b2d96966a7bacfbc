//! The launcher's own build date and the comparison that tells whether a
//! published build is newer.

use vstd::prelude::*;
use vstd::string::StringSliceAdditionalSpecFns;

verus! {

/// Byte-wise lexicographic "less than", the order of `str`.
pub open spec fn bytes_lt(a: Seq<u8>, b: Seq<u8>) -> bool
    decreases a.len(),
{
    if a.len() == 0 {
        b.len() > 0
    } else if b.len() == 0 {
        false
    } else if a[0] != b[0] {
        a[0] < b[0]
    } else {
        bytes_lt(a.drop_first(), b.drop_first())
    }
}

/// `a < b` for two strings.
pub fn str_lt(a: &str, b: &str) -> (r: bool)
    ensures
        r == bytes_lt(a.spec_bytes(), b.spec_bytes()),
{
    let x = a.as_bytes();
    let y = b.as_bytes();
    let mut i: usize = 0;
    proof {
        assert(x@.skip(0) =~= x@);
        assert(y@.skip(0) =~= y@);
    }
    while i < x.len() && i < y.len()
        invariant
            x@ == a.spec_bytes(),
            y@ == b.spec_bytes(),
            i <= x@.len(),
            i <= y@.len(),
            forall|j: int| 0 <= j < i ==> x@[j] == y@[j],
            bytes_lt(x@, y@) == bytes_lt(x@.skip(i as int), y@.skip(i as int)),
        decreases x@.len() - i,
    {
        if x[i] != y[i] {
            proof {
                assert(x@.skip(i as int)[0] == x@[i as int]);
                assert(y@.skip(i as int)[0] == y@[i as int]);
            }
            return x[i] < y[i];
        }
        proof {
            assert(x@.skip(i as int).drop_first() =~= x@.skip(i + 1));
            assert(y@.skip(i as int).drop_first() =~= y@.skip(i + 1));
        }
        i = i + 1;
    }
    proof {
        assert(x@.skip(i as int).len() == x@.len() - i);
        assert(y@.skip(i as int).len() == y@.len() - i);
    }
    i < y.len()
}

/// The part of `latest` that `is_newer_date` compares: its first ten bytes
/// (a `YYYY-MM-DD` date) when they end on a character boundary, else all of it.
pub open spec fn date_prefix(latest: Seq<u8>) -> Seq<u8> {
    if 10 <= latest.len() && vstd::utf8::is_char_boundary(latest, 10) {
        latest.take(10)
    } else {
        latest
    }
}

/// `true` when the release timestamp `latest` (RFC 3339, as GitHub gives it)
/// is on a later day than the build date `current` (`YYYY-MM-DD`): the first
/// ten bytes of `latest` compare greater than `current`, byte by byte.
pub fn is_newer_date(latest: &str, current: &str) -> (r: bool)
    ensures
        r == bytes_lt(current.spec_bytes(), date_prefix(latest.spec_bytes())),
{
    let bytes = latest.as_bytes();
    if bytes.len() >= 10 && latest.is_char_boundary(10) {
        let (head, _) = latest.split_at(10);
        proof {
            assert(head.spec_bytes() =~= latest.spec_bytes().take(10));
        }
        str_lt(current, head)
    } else {
        str_lt(current, latest)
    }
}

} // verus!
