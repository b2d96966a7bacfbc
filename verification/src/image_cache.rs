//! Where the cover image of a port is cached, and which downloads are kept.

use crate::path_safety::{escape_message, joined_normalized, safe_join, stays_under};
use crate::text::{chars_of, extend_chars, lit, string_of};
use vstd::prelude::*;

verus! {

/// `.png`
pub open spec fn png_suffix() -> Seq<char> {
    seq!['.', 'p', 'n', 'g']
}

/// `bytes` begins with `sig`.
pub open spec fn starts_with_bytes(bytes: Seq<u8>, sig: Seq<u8>) -> bool {
    bytes.len() >= sig.len() && bytes.take(sig.len() as int) == sig
}

/// A WebP header: `RIFF`, any four bytes (the size), `WEBP`.
pub open spec fn is_webp_header(bytes: Seq<u8>) -> bool {
    &&& bytes.len() >= 12
    &&& bytes.take(4) == seq![0x52u8, 0x49, 0x46, 0x46]
    &&& bytes.subrange(8, 12) == seq![0x57u8, 0x45, 0x42, 0x50]
}

/// An AVIF header: two zero bytes, any two bytes, `ftypavif`.
pub open spec fn is_avif_header(bytes: Seq<u8>) -> bool {
    &&& bytes.len() >= 12
    &&& bytes[0] == 0
    &&& bytes[1] == 0
    &&& bytes.subrange(4, 12) == seq![0x66u8, 0x74, 0x79, 0x70, 0x61, 0x76, 0x69, 0x66]
}

/// A portable anymap header: `P1` to `P7`.
pub open spec fn is_pnm_header(bytes: Seq<u8>) -> bool {
    bytes.len() >= 2 && bytes[0] == 0x50 && 0x31 <= bytes[1] <= 0x37
}

/// The start of `bytes` is the signature of an image format that
/// `image::guess_format` knows: PNG, JPEG, GIF, WebP, TIFF, DDS, BMP, ICO,
/// Radiance HDR, AVIF, OpenEXR, QOI, PNM or farbfeld.
pub open spec fn is_known_image_header(bytes: Seq<u8>) -> bool {
    ||| starts_with_bytes(bytes, seq![0x89u8, 0x50, 0x4E, 0x47, 0x0D, 0x0A, 0x1A, 0x0A])
    ||| starts_with_bytes(bytes, seq![0xFFu8, 0xD8, 0xFF])
    ||| starts_with_bytes(bytes, seq![0x47u8, 0x49, 0x46, 0x38, 0x39, 0x61])
    ||| starts_with_bytes(bytes, seq![0x47u8, 0x49, 0x46, 0x38, 0x37, 0x61])
    ||| is_webp_header(bytes)
    ||| starts_with_bytes(bytes, seq![0x4Du8, 0x4D, 0x00, 0x2A])
    ||| starts_with_bytes(bytes, seq![0x49u8, 0x49, 0x2A, 0x00])
    ||| starts_with_bytes(bytes, seq![0x44u8, 0x44, 0x53, 0x20])
    ||| starts_with_bytes(bytes, seq![0x42u8, 0x4D])
    ||| starts_with_bytes(bytes, seq![0x00u8, 0x00, 0x01, 0x00])
    ||| starts_with_bytes(bytes, seq![0x23u8, 0x3F, 0x52, 0x41, 0x44, 0x49, 0x41, 0x4E, 0x43, 0x45])
    ||| is_avif_header(bytes)
    ||| starts_with_bytes(bytes, seq![0x76u8, 0x2F, 0x31, 0x01])
    ||| starts_with_bytes(bytes, seq![0x71u8, 0x6F, 0x69, 0x66])
    ||| is_pnm_header(bytes)
    ||| starts_with_bytes(bytes, seq![0x66u8, 0x61, 0x72, 0x62, 0x66, 0x65, 0x6C, 0x64])
}

/// `image::guess_format(bytes).is_ok()`: the crate compares the first bytes
/// with its table of signatures (masked for WebP and AVIF); it succeeds
/// exactly when one of them matches, as `is_known_image_header` lists them.
#[verifier::external_body]
fn guess_format_is_known(bytes: &[u8]) -> (r: bool)
    ensures
        r == is_known_image_header(bytes@),
{
    image::guess_format(bytes).is_ok()
}

/// A download is stored in the cache only when it is a recognised image.
pub fn is_cacheable_image(bytes: &[u8]) -> (r: bool)
    ensures
        r == is_known_image_header(bytes@),
{
    guess_format_is_known(bytes)
}

/// The cache file of the image of the port installed in `folder_name`:
/// `<folder_name>.png` under `cache_dir`, refused (with the message of
/// `safe_join`) when it would lead out of `cache_dir`.
pub fn cached_image_path(cache_dir: &str, folder_name: &str) -> (r: Result<String, String>)
    ensures
        ({
            let rel = folder_name@ + png_suffix();
            match r {
                Ok(p) => stays_under(cache_dir@, rel) && p@ == joined_normalized(cache_dir@, rel),
                Err(m) => !stays_under(cache_dir@, rel) && m@ == escape_message(cache_dir@, rel),
            }
        }),
{
    let mut name = chars_of(folder_name);
    let png = lit(".png");
    proof {
        reveal_strlit(".png");
        assert(png@ =~= png_suffix());
    }
    extend_chars(&mut name, png.as_slice());
    let rel = string_of(name.as_slice());
    safe_join(cache_dir, rel.as_str())
}

} // verus!
