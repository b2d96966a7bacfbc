//! The window-system side of the launcher on Linux that can be decided
//! without a display: which native window a request goes to, constant
//! settings, and the application icon read from its `.ico` file and laid out
//! as the `_NET_WM_ICON` property wants it.

use crate::text::{chars_of, extend_chars, lit, string_of};
use vstd::prelude::*;

verus! {

/// A native window: an X11 window id, or a Wayland surface (which takes no
/// X11 request).
#[derive(Clone, Copy, PartialEq, Eq, Debug, Structural)]
pub enum NativeWindow {
    X11(u32),
    Wayland,
}

/// The X11 window a request goes to; none on Wayland.
pub fn x11_window(window: NativeWindow) -> (r: Option<u32>)
    ensures
        match window {
            NativeWindow::X11(w) => r == Some(w),
            NativeWindow::Wayland => r is None,
        },
{
    match window {
        NativeWindow::X11(w) => Some(w),
        NativeWindow::Wayland => None,
    }
}

/// Context menus follow the desktop's theme here: nothing to do.
pub fn enable_dark_context_menus() {
}

/// The double-click interval, in milliseconds.
pub fn double_click_time_ms() -> (r: u32)
    ensures
        r == 500,
{
    500
}

/// The font family to use when the user chose none: the toolkit's default
/// (an empty name).
pub fn default_font_family() -> (r: String)
    ensures
        r@.len() == 0,
{
    String::new()
}

/// The size of an icon side in an `.ico` directory entry (0 stands for 256).
pub open spec fn ico_dimension(b: u8) -> nat {
    if b == 0 {
        256
    } else {
        b as nat
    }
}

/// The little-endian `u32` at `at`.
pub open spec fn le32(s: Seq<u8>, at: int) -> nat {
    s[at] as nat + s[at + 1] as nat * 256 + s[at + 2] as nat * 65536 + s[at + 3] as nat * 16777216
}

/// Area, size and offset of the image of directory entry `i`.
pub open spec fn ico_entry(ico: Seq<u8>, i: int) -> (nat, nat, nat) {
    let at = 6 + 16 * i;
    (ico_dimension(ico[at]) * ico_dimension(ico[at + 1]), le32(ico, at + 8), le32(ico, at + 12))
}

/// The entry of largest area among the first `n` (the first of them on a tie).
pub open spec fn best_entry(ico: Seq<u8>, n: int) -> Option<(nat, nat, nat)>
    decreases n,
{
    if n <= 0 {
        None
    } else {
        let e = ico_entry(ico, n - 1);
        match best_entry(ico, n - 1) {
            None => Some(e),
            Some(b) => if e.0 > b.0 {
                Some(e)
            } else {
                Some(b)
            },
        }
    }
}

/// The embedded PNG of the largest image of an `.ico` file: none when its
/// directory runs past the end, when it has no image, or when the image's
/// bytes lie outside the file (or their end does not fit in 32 bits).
pub open spec fn icon_png(ico: Seq<u8>) -> Option<Seq<u8>> {
    if ico.len() < 6 {
        None
    } else {
        let count = ico[4] as int + ico[5] as int * 256;
        if 6 + 16 * count > ico.len() {
            None
        } else {
            match best_entry(ico, count) {
                None => None,
                Some((_, size, offset)) => if offset + size > u32::MAX || offset + size > ico.len() {
                    None
                } else {
                    Some(ico.subrange(offset as int, (offset + size) as int))
                },
            }
        }
    }
}

/// The pixels (RGBA, row by row), width and height that the `image` crate
/// decodes from `bytes`; none when it cannot decode them.
pub uninterp spec fn spec_decoded_rgba(bytes: Seq<u8>) -> Option<(Seq<u8>, u32, u32)>;

/// `image::load_from_memory(bytes)` converted with `to_rgba8`; the decoding is
/// only named here.
#[verifier::external_body]
fn decode_rgba(bytes: &[u8]) -> (r: Option<(Vec<u8>, u32, u32)>)
    ensures
        match r {
            Some((v, w, h)) => spec_decoded_rgba(bytes@) == Some((v@, w, h)),
            None => spec_decoded_rgba(bytes@) is None,
        },
{
    match image::load_from_memory(bytes) {
        Ok(img) => {
            let rgba = img.to_rgba8();
            let (w, h) = rgba.dimensions();
            Some((rgba.into_raw(), w, h))
        },
        Err(_) => None,
    }
}

/// The little-endian `u32` at `at`.
fn read_le32(s: &[u8], at: usize) -> (r: u32)
    requires
        at + 4 <= s@.len(),
    ensures
        r as nat == le32(s@, at as int),
{
    (s[at] as u32) + (s[at + 1] as u32) * 256 + (s[at + 2] as u32) * 65536 + (s[at + 3] as u32) * 16777216
}

/// The embedded PNG of the largest image of an `.ico` file (see `icon_png`).
pub fn ico_largest_png(ico: &[u8]) -> (r: Option<Vec<u8>>)
    ensures
        match r {
            Some(p) => icon_png(ico@) == Some(p@),
            None => icon_png(ico@) is None,
        },
{
    if ico.len() < 6 {
        return None;
    }
    let count: usize = (ico[4] as usize) + (ico[5] as usize) * 256;
    if count > (ico.len() - 6) / 16 {
        return None;
    }
    let mut best: Option<(u64, u32, u32)> = None;
    let mut i: usize = 0;
    while i < count
        invariant
            i <= count,
            count == ico@[4] as int + ico@[5] as int * 256,
            6 + 16 * count <= ico@.len(),
            match best {
                Some((a, s, o)) => best_entry(ico@, i as int) == Some((a as nat, s as nat, o as nat)),
                None => best_entry(ico@, i as int) is None,
            },
        decreases count - i,
    {
        let at: usize = 6 + 16 * i;
        let w0: u64 = if ico[at] == 0 {
            256
        } else {
            ico[at] as u64
        };
        let h0: u64 = if ico[at + 1] == 0 {
            256
        } else {
            ico[at + 1] as u64
        };
        proof {
            assert(w0 * h0 <= 65536) by (nonlinear_arith)
                requires
                    w0 <= 256,
                    h0 <= 256,
            ;
        }
        let area: u64 = w0 * h0;
        let size = read_le32(ico, at + 8);
        let offset = read_le32(ico, at + 12);
        best = match best {
            None => Some((area, size, offset)),
            Some((a, s, o)) => if area > a {
                Some((area, size, offset))
            } else {
                Some((a, s, o))
            },
        };
        i = i + 1;
    }
    let (_, size, offset) = match best {
        Some(b) => b,
        None => return None,
    };
    let end: u64 = (offset as u64) + (size as u64);
    if end > 4294967295 || end > ico.len() as u64 {
        return None;
    }
    let mut out: Vec<u8> = Vec::new();
    let mut k: usize = offset as usize;
    while k < end as usize
        invariant
            offset <= k <= end <= ico@.len(),
            out@ == ico@.subrange(offset as int, k as int),
        decreases end - k,
    {
        out.push(ico[k]);
        k = k + 1;
        proof {
            assert(out@ =~= ico@.subrange(offset as int, k as int));
        }
    }
    Some(out)
}

/// The pixels, width and height of the application icon in `ico` (an `.ico`
/// file): its largest image, decoded.
pub fn extract_app_icon_rgba(ico: &[u8]) -> (r: Option<(Vec<u8>, u32, u32)>)
    ensures
        match icon_png(ico@) {
            Some(png) => match r {
                Some((v, w, h)) => spec_decoded_rgba(png) == Some((v@, w, h)),
                None => spec_decoded_rgba(png) is None,
            },
            None => r is None,
        },
{
    let png = ico_largest_png(ico)?;
    decode_rgba(png.as_slice())
}

/// A pixel `[r, g, b, a]` as the `_NET_WM_ICON` property holds it: the
/// big-endian `u32` of `[a, r, g, b]`.
pub open spec fn argb(r: u8, g: u8, b: u8, a: u8) -> nat {
    a as nat * 16777216 + r as nat * 65536 + g as nat * 256 + b as nat
}

/// The `_NET_WM_ICON` property of an icon: width, height, then each complete
/// RGBA pixel as ARGB.
pub open spec fn icon_property(rgba: Seq<u8>, width: u32, height: u32) -> Seq<nat> {
    seq![width as nat, height as nat] + Seq::new(
        (rgba.len() / 4) as nat,
        |i: int| argb(rgba[4 * i], rgba[4 * i + 1], rgba[4 * i + 2], rgba[4 * i + 3]),
    )
}

/// The `_NET_WM_ICON` property of an icon (see `icon_property`).
pub fn icon_property_data(rgba: &[u8], width: u32, height: u32) -> (r: Vec<u32>)
    ensures
        r@.len() == icon_property(rgba@, width, height).len(),
        forall|i: int| 0 <= i < r@.len() ==> #[trigger] r@[i] as nat == icon_property(rgba@, width, height)[i],
{
    let mut out: Vec<u32> = vec![width, height];
    let n: usize = rgba.len() / 4;
    let mut i: usize = 0;
    while i < n
        invariant
            i <= n,
            n == rgba@.len() / 4,
            rgba@.len() == rgba.len(),
            out@.len() == 2 + i,
            forall|j: int| 0 <= j < out@.len() ==> #[trigger] out@[j] as nat == icon_property(rgba@, width, height)[j],
        decreases n - i,
    {
        proof {
            assert(4 * i + 3 < rgba@.len()) by (nonlinear_arith)
                requires
                    i < n,
                    n == rgba@.len() / 4,
            ;
        }
        let r = rgba[4 * i];
        let g = rgba[4 * i + 1];
        let b = rgba[4 * i + 2];
        let a = rgba[4 * i + 3];
        let v: u32 = (a as u32) * 16777216 + (r as u32) * 65536 + (g as u32) * 256 + (b as u32);
        out.push(v);
        i = i + 1;
    }
    out
}

/// One character of a path as it is written inside the quotes of a desktop
/// entry's `Exec` key: `"`, `` ` ``, `$` and `\` escaped with `\`, `%` doubled.
pub open spec fn exec_escaped(c: char) -> Seq<char> {
    if c == '"' || c == '`' || c == '$' || c == '\\' {
        seq!['\\', c]
    } else if c == '%' {
        seq!['%', '%']
    } else {
        seq![c]
    }
}

/// The characters of a path, each escaped.
pub open spec fn exec_escaped_all(s: Seq<char>) -> Seq<char>
    decreases s.len(),
{
    if s.len() == 0 {
        Seq::empty()
    } else {
        exec_escaped_all(s.drop_last()) + exec_escaped(s.last())
    }
}

/// A path as the argument of a desktop entry's `Exec` key: quoted, with
/// its reserved characters escaped.
pub fn desktop_exec_arg(path: &str) -> (r: String)
    ensures
        r@ == seq!['"'] + exec_escaped_all(path@) + seq!['"'],
{
    let p = chars_of(path);
    let mut out = vec!['"'];
    let mut i: usize = 0;
    proof {
        assert(p@.take(0) =~= Seq::<char>::empty());
        assert(out@ =~= seq!['"'] + exec_escaped_all(p@.take(0)));
    }
    while i < p.len()
        invariant
            i <= p@.len(),
            p@ == path@,
            out@ == seq!['"'] + exec_escaped_all(p@.take(i as int)),
        decreases p@.len() - i,
    {
        let c = p[i];
        let ghost before = out@;
        if c == '"' || c == '`' || c == '$' || c == '\\' {
            out.push('\\');
            out.push(c);
        } else if c == '%' {
            out.push('%');
            out.push('%');
        } else {
            out.push(c);
        }
        proof {
            assert(p@.take(i + 1).drop_last() =~= p@.take(i as int));
            assert(p@.take(i + 1).last() == c);
            assert(out@ =~= before + exec_escaped(c));
        }
        i = i + 1;
    }
    proof {
        assert(p@.take(p@.len() as int) =~= p@);
    }
    out.push('"');
    string_of(out.as_slice())
}

/// The desktop entry that registers the launcher (at `exe`) with the
/// desktop's menus.
pub open spec fn desktop_entry_text(exe: Seq<char>) -> Seq<char> {
    "[Desktop Entry]\nType=Application\nName=Ports Launcher\nExec="@ + (seq!['"'] + exec_escaped_all(exe) + seq!['"'])
        + "\nIcon=ports_launcher\nCategories=Game;\nTerminal=false\nStartupWMClass=ports_launcher\n"@
}

/// The desktop entry of the launcher installed at `exe`.
pub fn desktop_entry(exe: &str) -> (r: String)
    ensures
        r@ == desktop_entry_text(exe@),
{
    let mut out = lit("[Desktop Entry]\nType=Application\nName=Ports Launcher\nExec=");
    let arg = desktop_exec_arg(exe);
    let a = chars_of(arg.as_str());
    let tail = lit("\nIcon=ports_launcher\nCategories=Game;\nTerminal=false\nStartupWMClass=ports_launcher\n");
    extend_chars(&mut out, a.as_slice());
    extend_chars(&mut out, tail.as_slice());
    string_of(out.as_slice())
}

} // verus!
