//! The Windows wallpaper shell as this build sees it: it hosts its frames in
//! the desktop's icon layer only on Windows, so here every entry point
//! reports that it is unsupported. The pixel swizzle its blit uses is here
//! too.

use vstd::prelude::*;
use crate::render::RenderOptions;
use crate::text::push_str;

verus! {

/// Why the Windows shell could not run.
#[derive(Clone, Debug)]
pub enum ShellError {
    /// Not running on Windows.
    Unsupported,
    /// A Win32 call failed.
    Win32(String),
}

impl ShellError {
    /// The message shown for the error.
    pub fn message(&self) -> (m: String)
        ensures
            m@ == match self {
                ShellError::Unsupported => "the Windows shell only runs on Windows"@,
                ShellError::Win32(s) => "win32 error: "@ + s@,
            },
    {
        let mut m = String::new();
        match self {
            ShellError::Unsupported => push_str(&mut m, "the Windows shell only runs on Windows"),
            ShellError::Win32(s) => {
                push_str(&mut m, "win32 error: ");
                push_str(&mut m, s.as_str());
            },
        }
        m
    }
}

/// Run a scene as the desktop wallpaper: unsupported off Windows.
pub fn run(scene_id: &str, opts: RenderOptions) -> (r: Result<(), ShellError>)
    ensures
        r matches Err(ShellError::Unsupported),
{
    Err(ShellError::Unsupported)
}

/// The message autostart management gives off Windows.
pub open spec fn autostart_unsupported() -> Seq<char> {
    "autostart is only supported on Windows"@
}

/// Register the login item: unsupported off Windows.
pub fn install(scene: &str, theme: &str) -> (r: Result<(), String>)
    ensures
        r is Err && r->Err_0@ == autostart_unsupported(),
{
    let mut m = String::new();
    push_str(&mut m, "autostart is only supported on Windows");
    Err(m)
}

/// Remove the login item: unsupported off Windows.
pub fn remove() -> (r: Result<(), String>)
    ensures
        r is Err && r->Err_0@ == autostart_unsupported(),
{
    let mut m = String::new();
    push_str(&mut m, "autostart is only supported on Windows");
    Err(m)
}

/// Whether the login item is registered: never, off Windows.
pub fn is_installed() -> (b: bool)
    ensures
        !b,
{
    false
}

} // verus!

verus! {

/// Byte `i` of the BGRA image of RGBA bytes `p`, written over `old` (which
/// the output was resized from): whole pixels are swizzled, alpha kept; a
/// trailing partial pixel keeps what was there (zero when new).
pub open spec fn bgra_byte(p: Seq<u8>, old: Seq<u8>, i: int) -> u8 {
    let whole = p.len() / 4 * 4;
    if i < whole {
        let q = i / 4 * 4;
        if i % 4 == 0 {
            p[q + 2]
        } else if i % 4 == 1 {
            p[q + 1]
        } else if i % 4 == 2 {
            p[q]
        } else {
            p[q + 3]
        }
    } else if i < old.len() {
        old[i]
    } else {
        0
    }
}

/// Swizzle RGBA8888 into the BGRA8888 a device-independent bitmap holds,
/// into `out` (resized to the input's length).
pub fn rgba_to_bgra(pixels: &[u8], out: &mut Vec<u8>)
    ensures
        final(out)@.len() == pixels@.len(),
        forall|i: int| 0 <= i < pixels@.len() ==> #[trigger] final(out)@[i] == bgra_byte(pixels@, old(out)@, i),
{
    let ghost o0 = out@;
    let n = pixels.len();
    out.resize(n, 0);
    let ghost o1 = out@;
    let whole = n / 4;
    let mut q: usize = 0;
    while q < whole
        invariant
            n == pixels@.len(),
            whole == n / 4,
            out@.len() == n,
            q <= whole,
            forall|i: int| 0 <= i < n ==> #[trigger] out@[i] == if i < q * 4 { bgra_byte(pixels@, o0, i) } else { o1[i] },
        decreases whole - q,
    {
        let off = q * 4;
        let r = pixels[off];
        let g = pixels[off + 1];
        let b = pixels[off + 2];
        let a = pixels[off + 3];
        out.set(off, b);
        out.set(off + 1, g);
        out.set(off + 2, r);
        out.set(off + 3, a);
        q += 1;
    }
    proof {
        assert forall|i: int| 0 <= i < n implies #[trigger] out@[i] == bgra_byte(pixels@, o0, i) by {
            if i >= whole * 4 {
                if n <= o0.len() {
                    assert(o1[i] == o0.subrange(0, n as int)[i]);
                } else if i < o0.len() {
                    assert(o1[i] == o1.subrange(0, o0.len() as int)[i]);
                } else {
                    assert(cloned::<u8>(0u8, o1[i]));
                }
            }
        }
    }
}

} // verus!
