//! The pure parts of the Linux wallpaper shell: which display backend to
//! use, its errors, the grid a surface holds, the RGBA → BGRX pixel swizzle
//! both backends blit with, and the XDG autostart entry it installs.

use vstd::prelude::*;
use crate::catalog::{SceneKind, builtin_kind, make, unknown_scene, unknown_scene_message};
use crate::cli::same_chars;
use crate::color::RgbColor;
use crate::frame::lemma_index_in_grid;
use crate::text::push_str;
use crate::theme::{Theme, hacker_theme, resolve_theme, resolve_theme_spec};
use vstd::string::StringSliceAdditionalSpecFns;

verus! {

/// The display server the wallpaper is drawn on.
#[derive(Clone, Copy, Debug, PartialEq, Eq, Structural)]
pub enum Backend {
    Wayland,
    X11,
}

/// The backend for a session: Wayland when a Wayland display is announced,
/// else X11.
pub fn backend_for(wayland_display_set: bool) -> (b: Backend)
    ensures
        b == if wayland_display_set { Backend::Wayland } else { Backend::X11 },
{
    if wayland_display_set { Backend::Wayland } else { Backend::X11 }
}

/// Why the Linux shell could not run.
#[derive(Clone, Debug)]
pub enum ShellError {
    /// Not running on Linux.
    Unsupported,
    /// The backend this session needs was not built in.
    BackendNotCompiled(Backend),
    /// The backend failed.
    Backend(String),
}

/// The name a backend is shown by.
pub open spec fn backend_name(b: Backend) -> Seq<char> {
    match b {
        Backend::Wayland => "Wayland"@,
        Backend::X11 => "X11"@,
    }
}

impl ShellError {
    /// The message shown for the error.
    pub fn message(&self) -> (m: String)
        ensures
            m@ == match self {
                ShellError::Unsupported => "the Linux shell only runs on Linux"@,
                ShellError::BackendNotCompiled(b) => backend_name(*b) + " backend not compiled in (enable its cargo feature)"@,
                ShellError::Backend(s) => "backend error: "@ + s@,
            },
    {
        let mut m = String::new();
        match self {
            ShellError::Unsupported => push_str(&mut m, "the Linux shell only runs on Linux"),
            ShellError::BackendNotCompiled(b) => {
                match b {
                    Backend::Wayland => push_str(&mut m, "Wayland"),
                    Backend::X11 => push_str(&mut m, "X11"),
                }
                push_str(&mut m, " backend not compiled in (enable its cargo feature)");
            },
            ShellError::Backend(s) => {
                push_str(&mut m, "backend error: ");
                push_str(&mut m, s.as_str());
            },
        }
        m
    }
}

/// What running a scene on a backend comes to before any drawing: either
/// backend (the X11 root pixmap or the Wayland background layer) needs a
/// known scene.
pub fn plan_run(scene_id: &str, backend: Backend) -> (r: Result<SceneKind, ShellError>)
    ensures
        match builtin_kind(scene_id.spec_bytes()) {
            Some(k) => r == Ok::<SceneKind, ShellError>(k),
            None => r matches Err(ShellError::Backend(m)) && m@ == unknown_scene_message(scene_id@),
        },
{
    let _ = backend;
    match make(scene_id) {
        Some(k) => Ok(k),
        None => Err(ShellError::Backend(unknown_scene(scene_id))),
    }
}

/// The character grid a `width × height` pixel surface holds with
/// `cell_w × cell_h` cells: at least one cell each way.
pub fn surface_grid(width: u32, height: u32, cell_w: u32, cell_h: u32) -> (r: (usize, usize))
    ensures
        r.0 == (if width / (if cell_w < 1 { 1 } else { cell_w }) < 1 { 1 } else { width / (if cell_w < 1 { 1 } else { cell_w }) }),
        r.1 == (if height / (if cell_h < 1 { 1 } else { cell_h }) < 1 { 1 } else { height / (if cell_h < 1 { 1 } else { cell_h }) }),
{
    let cw = if cell_w < 1 { 1 } else { cell_w };
    let ch = if cell_h < 1 { 1 } else { cell_h };
    let c = width / cw;
    let r = height / ch;
    ((if c < 1 { 1 } else { c }) as usize, (if r < 1 { 1 } else { r }) as usize)
}

/// Byte `i` of the BGRX image of RGBA bytes `p`, written over `old` (which
/// the output was resized from): whole pixels are swizzled with a zero pad
/// byte; a trailing partial pixel keeps what was there (zero when new).
pub open spec fn bgrx_byte(p: Seq<u8>, old: Seq<u8>, i: int) -> u8 {
    let whole = p.len() / 4 * 4;
    if i < whole {
        let q = i / 4 * 4;
        if i % 4 == 0 {
            p[q + 2]
        } else if i % 4 == 1 {
            p[q + 1]
        } else if i % 4 == 2 {
            p[q]
        } else {
            0
        }
    } else if i < old.len() {
        old[i]
    } else {
        0
    }
}

/// Swizzle RGBA8888 into the BGRX8888 both backends blit, into `out`
/// (resized to the input's length).
pub fn rgba_to_bgrx(pixels: &[u8], out: &mut Vec<u8>)
    ensures
        final(out)@.len() == pixels@.len(),
        forall|i: int| 0 <= i < pixels@.len() ==> #[trigger] final(out)@[i] == bgrx_byte(pixels@, old(out)@, i),
{
    let ghost o0 = out@;
    let n = pixels.len();
    out.resize(n, 0);
    let ghost o1 = out@;
    let whole = n / 4;
    let mut q: usize = 0;
    while q < whole
        invariant
            n == pixels@.len(),
            whole == n / 4,
            out@.len() == n,
            q <= whole,
            forall|i: int| 0 <= i < n ==> #[trigger] out@[i] == if i < q * 4 { bgrx_byte(pixels@, o0, i) } else { o1[i] },
        decreases whole - q,
    {
        let off = q * 4;
        let r = pixels[off];
        let g = pixels[off + 1];
        let b = pixels[off + 2];
        out.set(off, b);
        out.set(off + 1, g);
        out.set(off + 2, r);
        out.set(off + 3, 0);
        q += 1;
    }
    proof {
        assert forall|i: int| 0 <= i < n implies #[trigger] out@[i] == bgrx_byte(pixels@, o0, i) by {
            if i >= whole * 4 {
                if n <= o0.len() {
                    assert(o1[i] == o0.subrange(0, n as int)[i]);
                } else if i < o0.len() {
                    assert(o1[i] == o1.subrange(0, o0.len() as int)[i]);
                } else {
                    assert(cloned::<u8>(0u8, o1[i]));
                }
            }
        }
    }
}

/// The XDG autostart entry that launches `exe scene theme` at login.
pub open spec fn desktop_entry_spec(exe: Seq<char>, scene: Seq<char>, theme: Seq<char>) -> Seq<char> {
    "[Desktop Entry]\nType=Application\nName=ASCII Arcade\nComment=Live ASCII wallpaper\nExec="@ + exe + " "@ + scene
        + " "@ + theme + "\nX-GNOME-Autostart-enabled=true\nHidden=false\nNoDisplay=false\n"@
}

/// The XDG autostart entry that launches `exe scene theme` at login.
pub fn desktop_entry(exe: &str, scene: &str, theme: &str) -> (s: String)
    ensures
        s@ == desktop_entry_spec(exe@, scene@, theme@),
{
    let mut s = String::new();
    push_str(&mut s, "[Desktop Entry]\nType=Application\nName=ASCII Arcade\nComment=Live ASCII wallpaper\nExec=");
    push_str(&mut s, exe);
    push_str(&mut s, " ");
    push_str(&mut s, scene);
    push_str(&mut s, " ");
    push_str(&mut s, theme);
    push_str(&mut s, "\nX-GNOME-Autostart-enabled=true\nHidden=false\nNoDisplay=false\n");
    s
}

} // verus!

verus! {

/// What the desktop wallpaper binary is asked to do by its arguments
/// (`[scene] [theme]`, or an autostart flag).
#[derive(Clone, Debug)]
pub enum DesktopCommand {
    /// `--autostart-enable [scene] [theme]`: install the login entry.
    AutostartEnable { scene: String, theme: String },
    /// `--autostart-disable`: remove the login entry.
    AutostartDisable,
    /// `[scene] [theme]`: draw the scene as the wallpaper.
    Run { scene: String, theme: Theme },
}

/// The `i`-th argument, or `default` where there are fewer arguments.
pub open spec fn arg_or(args: Seq<String>, i: int, default: Seq<char>) -> Seq<char> {
    if i < args.len() { args[i]@ } else { default }
}

/// Whether the first argument is exactly `flag`.
pub open spec fn first_is(args: Seq<String>, flag: &str) -> bool {
    args.len() > 0 && args[0]@ == flag@
}

/// `args[i]` cloned, or `default`.
fn arg_or_exec(args: &Vec<String>, i: usize, default: &str) -> (s: String)
    ensures
        s@ == arg_or(args@, i as int, default@),
{
    if i < args.len() {
        args[i].clone()
    } else {
        let mut s = String::new();
        push_str(&mut s, default);
        s
    }
}

/// Reads the desktop binary's arguments. The scene defaults to `donut`; the
/// theme to `hacker` for the autostart entry and to the default theme (an
/// unknown name falls back to it too) for a run.
pub fn desktop_command(args: &Vec<String>) -> (c: DesktopCommand)
    ensures
        first_is(args@, "--autostart-enable") ==> (c matches DesktopCommand::AutostartEnable { scene, theme }
            && scene@ == arg_or(args@, 1, "donut"@) && theme@ == arg_or(args@, 2, "hacker"@)),
        !first_is(args@, "--autostart-enable") && first_is(args@, "--autostart-disable")
            ==> c matches DesktopCommand::AutostartDisable,
        !first_is(args@, "--autostart-enable") && !first_is(args@, "--autostart-disable")
            ==> (c matches DesktopCommand::Run { scene, theme } && scene@ == arg_or(args@, 0, "donut"@)
            && theme == (if args@.len() > 1 {
                resolve_theme_spec(vstd::utf8::encode_utf8(args@[1]@))
            } else {
                hacker_theme()
            })),
{
    if args.len() > 0 && same_chars(args[0].as_str(), "--autostart-enable") {
        return DesktopCommand::AutostartEnable {
            scene: arg_or_exec(args, 1, "donut"),
            theme: arg_or_exec(args, 2, "hacker"),
        };
    }
    if args.len() > 0 && same_chars(args[0].as_str(), "--autostart-disable") {
        return DesktopCommand::AutostartDisable;
    }
    let scene = arg_or_exec(args, 0, "donut");
    let theme = if args.len() > 1 { resolve_theme(args[1].as_str()) } else { Theme::default() };
    DesktopCommand::Run { scene, theme }
}

} // verus!

verus! {

/// Bytes an X11 image request may carry before it is split.
pub const IMAGE_REQUEST_BYTES: usize = 262_144;

/// Rows per image request for a `width`-pixel-wide image (4 bytes a pixel):
/// as many as fit in the request budget, and at least one.
pub open spec fn rows_per_band(width: int) -> int {
    let fit = IMAGE_REQUEST_BYTES as int / (width * 4);
    if fit < 1 { 1 } else { fit }
}

/// The bands `(first row, row count)` from row `y` down to `height`, each
/// `rpb` rows tall but the last.
pub open spec fn bands_from(y: int, height: int, rpb: int) -> Seq<(usize, usize)>
    decreases height - y,
{
    if y >= height || rpb < 1 {
        Seq::empty()
    } else {
        let b = if rpb < height - y { rpb } else { height - y };
        seq![(y as usize, b as usize)] + bands_from(y + b, height, rpb)
    }
}

/// How a `width × height` image is sent to the X server in horizontal bands
/// so that each request stays under the server's maximum request size: the
/// bands in order, as `(first row, row count)`; none for an empty width.
pub fn image_bands(width: u16, height: u16) -> (bands: Vec<(usize, usize)>)
    ensures
        width == 0 ==> bands@.len() == 0,
        width > 0 ==> bands@ == bands_from(0, height as int, rows_per_band(width as int)),
{
    let mut bands: Vec<(usize, usize)> = Vec::new();
    let stride = width as usize * 4;
    if stride == 0 {
        return bands;
    }
    let fit = IMAGE_REQUEST_BYTES / stride;
    let rpb: usize = if fit < 1 { 1 } else { fit };
    let h = height as usize;
    let mut y: usize = 0;
    while y < h
        invariant
            rpb >= 1,
            rpb == rows_per_band(width as int),
            h == height,
            y <= h,
            bands@ + bands_from(y as int, h as int, rpb as int) == bands_from(0, h as int, rpb as int),
        decreases h - y,
    {
        let band = if rpb < h - y { rpb } else { h - y };
        let ghost old_bands = bands@;
        bands.push((y, band));
        proof {
            assert(bands_from(y as int, h as int, rpb as int) == seq![(y, band)] + bands_from(
                y + band,
                h as int,
                rpb as int,
            ));
            assert(old_bands + bands_from(y as int, h as int, rpb as int) =~= bands@ + bands_from(
                y + band,
                h as int,
                rpb as int,
            ));
        }
        y += band;
    }
    proof {
        assert(bands@ + Seq::<(usize, usize)>::empty() =~= bands@);
    }
    bands
}

} // verus!

verus! {

/// Byte `xb` of row `y` of a Wayland canvas `w × h` pixels (BGRX, each side
/// at least one pixel): the rendered BGRX image `img` (`iw × ih` pixels)
/// where it reaches, and the theme background `bg` (with an opaque pad byte)
/// around it.
pub open spec fn canvas_byte(w: int, h: int, bg: RgbColor, img: Seq<u8>, iw: int, ih: int, y: int, xb: int) -> u8 {
    let cw = (if iw < w { iw } else { w }) * 4;
    let ch = if ih < h { ih } else { h };
    if y < ch && xb < cw {
        img[y * (iw * 4) + xb]
    } else if xb % 4 == 0 {
        bg.b
    } else if xb % 4 == 1 {
        bg.g
    } else if xb % 4 == 2 {
        bg.r
    } else {
        255
    }
}

/// `v`, or one where `v` is zero.
pub open spec fn at_least_one(v: u32) -> int {
    if v < 1 { 1 } else { v as int }
}

/// The Wayland canvas for a `width × height` surface (each side raised to at
/// least one pixel): the theme background, with the rendered BGRX image
/// `img` of `img_w × img_h` pixels copied into its top-left corner, cut to
/// the canvas (the image can be a few pixels smaller than the surface).
pub fn compose_canvas(width: u32, height: u32, bg: RgbColor, img: &[u8], img_w: u32, img_h: u32) -> (canvas: Vec<u8>)
    requires
        at_least_one(width) * at_least_one(height) * 4 <= usize::MAX,
        img@.len() >= img_w * img_h * 4,
        img_w * img_h * 4 <= usize::MAX,
        img_w * 4 <= usize::MAX,
    ensures
        canvas@.len() == at_least_one(width) * at_least_one(height) * 4,
        forall|y: int, xb: int| 0 <= y < at_least_one(height) && 0 <= xb < at_least_one(width) * 4
            ==> #[trigger] canvas@[y * (at_least_one(width) * 4) + xb] == canvas_byte(
                at_least_one(width),
                at_least_one(height),
                bg,
                img@,
                img_w as int,
                img_h as int,
                y,
                xb,
            ),
{
    let w: usize = if width < 1 { 1 } else { width as usize };
    let h: usize = if height < 1 { 1 } else { height as usize };
    proof {
        assert(w * 4 <= w * h * 4 && w * 4 * h == w * h * 4) by (nonlinear_arith)
            requires
                h >= 1,
                w >= 1,
        ;
    }
    let row = w * 4;
    let size = row * h;
    let iw = img_w as usize;
    let ih = img_h as usize;
    proof {
        assert(iw * 4 * ih <= usize::MAX) by (nonlinear_arith)
            requires
                iw * ih * 4 <= usize::MAX,
        ;
    }
    let irow = iw * 4;
    let cw = (if iw < w { iw } else { w }) * 4;
    let ch = if ih < h { ih } else { h };
    let mut canvas: Vec<u8> = Vec::with_capacity(size);
    let mut i: usize = 0;
    let mut px: usize = 0;
    let mut py: usize = 0;
    while i < size
        invariant
            w == at_least_one(width),
            h == at_least_one(height),
            row == w * 4,
            size == row * h,
            irow == iw * 4,
            iw == img_w,
            ih == img_h,
            img@.len() >= iw * ih * 4,
            irow * ih <= usize::MAX,
            cw == (if iw < w { iw } else { w }) * 4,
            ch == (if ih < h { ih } else { h }),
            i <= size,
            px < row,
            i == py * row + px,
            i < size ==> py < h,
            canvas@.len() == i,
            forall|j: int| 0 <= j < i ==> #[trigger] canvas@[j] == canvas_byte(
                w as int,
                h as int,
                bg,
                img@,
                iw as int,
                ih as int,
                j / (row as int),
                j % (row as int),
            ),
        decreases size - i,
    {
        proof {
            crate::life::lemma_join_index(px as int, py as int, row as int);
        }
        let byte = if py < ch && px < cw {
            proof {
                assert(py * irow + px < irow * ih) by (nonlinear_arith)
                    requires
                        py < ih,
                        px < cw,
                        cw <= irow,
                ;
                assert(py * irow + px < iw * ih * 4) by (nonlinear_arith)
                    requires
                        py * irow + px < irow * ih,
                        irow == iw * 4,
                ;
            }
            img[py * irow + px]
        } else if px % 4 == 0 {
            bg.b
        } else if px % 4 == 1 {
            bg.g
        } else if px % 4 == 2 {
            bg.r
        } else {
            255
        };
        canvas.push(byte);
        let ghost (oi, ox, oy) = (i as int, px as int, py as int);
        i += 1;
        if px + 1 == row {
            px = 0;
            py += 1;
        } else {
            px += 1;
        }
        proof {
            assert(i == py * row + px) by (nonlinear_arith)
                requires
                    oi == oy * row + ox,
                    i == oi + 1,
                    (ox + 1 == row && py == oy + 1 && px == 0) || (ox + 1 < row && py == oy && px == ox + 1),
            ;
            if i < size {
                assert(py < h) by (nonlinear_arith)
                    requires
                        i == py * row + px,
                        i < row * h,
                        0 <= px,
                        row >= 1,
                ;
            }
        }
    }
    proof {
        assert forall|y: int, xb: int| 0 <= y < h && 0 <= xb < w * 4
            implies #[trigger] canvas@[y * (w as int * 4) + xb] == canvas_byte(
                w as int,
                h as int,
                bg,
                img@,
                iw as int,
                ih as int,
                y,
                xb,
            ) by {
            lemma_index_in_grid(xb, y, row as int, h as int);
            crate::life::lemma_join_index(xb, y, row as int);
        }
    }
    canvas
}

} // verus!
