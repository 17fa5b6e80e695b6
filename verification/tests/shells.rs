use ascii_arcade::catalog::{builtin_ids, listed_ids, make, make_scene, make_web_scene, AppState, SceneKind};
use ascii_arcade::doom::{doom_scaling_for, grid_size};
use ascii_arcade::launcher::{system_bin_dirs, system_wad_dirs};
use ascii_arcade::linux_shell::{compose_canvas, desktop_command, desktop_entry, image_bands, plan_run, rgba_to_bgrx, Backend, DesktopCommand, ShellError};
use ascii_arcade::theme::Theme;
use ascii_arcade::render::RenderOptions;
use ascii_arcade::settings::default_index;
use ascii_arcade::socket::{socket_input, SocketInput};
use ascii_arcade::windows_shell;

#[test]
fn make_scene_rejects_doom_without_opt_in() {
    match make_scene("doom", false, 1) {
        Err(e) => assert!(e.contains("opt-in") || e.contains("doesn't include DOOM")),
        Ok(_) => panic!("expected doom to be rejected without --enable-doom"),
    }
}

#[test]
fn make_scene_still_resolves_ordinary_scenes() {
    assert!(make_scene("donut", false, 1).is_ok());
}

#[test]
fn make_scene_rejects_unknown_scene() {
    assert!(make_scene("not-a-real-scene", false, 1).is_err());
}

#[test]
fn make_scene_allows_doom_with_opt_in() {
    assert!(make_scene("doom", true, 8).is_ok());
}

#[test]
fn main_make_scene_rejects_doom_without_opt_in() {
    match make_web_scene("doom", false) {
        Err(e) => assert!(e.contains("opt-in") || e.contains("doesn't include DOOM")),
        Ok(_) => panic!("expected doom to be rejected without AA_WEB_ENABLE_DOOM=1"),
    }
}

#[test]
fn main_make_scene_still_resolves_ordinary_scenes() {
    assert!(make_web_scene("donut", false).is_ok());
}

#[test]
fn main_make_scene_rejects_unknown_scene() {
    assert!(make_web_scene("not-a-real-scene", false).is_err());
}

#[test]
fn main_make_scene_allows_doom_with_opt_in() {
    assert!(make_web_scene("doom", true).is_ok());
}

#[test]
fn app_state_clone_copy() {
    let state = AppState { enable_doom: true };
    let copied = state;
    assert!(copied.enable_doom);
}

#[test]
fn doom_scaling_picks_smallest_fit() {
    assert_eq!(doom_scaling_for(640, 200), 1);
    assert_eq!(doom_scaling_for(320, 100), 2);
}

#[test]
fn doom_scaling_fits_a_typical_80x24_terminal() {
    let n = doom_scaling_for(80, 24);
    let (w, h) = grid_size(n);
    assert!(w <= 80 && h <= 24, "grid {w}x{h} overflows an 80x24 terminal");
}

#[test]
fn doom_scaling_falls_back_instead_of_panicking_on_a_tiny_terminal() {
    assert_eq!(doom_scaling_for(1, 1), 16);
}

#[test]
fn grid_size_matches_doomlauncher() {
    assert_eq!(grid_size(1), (640, 200));
    assert_eq!(grid_size(2), (320, 100));
}

#[test]
fn test_system_directories_constants() {
    assert_eq!(system_bin_dirs(), vec!["/usr/local/bin", "/opt/homebrew/bin"]);
    assert_eq!(
        system_wad_dirs(),
        vec![
            "/opt/homebrew/share/games/doom",
            "/usr/local/share/games/doom",
            "/usr/share/games/doom",
        ]
    );
}

#[test]
fn shell_error_display_and_error_impl() {
    let unsupp = ShellError::Unsupported;
    assert_eq!(unsupp.message(), "the Linux shell only runs on Linux");

    let not_x11 = ShellError::BackendNotCompiled(Backend::X11);
    assert_eq!(not_x11.message(), "X11 backend not compiled in (enable its cargo feature)");

    let not_wl = ShellError::BackendNotCompiled(Backend::Wayland);
    assert_eq!(not_wl.message(), "Wayland backend not compiled in (enable its cargo feature)");

    let backend_err = ShellError::Backend("test failure".into());
    assert_eq!(backend_err.message(), "backend error: test failure");
}

#[test]
fn run_returns_expected_error_on_unknown_scene_or_display() {
    let _opts = RenderOptions::default();
    assert!(plan_run("non_existent_scene_xyz", Backend::X11).is_err());
    assert!(plan_run("non_existent_scene_xyz", Backend::Wayland).is_err());
}

#[test]
fn rgba_to_bgrx_swizzles_correctly() {
    let rgba = vec![10, 20, 30, 255, 40, 50, 60, 255];
    let mut bgrx = Vec::new();
    rgba_to_bgrx(&rgba, &mut bgrx);
    assert_eq!(bgrx, vec![30, 20, 10, 0, 60, 50, 40, 0]);
}

#[test]
fn rgba_to_bgrx_keeps_a_partial_tail_and_shrinks_reused_buffers() {
    let rgba = vec![1, 2, 3, 4, 5, 6];
    let mut out = vec![9; 10];
    rgba_to_bgrx(&rgba, &mut out);
    assert_eq!(out, vec![3, 2, 1, 0, 9, 9]);
    let mut fresh = Vec::new();
    rgba_to_bgrx(&rgba, &mut fresh);
    assert_eq!(fresh, vec![3, 2, 1, 0, 0, 0]);
}

#[test]
fn builtin_catalogue_resolves_every_id() {
    let ids = builtin_ids();
    assert_eq!(ids, vec!["donut", "helix", "matrix", "pipes", "life"]);
    assert_eq!(make("donut"), Some(SceneKind::Donut));
    assert_eq!(make("life"), Some(SceneKind::Life));
    assert_eq!(make("nope"), None);
    assert_eq!(make("doom"), None);
    assert_eq!(make_scene("doom", true, 3), Ok(SceneKind::Doom(3)));
    assert_eq!(make_scene("helix", true, 3), Ok(SceneKind::Helix));
    assert_eq!(make_scene("what", false, 1), Err("unknown scene 'what'".to_string()));
    assert_eq!(listed_ids(true).last(), Some(&"doom"));
    assert_eq!(listed_ids(false).len(), 5);
}

#[test]
fn plan_run_accepts_known_scenes_on_x11() {
    assert_eq!(plan_run("pipes", Backend::X11).ok(), Some(SceneKind::Pipes));
    assert_eq!(plan_run("life", Backend::Wayland).ok(), Some(SceneKind::Life));
    match plan_run("zzz", Backend::X11) {
        Err(e) => assert_eq!(e.message(), "backend error: unknown scene 'zzz'"),
        Ok(_) => panic!("unknown scene accepted"),
    }
}

#[test]
fn desktop_entry_launches_the_binary_with_scene_and_theme() {
    let s = desktop_entry("/usr/bin/aa-linux", "matrix", "amber");
    assert!(s.starts_with("[Desktop Entry]\n"));
    assert!(s.contains("Exec=/usr/bin/aa-linux matrix amber\n"));
    assert!(s.ends_with("NoDisplay=false\n"));
}

#[test]
fn windows_shell_is_unsupported_here() {
    assert!(matches!(windows_shell::run("donut", RenderOptions::default()), Err(windows_shell::ShellError::Unsupported)));
    assert_eq!(windows_shell::install("a", "b"), Err("autostart is only supported on Windows".to_string()));
    assert!(windows_shell::remove().is_err());
    assert!(!windows_shell::is_installed());
    assert_eq!(windows_shell::ShellError::Unsupported.message(), "the Windows shell only runs on Windows");
}

#[test]
fn socket_resize_messages_set_the_grid_with_minimums() {
    assert_eq!(socket_input("__resize__:100x40"), SocketInput::Resize { cols: 100, rows: 40 });
    assert_eq!(socket_input("__resize__:5x3"), SocketInput::Resize { cols: 20, rows: 10 });
    assert_eq!(socket_input("__resize__:+30x12"), SocketInput::Resize { cols: 30, rows: 12 });
}

#[test]
fn socket_malformed_resize_is_ignored() {
    assert_eq!(socket_input("__resize__:bad_format"), SocketInput::Ignore);
    assert_eq!(socket_input("__resize__:100xnotanumber"), SocketInput::Ignore);
    assert_eq!(socket_input("__resize__:x40"), SocketInput::Ignore);
    assert_eq!(socket_input("__resize__:100x40x2"), SocketInput::Ignore);
    assert_eq!(socket_input("__resize__:99999999999999999999999x40"), SocketInput::Ignore);
}

#[test]
fn socket_other_text_is_keystrokes() {
    assert_eq!(socket_input("q"), SocketInput::Keys);
    assert_eq!(socket_input(""), SocketInput::Keys);
    assert_eq!(socket_input("__resize_:10x10"), SocketInput::Keys);
}

fn strings(v: &[&str]) -> Vec<String> {
    v.iter().map(|s| s.to_string()).collect()
}

#[test]
fn desktop_command_reads_autostart_flags() {
    match desktop_command(&strings(&["--autostart-enable", "matrix", "amber"])) {
        DesktopCommand::AutostartEnable { scene, theme } => {
            assert_eq!(scene, "matrix");
            assert_eq!(theme, "amber");
        }
        other => panic!("unexpected {other:?}"),
    }
    match desktop_command(&strings(&["--autostart-enable"])) {
        DesktopCommand::AutostartEnable { scene, theme } => {
            assert_eq!(scene, "donut");
            assert_eq!(theme, "hacker");
        }
        other => panic!("unexpected {other:?}"),
    }
    assert!(matches!(desktop_command(&strings(&["--autostart-disable"])), DesktopCommand::AutostartDisable));
}

#[test]
fn desktop_command_defaults_scene_and_theme() {
    match desktop_command(&strings(&[])) {
        DesktopCommand::Run { scene, theme } => {
            assert_eq!(scene, "donut");
            assert_eq!(theme, Theme::hacker());
        }
        other => panic!("unexpected {other:?}"),
    }
    match desktop_command(&strings(&["life", "ICE"])) {
        DesktopCommand::Run { scene, theme } => {
            assert_eq!(scene, "life");
            assert_eq!(theme, Theme::ice());
        }
        other => panic!("unexpected {other:?}"),
    }
    match desktop_command(&strings(&["pipes", "mauve"])) {
        DesktopCommand::Run { scene, theme } => {
            assert_eq!(scene, "pipes");
            assert_eq!(theme, Theme::hacker());
        }
        other => panic!("unexpected {other:?}"),
    }
}

#[test]
fn image_bands_split_large_images() {
    assert!(image_bands(0, 100).is_empty());
    assert_eq!(image_bands(100, 3), vec![(0, 3)]);
    // 2560 px wide: 10240 bytes a row, 25 rows a band.
    let bands = image_bands(2560, 60);
    assert_eq!(bands, vec![(0, 25), (25, 25), (50, 10)]);
    // Wider than the budget: one row a band.
    assert_eq!(image_bands(u16::MAX, 2), vec![(0, 1), (1, 1)]);
}

#[test]
fn rgba_to_bgra_keeps_alpha() {
    let mut out = vec![9u8; 2];
    windows_shell::rgba_to_bgra(&[1, 2, 3, 4, 5, 6, 7, 8, 9], &mut out);
    assert_eq!(out, vec![3, 2, 1, 4, 7, 6, 5, 8, 0]);
    let mut shrunk = vec![7u8; 12];
    windows_shell::rgba_to_bgra(&[10, 20, 30, 40], &mut shrunk);
    assert_eq!(shrunk, vec![30, 20, 10, 40]);
}

#[test]
fn compose_canvas_pads_the_image_with_background() {
    let bg = ascii_arcade::color::RgbColor::new(10, 20, 30);
    // A 1×1 image (BGRX 1,2,3,0) on a 2×2 surface.
    let c = compose_canvas(2, 2, bg, &[1, 2, 3, 0], 1, 1);
    assert_eq!(c, vec![1, 2, 3, 0, 30, 20, 10, 255, 30, 20, 10, 255, 30, 20, 10, 255]);
    // A zero-sized surface still gets one pixel; a larger image is cut.
    let d = compose_canvas(0, 0, bg, &[1, 2, 3, 0, 5, 6, 7, 0], 2, 1);
    assert_eq!(d, vec![1, 2, 3, 0]);
}

#[test]
fn backend_detection_is_total() {
    assert_eq!(ascii_arcade::linux_shell::backend_for(true), Backend::Wayland);
    assert_eq!(ascii_arcade::linux_shell::backend_for(false), Backend::X11);
}

#[test]
fn every_builtin_id_constructs() {
    for id in builtin_ids() {
        assert!(make(id).is_some(), "make({id}) returned None");
    }
    assert!(make("nope").is_none());
}

#[test]
fn scene_setting_default_index_is_clamped() {
    assert_eq!(default_index(1, 2), 1);
    assert_eq!(default_index(10, 2), 1);
    assert_eq!(default_index(5, 0), 0);
    assert_eq!(default_index(0, 3), 0);
}
