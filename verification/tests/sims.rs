use ascii_arcade::clock::{build_bitmap, draw_clock, hms_of, time_text};
use ascii_arcade::color::RgbColor;
use ascii_arcade::fire::FireBoard;
use ascii_arcade::frame::{Cell, Frame};
use ascii_arcade::life::{logical_dims, LifeBoard};
use ascii_arcade::pipes::{connector, PipesBoard};
use ascii_arcade::play::{frame_millis, play_action, Key, PlayAction, PlayEvent};
use ascii_arcade::rng::SeededRng;
use ascii_arcade::screen::ScreenBuffer;
use ascii_arcade::shapes::{DonutScene, HelixScene};
use ascii_arcade::wire::encode_frame;

fn board(cols: usize, rows: usize, live: &[(usize, usize)]) -> LifeBoard {
    let n = cols * rows;
    let mut alive = vec![false; n];
    for &(x, y) in live {
        alive[y * cols + x] = true;
    }
    LifeBoard {
        cols,
        rows,
        alive,
        age: vec![0; n],
        prev1: vec![true; n],
        prev2: vec![true; n],
        stable_steps: 0,
        rng: SeededRng::new(5),
    }
}

fn live_cells(b: &LifeBoard) -> Vec<(usize, usize)> {
    let mut v = Vec::new();
    for i in 0..b.alive.len() {
        if b.alive[i] {
            v.push((i % b.cols, i / b.cols));
        }
    }
    v
}

#[test]
fn blinker_flips_between_horizontal_and_vertical() {
    let mut b = board(5, 5, &[(1, 2), (2, 2), (3, 2)]);
    b.step();
    assert_eq!(live_cells(&b), vec![(2, 1), (2, 2), (2, 3)]);
    b.step();
    assert_eq!(live_cells(&b), vec![(1, 2), (2, 2), (3, 2)]);
    // The centre cell survived both generations, so it has aged twice.
    assert_eq!(b.age[2 * 5 + 2], 2);
    // Back to the generation before last: the board counts a stall.
    assert_eq!(b.stable_steps, 1);
}

#[test]
fn glider_wraps_round_the_torus() {
    let start = [(1, 0), (2, 1), (0, 2), (1, 2), (2, 2)];
    let mut b = board(6, 6, &start);
    // A glider moves one cell diagonally every four generations; on a 6 × 6
    // torus it is back where it began after 24.
    for _ in 0..24 {
        b.step();
    }
    let mut expected: Vec<(usize, usize)> = start.to_vec();
    expected.sort_by_key(|&(x, y)| (y, x));
    assert_eq!(live_cells(&b), expected);
}

#[test]
fn lone_cell_dies_and_the_board_reseeds() {
    let mut b = board(20, 20, &[(3, 3)]);
    b.step();
    assert!(b.alive.iter().any(|&c| c), "an emptied board is reseeded");
    assert!(b.age.iter().all(|&a| a == 0));
    assert_eq!(b.stable_steps, 0);
}

#[test]
fn seeding_places_live_cells() {
    let mut b = LifeBoard::new();
    b.reset(20, 10);
    assert_eq!(b.alive.len(), 200);
    assert!(b.alive.iter().filter(|&&c| c).count() >= 1);
    let mut c = LifeBoard::new();
    c.reset(20, 10);
    assert_eq!(b.alive, c.alive, "seeding is deterministic");
}

#[test]
fn logical_dims_divide_by_cell_size() {
    assert_eq!(logical_dims(40, 20, 3), (13, 6));
    assert_eq!(logical_dims(2, 2, 3), (1, 1));
    assert_eq!(logical_dims(7, 5, 0), (7, 5));
}

#[test]
fn life_render_paints_blocks_in_age_colours() {
    let mut b = board(2, 2, &[(0, 0), (1, 1)]);
    b.age[3] = 40;
    let palette = vec![RgbColor::new(1, 1, 1), RgbColor::new(2, 2, 2)];
    let f = b.render(5, 4, 2, &palette);
    assert_eq!(f.cells[0], Cell::new('█', Some(RgbColor::new(1, 1, 1))));
    assert_eq!(f.cells[1 * 5 + 1], Cell::new('█', Some(RgbColor::new(1, 1, 1))));
    assert_eq!(f.cells[2 * 5 + 2], Cell::new('█', Some(RgbColor::new(2, 2, 2))));
    assert_eq!(f.cells[3 * 5 + 3], Cell::new('█', Some(RgbColor::new(2, 2, 2))));
    assert_eq!(f.cells[4], Cell::blank(), "column 4 lies past the logical board");
    assert_eq!(f.cells[2], Cell::blank());
}

fn hues() -> Vec<RgbColor> {
    (0..360u32).map(|d| RgbColor::new((d % 256) as u8, (d / 2) as u8, 7)).collect()
}

#[test]
fn connector_joins_sides() {
    assert_eq!(connector(0, 0), '│');
    assert_eq!(connector(1, 1), '─');
    assert_eq!(connector(0, 2), '│');
    assert_eq!(connector(3, 1), '─');
    assert_eq!(connector(2, 1), '┌');
    assert_eq!(connector(1, 2), '┌');
    assert_eq!(connector(3, 2), '┐');
    assert_eq!(connector(0, 1), '└');
    assert_eq!(connector(3, 0), '┘');
}

#[test]
fn pipes_keep_count_of_filled_cells_and_stay_on_the_grid() {
    let mut p = PipesBoard::new(hues());
    p.set_grid(30, 12);
    assert_eq!(p.pipes.len(), 4);
    for _ in 0..200 {
        p.step();
        let filled = p.grid.iter().filter(|&&c| c != ' ').count();
        assert_eq!(p.filled, filled);
        assert!(filled <= 30 * 12 * 55 / 100 + 4);
        for pipe in &p.pipes {
            assert!(pipe.x >= 0 && pipe.x < 30 && pipe.y >= 0 && pipe.y < 12 && pipe.dir < 4);
        }
    }
    let f = p.render();
    for i in 0..f.cells.len() {
        assert_eq!(f.cells[i], Cell::new(p.grid[i], p.colors[i]));
    }
}

#[test]
fn pipes_hues_step_by_47_degrees() {
    let mut p = PipesBoard::new(hues());
    p.set_grid(10, 10);
    let h = hues();
    assert_eq!(p.pipes[0].color, h[0]);
    assert_eq!(p.pipes[1].color, h[47]);
    assert_eq!(p.pipes[2].color, h[94]);
    assert_eq!(p.pipes[3].color, h[141]);
    assert_eq!(p.hue_cursor, 4);
}

#[test]
fn fire_ignites_the_bottom_row_and_stays_in_range() {
    let mut f = FireBoard::new();
    f.set_grid(12, 6);
    assert!(f.heat[5 * 12..].iter().all(|&h| h == 36));
    assert!(f.heat[..5 * 12].iter().all(|&h| h == 0));
    for _ in 0..40 {
        f.step();
        assert!(f.heat.iter().all(|&h| (0..=36).contains(&h)));
    }
    assert!(f.heat[..5 * 12].iter().any(|&h| h > 0), "heat rises");
    f.intensity = 0;
    f.step();
    // The calm bottom row burns at 28; only its first cell can be overwritten
    // by heat drifting in from the row's last cell.
    assert!(f.heat[5 * 12 + 1..].iter().all(|&h| h == 28), "calm fire burns at 28");
    assert!(f.heat[5 * 12] <= 28);
}

#[test]
fn fire_render_maps_heat_to_ramp_and_palette() {
    let mut f = FireBoard::new();
    f.set_grid(3, 1);
    f.heat = vec![0, 36, 12];
    let palette: Vec<RgbColor> = (0..37).map(|i| RgbColor::new(i as u8, 0, 0)).collect();
    let fr = f.render(&palette);
    assert_eq!(fr.cells[0], Cell::blank());
    assert_eq!(fr.cells[1], Cell::new('@', Some(RgbColor::new(36, 0, 0))));
    // 12 * 21 / 36 = 7 → '='.
    assert_eq!(fr.cells[2], Cell::new('=', Some(RgbColor::new(12, 0, 0))));
}

#[test]
fn encode_frame_writes_eight_bytes_per_cell() {
    let mut f = Frame::blank(2, 1);
    f.set(0, 0, Cell::new('A', Some(RgbColor::new(1, 2, 3))));
    f.set(1, 0, Cell::new('█', None));
    let mut out = vec![7u8; 3];
    encode_frame(&f, &mut out);
    assert_eq!(out, vec![0x41, 0, 0, 0, 1, 2, 3, 1, 0x88, 0x25, 0, 0, 0, 0, 0, 0]);
}

#[test]
fn play_events_map_to_actions() {
    assert_eq!(play_action(PlayEvent::Key { key: Key::Char('q'), ctrl: false }, true), PlayAction::Quit);
    assert_eq!(play_action(PlayEvent::Key { key: Key::Esc, ctrl: false }, false), PlayAction::Quit);
    assert_eq!(play_action(PlayEvent::Key { key: Key::Char('c'), ctrl: true }, false), PlayAction::Quit);
    assert_eq!(play_action(PlayEvent::Key { key: Key::Char('c'), ctrl: false }, true), PlayAction::Send(vec![b'c']));
    assert_eq!(play_action(PlayEvent::Key { key: Key::Up, ctrl: false }, true), PlayAction::Send(b"\x1b[A".to_vec()));
    assert_eq!(play_action(PlayEvent::Key { key: Key::Enter, ctrl: false }, true), PlayAction::Send(b"\n".to_vec()));
    assert_eq!(play_action(PlayEvent::Key { key: Key::Char('é'), ctrl: false }, true), PlayAction::Ignore);
    assert_eq!(play_action(PlayEvent::Key { key: Key::Left, ctrl: false }, false), PlayAction::Ignore);
    assert_eq!(play_action(PlayEvent::Resize(100, 40), false), PlayAction::Resize(100, 40));
    assert_eq!(play_action(PlayEvent::Other, true), PlayAction::Ignore);
    assert_eq!(frame_millis(30), 33);
    assert_eq!(frame_millis(0), 1000);
}

#[test]
fn feeding_in_pieces_matches_feeding_at_once() {
    let stream: &[u8] = b"\x1b[;H\x1b[2J\x1b[1m\x1b[38;2;200;0;0m\xe2\x96\x88ab\x1b]2;t\x07\r\ncd\x1b[1;2H\x1b[K\x1b[39mZ";
    let mut whole = ScreenBuffer::new(6, 3);
    whole.feed(stream);
    for split in 0..stream.len() {
        let mut parts = ScreenBuffer::new(6, 3);
        parts.feed(&stream[..split]);
        parts.feed(&stream[split..]);
        assert_eq!(parts.snapshot(), whole.snapshot(), "split at {split}");
        assert_eq!(parts.pending(), whole.pending());
    }
}

#[test]
fn shaded_scenes_ignore_zero_sizes() {
    let mut d = DonutScene::new();
    d.set_grid(0, 7);
    assert_eq!((d.width, d.height), (10, 10));
    d.set_grid(40, 20);
    assert_eq!((d.width, d.height), (40, 20));
    let mut h = HelixScene::new();
    h.set_grid(3, 0);
    assert_eq!((h.width, h.height), (10, 10));
}

fn clock_frame(w: usize, h: usize, seconds: bool, scale: usize) -> Frame {
    let text = time_text(13, 37, 42, seconds);
    draw_clock(w, h, &build_bitmap(&text), scale)
}

#[test]
fn clock_bitmap_rows() {
    let text = time_text(13, 37, 42, true);
    assert_eq!(text, "13:37:42");
    assert_eq!(time_text(7, 5, 0, false), "07:05");
    let rows = build_bitmap(&text);
    assert_eq!(rows.len(), 5);
    assert_eq!(rows[0], " #  ###   ### ###   # # ###");
    assert_eq!(rows[1], "##    # #   #   # # # #   #");
}

#[test]
fn clock_frame_has_correct_dimensions() {
    let f = clock_frame(40, 20, true, 1);
    assert_eq!(f.width, 40);
    assert_eq!(f.height, 20);
    assert_eq!(f.cells.len(), 800);
    assert_eq!(f.text().lines().count(), 20);
}

#[test]
fn renders_block_digits() {
    let f = clock_frame(80, 30, true, 2);
    let blocks = f.cells.iter().filter(|c| c.ch == '█').count();
    assert!(blocks > 50, "clock should draw scaled block digits");
}

#[test]
fn monochrome_cells() {
    let f = clock_frame(80, 30, true, 2);
    assert!(
        f.cells.iter().all(|c| c.color.is_none()),
        "clock is monochrome: cells use the theme colour"
    );
}

#[test]
fn seconds_toggle_changes_width() {
    let with_secs = clock_frame(120, 40, true, 3).text();
    let without_secs = clock_frame(120, 40, false, 4).text();
    assert_ne!(with_secs, without_secs);
}

#[test]
fn deterministic_for_fixed_time() {
    assert_eq!(clock_frame(100, 40, true, 2).text(), clock_frame(100, 40, true, 2).text());
}

#[test]
fn clock_is_centred() {
    // "13:37:42" is 27 pixels wide; at scale 2 on 80 × 30 it spans columns
    // 13..67 and rows 10..20.
    let f = clock_frame(80, 30, true, 2);
    let lit: Vec<(usize, usize)> = (0..f.cells.len())
        .filter(|&i| f.cells[i].ch == '█')
        .map(|i| (i % 80, i / 80))
        .collect();
    assert_eq!(lit.iter().map(|p| p.0).min(), Some(13));
    assert_eq!(lit.iter().map(|p| p.0).max(), Some(66));
    assert_eq!(lit.iter().map(|p| p.1).min(), Some(10));
    assert_eq!(lit.iter().map(|p| p.1).max(), Some(19));
}

#[test]
fn clock_wall_time_from_epoch_seconds() {
    assert_eq!(hms_of(0, 0), (0, 0, 0));
    assert_eq!(hms_of(86_400 + 13 * 3600 + 37 * 60 + 42, 0), (13, 37, 42));
    assert_eq!(hms_of(0, -1), (23, 59, 59));
    assert_eq!(hms_of(3600, 7200), (3, 0, 0));
}

fn fire_palette() -> Vec<RgbColor> {
    (0..37).map(|i| RgbColor::new(i as u8 * 7, i as u8 * 3, 0)).collect()
}

fn fire_after(width: usize, height: usize, steps: usize) -> Frame {
    let mut b = FireBoard::new();
    b.set_grid(width, height);
    b.ensure_started();
    for _ in 0..steps {
        b.step();
    }
    b.render(&fire_palette())
}

#[test]
fn fire_frame_has_correct_dimensions() {
    let f = fire_after(40, 20, 30);
    assert_eq!(f.width, 40);
    assert_eq!(f.height, 20);
    assert_eq!(f.cells.len(), 800);
    assert_eq!(f.text().lines().count(), 20);
}

#[test]
fn renders_some_glyphs_after_settling() {
    let f = fire_after(60, 30, 60);
    let non_blank = f.cells.iter().filter(|c| c.ch != ' ').count();
    assert!(non_blank > 50, "fire should fill a chunk of the grid");
}

#[test]
fn lit_cells_carry_colour() {
    let f = fire_after(40, 20, 40);
    let coloured = f.cells.iter().filter(|c| c.color.is_some()).count();
    assert!(coloured > 0, "fire is a colour scene");
}

#[test]
fn fire_deterministic_for_fixed_seed_and_times() {
    assert_eq!(fire_after(50, 25, 90).text(), fire_after(50, 25, 90).text());
}

fn life_palette() -> Vec<RgbColor> {
    (0..12).map(|a| RgbColor::new(255 - a * 10, 166 - a * 5, 0)).collect()
}

fn life_after(width: usize, height: usize, steps: usize) -> Frame {
    let (cols, rows) = logical_dims(width, height, 3);
    let mut b = LifeBoard::new();
    b.reset(cols, rows);
    for _ in 0..steps {
        b.step();
    }
    b.render(width, height, 3, &life_palette())
}

#[test]
fn life_frame_has_correct_dimensions() {
    let f = life_after(40, 20, 9);
    assert_eq!(f.width, 40);
    assert_eq!(f.height, 20);
    assert_eq!(f.cells.len(), 800);
    assert_eq!(f.text().lines().count(), 20);
}

#[test]
fn seeds_some_live_cells() {
    let f = life_after(80, 40, 0);
    let non_blank = f.cells.iter().filter(|c| c.ch != ' ').count();
    assert!(non_blank > 0, "life should seed classic patterns");
}

#[test]
fn life_deterministic_for_fixed_seed_and_times() {
    assert_eq!(life_after(60, 30, 60).text(), life_after(60, 30, 60).text());
}

fn pipes_after(width: usize, height: usize, steps: usize) -> Frame {
    let mut p = PipesBoard::new(hues());
    p.set_grid(width, height);
    p.ensure_started();
    for _ in 0..steps {
        p.step();
    }
    p.render()
}

#[test]
fn pipes_frame_has_correct_dimensions() {
    let f = pipes_after(40, 20, 30);
    assert_eq!(f.width, 40);
    assert_eq!(f.height, 20);
    assert_eq!(f.cells.len(), 800);
    assert_eq!(f.text().lines().count(), 20);
}

#[test]
fn draws_coloured_segments() {
    let f = pipes_after(60, 30, 60);
    let non_blank = f.cells.iter().filter(|c| c.ch != ' ').count();
    assert!(non_blank > 10, "pipes should draw a weave of segments");
    let coloured = f.cells.iter().filter(|c| c.color.is_some()).count();
    assert!(coloured > 0, "pipes is a colour scene");
}

#[test]
fn pipes_deterministic_for_fixed_seed_and_times() {
    assert_eq!(pipes_after(50, 25, 120).text(), pipes_after(50, 25, 120).text());
}

/// A scene that records what the play loop does to it.
struct MockInteractiveScene {
    keys_received: Vec<Vec<u8>>,
    width: usize,
    height: usize,
    started: bool,
    stopped: bool,
    interactive: bool,
}

impl MockInteractiveScene {
    fn new() -> Self {
        MockInteractiveScene { keys_received: Vec::new(), width: 0, height: 0, started: false, stopped: false, interactive: true }
    }
}

/// The terminal play loop over a fixed list of events: start the scene,
/// draw a frame before each event, act on each event as `play_action`
/// says, and stop on a quit.
fn run_play_loop(
    scene: &mut MockInteractiveScene,
    theme: ascii_arcade::theme::Theme,
    fps: u32,
    cols: usize,
    rows: usize,
    writer: &mut Vec<u8>,
    events: Vec<PlayEvent>,
) -> Result<(), String> {
    assert!(frame_millis(fps) >= 1);
    scene.width = cols;
    scene.height = rows;
    scene.started = true;
    for event in events {
        let frame = Frame::blank(scene.width, scene.height);
        writer.extend_from_slice(ascii_arcade::ansi::frame_to_ansi(&frame, &theme).as_bytes());
        match play_action(event, scene.interactive) {
            PlayAction::Quit => {
                scene.stopped = true;
                return Ok(());
            }
            PlayAction::Send(bytes) => scene.keys_received.push(bytes),
            PlayAction::Resize(c, r) => {
                scene.width = c;
                scene.height = r;
            }
            PlayAction::Ignore => {}
        }
    }
    Err("no more events".into())
}

fn key(key: Key) -> PlayEvent {
    PlayEvent::Key { key, ctrl: false }
}

#[test]
fn run_play_loop_quit_with_q() {
    let mut scene = MockInteractiveScene::new();
    let mut writer = Vec::new();
    let res = run_play_loop(&mut scene, ascii_arcade::theme::Theme::hacker(), 30, 80, 24, &mut writer, vec![key(Key::Char('q'))]);
    assert!(res.is_ok());
    assert!(scene.started);
    assert!(scene.stopped);
    assert!(!writer.is_empty());
}

#[test]
fn run_play_loop_quit_with_esc() {
    let mut scene = MockInteractiveScene::new();
    let mut writer = Vec::new();
    let res = run_play_loop(&mut scene, ascii_arcade::theme::Theme::hacker(), 30, 80, 24, &mut writer, vec![key(Key::Esc)]);
    assert!(res.is_ok());
    assert!(scene.stopped);
}

#[test]
fn run_play_loop_quit_with_ctrl_c() {
    let mut scene = MockInteractiveScene::new();
    let mut writer = Vec::new();
    let events = vec![PlayEvent::Key { key: Key::Char('c'), ctrl: true }];
    let res = run_play_loop(&mut scene, ascii_arcade::theme::Theme::hacker(), 30, 80, 24, &mut writer, events);
    assert!(res.is_ok());
    assert!(scene.stopped);
}

#[test]
fn run_play_loop_handles_interactive_keys_and_resize() {
    let mut scene = MockInteractiveScene::new();
    let mut writer = Vec::new();
    let events = vec![
        PlayEvent::Resize(100, 50),
        key(Key::Up),
        key(Key::Down),
        key(Key::Right),
        key(Key::Left),
        key(Key::Enter),
        key(Key::Char(' ')),
        key(Key::Char('w')),
        key(Key::Char('🦀')), // non-ascii char ignored
        key(Key::Other),      // non-handled key (Tab)
        PlayEvent::Other,     // ignored event (focus gained)
        key(Key::Char('q')),
    ];
    let res = run_play_loop(&mut scene, ascii_arcade::theme::Theme::ice(), 60, 80, 24, &mut writer, events);
    assert!(res.is_ok());
    assert_eq!(scene.width, 100);
    assert_eq!(scene.height, 50);
    assert!(scene.keys_received.contains(&b"\x1b[A".to_vec()));
    assert!(scene.keys_received.contains(&b"\x1b[B".to_vec()));
    assert!(scene.keys_received.contains(&b"\x1b[C".to_vec()));
    assert!(scene.keys_received.contains(&b"\x1b[D".to_vec()));
    assert!(scene.keys_received.contains(&b"\n".to_vec()));
    assert!(scene.keys_received.contains(&b" ".to_vec()));
    assert!(scene.keys_received.contains(&b"w".to_vec()));
    assert_eq!(scene.keys_received.len(), 7);
}

#[test]
fn run_play_loop_non_interactive_scene() {
    let mut scene = MockInteractiveScene::new();
    scene.interactive = false;
    let mut writer = Vec::new();
    let events = vec![key(Key::Up), key(Key::Char('q'))];
    let res = run_play_loop(&mut scene, ascii_arcade::theme::Theme::amber(), 30, 80, 24, &mut writer, events);
    assert!(res.is_ok());
    assert!(scene.keys_received.is_empty());
}
