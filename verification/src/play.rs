//! The decisions of the live terminal player: how long a frame lasts, and
//! what each terminal event does (quit, forward keys to an interactive
//! scene, resize the grid, or nothing).

use vstd::prelude::*;

verus! {

/// A key the terminal reported.
#[derive(Clone, Copy, Debug, PartialEq, Eq, Structural)]
pub enum Key {
    Char(char),
    Up,
    Down,
    Left,
    Right,
    Enter,
    Esc,
    Other,
}

/// A terminal event.
#[derive(Clone, Copy, Debug, PartialEq, Eq, Structural)]
pub enum PlayEvent {
    /// A key press, with whether Control was held.
    Key { key: Key, ctrl: bool },
    /// The terminal now has this many columns and rows.
    Resize(u16, u16),
    /// Anything else (mouse, focus, paste).
    Other,
}

/// What the player does with an event.
#[derive(Clone, Debug, PartialEq, Eq)]
pub enum PlayAction {
    /// Stop the scene and leave.
    Quit,
    /// Forward these bytes to the scene.
    Send(Vec<u8>),
    /// Resize the scene's grid to `(columns, rows)`.
    Resize(usize, usize),
    /// Do nothing.
    Ignore,
}

/// Milliseconds per frame at `fps` frames per second (0 counts as 1).
pub fn frame_millis(fps: u32) -> (ms: u64)
    ensures
        ms == 1000int / (if fps < 1 { 1int } else { fps as int }),
{
    let f: u32 = if fps < 1 { 1 } else { fps };
    (1000 / f) as u64
}

/// Whether a key press quits: `q`, Escape, or Control-C.
pub open spec fn is_quit(key: Key, ctrl: bool) -> bool {
    key == Key::Char('q') || key == Key::Esc || (key == Key::Char('c') && ctrl)
}

/// The bytes an interactive scene receives for a key: the ANSI arrow
/// sequences, a newline for Enter, ESC, and single-byte ASCII characters;
/// nothing for anything else.
pub open spec fn key_bytes(key: Key) -> Option<Seq<u8>> {
    match key {
        Key::Up => Some(seq![0x1bu8, 0x5b, 0x41]),
        Key::Down => Some(seq![0x1bu8, 0x5b, 0x42]),
        Key::Right => Some(seq![0x1bu8, 0x5b, 0x43]),
        Key::Left => Some(seq![0x1bu8, 0x5b, 0x44]),
        Key::Enter => Some(seq![0x0au8]),
        Key::Esc => Some(seq![0x1bu8]),
        Key::Char(c) => if (c as u32) < 128 { Some(seq![c as u8]) } else { None },
        Key::Other => None,
    }
}

/// What an event does: quit keys quit; other keys reach an interactive
/// scene as bytes; a resize resizes the grid; everything else is ignored.
pub fn play_action(event: PlayEvent, interactive: bool) -> (a: PlayAction)
    ensures
        match event {
            PlayEvent::Key { key, ctrl } => if is_quit(key, ctrl) {
                a == PlayAction::Quit
            } else if interactive {
                match key_bytes(key) {
                    Some(b) => a matches PlayAction::Send(v) && v@ == b,
                    None => a == PlayAction::Ignore,
                }
            } else {
                a == PlayAction::Ignore
            },
            PlayEvent::Resize(c, r) => a == PlayAction::Resize(c as usize, r as usize),
            PlayEvent::Other => a == PlayAction::Ignore,
        },
{
    match event {
        PlayEvent::Key { key, ctrl } => {
            let quit = match key {
                Key::Char(c) => c == 'q' || (c == 'c' && ctrl),
                Key::Esc => true,
                _ => false,
            };
            if quit {
                return PlayAction::Quit;
            }
            if !interactive {
                return PlayAction::Ignore;
            }
            match key {
                Key::Up => PlayAction::Send(vec![0x1b, 0x5b, 0x41]),
                Key::Down => PlayAction::Send(vec![0x1b, 0x5b, 0x42]),
                Key::Right => PlayAction::Send(vec![0x1b, 0x5b, 0x43]),
                Key::Left => PlayAction::Send(vec![0x1b, 0x5b, 0x44]),
                Key::Enter => PlayAction::Send(vec![0x0a]),
                Key::Esc => PlayAction::Send(vec![0x1b]),
                Key::Char(c) => {
                    if (c as u32) < 128 {
                        PlayAction::Send(vec![c as u8])
                    } else {
                        PlayAction::Ignore
                    }
                },
                Key::Other => PlayAction::Ignore,
            }
        },
        PlayEvent::Resize(c, r) => PlayAction::Resize(c as usize, r as usize),
        PlayEvent::Other => PlayAction::Ignore,
    }
}

} // verus!
