//! The `aa` command line: `play`, `run`, `web`, `autostart enable|disable|status`,
//! `scenes` and `themes`, with the scene as an optional positional argument,
//! `--theme`/`-t`, `--fps`, `--port`/`-p`, and the `--enable-doom` switch
//! accepted anywhere.

use vstd::prelude::*;
use vstd::string::StrSliceExecFns;
use crate::launcher::{parse_u32, parse_u32_spec};

verus! {

/// What `aa` was asked to do.
#[derive(Clone, Debug, PartialEq, Eq)]
pub enum Command {
    Play { scene: String, theme: String, fps: u32 },
    Run { scene: String, theme: String },
    Web { scene: String, theme: String, port: u16 },
    Autostart { action: AutostartAction },
    Scenes,
    Themes,
}

/// The `autostart` actions.
#[derive(Clone, Debug, PartialEq, Eq)]
pub enum AutostartAction {
    Enable { scene: String, theme: String },
    Disable,
    Status,
}

/// A parsed command line.
#[derive(Clone, Debug, PartialEq, Eq)]
pub struct Cli {
    pub command: Command,
    pub enable_doom: bool,
}

/// A command with its texts as character sequences.
pub enum CommandView {
    Play(Seq<char>, Seq<char>, u32),
    Run(Seq<char>, Seq<char>),
    Web(Seq<char>, Seq<char>, u16),
    Enable(Seq<char>, Seq<char>),
    Disable,
    Status,
    Scenes,
    Themes,
}

/// The view of a command.
pub open spec fn command_view(c: Command) -> CommandView {
    match c {
        Command::Play { scene, theme, fps } => CommandView::Play(scene@, theme@, fps),
        Command::Run { scene, theme } => CommandView::Run(scene@, theme@),
        Command::Web { scene, theme, port } => CommandView::Web(scene@, theme@, port),
        Command::Autostart { action } => match action {
            AutostartAction::Enable { scene, theme } => CommandView::Enable(scene@, theme@),
            AutostartAction::Disable => CommandView::Disable,
            AutostartAction::Status => CommandView::Status,
        },
        Command::Scenes => CommandView::Scenes,
        Command::Themes => CommandView::Themes,
    }
}

/// Which options a subcommand takes: a scene, `--theme`, and which number
/// option (0 none, 1 `--fps`, 2 `--port`/`-p`).
#[derive(Clone, Copy)]
pub struct Grammar {
    pub scene: bool,
    pub theme: bool,
    pub number: u8,
}

/// A token that reads as an option: a dash followed by something.
pub open spec fn is_flag(t: Seq<char>) -> bool {
    t.len() >= 2 && t[0] == '-'
}

/// The scene, theme and number texts gathered so far.
pub type Found = (Option<Seq<char>>, Option<Seq<char>>, Option<Seq<char>>);

/// Which option a token names, and the value attached to it (after `=`, or
/// after the short letter): 1 theme, 2 number, 0 none.
pub open spec fn option_of(t: Seq<char>, g: Grammar) -> (int, Option<Seq<char>>) {
    if g.theme && (t == "--theme"@ || t == "-t"@) {
        (1, None)
    } else if g.theme && t.len() > 8 && t.take(8) == "--theme="@ {
        (1, Some(t.skip(8)))
    } else if g.theme && t.len() > 2 && t.take(2) == "-t"@ {
        (1, Some(if t[2] == '=' { t.skip(3) } else { t.skip(2) }))
    } else if g.number == 1 && t == "--fps"@ {
        (2, None)
    } else if g.number == 1 && t.len() > 6 && t.take(6) == "--fps="@ {
        (2, Some(t.skip(6)))
    } else if g.number == 2 && (t == "--port"@ || t == "-p"@) {
        (2, None)
    } else if g.number == 2 && t.len() > 7 && t.take(7) == "--port="@ {
        (2, Some(t.skip(7)))
    } else if g.number == 2 && t.len() > 2 && t.take(2) == "-p"@ {
        (2, Some(if t[2] == '=' { t.skip(3) } else { t.skip(2) }))
    } else {
        (0, None)
    }
}

/// `found` with option `which` set to `v`, or `None` if it was already set.
pub open spec fn set_found(found: Found, which: int, v: Seq<char>) -> Option<Found> {
    if which == 1 {
        if found.1 is Some { None } else { Some((found.0, Some(v), found.2)) }
    } else {
        if found.2 is Some { None } else { Some((found.0, found.1, Some(v))) }
    }
}

/// Scan the subcommand's tokens from `i` on: options take their value from
/// the same token or the next one; one positional argument is the scene;
/// after `--` every token is positional. `None` on an unknown option, a
/// missing value, a repeated option or an extra positional argument.
pub open spec fn scan(ts: Seq<Seq<char>>, i: int, found: Found, g: Grammar, raw: bool) -> Option<Found>
    decreases ts.len() - i,
{
    if i < 0 || i >= ts.len() {
        Some(found)
    } else {
        let t = ts[i];
        if !raw && t == "--"@ {
            scan(ts, i + 1, found, g, true)
        } else if !raw && is_flag(t) {
            let (which, attached) = option_of(t, g);
            if which == 0 {
                None
            } else {
                match attached {
                    Some(v) => match set_found(found, which, v) {
                        Some(f) => scan(ts, i + 1, f, g, raw),
                        None => None,
                    },
                    None => if i + 1 < ts.len() && !is_flag(ts[i + 1]) {
                        match set_found(found, which, ts[i + 1]) {
                            Some(f) => scan(ts, i + 2, f, g, raw),
                            None => None,
                        }
                    } else {
                        None
                    },
                }
            }
        } else if g.scene && found.0 is None {
            scan(ts, i + 1, (Some(t), found.1, found.2), g, raw)
        } else {
            None
        }
    }
}

/// Whether two strings hold the same characters.
pub fn same_chars(a: &str, b: &str) -> (r: bool)
    ensures
        r == (a@ == b@),
{
    let n = a.unicode_len();
    if n != b.unicode_len() {
        return false;
    }
    let mut i: usize = 0;
    while i < n
        invariant
            n == a@.len(),
            n == b@.len(),
            i <= n,
            forall|j: int| 0 <= j < i ==> a@[j] == b@[j],
        decreases n - i,
    {
        if a.get_char(i) != b.get_char(i) {
            return false;
        }
        i += 1;
    }
    assert(a@ =~= b@);
    true
}

/// Whether `t` is longer than `p` and starts with it.
fn extends(t: &str, p: &str) -> (r: bool)
    ensures
        r == (t@.len() > p@.len() && t@.take(p@.len() as int) == p@),
{
    let n = t.unicode_len();
    let m = p.unicode_len();
    if n <= m {
        return false;
    }
    let mut i: usize = 0;
    while i < m
        invariant
            n == t@.len(),
            m == p@.len(),
            m < n,
            i <= m,
            forall|j: int| 0 <= j < i ==> t@[j] == p@[j],
        decreases m - i,
    {
        if t.get_char(i) != p.get_char(i) {
            assert(t@.take(m as int)[i as int] == t@[i as int]);
            return false;
        }
        i += 1;
    }
    assert(t@.take(m as int) =~= p@);
    true
}

/// Whether a token reads as an option.
fn flag_like(t: &str) -> (r: bool)
    ensures
        r == is_flag(t@),
{
    let n = t.unicode_len();
    n >= 2 && t.get_char(0) == '-'
}

/// `t` from character `k` on, as an owned string.
fn tail_from(t: &str, k: usize) -> (r: String)
    requires
        k <= t@.len(),
    ensures
        r@ == t@.skip(k as int),
{
    let n = t.unicode_len();
    let s = t.substring_char(k, n);
    proof {
        assert(t@.subrange(k as int, n as int) =~= t@.skip(k as int));
    }
    s.to_owned()
}

/// Which option token `t` names under grammar `g` (see [`option_of`]).
fn classify(t: &str, g: Grammar) -> (r: (u8, Option<String>))
    ensures
        r.0 as int == option_of(t@, g).0,
        match r.1 {
            Some(v) => option_of(t@, g).1 == Some(v@),
            None => option_of(t@, g).1 is None,
        },
{
    proof {
        reveal_strlit("--theme");
        reveal_strlit("-t");
        reveal_strlit("--theme=");
        reveal_strlit("--fps");
        reveal_strlit("--fps=");
        reveal_strlit("--port");
        reveal_strlit("-p");
        reveal_strlit("--port=");
    }
    if g.theme && (same_chars(t, "--theme") || same_chars(t, "-t")) {
        (1, None)
    } else if g.theme && extends(t, "--theme=") {
        (1, Some(tail_from(t, 8)))
    } else if g.theme && extends(t, "-t") {
        let k: usize = if t.get_char(2) == '=' { 3 } else { 2 };
        (1, Some(tail_from(t, k)))
    } else if g.number == 1 && same_chars(t, "--fps") {
        (2, None)
    } else if g.number == 1 && extends(t, "--fps=") {
        (2, Some(tail_from(t, 6)))
    } else if g.number == 2 && (same_chars(t, "--port") || same_chars(t, "-p")) {
        (2, None)
    } else if g.number == 2 && extends(t, "--port=") {
        (2, Some(tail_from(t, 7)))
    } else if g.number == 2 && extends(t, "-p") {
        let k: usize = if t.get_char(2) == '=' { 3 } else { 2 };
        (2, Some(tail_from(t, k)))
    } else {
        (0, None)
    }
}

/// The view of gathered texts.
pub open spec fn found_view(f: (Option<String>, Option<String>, Option<String>)) -> Found {
    (
        match f.0 { Some(s) => Some(s@), None => None },
        match f.1 { Some(s) => Some(s@), None => None },
        match f.2 { Some(s) => Some(s@), None => None },
    )
}

/// Scan a subcommand's tokens (see [`scan`]).
fn scan_tokens(ts: &Vec<&str>, start: usize, g: Grammar) -> (r: Option<(Option<String>, Option<String>, Option<String>)>)
    requires
        start <= ts@.len(),
    ensures
        match r {
            Some(f) => scan(ts@.map_values(|s: &str| s@), start as int, (None, None, None), g, false) == Some(found_view(f)),
            None => scan(ts@.map_values(|s: &str| s@), start as int, (None, None, None), g, false) is None,
        },
{
    let ghost tv = ts@.map_values(|s: &str| s@);
    let mut found: (Option<String>, Option<String>, Option<String>) = (None, None, None);
    let mut raw = false;
    let mut i = start;
    proof {
        reveal_strlit("--");
    }
    while i < ts.len()
        invariant
            tv == ts@.map_values(|s: &str| s@),
            start <= i <= ts@.len(),
            scan(tv, start as int, (None, None, None), g, false) == scan(tv, i as int, found_view(found), g, raw),
        decreases ts@.len() - i,
    {
        let t = ts[i];
        proof {
            assert(tv[i as int] == t@);
        }
        if !raw && same_chars(t, "--") {
            raw = true;
            i += 1;
        } else if !raw && flag_like(t) {
            let (which, attached) = classify(t, g);
            if which == 0 {
                return None;
            }
            let value: String = match attached {
                Some(v) => {
                    i += 1;
                    v
                },
                None => {
                    if i + 1 < ts.len() && !flag_like(ts[i + 1]) {
                        proof {
                            assert(tv[i + 1] == ts@[i + 1]@);
                        }
                        let v = ts[i + 1].to_owned();
                        i += 2;
                        v
                    } else {
                        return None;
                    }
                },
            };
            if which == 1 {
                if found.1.is_some() {
                    return None;
                }
                found.1 = Some(value);
            } else {
                if found.2.is_some() {
                    return None;
                }
                found.2 = Some(value);
            }
        } else if g.scene && found.0.is_none() {
            found.0 = Some(t.to_owned());
            i += 1;
        } else {
            return None;
        }
    }
    Some(found)
}

/// The tokens other than `--enable-doom`.
pub open spec fn without_doom(ts: Seq<Seq<char>>) -> Seq<Seq<char>>
    decreases ts.len(),
{
    if ts.len() == 0 {
        Seq::empty()
    } else {
        let r = without_doom(ts.drop_last());
        if ts.last() == "--enable-doom"@ { r } else { r.push(ts.last()) }
    }
}

/// How many tokens are `--enable-doom`.
pub open spec fn doom_count(ts: Seq<Seq<char>>) -> int
    decreases ts.len(),
{
    if ts.len() == 0 {
        0
    } else {
        doom_count(ts.drop_last()) + if ts.last() == "--enable-doom"@ { 1int } else { 0 }
    }
}

/// The scene and theme texts with their defaults.
pub open spec fn or_default(v: Option<Seq<char>>, d: Seq<char>) -> Seq<char> {
    match v {
        Some(s) => s,
        None => d,
    }
}

/// The grammar of a subcommand that takes a scene, `--theme` and the given
/// number option.
pub open spec fn grammar(scene: bool, theme: bool, number: u8) -> Grammar {
    Grammar { scene, theme, number }
}

/// What `aa` makes of its arguments (the first is the program name): the
/// command and whether `--enable-doom` was given; `None` when the arguments
/// are not a valid command line.
pub open spec fn parse_spec(args: Seq<Seq<char>>) -> Option<(CommandView, bool)> {
    if args.len() == 0 {
        None
    } else {
        let body = args.drop_first();
        let n = doom_count(body);
        let rest = without_doom(body);
        let flag = n == 1;
        if n > 1 || rest.len() == 0 {
            None
        } else {
            let sub = rest[0];
            let none3: Found = (None, None, None);
            if sub == "play"@ {
                match scan(rest, 1, none3, grammar(true, true, 1), false) {
                    Some(f) => {
                        let fps = match f.2 {
                            Some(t) => parse_u32_spec(t),
                            None => Some(30u32),
                        };
                        match fps {
                            Some(v) => Some((CommandView::Play(or_default(f.0, "donut"@), or_default(f.1, "hacker"@), v), flag)),
                            None => None,
                        }
                    },
                    None => None,
                }
            } else if sub == "run"@ {
                match scan(rest, 1, none3, grammar(true, true, 0), false) {
                    Some(f) => Some((CommandView::Run(or_default(f.0, "donut"@), or_default(f.1, "hacker"@)), flag)),
                    None => None,
                }
            } else if sub == "web"@ {
                match scan(rest, 1, none3, grammar(true, true, 2), false) {
                    Some(f) => {
                        let port = match f.2 {
                            Some(t) => match parse_u32_spec(t) {
                                Some(v) => if v <= 65535 { Some(v as u16) } else { None },
                                None => None,
                            },
                            None => Some(8788u16),
                        };
                        match port {
                            Some(p) => Some((CommandView::Web(or_default(f.0, "donut"@), or_default(f.1, "hacker"@), p), flag)),
                            None => None,
                        }
                    },
                    None => None,
                }
            } else if sub == "autostart"@ {
                if rest.len() < 2 {
                    None
                } else if rest[1] == "enable"@ {
                    match scan(rest, 2, none3, grammar(true, true, 0), false) {
                        Some(f) => Some((CommandView::Enable(or_default(f.0, "donut"@), or_default(f.1, "hacker"@)), flag)),
                        None => None,
                    }
                } else if rest[1] == "disable"@ {
                    if scan(rest, 2, none3, grammar(false, false, 0), false) is Some { Some((CommandView::Disable, flag)) } else { None }
                } else if rest[1] == "status"@ {
                    if scan(rest, 2, none3, grammar(false, false, 0), false) is Some { Some((CommandView::Status, flag)) } else { None }
                } else {
                    None
                }
            } else if sub == "scenes"@ {
                if scan(rest, 1, none3, grammar(false, false, 0), false) is Some { Some((CommandView::Scenes, flag)) } else { None }
            } else if sub == "themes"@ {
                if scan(rest, 1, none3, grammar(false, false, 0), false) is Some { Some((CommandView::Themes, flag)) } else { None }
            } else {
                None
            }
        }
    }
}

/// `v` or the default text.
fn text_or(v: Option<String>, d: &str) -> (r: String)
    ensures
        r@ == match v {
            Some(s) => s@,
            None => d@,
        },
{
    match v {
        Some(s) => s,
        None => d.to_owned(),
    }
}

/// Why a command line gives no command.
#[derive(Clone, Debug, PartialEq, Eq)]
pub enum CliError {
    /// Help was asked for (`-h`, `--help` or `help`): show the usage and
    /// succeed.
    Help,
    /// The version was asked for (`-V` or `--version` before the command):
    /// show it and succeed.
    Version,
    /// The arguments are not a valid command line.
    Invalid(String),
}

/// The version is asked for: the first argument after the program name,
/// `--enable-doom` aside, is `-V` or `--version`.
pub open spec fn version_spec(args: Seq<Seq<char>>) -> bool {
    let rest = without_doom(args.drop_first());
    args.len() > 0 && rest.len() > 0 && (rest[0] == "-V"@ || rest[0] == "--version"@)
}

/// `t` asks for help.
pub open spec fn is_help_flag(t: Seq<char>) -> bool {
    t == "-h"@ || t == "--help"@
}

/// Help is asked for: the command is `help`, or `-h`/`--help` comes before
/// any `--` (`--enable-doom` aside).
pub open spec fn help_spec(args: Seq<Seq<char>>) -> bool {
    let rest = without_doom(args.drop_first());
    args.len() > 0 && ((rest.len() > 0 && rest[0] == "help"@) || exists|i: int|
        0 <= i < rest.len() && is_help_flag(#[trigger] rest[i]) && forall|j: int| 0 <= j < i ==> rest[j] != "--"@)
}

/// The arguments other than `--enable-doom`, after the program name.
fn other_args<'a>(args: &[&'a str]) -> (rest: Vec<&'a str>)
    requires
        args@.len() > 0,
    ensures
        rest@.map_values(|s: &str| s@) == without_doom(args@.map_values(|s: &str| s@).drop_first()),
{
    let ghost av = args@.map_values(|s: &str| s@);
    let ghost body = av.drop_first();
    let mut rest: Vec<&str> = Vec::new();
    let mut i: usize = 1;
    proof {
        assert(body.take(0) =~= Seq::<Seq<char>>::empty());
    }
    while i < args.len()
        invariant
            av == args@.map_values(|s: &str| s@),
            body == av.drop_first(),
            1 <= i <= args@.len(),
            rest@.map_values(|s: &str| s@) == without_doom(body.take(i - 1)),
        decreases args@.len() - i,
    {
        let t = args[i];
        proof {
            assert(body.take(i as int).drop_last() =~= body.take(i - 1));
            assert(body.take(i as int).last() == t@);
        }
        if !same_chars(t, "--enable-doom") {
            rest.push(t);
            proof {
                assert(rest@.map_values(|s: &str| s@) =~= without_doom(body.take(i - 1)).push(t@));
            }
        }
        i += 1;
    }
    proof {
        assert(body.take(args@.len() - 1) =~= body);
    }
    rest
}

/// Whether the command line asks for the version or for help.
fn asks_help_or_version(args: &[&str]) -> (r: Option<CliError>)
    ensures
        version_spec(args@.map_values(|s: &str| s@)) ==> r == Some(CliError::Version),
        !version_spec(args@.map_values(|s: &str| s@)) && help_spec(args@.map_values(|s: &str| s@))
            ==> r == Some(CliError::Help),
        !version_spec(args@.map_values(|s: &str| s@)) && !help_spec(args@.map_values(|s: &str| s@))
            ==> r is None,
{
    if args.len() == 0 {
        return None;
    }
    let rest = other_args(args);
    let ghost rv = rest@.map_values(|s: &str| s@);
    let ghost av = args@.map_values(|s: &str| s@);
    proof {
        reveal_strlit("-V");
        reveal_strlit("--version");
        reveal_strlit("help");
        reveal_strlit("-h");
        reveal_strlit("--help");
        reveal_strlit("--");
    }
    if rest.len() == 0 {
        return None;
    }
    proof {
        assert(rv[0] == rest@[0]@);
    }
    if same_chars(rest[0], "-V") || same_chars(rest[0], "--version") {
        return Some(CliError::Version);
    }
    if same_chars(rest[0], "help") {
        return Some(CliError::Help);
    }
    let mut i: usize = 0;
    while i < rest.len()
        invariant
            rv == rest@.map_values(|s: &str| s@),
            rv == without_doom(av.drop_first()),
            av == args@.map_values(|s: &str| s@),
            av.len() > 0,
            rv.len() > 0,
            !version_spec(av),
            rv[0] != "help"@,
            i <= rest@.len(),
            forall|j: int| 0 <= j < i ==> rv[j] != "--"@ && !is_help_flag(#[trigger] rv[j]),
        decreases rest@.len() - i,
    {
        let t = rest[i];
        proof {
            assert(rv[i as int] == t@);
        }
        if same_chars(t, "-h") || same_chars(t, "--help") {
            proof {
                assert(is_help_flag(rv[i as int]));
                assert(forall|j: int| 0 <= j < i ==> rv[j] != "--"@);
                assert(help_spec(av));
            }
            return Some(CliError::Help);
        }
        if same_chars(t, "--") {
            proof {
                assert forall|k: int| 0 <= k < rv.len() && is_help_flag(#[trigger] rv[k]) implies
                    !(forall|j: int| 0 <= j < k ==> rv[j] != "--"@) by {
                    if k <= i {
                        assert(k != i);
                    } else {
                        assert(rv[i as int] == "--"@);
                    }
                }
            }
            return None;
        }
        i += 1;
    }
    None
}

impl Cli {
    /// Parse a command line (the first argument is the program name): the
    /// version or help when asked for, else the command, else why not.
    pub fn try_parse_from(args: &[&str]) -> (r: Result<Cli, CliError>)
        ensures
            version_spec(args@.map_values(|s: &str| s@)) ==> r == Err::<Cli, CliError>(CliError::Version),
            !version_spec(args@.map_values(|s: &str| s@)) && help_spec(args@.map_values(|s: &str| s@))
                ==> r == Err::<Cli, CliError>(CliError::Help),
            !version_spec(args@.map_values(|s: &str| s@)) && !help_spec(args@.map_values(|s: &str| s@))
                ==> match r {
                Ok(c) => parse_spec(args@.map_values(|s: &str| s@)) == Some((command_view(c.command), c.enable_doom)),
                Err(e) => e is Invalid && parse_spec(args@.map_values(|s: &str| s@)) is None,
            },
    {
        match asks_help_or_version(args) {
            Some(e) => Err(e),
            None => match Cli::parse_command(args) {
                Ok(c) => Ok(c),
                Err(m) => Err(CliError::Invalid(m)),
            },
        }
    }

    /// The command a command line gives, if it is a valid one.
    fn parse_command(args: &[&str]) -> (r: Result<Cli, String>)
        ensures
            match r {
                Ok(c) => parse_spec(args@.map_values(|s: &str| s@)) == Some((command_view(c.command), c.enable_doom)),
                Err(_) => parse_spec(args@.map_values(|s: &str| s@)) is None,
            },
    {
        let ghost av = args@.map_values(|s: &str| s@);
        if args.len() == 0 {
            return Err("missing program name".to_owned());
        }
        let ghost body = av.drop_first();
        let mut rest: Vec<&str> = Vec::new();
        let mut count: usize = 0;
        let mut i: usize = 1;
        proof {
            reveal_strlit("--enable-doom");
            assert(body.take(0) =~= Seq::<Seq<char>>::empty());
        }
        while i < args.len()
            invariant
                av == args@.map_values(|s: &str| s@),
                body == av.drop_first(),
                1 <= i <= args@.len(),
                rest@.map_values(|s: &str| s@) == without_doom(body.take(i - 1)),
                count == doom_count(body.take(i - 1)),
                count <= i,
            decreases args@.len() - i,
        {
            let t = args[i];
            proof {
                assert(body.take(i as int).drop_last() =~= body.take(i - 1));
                assert(body.take(i as int).last() == t@);
            }
            if same_chars(t, "--enable-doom") {
                count += 1;
            } else {
                rest.push(t);
                proof {
                    assert(rest@.map_values(|s: &str| s@) =~= without_doom(body.take(i - 1)).push(t@));
                }
            }
            i += 1;
        }
        proof {
            assert(body.take(args@.len() - 1) =~= body);
        }
        let ghost rv = rest@.map_values(|s: &str| s@);
        if count > 1 || rest.len() == 0 {
            return Err("expected one subcommand and at most one --enable-doom".to_owned());
        }
        let flag = count == 1;
        let sub = rest[0];
        proof {
            assert(rv[0] == sub@);
            reveal_strlit("play");
            reveal_strlit("run");
            reveal_strlit("web");
            reveal_strlit("autostart");
            reveal_strlit("enable");
            reveal_strlit("disable");
            reveal_strlit("status");
            reveal_strlit("scenes");
            reveal_strlit("themes");
        }
        let bad = "invalid arguments";
        if same_chars(sub, "play") {
            match scan_tokens(&rest, 1, Grammar { scene: true, theme: true, number: 1 }) {
                Some((sc, th, num)) => {
                    let fps: u32 = match num {
                        Some(t) => match parse_u32(t.as_str()) {
                            Some(v) => v,
                            None => return Err(bad.to_owned()),
                        },
                        None => 30,
                    };
                    Ok(Cli { command: Command::Play { scene: text_or(sc, "donut"), theme: text_or(th, "hacker"), fps }, enable_doom: flag })
                },
                None => Err(bad.to_owned()),
            }
        } else if same_chars(sub, "run") {
            match scan_tokens(&rest, 1, Grammar { scene: true, theme: true, number: 0 }) {
                Some((sc, th, _)) => Ok(Cli { command: Command::Run { scene: text_or(sc, "donut"), theme: text_or(th, "hacker") }, enable_doom: flag }),
                None => Err(bad.to_owned()),
            }
        } else if same_chars(sub, "web") {
            match scan_tokens(&rest, 1, Grammar { scene: true, theme: true, number: 2 }) {
                Some((sc, th, num)) => {
                    let port: u16 = match num {
                        Some(t) => match parse_u32(t.as_str()) {
                            Some(v) => if v <= 65535 { v as u16 } else { return Err(bad.to_owned()) },
                            None => return Err(bad.to_owned()),
                        },
                        None => 8788,
                    };
                    Ok(Cli { command: Command::Web { scene: text_or(sc, "donut"), theme: text_or(th, "hacker"), port }, enable_doom: flag })
                },
                None => Err(bad.to_owned()),
            }
        } else if same_chars(sub, "autostart") {
            if rest.len() < 2 {
                return Err(bad.to_owned());
            }
            let action = rest[1];
            proof {
                assert(rv[1] == action@);
            }
            if same_chars(action, "enable") {
                match scan_tokens(&rest, 2, Grammar { scene: true, theme: true, number: 0 }) {
                    Some((sc, th, _)) => Ok(Cli {
                        command: Command::Autostart { action: AutostartAction::Enable { scene: text_or(sc, "donut"), theme: text_or(th, "hacker") } },
                        enable_doom: flag,
                    }),
                    None => Err(bad.to_owned()),
                }
            } else if same_chars(action, "disable") {
                match scan_tokens(&rest, 2, Grammar { scene: false, theme: false, number: 0 }) {
                    Some(_) => Ok(Cli { command: Command::Autostart { action: AutostartAction::Disable }, enable_doom: flag }),
                    None => Err(bad.to_owned()),
                }
            } else if same_chars(action, "status") {
                match scan_tokens(&rest, 2, Grammar { scene: false, theme: false, number: 0 }) {
                    Some(_) => Ok(Cli { command: Command::Autostart { action: AutostartAction::Status }, enable_doom: flag }),
                    None => Err(bad.to_owned()),
                }
            } else {
                Err(bad.to_owned())
            }
        } else if same_chars(sub, "scenes") {
            match scan_tokens(&rest, 1, Grammar { scene: false, theme: false, number: 0 }) {
                Some(_) => Ok(Cli { command: Command::Scenes, enable_doom: flag }),
                None => Err(bad.to_owned()),
            }
        } else if same_chars(sub, "themes") {
            match scan_tokens(&rest, 1, Grammar { scene: false, theme: false, number: 0 }) {
                Some(_) => Ok(Cli { command: Command::Themes, enable_doom: flag }),
                None => Err(bad.to_owned()),
            }
        } else {
            Err(bad.to_owned())
        }
    }
}

} // verus!
