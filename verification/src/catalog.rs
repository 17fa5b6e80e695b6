//! The scene catalogue: the built-in scene identifiers, which scene an
//! identifier names, and the opt-in gate for DOOM used by the terminal and
//! web front ends.

use vstd::prelude::*;
use vstd::string::StringSliceAdditionalSpecFns;
use crate::text::{push_str, same_text};

verus! {

/// The scenes the engine can run. DOOM carries its `-scaling` factor.
#[derive(Clone, Copy, Debug, PartialEq, Eq, Structural)]
pub enum SceneKind {
    Donut,
    Helix,
    Matrix,
    Pipes,
    Life,
    Doom(usize),
}

/// The identifiers of the built-in scenes, in menu order.
pub fn builtin_ids() -> (ids: Vec<&'static str>)
    ensures
        ids@.len() == 5,
        ids@[0]@ == "donut"@,
        ids@[1]@ == "helix"@,
        ids@[2]@ == "matrix"@,
        ids@[3]@ == "pipes"@,
        ids@[4]@ == "life"@,
{
    vec!["donut", "helix", "matrix", "pipes", "life"]
}

/// The built-in scene an identifier names (DOOM is not built in).
pub open spec fn builtin_kind(id: Seq<u8>) -> Option<SceneKind> {
    if id == "donut".spec_bytes() {
        Some(SceneKind::Donut)
    } else if id == "helix".spec_bytes() {
        Some(SceneKind::Helix)
    } else if id == "matrix".spec_bytes() {
        Some(SceneKind::Matrix)
    } else if id == "pipes".spec_bytes() {
        Some(SceneKind::Pipes)
    } else if id == "life".spec_bytes() {
        Some(SceneKind::Life)
    } else {
        None
    }
}

/// The built-in scene named `id`, or `None` for an unknown identifier.
pub fn make(id: &str) -> (k: Option<SceneKind>)
    ensures
        k == builtin_kind(id.spec_bytes()),
{
    if same_text(id, "donut") {
        Some(SceneKind::Donut)
    } else if same_text(id, "helix") {
        Some(SceneKind::Helix)
    } else if same_text(id, "matrix") {
        Some(SceneKind::Matrix)
    } else if same_text(id, "pipes") {
        Some(SceneKind::Pipes)
    } else if same_text(id, "life") {
        Some(SceneKind::Life)
    } else {
        None
    }
}

/// The message for an unknown scene identifier.
pub open spec fn unknown_scene_message(id: Seq<char>) -> Seq<char> {
    "unknown scene '"@ + id + "'"@
}

/// `unknown scene '<id>'`.
pub fn unknown_scene(id: &str) -> (m: String)
    ensures
        m@ == unknown_scene_message(id@),
{
    let mut m = String::new();
    push_str(&mut m, "unknown scene '");
    push_str(&mut m, id);
    push_str(&mut m, "'");
    m
}

/// Resolve a scene identifier for a front end: `doom` needs the opt-in and
/// then runs at `doom_scaling`; anything else must be a built-in scene.
/// `opt_in_hint` is the front end's message for a refused `doom`.
pub fn resolve_scene(id: &str, enable_doom: bool, doom_scaling: usize, opt_in_hint: &str) -> (r: Result<SceneKind, String>)
    ensures
        id.spec_bytes() == "doom".spec_bytes() && enable_doom ==> r == Ok::<SceneKind, String>(SceneKind::Doom(doom_scaling)),
        id.spec_bytes() == "doom".spec_bytes() && !enable_doom ==> r is Err && r->Err_0@ == opt_in_hint@,
        id.spec_bytes() != "doom".spec_bytes() ==> match builtin_kind(id.spec_bytes()) {
            Some(k) => r == Ok::<SceneKind, String>(k),
            None => r is Err && r->Err_0@ == unknown_scene_message(id@),
        },
{
    if same_text(id, "doom") {
        if !enable_doom {
            let mut m = String::new();
            push_str(&mut m, opt_in_hint);
            return Err(m);
        }
        return Ok(SceneKind::Doom(doom_scaling));
    }
    match make(id) {
        Some(k) => Ok(k),
        None => Err(unknown_scene(id)),
    }
}

/// Resolve a scene for the terminal front end (`aa play`): DOOM needs
/// `--enable-doom` and runs at `doom_scaling`.
pub fn make_scene(id: &str, enable_doom: bool, doom_scaling: usize) -> (r: Result<SceneKind, String>)
    ensures
        id.spec_bytes() == "doom".spec_bytes() && enable_doom ==> r == Ok::<SceneKind, String>(SceneKind::Doom(doom_scaling)),
        id.spec_bytes() == "doom".spec_bytes() && !enable_doom ==> r is Err
            && r->Err_0@ == "DOOM is opt-in — rerun with --enable-doom to play it"@,
        id.spec_bytes() != "doom".spec_bytes() ==> match builtin_kind(id.spec_bytes()) {
            Some(k) => r == Ok::<SceneKind, String>(k),
            None => r is Err && r->Err_0@ == unknown_scene_message(id@),
        },
{
    resolve_scene(id, enable_doom, doom_scaling, "DOOM is opt-in — rerun with --enable-doom to play it")
}

/// The DOOM `-scaling` the web front end uses: a browser's terminal size is
/// not known when the scene is built, so one conservative grid (160 × 50).
pub const WEB_DOOM_SCALING: usize = 4;

/// Resolve a scene for the web front end: DOOM needs `AA_WEB_ENABLE_DOOM=1`
/// and runs at [`WEB_DOOM_SCALING`].
pub fn make_web_scene(id: &str, enable_doom: bool) -> (r: Result<SceneKind, String>)
    ensures
        id.spec_bytes() == "doom".spec_bytes() && enable_doom ==> r == Ok::<SceneKind, String>(SceneKind::Doom(WEB_DOOM_SCALING)),
        id.spec_bytes() == "doom".spec_bytes() && !enable_doom ==> r is Err
            && r->Err_0@ == "DOOM is opt-in — set AA_WEB_ENABLE_DOOM=1 to play it"@,
        id.spec_bytes() != "doom".spec_bytes() ==> match builtin_kind(id.spec_bytes()) {
            Some(k) => r == Ok::<SceneKind, String>(k),
            None => r is Err && r->Err_0@ == unknown_scene_message(id@),
        },
{
    resolve_scene(id, enable_doom, WEB_DOOM_SCALING, "DOOM is opt-in — set AA_WEB_ENABLE_DOOM=1 to play it")
}

/// The web front end's shared state: whether DOOM is unlocked.
#[derive(Clone, Copy, Debug, PartialEq, Eq, Structural)]
pub struct AppState {
    pub enable_doom: bool,
}

/// The scene identifiers a front end lists: the built-ins, then `doom` when
/// unlocked.
pub fn listed_ids(enable_doom: bool) -> (ids: Vec<&'static str>)
    ensures
        ids@.len() == if enable_doom { 6int } else { 5int },
        ids@[0]@ == "donut"@,
        ids@[1]@ == "helix"@,
        ids@[2]@ == "matrix"@,
        ids@[3]@ == "pipes"@,
        ids@[4]@ == "life"@,
        enable_doom ==> ids@[5]@ == "doom"@,
{
    let mut ids = builtin_ids();
    if enable_doom {
        ids.push("doom");
    }
    ids
}

} // verus!
