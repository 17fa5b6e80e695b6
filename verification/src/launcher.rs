//! Where the `doom_ascii` binary and a playable IWAD are looked for, and the
//! argument list and environment it is launched with. The search order is
//! fixed here; which candidates exist on disk is probed by the caller and
//! handed in, one flag per candidate.

use vstd::prelude::*;
use vstd::string::StrSliceExecFns;
use crate::text::{decimal_spec, decimal_string, push_str};

verus! {

/// A process environment as `(name, value)` pairs.
pub type Env = Vec<(String, String)>;

/// The value of the first entry of `env` named `key`.
pub open spec fn env_get(env: Seq<(String, String)>, key: Seq<char>) -> Option<Seq<char>>
    decreases env.len(),
{
    if env.len() == 0 {
        None
    } else if env[0].0@ == key {
        Some(env[0].1@)
    } else {
        env_get(env.drop_first(), key)
    }
}

/// The value of variable `key` in `env`.
pub fn env_lookup(env: &Env, key: &str) -> (r: Option<String>)
    ensures
        match r {
            Some(v) => env_get(env@, key@) == Some(v@),
            None => env_get(env@, key@) is None,
        },
{
    let k = key.to_owned();
    let mut i: usize = 0;
    assert(env@.subrange(0, env@.len() as int) =~= env@);
    while i < env.len()
        invariant
            k@ == key@,
            i <= env@.len(),
            env_get(env@, key@) == env_get(env@.subrange(i as int, env@.len() as int), key@),
        decreases env@.len() - i,
    {
        proof {
            assert(env@.subrange(i as int, env@.len() as int).drop_first() =~= env@.subrange(i + 1, env@.len() as int));
        }
        if env[i].0 == k {
            return Some(env[i].1.clone());
        }
        i += 1;
    }
    None
}

/// `dir` joined with the relative path `name`, with one `/` between them.
pub open spec fn join_spec(dir: Seq<char>, name: Seq<char>) -> Seq<char> {
    if dir.len() == 0 {
        name
    } else if dir.last() == '/' {
        dir + name
    } else {
        dir + seq!['/'] + name
    }
}

/// `dir` joined with the relative path `name`.
pub fn join_path(dir: &str, name: &str) -> (p: String)
    ensures
        p@ == join_spec(dir@, name@),
{
    let mut p = String::new();
    push_str(&mut p, dir);
    let n = dir.unicode_len();
    if n > 0 && dir.get_char(n - 1) != '/' {
        push_str(&mut p, "/");
        proof {
            reveal_strlit("/");
        }
    }
    push_str(&mut p, name);
    p
}

/// The IWADs `doom_ascii` can load, in order of preference.
pub fn iwad_names() -> (v: Vec<&'static str>)
    ensures
        v@.len() == 11,
        forall|k: int| 0 <= k < 11 ==> #[trigger] v@[k]@ == iwad_names_spec()[k],
{
    let v = vec![
        "doom.wad", "doom1.wad", "doom2.wad", "plutonia.wad", "tnt.wad", "chex.wad", "hacx.wad",
        "freedoom1.wad", "freedoom2.wad", "freedoom.wad", "freedm.wad",
    ];
    assert(v@.map_values(|s: &str| s@) =~= iwad_names_spec());
    assert forall|k: int| 0 <= k < 11 implies #[trigger] v@[k]@ == iwad_names_spec()[k] by {
        assert(v@.map_values(|s: &str| s@)[k] == v@[k]@);
    }
    v
}

/// The system directories searched for the binary.
pub fn system_bin_dirs() -> (v: Vec<&'static str>)
    ensures
        v@.len() == 2,
        v@[0]@ == "/usr/local/bin"@,
        v@[1]@ == "/opt/homebrew/bin"@,
{
    vec!["/usr/local/bin", "/opt/homebrew/bin"]
}

/// The system directories searched for an IWAD.
pub fn system_wad_dirs() -> (v: Vec<&'static str>)
    ensures
        v@.len() == 3,
        v@[0]@ == "/opt/homebrew/share/games/doom"@,
        v@[1]@ == "/usr/local/share/games/doom"@,
        v@[2]@ == "/usr/share/games/doom"@,
{
    vec!["/opt/homebrew/share/games/doom", "/usr/local/share/games/doom", "/usr/share/games/doom"]
}

/// The places the binary is looked for, in order: `$DOOM_ASCII_PATH`, then
/// `<cwd>/bin/doom_ascii`, then each system directory.
pub open spec fn binary_candidates_spec(wd: Seq<char>, env: Seq<(String, String)>) -> Seq<Seq<char>> {
    let local = join_spec(join_spec(wd, "bin"@), "doom_ascii"@);
    let system = seq![join_spec("/usr/local/bin"@, "doom_ascii"@), join_spec("/opt/homebrew/bin"@, "doom_ascii"@)];
    match env_get(env, "DOOM_ASCII_PATH"@) {
        Some(p) => seq![p, local] + system,
        None => seq![local] + system,
    }
}

/// The places the binary is looked for, in order.
pub fn binary_candidates(working_directory: &str, env: &Env) -> (v: Vec<String>)
    ensures
        v@.map_values(|s: String| s@) == binary_candidates_spec(working_directory@, env@),
{
    let mut v: Vec<String> = Vec::new();
    if let Some(p) = env_lookup(env, "DOOM_ASCII_PATH") {
        v.push(p);
    }
    let bin = join_path(working_directory, "bin");
    v.push(join_path(bin.as_str(), "doom_ascii"));
    let dirs = system_bin_dirs();
    v.push(join_path(dirs[0], "doom_ascii"));
    v.push(join_path(dirs[1], "doom_ascii"));
    proof {
        assert(v@.map_values(|s: String| s@) =~= binary_candidates_spec(working_directory@, env@));
    }
    v
}

/// The index of the first set flag.
pub fn first_found(found: &Vec<bool>) -> (r: Option<usize>)
    ensures
        match r {
            Some(i) => i < found@.len() && found@[i as int] && forall|j: int| 0 <= j < i ==> !#[trigger] found@[j],
            None => forall|j: int| 0 <= j < found@.len() ==> !#[trigger] found@[j],
        },
{
    let mut i: usize = 0;
    while i < found.len()
        invariant
            i <= found@.len(),
            forall|j: int| 0 <= j < i ==> !#[trigger] found@[j],
        decreases found@.len() - i,
    {
        if found[i] {
            return Some(i);
        }
        i += 1;
    }
    None
}

/// Resolve the binary: the first candidate (see [`binary_candidates`]) that
/// the caller found to be an executable file.
pub fn resolve_binary(working_directory: &str, env: &Env, executable: &Vec<bool>) -> (r: Option<String>)
    requires
        env_wf(env@),
        executable@.len() == binary_candidates_spec(working_directory@, env@).len(),
    ensures
        match r {
            Some(p) => exists|i: int| 0 <= i < executable@.len() && executable@[i]
                && (forall|j: int| 0 <= j < i ==> !#[trigger] executable@[j])
                && p@ == binary_candidates_spec(working_directory@, env@)[i],
            None => forall|j: int| 0 <= j < executable@.len() ==> !#[trigger] executable@[j],
        },
{
    let cands = binary_candidates(working_directory, env);
    match first_found(executable) {
        Some(i) => {
            proof {
                assert(cands@.map_values(|s: String| s@)[i as int] == cands@[i as int]@);
            }
            Some(cands[i].clone())
        },
        None => None,
    }
}

/// Views of the entries of an environment.
pub open spec fn env_view(env: Seq<(String, String)>) -> Seq<(Seq<char>, Seq<char>)> {
    env.map_values(|p: (String, String)| (p.0@, p.1@))
}

/// `e` with `key` set to `value`: the first entry named `key` is replaced in
/// place, otherwise the pair is appended.
pub open spec fn env_set(e: Seq<(Seq<char>, Seq<char>)>, key: Seq<char>, value: Seq<char>) -> Seq<(Seq<char>, Seq<char>)>
    decreases e.len(),
{
    if e.len() == 0 {
        seq![(key, value)]
    } else if e[0].0 == key {
        e.update(0, (key, value))
    } else {
        seq![e[0]] + env_set(e.drop_first(), key, value)
    }
}

/// Setting a variable replaces its first entry, or appends one.
proof fn lemma_env_set(e: Seq<(Seq<char>, Seq<char>)>, key: Seq<char>, value: Seq<char>, i: int)
    requires
        0 <= i <= e.len(),
        forall|j: int| 0 <= j < i ==> e[j].0 != key,
        i < e.len() ==> e[i].0 == key,
    ensures
        env_set(e, key, value) == if i < e.len() { e.update(i, (key, value)) } else { e.push((key, value)) },
    decreases e.len(),
{
    if e.len() > 0 && i > 0 {
        lemma_env_set(e.drop_first(), key, value, i - 1);
        if i < e.len() {
            assert(seq![e[0]] + e.drop_first().update(i - 1, (key, value)) =~= e.update(i, (key, value)));
        } else {
            assert(seq![e[0]] + e.drop_first().push((key, value)) =~= e.push((key, value)));
        }
    }
}

/// No two entries share a name, as in a real process environment.
pub open spec fn keys_distinct(e: Seq<(Seq<char>, Seq<char>)>) -> bool {
    forall|i: int, j: int| 0 <= i < j < e.len() ==> #[trigger] e[i].0 != #[trigger] e[j].0
}

/// The environment is well formed: each variable occurs once.
pub open spec fn env_wf(env: Seq<(String, String)>) -> bool {
    keys_distinct(env_view(env))
}

/// Set variable `key` of `env` to `value` (see [`env_set`]).
pub fn env_insert(env: &mut Env, key: &str, value: String)
    requires
        env_wf(old(env)@),
    ensures
        env_view(final(env)@) == env_set(env_view(old(env)@), key@, value@),
        env_wf(final(env)@),
{
    let k = key.to_owned();
    let ghost e0 = env_view(env@);
    let mut i: usize = 0;
    while i < env.len()
        invariant
            k@ == key@,
            env@ == old(env)@,
            e0 == env_view(env@),
            keys_distinct(e0),
            i <= env@.len(),
            forall|j: int| 0 <= j < i ==> e0[j].0 != key@,
        decreases env@.len() - i,
    {
        if env[i].0 == k {
            proof {
                lemma_env_set(e0, key@, value@, i as int);
            }
            env.set(i, (k, value));
            proof {
                assert(env_view(env@) =~= e0.update(i as int, (key@, value@)));
                assert forall|a: int, b: int| 0 <= a < b < env_view(env@).len() implies
                    #[trigger] env_view(env@)[a].0 != #[trigger] env_view(env@)[b].0 by {
                    assert(env_view(env@)[a].0 == e0[a].0);
                    assert(env_view(env@)[b].0 == e0[b].0);
                    assert(e0[a].0 != e0[b].0);
                }
            }
            return;
        }
        i += 1;
    }
    proof {
        lemma_env_set(e0, key@, value@, env@.len() as int);
    }
    env.push((k, value));
    proof {
        assert(env_view(env@) =~= e0.push((key@, value@)));
        assert forall|a: int, b: int| 0 <= a < b < env_view(env@).len() implies
            #[trigger] env_view(env@)[a].0 != #[trigger] env_view(env@)[b].0 by {
            assert(env_view(env@)[a].0 == e0[a].0);
            if b < e0.len() {
                assert(env_view(env@)[b].0 == e0[b].0);
            }
        }
    }
}

/// The IWAD file names, in order of preference.
pub open spec fn iwad_names_spec() -> Seq<Seq<char>> {
    seq![
        "doom.wad"@, "doom1.wad"@, "doom2.wad"@, "plutonia.wad"@, "tnt.wad"@, "chex.wad"@, "hacx.wad"@,
        "freedoom1.wad"@, "freedoom2.wad"@, "freedoom.wad"@, "freedm.wad"@
    ]
}

/// The directories searched for an IWAD, in order: a non-empty
/// `$DOOM_WAD_DIR`, then `<cwd>/wad`, then the system directories.
pub open spec fn wad_dirs_spec(wd: Seq<char>, env: Seq<(String, String)>) -> Seq<Seq<char>> {
    let rest = seq![
        join_spec(wd, "wad"@),
        "/opt/homebrew/share/games/doom"@,
        "/usr/local/share/games/doom"@,
        "/usr/share/games/doom"@
    ];
    match env_get(env, "DOOM_WAD_DIR"@) {
        Some(d) => if d.len() > 0 { seq![d] + rest } else { rest },
        None => rest,
    }
}

/// Every IWAD path to try, with the directory it is in: each directory in
/// turn, each name in turn.
pub open spec fn iwad_candidates_spec(dirs: Seq<Seq<char>>) -> Seq<(Seq<char>, Seq<char>)>
    decreases dirs.len(),
{
    if dirs.len() == 0 {
        Seq::empty()
    } else {
        iwad_candidates_spec(dirs.drop_last()) + iwad_names_spec().map_values(|n: Seq<char>| (join_spec(dirs.last(), n), dirs.last()))
    }
}

/// The directories searched for an IWAD, in order.
pub fn wad_dirs(working_directory: &str, env: &Env) -> (v: Vec<String>)
    ensures
        v@.map_values(|s: String| s@) == wad_dirs_spec(working_directory@, env@),
{
    let mut v: Vec<String> = Vec::new();
    if let Some(d) = env_lookup(env, "DOOM_WAD_DIR") {
        if d.as_str().unicode_len() > 0 {
            v.push(d);
        }
    }
    v.push(join_path(working_directory, "wad"));
    let sys = system_wad_dirs();
    v.push(sys[0].to_owned());
    v.push(sys[1].to_owned());
    v.push(sys[2].to_owned());
    proof {
        assert(v@.map_values(|s: String| s@) =~= wad_dirs_spec(working_directory@, env@));
    }
    v
}

/// Every IWAD path to try, with its directory (see [`iwad_candidates_spec`]).
pub fn iwad_candidates(working_directory: &str, env: &Env) -> (v: Vec<(String, String)>)
    ensures
        env_view(v@) == iwad_candidates_spec(wad_dirs_spec(working_directory@, env@)),
{
    let dirs = wad_dirs(working_directory, env);
    let ghost ds = dirs@.map_values(|s: String| s@);
    let names = iwad_names();
    let mut v: Vec<(String, String)> = Vec::new();
    let mut d: usize = 0;
    while d < dirs.len()
        invariant
            ds == dirs@.map_values(|s: String| s@),
            names@.len() == 11,
            forall|k: int| 0 <= k < 11 ==> #[trigger] names@[k]@ == iwad_names_spec()[k],
            d <= dirs@.len(),
            env_view(v@) == iwad_candidates_spec(ds.take(d as int)),
        decreases dirs@.len() - d,
    {
        let ghost before = env_view(v@);
        let mut k: usize = 0;
        while k < names.len()
            invariant
                ds == dirs@.map_values(|s: String| s@),
                names@.len() == 11,
                forall|k2: int| 0 <= k2 < 11 ==> #[trigger] names@[k2]@ == iwad_names_spec()[k2],
                d < dirs@.len(),
                k <= 11,
                env_view(v@) == before + iwad_names_spec().take(k as int).map_values(
                    |n: Seq<char>| (join_spec(ds[d as int], n), ds[d as int]),
                ),
            decreases 11 - k,
        {
            let full = join_path(dirs[d].as_str(), names[k]);
            let ghost v_old = v@;
            let ghost entry = (full@, dirs@[d as int]@);
            v.push((full, dirs[d].clone()));
            proof {
                assert(ds[d as int] == dirs@[d as int]@);
                assert(names@[k as int]@ == iwad_names_spec()[k as int]);
                assert(env_view(v@) =~= env_view(v_old).push(entry));
                let f = |n: Seq<char>| (join_spec(ds[d as int], n), ds[d as int]);
                assert(iwad_names_spec().take(k + 1).map_values(f) =~= iwad_names_spec().take(k as int).map_values(f).push(
                    f(iwad_names_spec()[k as int]),
                ));
                assert(env_view(v@) =~= before + iwad_names_spec().take(k + 1).map_values(
                    |n: Seq<char>| (join_spec(ds[d as int], n), ds[d as int]),
                ));
            }
            k += 1;
        }
        proof {
            assert(ds.take(d + 1).drop_last() =~= ds.take(d as int));
            assert(iwad_names_spec().take(11) =~= iwad_names_spec());
        }
        d += 1;
    }
    proof {
        assert(ds.take(dirs@.len() as int) =~= ds);
    }
    v
}

/// Resolve an IWAD: the first candidate (see [`iwad_candidates`]) that the
/// caller found to be a file, with its directory.
pub fn resolve_iwad(working_directory: &str, env: &Env, is_file: &Vec<bool>) -> (r: Option<(String, String)>)
    requires
        env_wf(env@),
        is_file@.len() == iwad_candidates_spec(wad_dirs_spec(working_directory@, env@)).len(),
    ensures
        match r {
            Some(p) => exists|i: int| 0 <= i < is_file@.len() && is_file@[i]
                && (forall|j: int| 0 <= j < i ==> !#[trigger] is_file@[j])
                && (p.0@, p.1@) == iwad_candidates_spec(wad_dirs_spec(working_directory@, env@))[i],
            None => forall|j: int| 0 <= j < is_file@.len() ==> !#[trigger] is_file@[j],
        },
{
    let cands = iwad_candidates(working_directory, env);
    match first_found(is_file) {
        Some(i) => {
            proof {
                assert(env_view(cands@)[i as int] == (cands@[i as int].0@, cands@[i as int].1@));
            }
            Some((cands[i].0.clone(), cands[i].1.clone()))
        },
        None => None,
    }
}

/// The value of a string of decimal digits.
pub open spec fn digits_value(s: Seq<char>) -> int
    decreases s.len(),
{
    if s.len() == 0 {
        0
    } else {
        digits_value(s.drop_last()) * 10 + (s.last() as int - '0' as int)
    }
}

/// Every character is an ASCII digit.
pub open spec fn all_digits(s: Seq<char>) -> bool {
    forall|i: int| 0 <= i < s.len() ==> '0' <= #[trigger] s[i] <= '9'
}

/// The digits of an unsigned number: the text after an optional `+`.
pub open spec fn unsigned_body(s: Seq<char>) -> Seq<char> {
    if s.len() > 0 && s[0] == '+' { s.drop_first() } else { s }
}

/// What `str::parse::<u32>` gives: an optional `+` then one or more decimal
/// digits whose value fits in a `u32`.
pub open spec fn parse_u32_spec(s: Seq<char>) -> Option<u32> {
    let body = unsigned_body(s);
    if body.len() > 0 && all_digits(body) && digits_value(body) <= u32::MAX {
        Some(digits_value(body) as u32)
    } else {
        None
    }
}

/// Digit values never shrink as digits are appended.
pub(crate) proof fn lemma_digits_value_grows(s: Seq<char>, k: int)
    requires
        all_digits(s),
        0 <= k <= s.len(),
    ensures
        0 <= digits_value(s.take(k)) <= digits_value(s),
    decreases s.len() - k,
{
    if k < s.len() {
        lemma_digits_value_grows(s, k + 1);
        assert(s.take(k + 1).drop_last() =~= s.take(k));
        assert(s.take(k + 1).last() == s[k]);
        assert(digits_value(s.take(k)) >= 0) by {
            lemma_digits_value_nonneg(s.take(k));
        }
    } else {
        assert(s.take(k) =~= s);
        lemma_digits_value_nonneg(s);
    }
}

proof fn lemma_digits_value_nonneg(s: Seq<char>)
    requires
        all_digits(s),
    ensures
        digits_value(s) >= 0,
    decreases s.len(),
{
    if s.len() > 0 {
        assert(all_digits(s.drop_last()));
        lemma_digits_value_nonneg(s.drop_last());
    }
}

/// Parse a decimal `u32` the way `str::parse::<u32>` does.
pub fn parse_u32(s: &str) -> (r: Option<u32>)
    ensures
        r == parse_u32_spec(s@),
{
    let n = s.unicode_len();
    if n == 0 {
        return None;
    }
    let start: usize = if s.get_char(0) == '+' { 1 } else { 0 };
    let ghost body = unsigned_body(s@);
    if start == n {
        proof {
            assert(body.len() == 0);
        }
        return None;
    }
    proof {
        assert(body =~= s@.subrange(start as int, n as int));
        assert(body.take(0) =~= Seq::<char>::empty());
    }
    let mut v: u64 = 0;
    let mut i: usize = start;
    while i < n
        invariant
            n == s@.len(),
            start <= i <= n,
            start < n,
            body == s@.subrange(start as int, n as int),
            body == unsigned_body(s@),
            all_digits(body.take(i - start)),
            v == digits_value(body.take(i - start)),
            v <= u32::MAX,
        decreases n - i,
    {
        let c = s.get_char(i);
        if c < '0' || c > '9' {
            proof {
                assert(body[i - start] == c);
                assert(!('0' <= body[i - start] <= '9'));
                assert(!all_digits(body));
            }
            return None;
        }
        let d = (c as u32 - '0' as u32) as u64;
        proof {
            assert(body.take(i - start + 1).drop_last() =~= body.take(i - start));
            assert(body.take(i - start + 1).last() == c);
        }
        v = v * 10 + d;
        proof {
            assert(d as int == c as int - '0' as int);
            assert(v == digits_value(body.take(i - start + 1)));
        }
        if v > 0xFFFF_FFFF {
            proof {
                assert(all_digits(body.take(i - start + 1)));
                if all_digits(body) {
                    lemma_digits_value_grows(body, i - start + 1);
                }
            }
            return None;
        }
        i += 1;
    }
    proof {
        assert(body.take(n - start) =~= body);
    }
    Some(v as u32)
}

/// The index of the first set flag, if any.
pub open spec fn first_true(found: Seq<bool>) -> Option<int>
    decreases found.len(),
{
    if found.len() == 0 {
        None
    } else if found.last() && first_true(found.drop_last()) is None {
        Some(found.len() - 1)
    } else {
        first_true(found.drop_last())
    }
}

/// The gamma `doom_ascii` is launched with: `$DOOM_GAMMA` when it parses,
/// else 2.
pub open spec fn gamma_spec(env: Seq<(String, String)>) -> u32 {
    match env_get(env, "DOOM_GAMMA"@) {
        Some(g) => match parse_u32_spec(g) {
            Some(v) => v,
            None => 2,
        },
        None => 2,
    }
}

/// The launch arguments: block characters, the scaling (at least 1), the
/// gamma correction (capped at 4, left out when 0) and the IWAD when one was
/// found.
pub open spec fn launch_args_spec(scaling: int, env: Seq<(String, String)>, iwad: Option<Seq<char>>) -> Seq<Seq<char>> {
    let n = if scaling < 1 { 1 } else { scaling };
    let g = gamma_spec(env);
    let base = seq!["-chars"@, "block"@, "-scaling"@, decimal_spec(n as nat)];
    let with_gamma = if g > 0 { base + seq!["-fixgamma"@, decimal_spec((if g < 4 { g } else { 4 }) as nat)] } else { base };
    match iwad {
        Some(p) => with_gamma + seq!["-iwad"@, p],
        None => with_gamma,
    }
}

/// The launch environment: the caller's, with `DOOMWADDIR` set to the found
/// IWAD's directory, or else to a non-empty `$DOOM_WAD_DIR`.
pub open spec fn launch_env_spec(env: Seq<(String, String)>, iwad_dir: Option<Seq<char>>) -> Seq<(Seq<char>, Seq<char>)> {
    match iwad_dir {
        Some(d) => env_set(env_view(env), "DOOMWADDIR"@, d),
        None => match env_get(env, "DOOM_WAD_DIR"@) {
            Some(w) => if w.len() > 0 { env_set(env_view(env), "DOOMWADDIR"@, w) } else { env_view(env) },
            None => env_view(env),
        },
    }
}

/// Where to find `doom_ascii` and how to launch it.
pub struct DoomLaunchConfig {
    pub executable: String,
    pub args: Vec<String>,
    pub env: Env,
}

/// The index of the first set flag.
fn first_set(found: &Vec<bool>) -> (r: Option<usize>)
    ensures
        match r {
            Some(i) => first_true(found@) == Some(i as int) && i < found@.len(),
            None => first_true(found@) is None,
        },
{
    let mut i: usize = 0;
    while i < found.len()
        invariant
            i <= found@.len(),
            first_true(found@.take(i as int)) is None,
        decreases found@.len() - i,
    {
        proof {
            assert(found@.take(i + 1).drop_last() =~= found@.take(i as int));
        }
        if found[i] {
            proof {
                lemma_first_true_prefix(found@, i as int);
            }
            return Some(i);
        }
        i += 1;
    }
    proof {
        assert(found@.take(found@.len() as int) =~= found@);
    }
    None
}

/// The first set flag of a sequence is the first set flag of any prefix
/// that contains it.
proof fn lemma_first_true_prefix(found: Seq<bool>, i: int)
    requires
        0 <= i < found.len(),
        found[i],
        first_true(found.take(i)) is None,
    ensures
        first_true(found) == Some(i),
    decreases found.len(),
{
    assert(found.take(i + 1).drop_last() =~= found.take(i));
    if found.len() > i + 1 {
        assert(found.drop_last().take(i) =~= found.take(i));
        lemma_first_true_prefix(found.drop_last(), i);
    } else {
        assert(found.take(i + 1) =~= found);
    }
}

/// A copy of an environment.
fn copy_env(env: &Env) -> (r: Env)
    ensures
        r@ == env@,
{
    let mut r: Env = Vec::new();
    let mut i: usize = 0;
    while i < env.len()
        invariant
            i <= env@.len(),
            r@ == env@.take(i as int),
        decreases env@.len() - i,
    {
        r.push((env[i].0.clone(), env[i].1.clone()));
        proof {
            assert(r@ =~= env@.take(i + 1));
        }
        i += 1;
    }
    proof {
        assert(env@.take(env@.len() as int) =~= env@);
    }
    r
}

/// Resolve a full launch config from the caller's probes of the binary and
/// IWAD candidates: `None` when no binary candidate is executable.
pub fn resolve(working_directory: &str, env: &Env, scaling: usize, executable: &Vec<bool>, is_file: &Vec<bool>) -> (r: Option<DoomLaunchConfig>)
    requires
        env_wf(env@),
        executable@.len() == binary_candidates_spec(working_directory@, env@).len(),
        is_file@.len() == iwad_candidates_spec(wad_dirs_spec(working_directory@, env@)).len(),
    ensures
        match first_true(executable@) {
            None => r is None,
            Some(i) => r is Some && {
                let c = r->0;
                let wads = iwad_candidates_spec(wad_dirs_spec(working_directory@, env@));
                let iwad = match first_true(is_file@) {
                    Some(j) => Some(wads[j]),
                    None => None,
                };
                &&& c.executable@ == binary_candidates_spec(working_directory@, env@)[i]
                &&& c.args@.map_values(|a: String| a@) == launch_args_spec(scaling as int, env@, match iwad {
                    Some(p) => Some(p.0),
                    None => None,
                })
                &&& env_view(c.env@) == launch_env_spec(env@, match iwad {
                    Some(p) => Some(p.1),
                    None => None,
                })
                &&& env_wf(c.env@)
            },
        },
{
    let cands = binary_candidates(working_directory, env);
    let bi = match first_set(executable) {
        Some(i) => i,
        None => return None,
    };
    let exe = cands[bi].clone();
    proof {
        assert(cands@.map_values(|s: String| s@)[bi as int] == cands@[bi as int]@);
    }
    let mut launch_env = copy_env(env);
    let mut args: Vec<String> = Vec::new();
    args.push("-chars".to_owned());
    args.push("block".to_owned());
    let n = if scaling < 1 { 1 } else { scaling };
    args.push("-scaling".to_owned());
    args.push(decimal_string(n as u64));
    let gamma: u32 = match env_lookup(env, "DOOM_GAMMA") {
        Some(g) => match parse_u32(g.as_str()) {
            Some(v) => v,
            None => 2,
        },
        None => 2,
    };
    if gamma > 0 {
        args.push("-fixgamma".to_owned());
        let capped: u32 = if gamma < 4 { gamma } else { 4 };
        args.push(decimal_string(capped as u64));
    }
    let wads = iwad_candidates(working_directory, env);
    match first_set(is_file) {
        Some(j) => {
            proof {
                assert(env_view(wads@)[j as int] == (wads@[j as int].0@, wads@[j as int].1@));
            }
            args.push("-iwad".to_owned());
            args.push(wads[j].0.clone());
            env_insert(&mut launch_env, "DOOMWADDIR", wads[j].1.clone());
        },
        None => {
            if let Some(w) = env_lookup(env, "DOOM_WAD_DIR") {
                if w.as_str().unicode_len() > 0 {
                    env_insert(&mut launch_env, "DOOMWADDIR", w);
                }
            }
        },
    }
    proof {
        let iwad = match first_true(is_file@) {
            Some(j) => Some(iwad_candidates_spec(wad_dirs_spec(working_directory@, env@))[j].0),
            None => None,
        };
        assert(args@.map_values(|a: String| a@) =~= launch_args_spec(scaling as int, env@, iwad));
    }
    Some(DoomLaunchConfig { executable: exe, args, env: launch_env })
}

} // verus!
