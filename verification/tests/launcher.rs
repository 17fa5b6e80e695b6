use ascii_arcade::launcher::{
    binary_candidates, env_lookup, iwad_candidates, join_path, parse_u32, resolve, resolve_binary, resolve_iwad, Env,
};

fn env(pairs: &[(&str, &str)]) -> Env {
    pairs.iter().map(|(k, v)| (k.to_string(), v.to_string())).collect()
}

fn only(n: usize, k: usize) -> Vec<bool> {
    (0..n).map(|i| i == k).collect()
}

#[test]
fn join_path_inserts_one_separator() {
    assert_eq!(join_path("", "bin"), "bin");
    assert_eq!(join_path("/tmp/", "bin"), "/tmp/bin");
    assert_eq!(join_path("/tmp", "bin"), "/tmp/bin");
}

#[test]
fn parse_u32_matches_str_parse() {
    for s in ["0", "42", "+7", "", "+", "-1", "12a", "4294967295", "4294967296", "007", " 1"] {
        assert_eq!(parse_u32(s), s.parse::<u32>().ok(), "input {s:?}");
    }
}

#[test]
fn env_lookup_finds_the_first_entry() {
    let e = env(&[("A", "1"), ("B", "2"), ("A", "3")]);
    assert_eq!(env_lookup(&e, "A"), Some("1".to_string()));
    assert_eq!(env_lookup(&e, "C"), None);
}

#[test]
fn binary_candidates_follow_the_search_order() {
    let e = env(&[("DOOM_ASCII_PATH", "/x/doom")]);
    assert_eq!(
        binary_candidates("/w", &e),
        vec!["/x/doom", "/w/bin/doom_ascii", "/usr/local/bin/doom_ascii", "/opt/homebrew/bin/doom_ascii"]
    );
    assert_eq!(binary_candidates("/w", &env(&[])).len(), 3);
}

#[test]
fn resolve_binary_finds_local_bin() {
    let got = resolve_binary("/w", &env(&[]), &only(3, 0));
    assert_eq!(got, Some("/w/bin/doom_ascii".to_string()));
}

#[test]
fn resolve_binary_honors_env_override() {
    let e = env(&[("DOOM_ASCII_PATH", "/x/doom")]);
    assert_eq!(resolve_binary("/w", &e, &vec![true, true, false, false]), Some("/x/doom".to_string()));
}

#[test]
fn resolve_binary_missing_returns_none() {
    assert_eq!(resolve_binary("/w", &env(&[]), &vec![false; 3]), None);
}

#[test]
fn resolve_iwad_prefers_commercial_over_free() {
    let e = env(&[]);
    let cands = iwad_candidates("/w", &e);
    // doom.wad (first) and freedoom1.wad both present in /w/wad.
    let mut found = vec![false; cands.len()];
    found[0] = true;
    found[7] = true;
    assert_eq!(resolve_iwad("/w", &e, &found), Some(("/w/wad/doom.wad".to_string(), "/w/wad".to_string())));
}

#[test]
fn resolve_iwad_honors_doom_wad_dir_env() {
    let e = env(&[("DOOM_WAD_DIR", "/custom")]);
    let cands = iwad_candidates("/w", &e);
    assert_eq!(cands.len(), 5 * 11);
    assert_eq!(cands[8], ("/custom/freedoom2.wad".to_string(), "/custom".to_string()));
    let got = resolve_iwad("/w", &e, &only(cands.len(), 8));
    assert_eq!(got, Some(("/custom/freedoom2.wad".to_string(), "/custom".to_string())));
}

#[test]
fn resolve_iwad_empty_wad_dir_is_ignored() {
    let e = env(&[("DOOM_WAD_DIR", "")]);
    let cands = iwad_candidates("/w", &e);
    assert_eq!(cands.len(), 4 * 11);
    assert_eq!(resolve_iwad("/w", &e, &vec![false; cands.len()]), None);
}

fn args(cfg: &ascii_arcade::launcher::DoomLaunchConfig) -> Vec<&str> {
    cfg.args.iter().map(|a| a.as_str()).collect()
}

#[test]
fn resolve_builds_expected_argv() {
    let e = env(&[]);
    let n = iwad_candidates("/w", &e).len();
    let cfg = resolve("/w", &e, 2, &only(3, 0), &vec![false; n]).unwrap();
    assert_eq!(cfg.executable, "/w/bin/doom_ascii");
    assert_eq!(args(&cfg), vec!["-chars", "block", "-scaling", "2", "-fixgamma", "2"]);
}

#[test]
fn resolve_gamma_zero_drops_fixgamma() {
    let e = env(&[("DOOM_GAMMA", "0")]);
    let n = iwad_candidates("/w", &e).len();
    let cfg = resolve("/w", &e, 1, &only(3, 0), &vec![false; n]).unwrap();
    assert!(!cfg.args.iter().any(|a| a == "-fixgamma"));
}

#[test]
fn resolve_gamma_clamped_to_four() {
    let e = env(&[("DOOM_GAMMA", "9")]);
    let n = iwad_candidates("/w", &e).len();
    let cfg = resolve("/w", &e, 1, &only(3, 0), &vec![false; n]).unwrap();
    let i = cfg.args.iter().position(|a| a == "-fixgamma").unwrap();
    assert_eq!(cfg.args[i + 1], "4");
}

#[test]
fn resolve_sets_doomwaddir_when_iwad_found() {
    let e = env(&[("HOME", "/h")]);
    let n = iwad_candidates("/w", &e).len();
    let cfg = resolve("/w", &e, 1, &only(3, 0), &only(n, 1)).unwrap();
    assert_eq!(args(&cfg)[4..], ["-fixgamma", "2", "-iwad", "/w/wad/doom1.wad"]);
    assert_eq!(cfg.env, env(&[("HOME", "/h"), ("DOOMWADDIR", "/w/wad")]));
}

#[test]
fn resolve_with_doom_wad_dir_env_sets_doomwaddir_when_no_iwad_file_found() {
    let e = env(&[("DOOM_WAD_DIR", "/non/existent/wad/path")]);
    let n = iwad_candidates("/w", &e).len();
    let cfg = resolve("/w", &e, 1, &only(3, 0), &vec![false; n]).unwrap();
    assert_eq!(env_lookup(&cfg.env, "DOOMWADDIR"), Some("/non/existent/wad/path".to_string()));
}

#[test]
fn resolve_scaling_clamped_to_minimum_one() {
    let e = env(&[]);
    let n = iwad_candidates("/w", &e).len();
    let cfg = resolve("/w", &e, 0, &only(3, 0), &vec![false; n]).unwrap();
    let i = cfg.args.iter().position(|a| a == "-scaling").unwrap();
    assert_eq!(cfg.args[i + 1], "1");
}

#[test]
fn resolve_without_binary_is_none() {
    let e = env(&[]);
    let n = iwad_candidates("/w", &e).len();
    assert!(resolve("/w", &e, 1, &vec![false; 3], &only(n, 0)).is_none());
}
