use upi::db::Mapping;
use upi::error::Error;
use upi::exec::Command;
use upi::fallback::{order_key, FallbackSearcher, CONFIDENT_SCORE_KEY};
use upi::os::{OsType, PlatformConfig};
use upi::resolver::{
    available_first, best_suggestions, first_command, install_commands, known_packages,
    resolve_alias, short_query, suggestion_terms, unresolved_error, unsupported_os_error,
    CandidateSearch, Lookup, LookupAction, LookupStage, ResolveCandidate, ScoredName,
    SearchAction,
};

fn cfg(manager: &str, sudo: bool, install: &str, search: Option<&str>) -> PlatformConfig {
    PlatformConfig {
        targets: vec![OsType::Windows],
        manager: manager.into(),
        sudo,
        install: install.into(),
        search: search.map(String::from),
        provides: None,
        provides_parse: None,
        binary_paths: vec![],
    }
}

fn mapping(name: &str, tenths: u8) -> Mapping {
    Mapping { os_package: name.into(), source: "repology_auto".into(), confidence_tenths: tenths }
}

fn names(c: &[ResolveCandidate]) -> Vec<(String, String)> {
    c.iter().map(|x| (x.name.clone(), x.source.clone())).collect()
}

#[test]
fn alias_table_entries() {
    assert_eq!(resolve_alias("rg"), Some("ripgrep"));
    assert_eq!(resolve_alias("RG"), Some("ripgrep"));
    assert_eq!(resolve_alias("Python3"), Some("python"));
    assert_eq!(resolve_alias("ag"), Some("the_silver_searcher"));
    assert_eq!(resolve_alias("fd"), Some("fd-find"));
    assert_eq!(resolve_alias("yt-dlp"), Some("yt-dlp"));
    assert_eq!(resolve_alias("ripgrepp"), None);
    assert_eq!(resolve_alias(""), None);
}

#[test]
fn known_packages_list() {
    let k = known_packages();
    assert_eq!(k.len(), 77);
    assert_eq!(k[0], "ripgrep");
    assert_eq!(k[76], "elvish");
}

#[test]
fn short_query_limit_is_three_characters() {
    assert!(short_query("rgz"));
    assert!(short_query("é✓x"));
    assert!(!short_query("rgzz"));
}

#[test]
fn alias_settles_the_lookup_at_once() {
    let (lookup, action) = Lookup::start("nvim", false, 2, vec!["apt".into()]);
    match action {
        LookupAction::Resolved { name, source } => {
            assert_eq!(name, "neovim");
            assert_eq!(source, "alias");
        }
        _ => panic!("expected the alias"),
    }
    assert!(lookup.stage() == LookupStage::Done);
}

#[test]
fn lookup_walks_the_sources_in_order() {
    let (mut l, a) = Lookup::start("ffmpegx", false, 2, vec!["apt".into(), "snap".into()]);
    assert!(matches!(a, LookupAction::AskSource(0)));
    assert!(matches!(l.answer(Ok(None)), LookupAction::AskSource(1)));
    assert!(matches!(l.answer(Ok(None)), LookupAction::AskDatabase));
    assert!(matches!(l.answer_database(None), LookupAction::RunFallback(0)));
    match l.answer(Ok(Some("ffmpeg".into()))) {
        LookupAction::Resolved { name, source } => {
            assert_eq!(name, "ffmpeg");
            assert_eq!(source, "fallback search (apt)");
        }
        _ => panic!("expected the fallback hit"),
    }
}

#[test]
fn first_source_hit_wins() {
    let (mut l, _) = Lookup::start("ffmpegx", true, 3, vec![]);
    match l.answer(Ok(Some("ffmpeg-full".into()))) {
        LookupAction::Resolved { name, source } => {
            assert_eq!(name, "ffmpeg-full");
            assert_eq!(source, "repology");
        }
        _ => panic!("expected the source's name"),
    }
}

#[test]
fn database_hit_is_labelled() {
    let (mut l, a) = Lookup::start("ffmpegx", false, 0, vec![]);
    assert!(matches!(a, LookupAction::AskDatabase));
    match l.answer_database(Some(mapping("ffmpeg", 10))) {
        LookupAction::Resolved { name, source } => {
            assert_eq!(name, "ffmpeg");
            assert_eq!(source, "database (confidence=1)");
        }
        _ => panic!("expected the database hit"),
    }
}

#[test]
fn source_error_ends_the_lookup() {
    let (mut l, _) = Lookup::start("ffmpegx", true, 1, vec![]);
    match l.answer(Err(Error::Network("offline".into()))) {
        LookupAction::Failed(e) => assert_eq!(e.message(), "network error: offline"),
        _ => panic!("expected the error"),
    }
}

#[test]
fn identity_only_when_allowed() {
    let (mut l, _) = Lookup::start("zzzz", true, 0, vec![]);
    match l.answer_database(None) {
        LookupAction::Resolved { name, source } => {
            assert_eq!(name, "zzzz");
            assert_eq!(source, "identity");
        }
        _ => panic!("expected identity"),
    }
    let (mut l, _) = Lookup::start("zzzz", false, 0, vec![]);
    assert!(matches!(l.answer_database(None), LookupAction::Suggest));
}

#[test]
fn short_query_never_runs_a_fallback() {
    let (mut l, _) = Lookup::start("rgz", false, 0, vec!["apt".into()]);
    assert!(matches!(l.answer_database(None), LookupAction::Suggest));
}

#[test]
fn unresolved_error_without_suggestions() {
    match unresolved_error("zzz", &vec![]) {
        Error::Resolve(m) => assert_eq!(
            m,
            "no confident match for 'zzz'. Re-run with --allow-identity to install the exact input"
        ),
        _ => panic!("expected a resolve error"),
    }
}

#[test]
fn unresolved_error_with_suggestions() {
    let e = unresolved_error("ripgrepp", &vec!["ripgrep".into(), "grex".into()]);
    assert_eq!(
        e.message(),
        "resolve error: no confident match for 'ripgrepp'. Did you mean: ripgrep, grex? Re-run with --allow-identity to install the exact input"
    );
}

#[test]
fn suggestions_are_ranked_and_capped() {
    let cands = vec![
        ResolveCandidate { name: "aa".into(), source: "repology".into() },
        ResolveCandidate { name: "bb".into(), source: "database".into() },
        ResolveCandidate { name: "cc".into(), source: "repology".into() },
        ResolveCandidate { name: "dd".into(), source: "repology".into() },
        ResolveCandidate { name: "aa".into(), source: "database".into() },
        ResolveCandidate { name: "ee".into(), source: "identity".into() },
    ];
    let terms = suggestion_terms(&cands);
    assert_eq!(&terms[..5], &["aa", "bb", "cc", "dd", "aa"]);
    let score = |n: &str| -> f64 {
        match n {
            "aa" => 300.0,
            "bb" => 500.0,
            "cc" => 219.0,
            "dd" => 400.0,
            "ee" => 900.0,
            _ => 0.0,
        }
    };
    let scores: Vec<ScoredName> = terms
        .iter()
        .map(|n| ScoredName { name: n.clone(), key: order_key(score(n).to_bits()) })
        .collect();
    assert_eq!(best_suggestions(&cands, &scores), vec!["bb", "dd", "aa"]);
}

#[test]
fn known_names_are_offered_when_nothing_is_confident() {
    let cands = vec![ResolveCandidate { name: "xyz".into(), source: "repology".into() }];
    let terms = suggestion_terms(&cands);
    let scores: Vec<ScoredName> = terms
        .iter()
        .map(|n| {
            let s: f64 = if n == "ripgrep" { 399.0 } else if n == "grex" { 230.0 } else { 10.0 };
            ScoredName { name: n.clone(), key: order_key(s.to_bits()) }
        })
        .collect();
    assert_eq!(best_suggestions(&cands, &scores), vec!["ripgrep", "grex"]);
}

#[test]
fn threshold_key_is_that_of_220() {
    assert_eq!(order_key(220.0f64.to_bits()), CONFIDENT_SCORE_KEY);
    assert!(order_key(219.999f64.to_bits()) < CONFIDENT_SCORE_KEY);
    assert!(order_key((-5.0f64).to_bits()) < order_key(0.0f64.to_bits()));
    assert!(order_key(1.5f64.to_bits()) < order_key(2.0f64.to_bits()));
}

#[test]
fn candidate_search_dedups_and_adds_identity() {
    let (mut s, a) = CandidateSearch::start("python", 1, vec!["apt".into()]);
    assert!(matches!(a, SearchAction::AskSource(0)));
    let a = s.answer(Ok(vec!["python3".into(), "python".into(), "python3".into()]));
    assert!(matches!(a, SearchAction::AskDatabase));
    let a = s.answer_database(vec![mapping("python3", 10), mapping("python2.7", 9)]);
    assert!(matches!(a, SearchAction::RunFallback(0)));
    match s.answer(Ok(vec!["python3-full".into()])) {
        SearchAction::Finished(c) => assert_eq!(
            names(&c),
            vec![
                ("python3".to_string(), "repology".to_string()),
                ("python".to_string(), "repology".to_string()),
                ("python2.7".to_string(), "database (confidence=0.9)".to_string()),
                ("python3-full".to_string(), "fallback search (apt)".to_string()),
            ]
        ),
        _ => panic!("expected the candidates"),
    }
}

#[test]
fn search_candidates_returns_results() {
    let (mut s, _) = CandidateSearch::start("python", 0, vec![]);
    match s.answer_database(vec![]) {
        SearchAction::Finished(candidates) => {
            assert!(!candidates.is_empty());
            let names: Vec<&str> = candidates.iter().map(|c| c.name.as_str()).collect();
            assert!(names.contains(&"python"));
        }
        _ => panic!("expected the candidates"),
    }
}

#[test]
fn search_candidates_always_includes_identity() {
    let (mut s, _) = CandidateSearch::start("zzz_nonexistent_zzz", 0, vec!["apt".into()]);
    assert!(matches!(s.answer_database(vec![]), SearchAction::RunFallback(0)));
    match s.answer(Ok(vec![])) {
        SearchAction::Finished(candidates) => {
            let names: Vec<&str> = candidates.iter().map(|c| c.name.as_str()).collect();
            assert!(names.contains(&"zzz_nonexistent_zzz"));
        }
        _ => panic!("expected the candidates"),
    }
}

#[test]
fn candidate_search_short_query_skips_fallback() {
    let (mut s, _) = CandidateSearch::start("jq", 0, vec!["apt".into()]);
    match s.answer_database(vec![mapping("jq", 10)]) {
        SearchAction::Finished(c) => {
            assert_eq!(names(&c), vec![("jq".to_string(), "database (confidence=1)".to_string())])
        }
        _ => panic!("expected the candidates"),
    }
}

#[test]
fn candidate_search_stops_on_error() {
    let (mut s, _) = CandidateSearch::start("python", 1, vec![]);
    match s.answer(Err(Error::Network("down".into()))) {
        SearchAction::Failed(e) => assert_eq!(e.message(), "network error: down"),
        _ => panic!("expected the error"),
    }
}

#[test]
fn available_managers_come_first_in_order() {
    let a = cfg("a", false, "a {package}", None);
    let b = cfg("b", false, "b {package}", None);
    let c = cfg("c", false, "c {package}", None);
    let d = cfg("d", false, "d {package}", None);
    let ordered = available_first(vec![&a, &b, &c, &d], &vec![false, true, false, true]);
    let m: Vec<&str> = ordered.iter().map(|c| c.manager.as_str()).collect();
    assert_eq!(m, vec!["b", "d", "a", "c"]);
}

#[test]
fn install_commands_for_each_config() {
    let a = cfg("winget", false, "winget install --id {package}", None);
    let b = cfg("choco", true, "choco install -y {package}", None);
    let cmds = install_commands(&vec![&a, &b], "git").unwrap();
    let shown: Vec<String> = cmds.iter().map(|c| c.to_display()).collect();
    assert_eq!(shown, vec!["winget install --id git", "sudo choco install -y git"]);
}

#[test]
fn install_commands_refuse_sudo_without_program() {
    let a = cfg("odd", true, "   ", None);
    assert!(install_commands(&vec![&a], "git").is_none());
    assert!(Command::try_from_config(&a, "git").is_none());
}

#[test]
fn first_command_or_error() {
    let c = Command { program: "brew".into(), args: vec!["install".into(), "jq".into()] };
    assert_eq!(first_command(vec![c], &OsType::Macos).unwrap().program, "brew");
    match first_command(vec![], &OsType::Macos) {
        Err(e) => assert_eq!(e.message(), "resolve error: no install command available for Macos"),
        Ok(_) => panic!("expected an error"),
    }
}

#[test]
fn unsupported_os_names_the_os() {
    assert_eq!(unsupported_os_error(&OsType::FreeBSD).message(), "unsupported OS: FreeBSD");
}

#[test]
fn fallback_searcher_fills_the_query() {
    let c = cfg("apt", true, "apt install {package}", Some("apt search {query} | head"));
    let s = FallbackSearcher::from_config(&c).unwrap();
    assert_eq!(s.search_command("ffmpeg"), "apt search ffmpeg | head");
    assert!(FallbackSearcher::from_config(&cfg("x", false, "x {package}", None)).is_none());
}

#[test]
fn quoted_template_splits_into_words() {
    let c = cfg("sh", false, "sh -c 'install {package} now' --flag", None);
    let cmd = Command::from_config(&c, "jq");
    assert_eq!(cmd.program, "sh");
    assert_eq!(cmd.args, vec!["-c", "install jq now", "--flag"]);
    let bad = cfg("sh", false, "sh -c 'unterminated {package}", None);
    let cmd = Command::from_config(&bad, "jq");
    assert_eq!(cmd.program, "sh -c 'unterminated jq");
    assert!(cmd.args.is_empty());
}
