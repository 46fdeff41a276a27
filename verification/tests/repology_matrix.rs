use upi::os::{OsType, PlatformConfig, PlatformDocument, PlatformRegistry};
use upi::repology::{
    after_fetch, cache_file_name, find_package_for_os, project_url, resolve_cached,
    resolve_from_disk, resolve_from_stale, search_results, search_url, Error, FetchOutcome,
    RepologyPackage, RepologyResolve, ResolveAction, ResolveStage, ResponseCache,
};

fn config(
    targets: Vec<OsType>,
    manager: &str,
    sudo: bool,
    install: &str,
    search: &str,
    binary_paths: Vec<&str>,
) -> PlatformConfig {
    PlatformConfig {
        targets,
        manager: manager.into(),
        sudo,
        install: install.into(),
        search: Some(search.into()),
        provides: None,
        provides_parse: None,
        binary_paths: binary_paths.into_iter().map(String::from).collect(),
    }
}

/// The platform definitions, one document per package manager.
fn documents() -> Vec<PlatformDocument> {
    let configs = vec![
        config(
            vec![OsType::Macos],
            "homebrew",
            false,
            "brew install {package}",
            "brew search {query}",
            vec!["/opt/homebrew/bin", "/usr/local/bin"],
        ),
        config(
            vec![OsType::Macos],
            "macports",
            true,
            "port install {package}",
            "port search {query}",
            vec!["/opt/local/bin"],
        ),
        config(
            vec![OsType::Debian, OsType::Ubuntu, OsType::Mint, OsType::Pop],
            "apt",
            true,
            "apt install -y {package}",
            "apt search {query}",
            vec!["/usr/bin"],
        ),
        config(
            vec![OsType::Fedora],
            "dnf",
            true,
            "dnf install -y {package}",
            "dnf search {query}",
            vec!["/usr/bin"],
        ),
        config(
            vec![OsType::Arch, OsType::Manjaro, OsType::EndeavourOS],
            "pacman",
            true,
            "pacman -S --noconfirm {package}",
            "pacman -Ss {query}",
            vec!["/usr/bin"],
        ),
        config(
            vec![OsType::Windows],
            "winget",
            false,
            "winget install --id {package}",
            "winget search {query}",
            vec!["%LOCALAPPDATA%\\Microsoft\\WindowsApps"],
        ),
        config(
            vec![OsType::Windows],
            "chocolatey",
            false,
            "choco install -y {package}",
            "choco search {query}",
            vec!["%ProgramData%\\chocolatey\\bin"],
        ),
        config(
            vec![OsType::Windows],
            "scoop",
            false,
            "scoop install {package}",
            "scoop search {query}",
            vec!["%USERPROFILE%\\scoop\\shims"],
        ),
    ];
    configs
        .into_iter()
        .map(|c| PlatformDocument::Text {
            name: c.manager.clone(),
            text: format!("manager: {}", c.manager),
            parsed: Ok(c),
        })
        .collect()
}

fn load() -> PlatformRegistry {
    match PlatformRegistry::from_documents(documents()) {
        Ok(r) => r,
        Err(e) => panic!("failed to load platform registry: {}", e.message()),
    }
}

fn registry() -> PlatformRegistry {
    load()
}

fn make_pkg(
    repo: &str,
    binname: Option<&str>,
    srcname: Option<&str>,
    visiblename: Option<&str>,
) -> RepologyPackage {
    RepologyPackage {
        repo: repo.to_string(),
        binname: binname.map(String::from),
        srcname: srcname.map(String::from),
        visible_name: visiblename.map(String::from),
        version: None,
        status: None,
    }
}

fn make_pkg_simple(repo: &str, binname: &str) -> RepologyPackage {
    make_pkg(repo, Some(binname), None, None)
}

#[test]
fn finds_package_for_current_os() {
    let data = vec![
        make_pkg_simple("debian_13", "ffmpeg-debian"),
        make_pkg_simple("arch", "ffmpeg-arch"),
    ];
    let result = find_package_for_os(&data, &OsType::Debian, &registry());
    assert_eq!(result, Some("ffmpeg-debian".into()));
}

#[test]
fn prefers_binname_over_visiblename() {
    let data = vec![make_pkg(
        "homebrew",
        Some("ffmpeg-binary"),
        None,
        Some("ffmpeg-visible"),
    )];
    let result = find_package_for_os(&data, &OsType::Macos, &registry());
    assert_eq!(result, Some("ffmpeg-binary".into()));
}

#[test]
fn falls_back_to_srcname_when_no_binname() {
    let data = vec![make_pkg(
        "homebrew",
        None,
        Some("ffmpeg-source"),
        Some("ffmpeg-visible"),
    )];
    let result = find_package_for_os(&data, &OsType::Macos, &registry());
    assert_eq!(result, Some("ffmpeg-source".into()));
}

#[test]
fn falls_back_to_visiblename_when_no_binname_or_srcname() {
    let data = vec![make_pkg("homebrew", None, None, Some("ffmpeg-visible"))];
    let result = find_package_for_os(&data, &OsType::Macos, &registry());
    assert_eq!(result, Some("ffmpeg-visible".into()));
}

#[test]
fn skips_repos_not_matching_os() {
    let data = vec![
        make_pkg_simple("debian_13", "ffmpeg-deb"),
        make_pkg_simple("arch", "ffmpeg-arch"),
    ];
    let result = find_package_for_os(&data, &OsType::Macos, &registry());
    assert_eq!(result, None);
}

#[test]
fn returns_none_when_no_repos_match() {
    let data = vec![make_pkg_simple("freebsd", "ffmpeg")];
    let result = find_package_for_os(&data, &OsType::Debian, &registry());
    assert_eq!(result, None);
}

#[test]
fn returns_none_on_empty_data() {
    let data = vec![];
    let result = find_package_for_os(&data, &OsType::Debian, &registry());
    assert_eq!(result, None);
}

#[test]
fn search_response_filters_by_os() {
    let python = vec![
        make_pkg_simple("homebrew", "python@3.14"),
        make_pkg_simple("arch", "python"),
    ];
    let python2 = vec![make_pkg_simple("homebrew", "python@2.7")];
    let results = search_results(&vec![python, python2], &OsType::Macos, &registry());
    assert_eq!(results, vec!["python@2.7", "python@3.14"]);
}

#[test]
fn search_results_do_not_depend_on_project_order() {
    let a = vec![make_pkg_simple("homebrew", "zlib")];
    let b = vec![make_pkg_simple("homebrew", "apr")];
    let c = vec![make_pkg_simple("arch", "mpv")];
    let d = vec![make_pkg_simple("homebrew", "Zsh")];
    let r1 = search_results(
        &vec![a.clone(), b.clone(), c.clone(), d.clone()],
        &OsType::Macos,
        &registry(),
    );
    let r2 = search_results(&vec![d, c, b, a], &OsType::Macos, &registry());
    assert_eq!(r1, vec!["Zsh", "apr", "zlib"]);
    assert_eq!(r1, r2);
}

#[test]
fn project_url_encodes_the_project() {
    assert_eq!(
        project_url("https://repology.org/api/v1", "gtk+ 3/x"),
        "https://repology.org/api/v1/project/gtk%2B+3%2Fx"
    );
}

#[test]
fn search_url_encodes_the_query() {
    assert_eq!(
        search_url("https://repology.org/api/v1", "c++ é"),
        "https://repology.org/api/v1/projects/?search=c%2B%2B+%C3%A9"
    );
}

#[test]
fn cache_file_name_keeps_safe_characters() {
    assert_eq!(cache_file_name("yt-dlp_2.x*"), "yt-dlp_2.x*.json");
    assert_eq!(cache_file_name("a/b"), "a%2Fb.json");
}

#[test]
fn memory_cache_answers_after_a_fetch() {
    let reg = registry();
    let mut cache = ResponseCache::new();
    assert!(resolve_cached(&cache, "ffmpeg", &OsType::Debian, &reg).is_none());
    let page = vec![make_pkg_simple("debian_13", "ffmpeg-deb")];
    let decision = after_fetch(
        &mut cache,
        "ffmpeg",
        FetchOutcome::Page { body: "[...]".into(), parsed: Ok(page) },
        &OsType::Debian,
        &reg,
    );
    assert_eq!(decision.write.as_deref(), Some("[...]"));
    match decision.answer {
        Some(Ok(Some(name))) => assert_eq!(name, "ffmpeg-deb"),
        _ => panic!("expected the package name"),
    }
    let again = resolve_cached(&cache, "ffmpeg", &OsType::Debian, &reg);
    assert_eq!(again, Some(Some("ffmpeg-deb".to_string())));
    assert_eq!(resolve_cached(&cache, "ffmpeg", &OsType::Macos, &reg), Some(None));
    assert!(cache.get("vlc").is_none());
}

#[test]
fn not_found_caches_an_empty_response() {
    let reg = registry();
    let mut cache = ResponseCache::new();
    let decision = after_fetch(&mut cache, "nope", FetchOutcome::NotFound, &OsType::Debian, &reg);
    assert_eq!(decision.write.as_deref(), Some("[]"));
    assert!(matches!(decision.answer, Some(Ok(None))));
    assert_eq!(cache.get("nope").map(|d| d.len()), Some(0));
}

#[test]
fn parse_failure_is_reported_and_not_cached() {
    let reg = registry();
    let mut cache = ResponseCache::new();
    let decision = after_fetch(
        &mut cache,
        "ffmpeg",
        FetchOutcome::Page { body: "oops".into(), parsed: Err("expected value".into()) },
        &OsType::Debian,
        &reg,
    );
    assert_eq!(decision.write.as_deref(), Some("oops"));
    match decision.answer {
        Some(Err(e)) => assert_eq!(e.message(), "parse error: expected value"),
        _ => panic!("expected a parse error"),
    }
    assert!(cache.get("ffmpeg").is_none());
}

#[test]
fn unreadable_body_is_an_http_error() {
    let reg = registry();
    let mut cache = ResponseCache::new();
    let decision = after_fetch(
        &mut cache,
        "ffmpeg",
        FetchOutcome::BodyUnreadable("connection reset".into()),
        &OsType::Debian,
        &reg,
    );
    assert!(decision.write.is_none());
    match decision.answer {
        Some(Err(Error::Http(m))) => assert_eq!(m, "body read: connection reset"),
        _ => panic!("expected an HTTP error"),
    }
}

#[test]
fn failed_request_falls_back_to_stale_cache() {
    let reg = registry();
    let mut cache = ResponseCache::new();
    let decision = after_fetch(
        &mut cache,
        "ffmpeg",
        FetchOutcome::Failed("timeout".into()),
        &OsType::Arch,
        &reg,
    );
    assert!(decision.write.is_none());
    assert!(decision.answer.is_none());
    let stale = vec![make_pkg_simple("arch", "ffmpeg-arch")];
    let r = resolve_from_stale(&mut cache, "ffmpeg", Some(stale), "timeout".into(), &OsType::Arch, &reg);
    assert_eq!(r.unwrap(), Some("ffmpeg-arch".to_string()));
    assert!(cache.get("ffmpeg").is_some());
    let r = resolve_from_stale(&mut cache, "vlc", None, "timeout".into(), &OsType::Arch, &reg);
    match r {
        Err(e) => assert_eq!(e.message(), "HTTP error: timeout"),
        Ok(_) => panic!("expected the HTTP error"),
    }
}

#[test]
fn fresh_disk_cache_fills_memory_cache() {
    let reg = registry();
    let mut cache = ResponseCache::new();
    assert_eq!(resolve_from_disk(&mut cache, "jq", None, &OsType::Macos, &reg), None);
    let disk = vec![make_pkg("homebrew", None, Some("jq-src"), None)];
    assert_eq!(
        resolve_from_disk(&mut cache, "jq", Some(disk), &OsType::Macos, &reg),
        Some(Some("jq-src".to_string()))
    );
    assert_eq!(
        resolve_cached(&cache, "jq", &OsType::Macos, &reg),
        Some(Some("jq-src".to_string()))
    );
}

#[test]
fn cache_keeps_the_latest_response() {
    let mut cache = ResponseCache::new();
    cache.insert("x", vec![make_pkg_simple("arch", "one")]);
    cache.insert("y", vec![]);
    cache.insert("x", vec![make_pkg_simple("arch", "two"), make_pkg_simple("arch", "three")]);
    assert_eq!(cache.get("x").map(|d| d.len()), Some(2));
    assert_eq!(cache.get("y").map(|d| d.len()), Some(0));
}

#[test]
fn network_error_messages() {
    assert_eq!(Error::Http("x".into()).message(), "HTTP error: x");
    assert_eq!(Error::Parse("y".into()).message(), "parse error: y");
    assert_eq!(Error::NotFound("z".into()).message(), "not found: z");
}

#[test]
fn resolution_order_memory_disk_network_stale() {
    let reg = registry();
    let mut cache = ResponseCache::new();
    let (mut r, a) = RepologyResolve::start(&cache, "https://x/api", "ffmpeg", &OsType::Arch, &reg);
    assert!(matches!(a, ResolveAction::ReadFreshCache));
    match r.fresh_cache(&mut cache, None, &OsType::Arch, &reg) {
        ResolveAction::Fetch(url) => assert_eq!(url, "https://x/api/project/ffmpeg"),
        _ => panic!("expected a request"),
    }
    let (write, next) = r.fetched(&mut cache, FetchOutcome::Failed("dns".into()), &OsType::Arch, &reg);
    assert!(write.is_none());
    assert!(matches!(next, ResolveAction::ReadStaleCache));
    assert!(r.stage() == ResolveStage::StaleCache);
    match r.stale_cache(&mut cache, None, &OsType::Arch, &reg) {
        Err(e) => assert_eq!(e.message(), "HTTP error: dns"),
        Ok(_) => panic!("expected the HTTP error"),
    }
    assert!(r.stage() == ResolveStage::Done);
}

#[test]
fn resolution_answers_from_memory_first() {
    let reg = registry();
    let mut cache = ResponseCache::new();
    cache.insert("ffmpeg", vec![make_pkg_simple("arch", "ffmpeg-arch")]);
    let (r, a) = RepologyResolve::start(&cache, "https://x/api", "ffmpeg", &OsType::Arch, &reg);
    match a {
        ResolveAction::Done(Ok(Some(n))) => assert_eq!(n, "ffmpeg-arch"),
        _ => panic!("expected the cached answer"),
    }
    assert!(r.stage() == ResolveStage::Done);
}

#[test]
fn resolution_from_fresh_disk_and_network() {
    let reg = registry();
    let mut cache = ResponseCache::new();
    let (mut r, _) = RepologyResolve::start(&cache, "https://x/api", "jq", &OsType::Macos, &reg);
    let disk = vec![make_pkg_simple("homebrew", "jq")];
    match r.fresh_cache(&mut cache, Some(disk), &OsType::Macos, &reg) {
        ResolveAction::Done(Ok(Some(n))) => assert_eq!(n, "jq"),
        _ => panic!("expected the disk answer"),
    }
    let (mut r, _) = RepologyResolve::start(&ResponseCache::new(), "https://x/api", "nope", &OsType::Macos, &reg);
    let mut cache = ResponseCache::new();
    assert!(matches!(r.fresh_cache(&mut cache, None, &OsType::Macos, &reg), ResolveAction::Fetch(_)));
    let (write, next) = r.fetched(&mut cache, FetchOutcome::NotFound, &OsType::Macos, &reg);
    assert_eq!(write.as_deref(), Some("[]"));
    assert!(matches!(next, ResolveAction::Done(Ok(None))));
}
