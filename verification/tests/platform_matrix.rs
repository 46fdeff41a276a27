use strsim::{jaro_winkler, normalized_levenshtein};
use upi::db::Database;
use upi::exec::Command;
use upi::fallback::order_key;
use upi::os::{expand_env, OsType, PlatformConfig, PlatformDocument, PlatformRegistry};
use upi::resolver::{
    available_first, best_suggestions, install_commands, suggestion_terms, unresolved_error,
    Lookup, LookupAction, ResolveCandidate, ScoredName,
};
use upi::error::Error;

fn config(
    targets: Vec<OsType>,
    manager: &str,
    sudo: bool,
    install: &str,
    search: &str,
    binary_paths: Vec<&str>,
) -> PlatformConfig {
    PlatformConfig {
        targets,
        manager: manager.into(),
        sudo,
        install: install.into(),
        search: Some(search.into()),
        provides: None,
        provides_parse: None,
        binary_paths: binary_paths.into_iter().map(String::from).collect(),
    }
}

/// The platform definitions, one document per package manager.
fn documents() -> Vec<PlatformDocument> {
    let configs = vec![
        config(
            vec![OsType::Macos],
            "homebrew",
            false,
            "brew install {package}",
            "brew search {query}",
            vec!["/opt/homebrew/bin", "/usr/local/bin"],
        ),
        config(
            vec![OsType::Macos],
            "macports",
            true,
            "port install {package}",
            "port search {query}",
            vec!["/opt/local/bin"],
        ),
        config(
            vec![OsType::Debian, OsType::Ubuntu, OsType::Mint, OsType::Pop],
            "apt",
            true,
            "apt install -y {package}",
            "apt search {query}",
            vec!["/usr/bin"],
        ),
        config(
            vec![OsType::Fedora],
            "dnf",
            true,
            "dnf install -y {package}",
            "dnf search {query}",
            vec!["/usr/bin"],
        ),
        config(
            vec![OsType::Arch, OsType::Manjaro, OsType::EndeavourOS],
            "pacman",
            true,
            "pacman -S --noconfirm {package}",
            "pacman -Ss {query}",
            vec!["/usr/bin"],
        ),
        config(
            vec![OsType::Windows],
            "winget",
            false,
            "winget install --id {package}",
            "winget search {query}",
            vec!["%LOCALAPPDATA%\\Microsoft\\WindowsApps"],
        ),
        config(
            vec![OsType::Windows],
            "chocolatey",
            false,
            "choco install -y {package}",
            "choco search {query}",
            vec!["%ProgramData%\\chocolatey\\bin"],
        ),
        config(
            vec![OsType::Windows],
            "scoop",
            false,
            "scoop install {package}",
            "scoop search {query}",
            vec!["%USERPROFILE%\\scoop\\shims"],
        ),
    ];
    configs
        .into_iter()
        .map(|c| PlatformDocument::Text {
            name: c.manager.clone(),
            text: format!("manager: {}", c.manager),
            parsed: Ok(c),
        })
        .collect()
}

fn load() -> PlatformRegistry {
    match PlatformRegistry::from_documents(documents()) {
        Ok(r) => r,
        Err(e) => panic!("failed to load platform registry: {}", e.message()),
    }
}

fn known_types() -> Vec<OsType> {
    vec![
        OsType::Macos,
        OsType::Debian,
        OsType::Ubuntu,
        OsType::Mint,
        OsType::Pop,
        OsType::Fedora,
        OsType::Arch,
        OsType::Manjaro,
        OsType::Windows,
    ]
}

fn suggestion_score(query: &str, candidate: &str) -> f64 {
    let q = query.to_ascii_lowercase();
    let c = candidate.to_ascii_lowercase();
    if q == c {
        return 1000.0;
    }
    let mut score = 0.0;
    if c.starts_with(&q) {
        score += 220.0;
    }
    if c.contains(&q) {
        score += 90.0;
    }
    score += jaro_winkler(&q, &c) * 220.0;
    score += normalized_levenshtein(&q, &c) * 220.0;
    let len_gap = (q.len() as i64 - c.len() as i64).abs() as f64;
    score - (len_gap * 8.0)
}

/// Runs a lookup with no network source, a seed database without rows and
/// fallback searchers that find nothing; on `Suggest` the suggestions are ranked and
/// the unresolved error is built.
fn resolve(
    registry: &PlatformRegistry,
    package: &str,
    os: OsType,
    allow_identity: bool,
    available: Vec<bool>,
) -> Result<Vec<Command>, Error> {
    let configs = available_first(registry.configs_for_type(&os), &available);
    let fallbacks: Vec<String> = configs
        .iter()
        .filter(|c| c.search.is_some())
        .map(|c| c.manager.clone())
        .collect();
    let db = Database::new(vec![], vec![]);
    let (mut lookup, mut action) = Lookup::start(package, allow_identity, 0, fallbacks);
    let mut candidates: Vec<ResolveCandidate> = Vec::new();
    let name = loop {
        action = match action {
            LookupAction::AskDatabase => lookup.answer_database(db.lookup(package, &os)),
            LookupAction::AskSource(_) | LookupAction::RunFallback(_) => lookup.answer(Ok(None)),
            LookupAction::Resolved { name, source } => {
                candidates.push(ResolveCandidate { name: name.clone(), source });
                break name;
            }
            LookupAction::Suggest => {
                let scores: Vec<ScoredName> = suggestion_terms(&candidates)
                    .into_iter()
                    .map(|n| ScoredName {
                        key: order_key(suggestion_score(package, &n).to_bits()),
                        name: n,
                    })
                    .collect();
                let suggestions = best_suggestions(&candidates, &scores);
                return Err(unresolved_error(package, &suggestions));
            }
            LookupAction::Failed(e) => return Err(e),
        };
    };
    Ok(install_commands(&configs, &name).expect("install line without words"))
}

#[test]
fn load_all_configs() {
    let registry = load();
    assert!(registry.all().len() >= 5);
}

#[test]
fn lib_every_known_type_has_a_config() {
    let registry = load();
    for t in known_types() {
        let config = registry.for_type(&t);
        assert!(config.is_some(), "no config for {t:?}");
    }
}

#[test]
fn lib_configs_have_required_fields() {
    let registry = load();
    for config in registry.all() {
        assert!(!config.manager.is_empty());
        assert!(!config.targets.is_empty());
        assert!(
            config.install.contains("{package}"),
            "{}: install missing {{{{package}}}}",
            config.manager
        );
    }
}

#[test]
fn platform_matrix_every_known_type_has_a_config() {
    let registry = load();
    for t in known_types() {
        let config = registry.for_type(&t);
        assert!(config.is_some(), "no config for {t:?}");
    }
}

#[test]
fn platform_matrix_configs_have_required_fields() {
    let registry = load();
    for config in registry.all() {
        assert!(!config.manager.is_empty());
        assert!(!config.targets.is_empty());
        assert!(
            config.install.contains("{package}"),
            "{}: install missing {{{{package}}}}",
            config.manager
        );
    }
}

#[test]
fn macos_resolves_to_brew() {
    let registry = load();
    let config = registry.for_type(&OsType::Macos).unwrap();
    assert_eq!(config.manager, "homebrew");
}

#[test]
fn command_from_config_no_sudo() {
    let config = PlatformConfig {
        targets: vec![OsType::Macos],
        manager: "homebrew".into(),
        sudo: false,
        install: "brew install {package}".into(),
        search: None,
        provides: None,
        provides_parse: None,
        binary_paths: vec!["/opt/homebrew/bin".into()],
    };

    let cmd = Command::from_config(&config, "ffmpeg");
    assert_eq!(cmd.to_display(), "brew install ffmpeg");
}

#[test]
fn command_from_config_with_sudo() {
    let config = PlatformConfig {
        targets: vec![OsType::Debian],
        manager: "apt".into(),
        sudo: true,
        install: "apt install -y {package}".into(),
        search: None,
        provides: None,
        provides_parse: None,
        binary_paths: vec!["/usr/bin".into()],
    };

    let cmd = Command::from_config(&config, "ffmpeg");
    assert_eq!(cmd.to_display(), "sudo apt install -y ffmpeg");
}

#[test]
fn command_from_config_multiple_packages() {
    let config = PlatformConfig {
        targets: vec![OsType::Arch],
        manager: "pacman".into(),
        sudo: true,
        install: "pacman -S --noconfirm {package}".into(),
        search: None,
        provides: None,
        provides_parse: None,
        binary_paths: vec!["/usr/bin".into()],
    };

    let cmd = Command::from_config(&config, "vim");
    assert_eq!(cmd.to_display(), "sudo pacman -S --noconfirm vim");
}

#[test]
fn repo_to_os_maps_homebrew() {
    let registry = load();
    let result = registry.repo_to_os("homebrew");
    assert_eq!(result, Some(&OsType::Macos));
}

#[test]
fn repo_to_os_maps_debian_versioned() {
    let registry = load();
    let result = registry.repo_to_os("debian_13");
    assert_eq!(result, Some(&OsType::Debian));
}

#[test]
fn repo_to_os_maps_ubuntu_versioned() {
    let registry = load();
    let result = registry.repo_to_os("ubuntu_24_04");
    assert_eq!(result, Some(&OsType::Ubuntu));
}

#[test]
fn repo_to_os_maps_linuxmint() {
    let registry = load();
    let result = registry.repo_to_os("linuxmint");
    assert_eq!(result, Some(&OsType::Mint));
}

#[test]
fn repo_to_os_maps_arch() {
    let registry = load();
    let result = registry.repo_to_os("arch");
    assert_eq!(result, Some(&OsType::Arch));
}

#[test]
fn repo_to_os_maps_manjaro_stable() {
    let registry = load();
    let result = registry.repo_to_os("manjaro_stable");
    assert_eq!(result, Some(&OsType::Manjaro));
}

#[test]
fn repo_to_os_maps_fedora_versioned() {
    let registry = load();
    let result = registry.repo_to_os("fedora_40");
    assert_eq!(result, Some(&OsType::Fedora));
}

#[test]
fn repo_to_os_maps_winget() {
    let registry = load();
    let result = registry.repo_to_os("winget");
    assert_eq!(result, Some(&OsType::Windows));
}

#[test]
fn repo_to_os_maps_chocolatey() {
    let registry = load();
    let result = registry.repo_to_os("chocolatey");
    assert_eq!(result, Some(&OsType::Windows));
}

#[test]
fn repo_to_os_maps_macports() {
    let registry = load();
    let result = registry.repo_to_os("macports");
    assert_eq!(result, Some(&OsType::Macos));
}

#[test]
fn repo_to_os_maps_scoop() {
    let registry = load();
    let result = registry.repo_to_os("scoop");
    assert_eq!(result, Some(&OsType::Windows));
}

#[test]
fn repo_to_os_unknown_repo_returns_none() {
    let registry = load();
    let os_type = registry.repo_to_os("nonexistent_os_12345");
    assert_eq!(os_type, None);
}

#[test]
fn expand_env_expands_windows_vars() {
    let env = vec![("USERPROFILE".to_string(), "C:\\Users\\testuser".to_string())];
    let result = expand_env("%USERPROFILE%\\scoop\\shims", &env);
    assert_eq!(result, "C:\\Users\\testuser\\scoop\\shims");
}

#[test]
fn expand_env_expands_unix_vars() {
    let env = vec![("HOME".to_string(), "/home/testuser".to_string())];
    let result = expand_env("$HOME/.local/bin", &env);
    assert_eq!(result, "/home/testuser/.local/bin");
}

#[test]
fn expand_env_leaves_unknown_vars_unchanged() {
    let env = vec![("HOME".to_string(), "/home/testuser".to_string())];
    let result = expand_env("%UNKNOWN_VAR_XYZ%/path", &env);
    assert_eq!(result, "%UNKNOWN_VAR_XYZ%/path");
}

#[test]
fn expand_expands_brace_vars() {
    let env = vec![("TEMP".to_string(), "/tmp".to_string())];
    let result = expand_env("${TEMP}/subdir", &env);
    assert_eq!(result, "/tmp/subdir");
}

#[test]
fn expanded_binary_paths_resolves_windows_configs() {
    let cfg = PlatformConfig {
        targets: vec![OsType::Windows],
        manager: "winget".into(),
        sudo: false,
        install: "winget install --id {package}".into(),
        search: None,
        provides: None,
        provides_parse: None,
        binary_paths: vec![
            "%LOCALAPPDATA%\\Microsoft\\WindowsApps".into(),
            "%USERPROFILE%\\AppData\\Local\\Microsoft\\WinGet\\Links".into(),
        ],
    };
    let env = vec![("LOCALAPPDATA".to_string(), String::new())];
    let paths = cfg.expanded_binary_paths(&env);
    assert_eq!(paths.len(), 2);
    // Both paths should be expanded (even if the env var is empty)
    assert!(paths[0].contains("Microsoft\\WindowsApps"));
    assert!(paths[1].contains("Microsoft\\WinGet\\Links"));
}

#[test]
fn configs_for_type_returns_all_windows_managers() {
    let registry = load();
    let configs = registry.configs_for_type(&OsType::Windows);
    let managers: Vec<&str> = configs
        .iter()
        .map(|config| config.manager.as_str())
        .collect();

    assert!(managers.contains(&"winget"));
    assert!(managers.contains(&"scoop"));
    assert!(managers.contains(&"chocolatey"));
}

#[test]
fn resolver_prefers_available_windows_manager() {
    let unavailable = PlatformConfig {
        targets: vec![OsType::Windows],
        manager: "winget".into(),
        sudo: false,
        install: "winget install --id {package}".into(),
        search: Some("winget search {query}".into()),
        provides: None,
        provides_parse: None,
        binary_paths: vec!["/nonexistent/missing".into()],
    };

    let available = PlatformConfig {
        targets: vec![OsType::Windows],
        manager: "scoop".into(),
        sudo: false,
        install: "scoop install {package}".into(),
        search: Some("scoop search {query}".into()),
        provides: None,
        provides_parse: None,
        binary_paths: vec!["/tmp/available".into()],
    };

    let registry = PlatformRegistry::from_configs(vec![unavailable, available]);
    let commands = resolve(&registry, "steam", OsType::Windows, true, vec![false, true]).unwrap();

    assert_eq!(commands.first().unwrap().program, "scoop");
}

#[test]
fn identity_disabled_by_default() {
    let registry = load();
    let err = resolve(&registry, "zzz_nonexistent_zzz", OsType::Debian, false, vec![true])
        .unwrap_err();
    match err {
        Error::Resolve(msg) => {
            assert!(
                msg.contains("no confident match"),
                "expected 'no confident match' in error, got: {msg}"
            );
            assert!(
                msg.contains("--allow-identity"),
                "expected '--allow-identity' hint in error, got: {msg}"
            );
        }
        other => panic!("expected Resolve error, got {}", other.message()),
    }
}

#[test]
fn identity_allowed_with_flag() {
    let registry = load();
    let commands =
        resolve(&registry, "zzz_nonexistent_zzz", OsType::Debian, true, vec![true]).unwrap();
    assert!(
        !commands.is_empty(),
        "expected at least one command when identity is allowed"
    );
}

#[test]
fn did_you_mean_suggestions_for_typo() {
    let registry = load();
    let err = resolve(&registry, "ripgrepp", OsType::Debian, false, vec![true]).unwrap_err();
    match err {
        Error::Resolve(msg) => {
            assert!(
                msg.contains("Did you mean"),
                "expected 'Did you mean' in error, got: {msg}"
            );
        }
        other => panic!("expected Resolve error, got {}", other.message()),
    }
}

#[test]
fn short_query_skips_fuzzy_fallback() {
    let registry = load();
    let err = resolve(&registry, "rgz", OsType::Debian, false, vec![true]).unwrap_err();
    match err {
        Error::Resolve(msg) => {
            assert!(
                msg.contains("no confident match"),
                "expected 'no confident match' for short query, got: {msg}"
            );
        }
        other => panic!("expected Resolve error, got {}", other.message()),
    }
}

#[test]
fn alias_rg_resolves_to_ripgrep() {
    let registry = load();
    let commands = resolve(&registry, "rg", OsType::Debian, false, vec![true]).unwrap();
    assert!(!commands.is_empty());
    let display = commands.first().unwrap().to_display();
    assert!(
        display.contains("ripgrep"),
        "expected 'ripgrep' in command, got: {display}"
    );
}

#[test]
fn alias_py_resolves_to_python() {
    let registry = load();
    let commands = resolve(&registry, "py", OsType::Debian, false, vec![true]).unwrap();
    assert!(!commands.is_empty());
    let display = commands.first().unwrap().to_display();
    assert!(
        display.contains("python"),
        "expected 'python' in command, got: {display}"
    );
}

#[test]
fn alias_nvim_resolves_to_neovim() {
    let registry = load();
    let commands = resolve(&registry, "nvim", OsType::Debian, false, vec![true]).unwrap();
    assert!(!commands.is_empty());
    let display = commands.first().unwrap().to_display();
    assert!(
        display.contains("neovim"),
        "expected 'neovim' in command, got: {display}"
    );
}

#[test]
fn alias_ff_resolves_to_ffmpeg() {
    let registry = load();
    let commands = resolve(&registry, "ff", OsType::Debian, false, vec![true]).unwrap();
    assert!(!commands.is_empty());
    let display = commands.first().unwrap().to_display();
    assert!(
        display.contains("ffmpeg"),
        "expected 'ffmpeg' in command, got: {display}"
    );
}

#[test]
fn alias_node_resolves_to_nodejs() {
    let registry = load();
    let commands = resolve(&registry, "node", OsType::Debian, false, vec![true]).unwrap();
    assert!(!commands.is_empty());
    let display = commands.first().unwrap().to_display();
    assert!(
        display.contains("nodejs") || display.contains("node"),
        "expected 'nodejs' or 'node' in command, got: {display}"
    );
}
