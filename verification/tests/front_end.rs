use upi::cli::{
    after_install_attempt, install_exhausted, pad_right, primary_name, source_label, split_hint,
    InstallStep,
};
use upi::color::{bold, bright_green, color_support, colorize, dim, green, red, Color, ColorSupport};
use upi::db::database_label_exec;
use upi::error::Error;
use upi::exec::Command;
use upi::os::{
    expand_env, normalize_repo_name, OsType, PlatformConfig, PlatformDocument, PlatformRegistry,
};
use upi::resolver::ResolveCandidate;

fn env(pairs: &[(&str, &str)]) -> Vec<(String, String)> {
    pairs.iter().map(|(k, v)| (k.to_string(), v.to_string())).collect()
}

#[test]
fn colors_wrap_text_when_enabled() {
    assert_eq!(green("ok", true), "\x1b[38;2;5;150;105mok\x1b[0m");
    assert_eq!(bright_green("ok", true), "\x1b[38;2;52;211;153mok\x1b[0m");
    assert_eq!(dim("ok", true), "\x1b[2mok\x1b[0m");
    assert_eq!(bold("ok", true), "\x1b[1mok\x1b[0m");
    assert_eq!(red("error:", true), "\x1b[38;2;239;68;68merror:\x1b[0m");
    assert_eq!(colorize("plain", Color::Red, false), "plain");
    assert_eq!(green("ok", false), "ok");
}

#[test]
fn hint_goes_on_its_own_line() {
    let (main, hint) =
        split_hint("no confident match for 'x'. Re-run with --allow-identity to install").unwrap();
    assert_eq!(main, "no confident match for 'x'. ");
    assert_eq!(hint, "--allow-identity to install");
    assert!(split_hint("unsupported OS: Redox").is_none());
}

#[test]
fn source_labels_are_styled() {
    assert_eq!(source_label("database (confidence=1)", true), "\x1b[38;2;5;150;105mdatabase (confidence=1)\x1b[0m");
    assert_eq!(source_label("identity", true), "\x1b[2midentity\x1b[0m");
    assert_eq!(source_label("repology", true), "repology");
    assert_eq!(source_label("identity", false), "identity");
}

#[test]
fn names_are_padded_to_thirty() {
    assert_eq!(pad_right("ripgrep", 30), format!("{:<30}", "ripgrep"));
    assert_eq!(pad_right("é", 3), "é  ");
    let long = "x".repeat(40);
    assert_eq!(pad_right(&long, 30), long);
}

#[test]
fn primary_name_is_the_first_candidate() {
    let c = vec![ResolveCandidate { name: "fd-find".into(), source: "repology".into() }];
    assert_eq!(primary_name(&c, "fd"), "fd-find");
    assert_eq!(primary_name(&vec![], "fd"), "fd");
}

#[test]
fn colour_support_from_the_environment() {
    let s = |v: &str| Some(v.to_string());
    assert!(color_support(true, s("truecolor"), true, s("xterm"), false) == ColorSupport::Off);
    assert!(color_support(false, s("truecolor"), false, None, false) == ColorSupport::OnWithVt);
    assert!(color_support(false, s("24bit"), false, None, true) == ColorSupport::OnWithVt);
    assert!(color_support(false, s("8bit"), true, None, true) == ColorSupport::OnWithVt);
    assert!(color_support(false, None, false, s("xterm-256color"), false) == ColorSupport::On);
    assert!(color_support(false, None, false, s("xterm-256color"), true) == ColorSupport::Off);
    assert!(color_support(false, None, false, s("dumb"), false) == ColorSupport::Off);
    assert!(color_support(false, None, false, None, false) == ColorSupport::Off);
}

#[test]
fn install_attempts() {
    assert!(matches!(after_install_attempt(Ok(()), &OsType::Debian), InstallStep::Installed));
    match after_install_attempt(Err(Error::ProgramNotFound("apt".into())), &OsType::Debian) {
        InstallStep::TryNext(e) => {
            assert_eq!(e.message(), "resolve error: package manager not available for Debian")
        }
        _ => panic!("expected to try the next command"),
    }
    match after_install_attempt(Err(Error::Exec("boom".into())), &OsType::Debian) {
        InstallStep::Stop(e) => assert_eq!(e.message(), "execution error: boom"),
        _ => panic!("expected to stop"),
    }
    assert_eq!(
        install_exhausted(None, &OsType::Windows).message(),
        "resolve error: no install command available for Windows"
    );
    assert_eq!(
        install_exhausted(Some(Error::Exec("x".into())), &OsType::Windows).message(),
        "execution error: x"
    );
}

#[test]
fn database_labels_show_confidence() {
    assert_eq!(database_label_exec(10), "database (confidence=1)");
    assert_eq!(database_label_exec(9), "database (confidence=0.9)");
    assert_eq!(database_label_exec(0), "database (confidence=0)");
    assert_eq!(database_label_exec(15), "database (confidence=1.5)");
    assert_eq!(database_label_exec(120), "database (confidence=12)");
    assert_eq!(source_label("database (confidence=1)", false), "database (confidence=1)");
}

#[test]
fn error_messages() {
    assert_eq!(Error::UnsupportedOs("Redox".into()).message(), "unsupported OS: Redox");
    assert_eq!(Error::PlatformConfig("a: b".into()).message(), "platform config error: a: b");
    assert_eq!(Error::Network("x".into()).message(), "network error: x");
    assert_eq!(Error::ProgramNotFound("apt".into()).message(), "program not found: apt");
    let io: Error = std::io::Error::new(std::io::ErrorKind::Other, "disk full").into();
    assert_eq!(io.message(), "I/O error: disk full");
}

#[test]
fn command_errors() {
    let c = Command { program: "brew".into(), args: vec![] };
    match c.spawn_error(true, "No such file") {
        Error::ProgramNotFound(p) => assert_eq!(p, "brew"),
        _ => panic!("expected ProgramNotFound"),
    }
    assert_eq!(c.spawn_error(false, "denied").message(), "execution error: failed to execute: denied");
    assert_eq!(Command::exit_error("exit status: 1").message(), "execution error: command exited with exit status: 1");
}

#[test]
fn expand_env_edge_cases() {
    let e = env(&[("A", "1"), ("A", "2"), ("B_C", "bc")]);
    assert_eq!(expand_env("$A/$B_C/${A}/%A%", &e), "1/bc/1/1");
    assert_eq!(expand_env("%NOPE", &e), "%NOPE");
    assert_eq!(expand_env("%A", &e), "1");
    assert_eq!(expand_env("${A", &e), "1");
    assert_eq!(expand_env("100%", &vec![]), "100%");
    assert_eq!(expand_env("%%A%", &e), "%%A%");
    assert_eq!(expand_env("%%", &e), "%%");
    assert_eq!(expand_env("${}x", &e), "${}x");
    assert_eq!(expand_env("${NOPE", &e), "${NOPE");
    assert_eq!(expand_env("%A%", &env(&[("A", "$A%B%")])), "$A%B%");
    assert_eq!(expand_env("%NOPE%/${NOPE}/$NOPE", &e), "%NOPE%/${NOPE}/$NOPE");
    assert_eq!(expand_env("$NOPE-x", &e), "$NOPE-x");
    assert_eq!(expand_env("cost $5 and $", &e), "cost $5 and $");
    assert_eq!(expand_env("$-x", &e), "$-x");
    assert_eq!(expand_env("$é1/x", &env(&[("é1", "u")])), "u/x");
    assert_eq!(expand_env("plain/path", &vec![]), "plain/path");
}

#[test]
fn loading_reports_bad_documents() {
    let good = PlatformConfig {
        targets: vec![OsType::Macos],
        manager: "homebrew".into(),
        sudo: false,
        install: "brew install {package}".into(),
        search: None,
        provides: None,
        provides_parse: None,
        binary_paths: vec![],
    };
    let docs = vec![
        PlatformDocument::Text { name: "blank".into(), text: " \n\t".into(), parsed: Err("empty".into()) },
        PlatformDocument::Text { name: "macos".into(), text: "manager: homebrew".into(), parsed: Ok(good) },
    ];
    let reg = PlatformRegistry::from_documents(docs).ok().unwrap();
    assert_eq!(reg.all().len(), 1);
    let docs = vec![PlatformDocument::Text {
        name: "broken".into(),
        text: "manager: [".into(),
        parsed: Err("unexpected end".into()),
    }];
    match PlatformRegistry::from_documents(docs) {
        Err(e) => assert_eq!(e.message(), "platform config error: broken: unexpected end"),
        Ok(_) => panic!("expected an error"),
    }
    match PlatformRegistry::from_documents(vec![PlatformDocument::NotUtf8 { name: "bin".into() }]) {
        Err(e) => assert_eq!(e.message(), "platform config error: bin: non-UTF-8 content"),
        Ok(_) => panic!("expected an error"),
    }
}

#[test]
fn parse_os_and_targets() {
    let reg = PlatformRegistry::from_configs(vec![
        PlatformConfig {
            targets: vec![OsType::Debian, OsType::Ubuntu],
            manager: "apt".into(),
            sudo: true,
            install: "apt install {package}".into(),
            search: None,
            provides: None,
            provides_parse: None,
            binary_paths: vec![],
        },
        PlatformConfig {
            targets: vec![OsType::Ubuntu, OsType::Pop],
            manager: "snap".into(),
            sudo: true,
            install: "snap install {package}".into(),
            search: None,
            provides: None,
            provides_parse: None,
            binary_paths: vec![],
        },
    ]);
    assert_eq!(reg.parse_os("Ubuntu"), Some(&OsType::Ubuntu));
    assert_eq!(reg.parse_os("deb"), Some(&OsType::Debian));
    assert_eq!(reg.parse_os("pop-os"), Some(&OsType::Pop));
    assert_eq!(reg.parse_os("windows"), None);
    let t: Vec<OsType> = reg.targets().into_iter().copied().collect();
    assert_eq!(t, vec![OsType::Debian, OsType::Ubuntu, OsType::Pop]);
    assert_eq!(reg.configs_for_type(&OsType::Ubuntu).len(), 2);
    assert_eq!(reg.for_type(&OsType::Pop).map(|c| c.manager.as_str()), Some("snap"));
}

#[test]
fn repository_names_are_normalized() {
    assert_eq!(normalize_repo_name("debian_13"), "debian");
    assert_eq!(normalize_repo_name("Ubuntu_24_04"), "ubuntu");
    assert_eq!(normalize_repo_name("linuxmint_21"), "mint");
    assert_eq!(normalize_repo_name("libreelec"), "elec");
    assert_eq!(normalize_repo_name("linux"), "linux");
    assert_eq!(normalize_repo_name("__manjaro__stable_"), "manjaro_stable");
    assert_eq!(normalize_repo_name("fedora_rawhide"), "fedora_rawhide");
    assert_eq!(normalize_repo_name("12_x"), "");
}
