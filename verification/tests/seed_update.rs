use upi::os::{OsType, PlatformConfig, PlatformRegistry};
use upi::repology::RepologyPackage;
use upi::seed::{
    is_last_page, is_runtime_or_library, listing_goes_on, next_cursor, mapping_rows, page_url, pillar_defs, project_candidate,
    project_coverage, winget_mappings, WingetItem,
};

fn cfg(targets: Vec<OsType>, manager: &str) -> PlatformConfig {
    PlatformConfig {
        targets,
        manager: manager.into(),
        sudo: false,
        install: format!("{manager} install {{package}}"),
        search: None,
        provides: None,
        provides_parse: None,
        binary_paths: vec![],
    }
}

fn registry() -> PlatformRegistry {
    PlatformRegistry::from_configs(vec![
        cfg(vec![OsType::Macos], "homebrew"),
        cfg(vec![OsType::Debian, OsType::Ubuntu, OsType::Mint], "apt"),
        cfg(vec![OsType::Fedora], "dnf"),
        cfg(vec![OsType::Arch, OsType::Manjaro], "pacman"),
        cfg(vec![OsType::Windows], "winget"),
        cfg(vec![OsType::Windows], "scoop"),
    ])
}

fn pkg(repo: &str, bin: Option<&str>, src: Option<&str>) -> RepologyPackage {
    RepologyPackage {
        repo: repo.into(),
        srcname: src.map(String::from),
        binname: bin.map(String::from),
        visible_name: None,
        version: None,
        status: None,
    }
}

#[test]
fn libraries_and_runtimes_are_left_out() {
    assert!(is_runtime_or_library("python:requests"));
    assert!(is_runtime_or_library("py-requests"));
    assert!(is_runtime_or_library("LibPNG"));
    assert!(is_runtime_or_library("openssl-devel"));
    assert!(is_runtime_or_library("emacs-EL"));
    assert!(is_runtime_or_library("node-left-pad"));
    assert!(!is_runtime_or_library("ripgrep"));
    assert!(!is_runtime_or_library("python"));
    assert!(!is_runtime_or_library("devtools"));
}

#[test]
fn pillars_follow_the_registry() {
    let p = pillar_defs(&registry());
    let keys: Vec<OsType> = p.iter().map(|e| e.0).collect();
    assert_eq!(keys, vec![OsType::Debian, OsType::Fedora, OsType::Arch, OsType::Macos, OsType::Windows]);
    assert_eq!(p[0].1, vec![OsType::Debian, OsType::Ubuntu, OsType::Mint]);
    assert_eq!(p[2].1, vec![OsType::Arch, OsType::Manjaro]);
}

#[test]
fn coverage_takes_the_first_named_package() {
    let reg = registry();
    let data = vec![
        pkg("debian_13", None, None),
        pkg("debian_12", Some("fd-find"), None),
        pkg("arch", None, Some("fd")),
        pkg("debian_13", Some("fd-other"), None),
    ];
    let pillars = vec![OsType::Debian, OsType::Arch, OsType::Macos];
    let c = project_coverage(&data, &pillars, &reg);
    assert_eq!(c, vec![(OsType::Debian, "fd-find".to_string()), (OsType::Arch, "fd".to_string())]);
    assert!(project_candidate("fd", &data, &pillars, &reg).is_none());
    let two = vec![OsType::Debian, OsType::Arch];
    assert_eq!(project_candidate("fd", &data, &two, &reg).map(|m| m.len()), Some(2));
    assert!(project_candidate("libfd", &data, &two, &reg).is_none());
}

#[test]
fn rows_fan_out_to_derivatives() {
    let fanout = pillar_defs(&registry());
    let rows = mapping_rows(
        &vec![(OsType::Debian, "fd-find".to_string()), (OsType::Fedora, "fd".to_string())],
        &fanout,
    );
    let shown: Vec<(OsType, String, String, u8)> = rows
        .iter()
        .map(|r| (r.os, r.os_package.clone(), r.source.clone(), r.confidence_tenths))
        .collect();
    assert_eq!(
        shown,
        vec![
            (OsType::Debian, "fd-find".to_string(), "repology_auto".to_string(), 10),
            (OsType::Ubuntu, "fd-find".to_string(), "derived".to_string(), 9),
            (OsType::Mint, "fd-find".to_string(), "derived".to_string(), 9),
            (OsType::Fedora, "fd".to_string(), "repology_auto".to_string(), 10),
        ]
    );
}

#[test]
fn winget_entries_match_by_id_segment_or_name() {
    let existing = vec![(1i64, "Ripgrep".to_string()), (2, "git".to_string()), (3, "Visual Studio Code".to_string())];
    let items = vec![
        WingetItem { package_id: "BurntSushi.ripgrep.MSVC".into(), name: "RipGrep MSVC".into() },
        WingetItem { package_id: "BurntSushi.RIPGREP".into(), name: "x".into() },
        WingetItem { package_id: "Git.Git".into(), name: "Git".into() },
        WingetItem { package_id: "Microsoft.VisualStudioCode".into(), name: "Visual Studio Code".into() },
        WingetItem { package_id: "Nobody.Nothing".into(), name: "none".into() },
    ];
    let m: Vec<(i64, OsType, String, String, u8)> = winget_mappings(&existing, &items)
        .into_iter()
        .map(|m| (m.package_id, m.row.os, m.row.os_package, m.row.source, m.row.confidence_tenths))
        .collect();
    let row = |id: i64, pid: &str| (id, OsType::Windows, pid.to_string(), "winget_direct".to_string(), 10u8);
    assert_eq!(
        m,
        vec![
            row(1, "BurntSushi.RIPGREP"),
            row(2, "Git.Git"),
            row(3, "Microsoft.VisualStudioCode"),
        ]
    );
}

#[test]
fn listing_pages() {
    assert_eq!(page_url(""), "https://repology.org/api/v1/projects/?families=3-");
    assert_eq!(page_url("zlib"), "https://repology.org/api/v1/projects/zlib/?families=3-");
    assert_eq!(page_url("c++"), "https://repology.org/api/v1/projects/c%2B%2B/?families=3-");
    assert!(is_last_page(199));
    assert!(!is_last_page(200));
    assert!(listing_goes_on(true, 200));
    assert!(!listing_goes_on(true, 0));
    assert!(!listing_goes_on(false, 200));
    assert_eq!(next_cursor(&vec!["a".to_string(), "zlib".to_string()]), "zlib");
    assert_eq!(next_cursor(&vec![]), "");
}
