use upi::db::{Database, Mapping, SeedAlias, SeedRow};
use upi::os::OsType;

fn row(package: &str, os: OsType, os_package: &str, source: &str, tenths: u8) -> SeedRow {
    SeedRow {
        package: package.into(),
        os,
        mapping: Mapping {
            os_package: os_package.into(),
            source: source.into(),
            confidence_tenths: tenths,
        },
    }
}

/// Seed mappings of a few common packages.
fn open() -> Database {
    let mut rows = Vec::new();
    let all = [
        OsType::Macos,
        OsType::Debian,
        OsType::Ubuntu,
        OsType::Mint,
        OsType::Pop,
        OsType::Fedora,
        OsType::Arch,
        OsType::Windows,
    ];
    for os in all {
        let (python, wget, node) = match os {
            OsType::Macos => ("python@3.12", "wget", "node"),
            OsType::Debian | OsType::Ubuntu | OsType::Mint | OsType::Pop => ("python2.7", "wget2", "nodejs"),
            OsType::Fedora => ("python3", "wget2", "nodejs"),
            OsType::Windows => ("Python.Python.3.12", "JernejSimoncic.Wget", "OpenJS.NodeJS"),
            _ => ("python", "wget", "nodejs"),
        };
        let source = if os == OsType::Debian || os == OsType::Macos { "repology_auto" } else { "derived" };
        let tenths = if source == "derived" { 9 } else { 10 };
        rows.push(row("ffmpeg", os, "ffmpeg", source, tenths));
        rows.push(row("vim", os, "vim", source, tenths));
        rows.push(row("curl", os, "curl", source, tenths));
        rows.push(row("node", os, node, source, tenths));
        rows.push(row("wget", os, wget, source, tenths));
        rows.push(row("python", os, python, source, tenths));
    }
    rows.push(row("libpng", OsType::Debian, "libpng-dev", "repology_auto", 10));
    rows.push(row("libxml2", OsType::Debian, "libxml2-dev", "repology_auto", 10));
    let aliases = vec![
        SeedAlias { alias: "nodejs".into(), package: "node".into() },
        SeedAlias { alias: "python3".into(), package: "python".into() },
    ];
    Database::new(rows, aliases)
}

#[test]
fn lookup_known_package_on_macos() {
    let db = open();
    let result = db.lookup("ffmpeg", &OsType::Macos);
    assert!(result.is_some());
    let mapping = result.unwrap();
    assert_eq!(mapping.os_package, "ffmpeg");
    assert_eq!(mapping.source, "repology_auto");
    assert!(mapping.confidence_tenths >= 9);
}

#[test]
fn lookup_known_package_on_debian() {
    let db = open();
    let result = db.lookup("ffmpeg", &OsType::Debian);
    assert!(result.is_some());
    assert_eq!(result.unwrap().os_package, "ffmpeg");
}

#[test]
fn lookup_python_returns_python2_7_on_debian() {
    let db = open();
    let mapping = db.lookup("python", &OsType::Debian).unwrap();
    assert_eq!(mapping.os_package, "python2.7");
}

#[test]
fn lookup_wget_returns_wget2_on_debian() {
    let db = open();
    assert_eq!(db.lookup("wget", &OsType::Debian).unwrap().os_package, "wget2");
}

#[test]
fn lookup_wget_returns_wget2_on_fedora() {
    let db = open();
    assert_eq!(db.lookup("wget", &OsType::Fedora).unwrap().os_package, "wget2");
}

#[test]
fn lookup_unknown_package_returns_none() {
    let db = open();
    let result = db.lookup("nonexistent-package-12345", &OsType::Macos);
    assert!(result.is_none());
}

#[test]
fn alias_nodejs_resolves_to_node() {
    let db = open();
    let mapping = db.lookup("nodejs", &OsType::Macos).unwrap();
    assert_eq!(mapping.os_package, "node");
}

#[test]
fn every_known_os_has_some_mappings() {
    let db = open();
    let oss = vec![
        OsType::Macos,
        OsType::Debian,
        OsType::Ubuntu,
        OsType::Fedora,
        OsType::Arch,
        OsType::Windows,
    ];
    let packages = vec!["ffmpeg", "vim", "curl", "nodejs", "wget", "python"];
    for os in &oss {
        for pkg in &packages {
            let result = db.lookup(pkg, os);
            assert!(result.is_some(), "no mapping for {pkg} on {os:?}");
        }
    }
}

#[test]
fn mapping_has_provenance() {
    let db = open();
    let result = db.lookup("ffmpeg", &OsType::Debian).unwrap();
    assert_eq!(result.source, "repology_auto");
    assert!(result.confidence_tenths > 0);
}

#[test]
fn search_partial_match_finds_package() {
    let db = open();
    let results = db.search("pyt", &OsType::Macos);
    assert!(!results.is_empty(), "expected at least one result for 'pyt'");
    let names: Vec<&str> = results.iter().map(|m| m.os_package.as_str()).collect();
    assert!(names.contains(&"python@3.12"));
}

#[test]
fn search_exact_match() {
    let db = open();
    let results = db.search("python", &OsType::Macos);
    assert!(!results.is_empty());
    assert!(results.iter().any(|m| m.os_package == "python@3.12"));
}

#[test]
fn search_no_match_returns_empty() {
    let db = open();
    assert!(db.search("xyznonexistent12345", &OsType::Macos).is_empty());
}

#[test]
fn search_case_insensitive() {
    let db = open();
    let results = db.search("PYTHON", &OsType::Macos);
    assert!(!results.is_empty(), "expected results for 'PYTHON' (uppercase)");
    assert!(results.iter().any(|m| m.os_package == "python@3.12"));
}

#[test]
fn search_multiple_results() {
    let db = open();
    let results = db.search("lib", &OsType::Debian);
    assert!(results.len() >= 2, "expected at least 2 results for 'lib', got {}", results.len());
}

#[test]
fn search_os_specific() {
    let db = open();
    let macos = db.search("python", &OsType::Macos);
    let debian = db.search("python", &OsType::Debian);
    let macos_names: Vec<&str> = macos.iter().map(|m| m.os_package.as_str()).collect();
    let debian_names: Vec<&str> = debian.iter().map(|m| m.os_package.as_str()).collect();
    assert!(macos_names.contains(&"python@3.12"), "macos should have 'python@3.12'");
    assert!(debian_names.contains(&"python2.7"), "debian should have 'python2.7'");
}

#[test]
fn distro_variants_have_entries() {
    let db = open();
    for os in [OsType::Debian, OsType::Ubuntu, OsType::Mint, OsType::Pop] {
        assert_eq!(db.lookup("ffmpeg", &os).unwrap().os_package, "ffmpeg");
    }
}

#[test]
fn search_keeps_row_order_and_matches_os_names() {
    let db = open();
    let r: Vec<String> = db.search("DEV", &OsType::Debian).into_iter().map(|m| m.os_package).collect();
    assert_eq!(r, vec!["libpng-dev", "libxml2-dev"]);
    assert!(db.lookup("python3", &OsType::Fedora).is_some());
    assert!(db.lookup("PYTHON", &OsType::Fedora).is_none());
}
