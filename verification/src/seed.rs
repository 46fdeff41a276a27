//! The decisions of the seed-database updater: which Repology projects
//! become entries, the mapping rows written for them, and the Windows
//! mappings taken from the winget index. Fetching the pages, the database
//! itself and its compression belong to the caller.
use vstd::prelude::*;
use crate::os::{OsType, PlatformConfig, PlatformRegistry, repo_os};
use crate::repology::{RepologyPackage, form_encode, form_urlencode, package_name, utf8};
use crate::text::{
    chars_of, contains, contains_exec, ends_with, ends_with_exec, lowercase, starts_with,
    starts_with_exec, string_from, lowercased,
};

verus! {

/// The API root of Repology.
pub const REPOLOGY_BASE: &'static str = "https://repology.org/api/v1";

/// The number of projects on a full page of the project listing.
pub const PAGE_SIZE: usize = 200;

/// Prefixes of the names of language runtimes' packages and of libraries.
pub open spec fn library_prefixes() -> Seq<Seq<char>> {
    seq![
        "py-"@,
        "python-"@,
        "p5-"@,
        "php-"@,
        "perl-"@,
        "rubygem-"@,
        "gem-"@,
        "node-"@,
        "lib"@,
    ]
}

/// Suffixes of the names of development, debug and documentation packages.
pub open spec fn library_suffixes() -> Seq<Seq<char>> {
    seq!["-el"@, "-devel"@, "-dev"@, "-dbg"@, "-docs"@, "-common"@]
}

/// A lowercase project name that names a runtime module or a library: it
/// holds a `:`, or starts with one of the library prefixes, or ends with
/// one of the suffixes.
pub open spec fn is_library_name(lower: Seq<char>) -> bool {
    ||| contains(lower, seq![':'])
    ||| exists|i: int| 0 <= i < library_prefixes().len() && starts_with(lower, #[trigger] library_prefixes()[i])
    ||| exists|i: int| 0 <= i < library_suffixes().len() && ends_with(lower, #[trigger] library_suffixes()[i])
}

/// The project is a runtime module or a library (judged on its lowercase
/// name), which the seed database leaves out.
pub fn is_runtime_or_library(name: &str) -> (r: bool)
    ensures
        r == is_library_name(lowercased(name@)),
{
    let lower = chars_of(lowercase(name).as_str());
    let colon = vec![':'];
    assert(colon@ =~= seq![':']);
    if contains_exec(&lower, &colon) {
        return true;
    }
    let prefixes = vec!["py-", "python-", "p5-", "php-", "perl-", "rubygem-", "gem-", "node-", "lib"];
    assert(prefixes@.map_values(|s: &str| s@) =~= library_prefixes());
    let mut i: usize = 0;
    while i < prefixes.len()
        invariant
            i <= prefixes.len(),
            prefixes@.map_values(|s: &str| s@) == library_prefixes(),
            lower@ == lowercased(name@),
            forall|k: int| 0 <= k < i ==> !starts_with(lower@, #[trigger] library_prefixes()[k]),
        decreases prefixes.len() - i,
    {
        let p = chars_of(prefixes[i]);
        assert(p@ == library_prefixes()[i as int]);
        if starts_with_exec(&lower, &p) {
            assert(starts_with(lower@, library_prefixes()[i as int]));
            return true;
        }
        i = i + 1;
    }
    let suffixes = vec!["-el", "-devel", "-dev", "-dbg", "-docs", "-common"];
    assert(suffixes@.map_values(|s: &str| s@) =~= library_suffixes());
    let mut j: usize = 0;
    while j < suffixes.len()
        invariant
            j <= suffixes.len(),
            suffixes@.map_values(|s: &str| s@) == library_suffixes(),
            lower@ == lowercased(name@),
            !contains(lower@, seq![':']),
            forall|k: int|
                0 <= k < library_prefixes().len() ==> !starts_with(
                    lower@,
                    #[trigger] library_prefixes()[k],
                ),
            forall|k: int| 0 <= k < j ==> !ends_with(lower@, #[trigger] library_suffixes()[k]),
        decreases suffixes.len() - j,
    {
        let p = chars_of(suffixes[j]);
        assert(p@ == library_suffixes()[j as int]);
        if ends_with_exec(&lower, &p) {
            assert(ends_with(lower@, library_suffixes()[j as int]));
            return true;
        }
        j = j + 1;
    }
    false
}

/// The pillar operating systems: a project is seeded only when Repology
/// names its package on every one of them.
pub open spec fn pillar_list() -> Seq<OsType> {
    seq![OsType::Debian, OsType::Fedora, OsType::Arch, OsType::Macos, OsType::Windows]
}

/// The targets of the last config whose first target is `p`.
pub open spec fn pillar_targets(configs: Seq<PlatformConfig>, p: OsType) -> Option<Seq<OsType>>
    decreases configs.len(),
{
    if configs.len() == 0 {
        None
    } else if configs.last().targets@.len() > 0 && configs.last().targets@[0] == p {
        Some(configs.last().targets@)
    } else {
        pillar_targets(configs.drop_last(), p)
    }
}

/// Each pillar that some config leads with, with the targets of that config
/// (the OSes that share its packages), in the order of the pillars.
pub open spec fn pillar_entries(configs: Seq<PlatformConfig>, ps: Seq<OsType>) -> Seq<
    (OsType, Seq<OsType>),
>
    decreases ps.len(),
{
    if ps.len() == 0 {
        Seq::empty()
    } else {
        let prev = pillar_entries(configs, ps.drop_last());
        match pillar_targets(configs, ps.last()) {
            Some(t) => prev.push((ps.last(), t)),
            None => prev,
        }
    }
}

/// Pillar entries with their target lists as sequences.
pub open spec fn entry_views(e: Seq<(OsType, Vec<OsType>)>) -> Seq<(OsType, Seq<OsType>)> {
    e.map_values(|x: (OsType, Vec<OsType>)| (x.0, x.1@))
}

/// A copy of a list of OS types.
fn copy_types(v: &Vec<OsType>) -> (r: Vec<OsType>)
    ensures
        r@ == v@,
{
    let mut r: Vec<OsType> = Vec::new();
    let mut i: usize = 0;
    while i < v.len()
        invariant
            i <= v.len(),
            r@ == v@.take(i as int),
        decreases v.len() - i,
    {
        r.push(v[i]);
        assert(r@ =~= v@.take(i + 1));
        i = i + 1;
    }
    assert(v@.take(v.len() as int) =~= v@);
    r
}

/// The last config whose first target is `p`.
fn pillar_config(configs: &[PlatformConfig], p: OsType) -> (r: Option<&PlatformConfig>)
    ensures
        (match r {
            Some(c) => Some(c.targets@),
            None => None::<Seq<OsType>>,
        }) == pillar_targets(configs@, p),
{
    let mut k = configs.len();
    assert(configs@.take(k as int) =~= configs@);
    while k > 0
        invariant
            k <= configs.len(),
            pillar_targets(configs@, p) == pillar_targets(configs@.take(k as int), p),
        decreases k,
    {
        let c = &configs[k - 1];
        proof {
            let t = configs@.take(k as int);
            assert(t.drop_last() =~= configs@.take(k - 1));
            assert(t.last() == *c);
        }
        if c.targets.len() > 0 && c.targets[0] == p {
            return Some(c);
        }
        k = k - 1;
    }
    assert(configs@.take(0) =~= Seq::<PlatformConfig>::empty());
    None
}

/// The pillars of the registry, each with the OSes that its config covers
/// (the pillar first), in the order Debian, Fedora, Arch, macOS, Windows.
pub fn pillar_defs(registry: &PlatformRegistry) -> (r: Vec<(OsType, Vec<OsType>)>)
    ensures
        entry_views(r@) == pillar_entries(registry@, pillar_list()),
{
    let configs = registry.all();
    let pillars = vec![OsType::Debian, OsType::Fedora, OsType::Arch, OsType::Macos, OsType::Windows];
    assert(pillars@ =~= pillar_list());
    let mut out: Vec<(OsType, Vec<OsType>)> = Vec::new();
    let mut i: usize = 0;
    while i < pillars.len()
        invariant
            i <= pillars.len(),
            pillars@ == pillar_list(),
            configs@ == registry@,
            entry_views(out@) == pillar_entries(registry@, pillar_list().take(i as int)),
        decreases pillars.len() - i,
    {
        let p = pillars[i];
        proof {
            let n = pillar_list().take(i + 1);
            assert(n.drop_last() =~= pillar_list().take(i as int));
            assert(n.last() == p);
        }
        let found = pillar_config(configs, p);
        match found {
            Some(c) => {
                let ghost before = out@;
                out.push((p, copy_types(&c.targets)));
                assert(entry_views(out@) =~= entry_views(before).push((p, c.targets@)));
            },
            None => {},
        }
        i = i + 1;
    }
    assert(pillar_list().take(5) =~= pillar_list());
    out
}

/// The name that a project's packages give for `os`: that of the first
/// package whose repository maps to the OS and that has a name.
pub open spec fn covered_name(
    data: Seq<RepologyPackage>,
    os: OsType,
    configs: Seq<PlatformConfig>,
) -> Option<Seq<char>>
    decreases data.len(),
{
    if data.len() == 0 {
        None
    } else if repo_os(configs, data[0].repo@) == Some(os) && package_name(data[0]) is Some {
        package_name(data[0])
    } else {
        covered_name(data.drop_first(), os, configs)
    }
}

/// The pillars on which the project has a package, each with its name, in
/// the order of the pillars.
pub open spec fn coverage(
    data: Seq<RepologyPackage>,
    pillars: Seq<OsType>,
    configs: Seq<PlatformConfig>,
) -> Seq<(OsType, Seq<char>)>
    decreases pillars.len(),
{
    if pillars.len() == 0 {
        Seq::empty()
    } else {
        let prev = coverage(data, pillars.drop_last(), configs);
        match covered_name(data, pillars.last(), configs) {
            Some(n) => prev.push((pillars.last(), n)),
            None => prev,
        }
    }
}

/// Mappings with their names as sequences.
pub open spec fn mapping_views(m: Seq<(OsType, String)>) -> Seq<(OsType, Seq<char>)> {
    m.map_values(|x: (OsType, String)| (x.0, x.1@))
}

/// The name that the packages give for `os` (see [`covered_name`]).
fn covered_name_exec(
    packages: &Vec<RepologyPackage>,
    os: OsType,
    registry: &PlatformRegistry,
) -> (r: Option<String>)
    ensures
        (match r {
            Some(n) => Some(n@),
            None => None::<Seq<char>>,
        }) == covered_name(packages@, os, registry@),
{
    let mut i: usize = 0;
    assert(packages@.skip(0) =~= packages@);
    while i < packages.len()
        invariant
            i <= packages.len(),
            covered_name(packages@, os, registry@) == covered_name(
                packages@.skip(i as int),
                os,
                registry@,
            ),
        decreases packages.len() - i,
    {
        let ghost rest = packages@.skip(i as int);
        assert(rest.drop_first() =~= packages@.skip(i + 1));
        assert(rest[0] == packages@[i as int]);
        let pkg = &packages[i];
        match registry.repo_to_os(pkg.repo.as_str()) {
            Some(mapped) => {
                if *mapped == os {
                    match &pkg.binname {
                        Some(b) => {
                            return Some(b.clone());
                        },
                        None => {},
                    }
                    match &pkg.srcname {
                        Some(s) => {
                            return Some(s.clone());
                        },
                        None => {},
                    }
                    match &pkg.visible_name {
                        Some(v) => {
                            return Some(v.clone());
                        },
                        None => {},
                    }
                }
            },
            None => {},
        }
        i = i + 1;
    }
    None
}

/// The pillars on which the project has a package, with the names (see
/// [`coverage`]).
pub fn project_coverage(
    packages: &Vec<RepologyPackage>,
    pillars: &Vec<OsType>,
    registry: &PlatformRegistry,
) -> (r: Vec<(OsType, String)>)
    ensures
        mapping_views(r@) == coverage(packages@, pillars@, registry@),
{
    let mut out: Vec<(OsType, String)> = Vec::new();
    let mut i: usize = 0;
    while i < pillars.len()
        invariant
            i <= pillars.len(),
            mapping_views(out@) == coverage(packages@, pillars@.take(i as int), registry@),
        decreases pillars.len() - i,
    {
        proof {
            let n = pillars@.take(i + 1);
            assert(n.drop_last() =~= pillars@.take(i as int));
            assert(n.last() == pillars@[i as int]);
        }
        match covered_name_exec(packages, pillars[i], registry) {
            Some(n) => {
                let ghost before = out@;
                let ghost nv = n@;
                out.push((pillars[i], n));
                assert(mapping_views(out@) =~= mapping_views(before).push((pillars@[i as int], nv)));
            },
            None => {},
        }
        i = i + 1;
    }
    assert(pillars@.take(pillars.len() as int) =~= pillars@);
    out
}

/// The seed mappings of a project: `None` when it is a runtime module or a
/// library, or when some pillar has no package for it; else its package on
/// every pillar.
pub open spec fn project_candidate_spec(
    name: Seq<char>,
    data: Seq<RepologyPackage>,
    pillars: Seq<OsType>,
    configs: Seq<PlatformConfig>,
) -> Option<Seq<(OsType, Seq<char>)>> {
    if is_library_name(lowercased(name)) {
        None
    } else if coverage(data, pillars, configs).len() == pillars.len() {
        Some(coverage(data, pillars, configs))
    } else {
        None
    }
}

/// Decides whether a project of a listing page goes into the seed database,
/// and with which package names (see [`project_candidate_spec`]).
pub fn project_candidate(
    name: &str,
    packages: &Vec<RepologyPackage>,
    pillars: &Vec<OsType>,
    registry: &PlatformRegistry,
) -> (r: Option<Vec<(OsType, String)>>)
    ensures
        (match r {
            Some(m) => Some(mapping_views(m@)),
            None => None::<Seq<(OsType, Seq<char>)>>,
        }) == project_candidate_spec(name@, packages@, pillars@, registry@),
{
    if is_runtime_or_library(name) {
        return None;
    }
    let covered = project_coverage(packages, pillars, registry);
    if covered.len() == pillars.len() {
        Some(covered)
    } else {
        None
    }
}

/// A mapping row of the seed database: the package's name on an OS, where
/// it came from, and the confidence in it in tenths.
pub struct MappingRow {
    pub os: OsType,
    pub os_package: String,
    pub source: String,
    pub confidence_tenths: u8,
}

/// A row as a tuple of its values.
pub open spec fn row_view(r: MappingRow) -> (OsType, Seq<char>, Seq<char>, u8) {
    (r.os, r.os_package@, r.source@, r.confidence_tenths)
}

/// The derivatives of `os` in the fan-out table: the targets of its first
/// entry.
pub open spec fn fanout_of(fanout: Seq<(OsType, Seq<OsType>)>, os: OsType) -> Option<Seq<OsType>>
    decreases fanout.len(),
{
    if fanout.len() == 0 {
        None
    } else if fanout[0].0 == os {
        Some(fanout[0].1)
    } else {
        fanout_of(fanout.drop_first(), os)
    }
}

/// The rows derived from a pillar's package for the other OSes of its
/// config, with confidence 0.9.
pub open spec fn derived_rows(os: OsType, pkg: Seq<char>, ds: Seq<OsType>) -> Seq<
    (OsType, Seq<char>, Seq<char>, u8),
>
    decreases ds.len(),
{
    if ds.len() == 0 {
        Seq::empty()
    } else if ds.last() == os {
        derived_rows(os, pkg, ds.drop_last())
    } else {
        derived_rows(os, pkg, ds.drop_last()).push((ds.last(), pkg, "derived"@, 9u8))
    }
}

/// The rows written for a candidate: for each pillar its own mapping with
/// confidence 1.0, followed by the derived mappings of that pillar.
pub open spec fn candidate_rows(
    mappings: Seq<(OsType, Seq<char>)>,
    fanout: Seq<(OsType, Seq<OsType>)>,
) -> Seq<(OsType, Seq<char>, Seq<char>, u8)>
    decreases mappings.len(),
{
    if mappings.len() == 0 {
        Seq::empty()
    } else {
        let (os, pkg) = mappings.last();
        candidate_rows(mappings.drop_last(), fanout) + seq![(os, pkg, "repology_auto"@, 10u8)] + match fanout_of(fanout, os) {
            Some(ds) => derived_rows(os, pkg, ds),
            None => Seq::empty(),
        }
    }
}

/// The derivatives of `os` in the fan-out table.
fn fanout_exec(fanout: &Vec<(OsType, Vec<OsType>)>, os: OsType) -> (r: Option<&Vec<OsType>>)
    ensures
        (match r {
            Some(v) => Some(v@),
            None => None::<Seq<OsType>>,
        }) == fanout_of(entry_views(fanout@), os),
{
    let ghost f = entry_views(fanout@);
    let mut i: usize = 0;
    assert(f.skip(0) =~= f);
    while i < fanout.len()
        invariant
            i <= fanout.len(),
            f == entry_views(fanout@),
            fanout_of(f, os) == fanout_of(f.skip(i as int), os),
        decreases fanout.len() - i,
    {
        assert(f.skip(i as int).drop_first() =~= f.skip(i + 1));
        assert(f.skip(i as int)[0] == f[i as int]);
        if fanout[i].0 == os {
            return Some(&fanout[i].1);
        }
        i = i + 1;
    }
    None
}

/// The mapping rows for a candidate's pillar mappings, given the fan-out of
/// each pillar to the OSes that share its packages (see [`candidate_rows`]).
pub fn mapping_rows(
    mappings: &Vec<(OsType, String)>,
    fanout: &Vec<(OsType, Vec<OsType>)>,
) -> (r: Vec<MappingRow>)
    ensures
        r@.map_values(|x: MappingRow| row_view(x)) == candidate_rows(
            mapping_views(mappings@),
            entry_views(fanout@),
        ),
{
    let ghost ms = mapping_views(mappings@);
    let ghost fo = entry_views(fanout@);
    let mut out: Vec<MappingRow> = Vec::new();
    let mut i: usize = 0;
    while i < mappings.len()
        invariant
            i <= mappings.len(),
            ms == mapping_views(mappings@),
            fo == entry_views(fanout@),
            out@.map_values(|x: MappingRow| row_view(x)) == candidate_rows(ms.take(i as int), fo),
        decreases mappings.len() - i,
    {
        let os = mappings[i].0;
        let pkg = &mappings[i].1;
        let ghost base = out@.map_values(|x: MappingRow| row_view(x));
        proof {
            let n = ms.take(i + 1);
            assert(n.drop_last() =~= ms.take(i as int));
            assert(n.last() == (os, pkg@));
        }
        let ghost before = out@;
        out.push(
            MappingRow {
                os,
                os_package: pkg.clone(),
                source: String::from_str("repology_auto"),
                confidence_tenths: 10,
            },
        );
        assert(out@.map_values(|x: MappingRow| row_view(x)) =~= base + seq![
            (os, pkg@, "repology_auto"@, 10u8),
        ]);
        let ghost mid = out@.map_values(|x: MappingRow| row_view(x));
        match fanout_exec(fanout, os) {
            Some(ds) => {
                let mut k: usize = 0;
                while k < ds.len()
                    invariant
                        k <= ds.len(),
                        out@.map_values(|x: MappingRow| row_view(x)) == mid + derived_rows(
                            os,
                            pkg@,
                            ds@.take(k as int),
                        ),
                    decreases ds.len() - k,
                {
                    proof {
                        let n = ds@.take(k + 1);
                        assert(n.drop_last() =~= ds@.take(k as int));
                        assert(n.last() == ds@[k as int]);
                    }
                    if ds[k] != os {
                        let ghost b2 = out@.map_values(|x: MappingRow| row_view(x));
                        out.push(
                            MappingRow {
                                os: ds[k],
                                os_package: pkg.clone(),
                                source: String::from_str("derived"),
                                confidence_tenths: 9,
                            },
                        );
                        assert(out@.map_values(|x: MappingRow| row_view(x)) =~= b2.push(
                            (ds@[k as int], pkg@, "derived"@, 9u8),
                        ));
                    }
                    k = k + 1;
                }
                assert(ds@.take(ds.len() as int) =~= ds@);
            },
            None => {
                assert(mid =~= mid + Seq::<(OsType, Seq<char>, Seq<char>, u8)>::empty());
            },
        }
        i = i + 1;
    }
    assert(ms.take(mappings.len() as int) =~= ms);
    out
}

/// An entry of the winget package index.
pub struct WingetItem {
    /// The package identifier, such as `BurntSushi.ripgrep.MSVC`.
    pub package_id: String,
    /// The package's display name.
    pub name: String,
}

/// The part of `s` after its last `.` (all of `s` when it has none):
/// `s.rsplit('.').next()`.
pub open spec fn after_last_dot(s: Seq<char>) -> Seq<char>
    decreases s.len(),
{
    if s.len() == 0 {
        s
    } else if s.last() == '.' {
        Seq::empty()
    } else {
        after_last_dot(s.drop_last()).push(s.last())
    }
}

/// The first database package whose lowercase name is the lowercase last
/// segment of the identifier or the lowercase display name.
pub open spec fn winget_match(existing: Seq<(i64, Seq<char>)>, seg: Seq<char>, name: Seq<char>) -> Option<i64>
    decreases existing.len(),
{
    if existing.len() == 0 {
        None
    } else if lowercased(existing[0].1) == seg || lowercased(existing[0].1) == name {
        Some(existing[0].0)
    } else {
        winget_match(existing.drop_first(), seg, name)
    }
}

/// The mapping row that a matched winget index entry gives: on Windows,
/// the winget identifier, from `winget_direct`, with confidence 1.0.
pub open spec fn winget_row(package_id: Seq<char>) -> (OsType, Seq<char>, Seq<char>, u8) {
    (OsType::Windows, package_id, "winget_direct"@, 10u8)
}

/// The Windows mappings that the winget index gives: for each index entry
/// that matches a package of the database, in the order of the index, that
/// package's id with the row [`winget_row`] of the entry's identifier.
pub open spec fn winget_rows(existing: Seq<(i64, Seq<char>)>, items: Seq<WingetItem>) -> Seq<
    (i64, (OsType, Seq<char>, Seq<char>, u8)),
>
    decreases items.len(),
{
    if items.len() == 0 {
        Seq::empty()
    } else {
        let item = items.last();
        let prev = winget_rows(existing, items.drop_last());
        match winget_match(
            existing,
            lowercased(after_last_dot(item.package_id@)),
            lowercased(item.name@),
        ) {
            Some(id) => prev.push((id, winget_row(item.package_id@))),
            None => prev,
        }
    }
}

/// A mapping row for a package of the database, given by its id.
pub struct PackageMapping {
    pub package_id: i64,
    pub row: MappingRow,
}

/// The mappings with their rows as tuples.
pub open spec fn package_mapping_views(m: Seq<PackageMapping>) -> Seq<
    (i64, (OsType, Seq<char>, Seq<char>, u8)),
> {
    m.map_values(|x: PackageMapping| (x.package_id, row_view(x.row)))
}

/// The part after the last `.` of a character vector.
fn after_last_dot_exec(s: &Vec<char>) -> (r: Vec<char>)
    ensures
        r@ == after_last_dot(s@),
{
    let mut r: Vec<char> = Vec::new();
    let mut i: usize = 0;
    while i < s.len()
        invariant
            i <= s.len(),
            r@ == after_last_dot(s@.take(i as int)),
        decreases s.len() - i,
    {
        proof {
            let n = s@.take(i + 1);
            assert(n.drop_last() =~= s@.take(i as int));
            assert(n.last() == s@[i as int]);
        }
        if s[i] == '.' {
            r = Vec::new();
        } else {
            r.push(s[i]);
        }
        i = i + 1;
    }
    assert(s@.take(s.len() as int) =~= s@);
    r
}

/// The database packages with their names as sequences.
pub open spec fn package_views(p: Seq<(i64, String)>) -> Seq<(i64, Seq<char>)> {
    p.map_values(|x: (i64, String)| (x.0, x.1@))
}

/// The Windows mapping rows to add from the winget index for the packages
/// already in the database (see [`winget_rows`]): one row per matched index
/// entry, so their number is the number of matched entries.
pub fn winget_mappings(existing: &Vec<(i64, String)>, items: &Vec<WingetItem>) -> (r: Vec<
    PackageMapping,
>)
    ensures
        package_mapping_views(r@) == winget_rows(package_views(existing@), items@),
{
    let ghost ex = package_views(existing@);
    let mut lowered: Vec<String> = Vec::new();
    let mut k: usize = 0;
    while k < existing.len()
        invariant
            k <= existing.len(),
            lowered.len() == k,
            ex == package_views(existing@),
            forall|m: int| 0 <= m < k ==> #[trigger] lowered@[m]@ == lowercased(ex[m].1),
        decreases existing.len() - k,
    {
        lowered.push(lowercase(existing[k].1.as_str()));
        k = k + 1;
    }
    let mut out: Vec<PackageMapping> = Vec::new();
    let mut i: usize = 0;
    while i < items.len()
        invariant
            i <= items.len(),
            lowered.len() == existing.len(),
            ex == package_views(existing@),
            forall|m: int| 0 <= m < existing.len() ==> #[trigger] lowered@[m]@ == lowercased(ex[m].1),
            package_mapping_views(out@) == winget_rows(ex, items@.take(i as int)),
        decreases items.len() - i,
    {
        let item = &items[i];
        proof {
            let n = items@.take(i + 1);
            assert(n.drop_last() =~= items@.take(i as int));
            assert(n.last() == *item);
        }
        let seg_chars = after_last_dot_exec(&chars_of(item.package_id.as_str()));
        let seg = lowercase(string_from(&seg_chars).as_str());
        let name = lowercase(item.name.as_str());
        let mut j: usize = 0;
        assert(ex.skip(0) =~= ex);
        while j < existing.len() && !(lowered[j] == seg || lowered[j] == name)
            invariant
                j <= existing.len(),
                lowered.len() == existing.len(),
                ex == package_views(existing@),
                forall|m: int| 0 <= m < existing.len() ==> #[trigger] lowered@[m]@ == lowercased(ex[m].1),
                winget_match(ex, seg@, name@) == winget_match(ex.skip(j as int), seg@, name@),
            decreases existing.len() - j,
        {
            assert(ex.skip(j as int).drop_first() =~= ex.skip(j + 1));
            assert(ex.skip(j as int)[0] == ex[j as int]);
            assert(lowered@[j as int]@ == lowercased(ex[j as int].1));
            j = j + 1;
        }
        if j < existing.len() {
            proof {
                assert(ex.skip(j as int)[0] == ex[j as int]);
                assert(lowered@[j as int]@ == lowercased(ex[j as int].1));
            }
            let ghost before = out@;
            let m = PackageMapping {
                package_id: existing[j].0,
                row: MappingRow {
                    os: OsType::Windows,
                    os_package: item.package_id.clone(),
                    source: String::from_str("winget_direct"),
                    confidence_tenths: 10,
                },
            };
            out.push(m);
            assert(package_mapping_views(out@) =~= package_mapping_views(before).push(
                (existing@[j as int].0, winget_row(item.package_id@)),
            ));
        } else {
            assert(ex.skip(j as int).len() == 0);
        }
        i = i + 1;
    }
    assert(items@.take(items.len() as int) =~= items@);
    out
}

/// The address of the page of the project listing that starts after
/// `cursor` (the first page for an empty cursor), for the families
/// filter that the updater uses.
pub fn page_url(cursor: &str) -> (r: String)
    ensures
        cursor@.len() == 0 ==> r@ == REPOLOGY_BASE@ + "/projects/?families=3-"@,
        cursor@.len() > 0 ==> r@ == REPOLOGY_BASE@ + "/projects/"@ + form_encode(utf8(cursor@))
            + "/?families=3-"@,
{
    let mut r = String::from_str(REPOLOGY_BASE);
    if chars_of(cursor).len() == 0 {
        r.append("/projects/?families=3-");
    } else {
        r.append("/projects/");
        let e = form_urlencode(cursor);
        r.append(e.as_str());
        r.append("/?families=3-");
    }
    r
}

/// A page with fewer projects than a full one is the last.
pub fn is_last_page(projects: usize) -> (r: bool)
    ensures
        r == (projects < PAGE_SIZE),
{
    projects < PAGE_SIZE
}


/// The cursor for the next page of the listing: the name of the last
/// project of this page (empty when the page had none).
pub fn next_cursor(names: &Vec<String>) -> (r: String)
    ensures
        names.len() > 0 ==> r@ == names@.last()@,
        names.len() == 0 ==> r@ == Seq::<char>::empty(),
{
    if names.len() > 0 {
        names[names.len() - 1].clone()
    } else {
        String::new()
    }
}

/// The listing goes on to another page only after a page was fetched and
/// parsed and it was full (an empty page, a short page or a failed fetch
/// ends it).
pub fn listing_goes_on(fetched: bool, projects: usize) -> (r: bool)
    ensures
        r == (fetched && projects >= PAGE_SIZE),
{
    fetched && !is_last_page(projects)
}

} // verus!
