//! Operating systems and the package-manager configurations for them.
use vstd::prelude::*;
use crate::error::Error;
use crate::text::{
    chars_of, chars_eq, push_char, string_of, join, lowercase, starts_with, starts_with_exec, lowercased, without_chars,
    without_chars_exec,
};

verus! {

/// The operating systems that can be detected (the variants of `os_info`'s
/// `Type`, under the same names).
#[allow(non_camel_case_types)]
#[derive(Debug, Clone, Copy, PartialEq, Eq, Structural, Hash)]
pub enum OsType {
    /// IBM AIX (<https://en.wikipedia.org/wiki/IBM_AIX>).
    AIX,
    /// AlmaLinux (<https://en.wikipedia.org/wiki/AlmaLinux>).
    AlmaLinux,
    /// Alpaquita Linux (<https://bell-sw.com/alpaquita-linux/>).
    Alpaquita,
    /// Alpine Linux (<https://en.wikipedia.org/wiki/Alpine_Linux>).
    Alpine,
    /// ALT Linux (https://en.wikipedia.org/wiki/ALT_Linux).
    ALTLinux,
    /// Amazon Linux AMI (<https://en.wikipedia.org/wiki/Amazon_Machine_Image#Amazon_Linux_AMI>).
    Amazon,
    /// Android (<https://en.wikipedia.org/wiki/Android_(operating_system)>).
    Android,
    /// AOSC OS (<https://aosc.io/aosc-os/>).
    AOSC,
    /// Arch Linux (<https://en.wikipedia.org/wiki/Arch_Linux>).
    Arch,
    /// Artix Linux (<https://en.wikipedia.org/wiki/Artix_Linux>).
    Artix,
    /// Bazzite (<https://en.wikipedia.org/wiki/Bazzite_(operating_system)>).
    Bazzite,
    /// Bluefin (<https://projectbluefin.io>).
    Bluefin,
    /// CachyOS (<https://en.wikipedia.org/wiki/Arch_Linux#Derivatives>).
    CachyOS,
    /// CentOS (<https://en.wikipedia.org/wiki/CentOS>).
    CentOS,
    /// Cygwin (<https://en.wikipedia.org/wiki/Cygwin>).
    Cygwin,
    /// Debian (<https://en.wikipedia.org/wiki/Debian>).
    Debian,
    /// DragonFly BSD (<https://en.wikipedia.org/wiki/DragonFly_BSD>).
    DragonFly,
    /// Elementary OS (<https://en.wikipedia.org/wiki/Elementary_OS>).
    Elementary,
    /// Emscripten (<https://en.wikipedia.org/wiki/Emscripten>).
    Emscripten,
    /// EndeavourOS (<https://en.wikipedia.org/wiki/EndeavourOS>).
    EndeavourOS,
    /// Fedora (<https://en.wikipedia.org/wiki/Fedora_(operating_system)>).
    Fedora,
    /// FreeBSD (<https://en.wikipedia.org/wiki/FreeBSD>).
    FreeBSD,
    /// Garuda Linux (<https://en.wikipedia.org/wiki/Garuda_Linux>)
    Garuda,
    /// Gentoo Linux (<https://en.wikipedia.org/wiki/Gentoo_Linux>).
    Gentoo,
    /// HardenedBSD (https://hardenedbsd.org/).
    HardenedBSD,
    /// Hurd (https://hurd.gnu.org/).
    Hurd,
    /// Illumos (https://en.wikipedia.org/wiki/Illumos).
    Illumos,
    /// instantOS (<https://instantos.io/>).
    InstantOS,
    /// iOS (<https://en.wikipedia.org/wiki/iOS>).
    Ios,
    /// Kali Linux (https://en.wikipedia.org/wiki/Kali_Linux).
    Kali,
    /// KDE neon (https://en.wikipedia.org/wiki/KDE_neon).
    KDENeon,
    /// Linux based operating system (<https://en.wikipedia.org/wiki/Linux>).
    Linux,
    /// Mabox (<https://maboxlinux.org/>).
    Mabox,
    /// Mac OS X/OS X/macOS (<https://en.wikipedia.org/wiki/MacOS>).
    Macos,
    /// Manjaro (<https://en.wikipedia.org/wiki/Manjaro>).
    Manjaro,
    /// Mariner (<https://en.wikipedia.org/wiki/CBL-Mariner>).
    Mariner,
    /// MidnightBSD (<https://en.wikipedia.org/wiki/MidnightBSD>).
    MidnightBSD,
    /// Mint (<https://en.wikipedia.org/wiki/Linux_Mint>).
    Mint,
    /// NetBSD (<https://en.wikipedia.org/wiki/NetBSD>).
    NetBSD,
    /// NixOS (<https://en.wikipedia.org/wiki/NixOS>).
    NixOS,
    /// Nobara (<https://nobaraproject.org/>).
    Nobara,
    /// OpenBSD (<https://en.wikipedia.org/wiki/OpenBSD>).
    OpenBSD,
    /// OpenCloudOS (<https://www.opencloudos.org>).
    OpenCloudOS,
    /// openEuler (<https://en.wikipedia.org/wiki/EulerOS>).
    openEuler,
    /// openSUSE (<https://en.wikipedia.org/wiki/OpenSUSE>).
    openSUSE,
    /// Oracle Linux (<https://en.wikipedia.org/wiki/Oracle_Linux>).
    OracleLinux,
    /// PikaOS (<https://wiki.pika-os.com/en/home>)
    PikaOS,
    /// Pop!_OS (<https://en.wikipedia.org/wiki/Pop!_OS>)
    Pop,
    /// Raspberry Pi OS (<https://en.wikipedia.org/wiki/Raspberry_Pi_OS>).
    Raspbian,
    /// Red Hat Linux (<https://en.wikipedia.org/wiki/Red_Hat_Linux>).
    Redhat,
    /// Red Hat Enterprise Linux (<https://en.wikipedia.org/wiki/Red_Hat_Enterprise_Linux>).
    RedHatEnterprise,
    /// Redox (<https://en.wikipedia.org/wiki/Redox_(operating_system)>).
    Redox,
    /// Rocky Linux (<https://en.wikipedia.org/wiki/Rocky_Linux>).
    RockyLinux,
    /// Solus (<https://en.wikipedia.org/wiki/Solus_(operating_system)>).
    Solus,
    /// SUSE Linux Enterprise Server (<https://en.wikipedia.org/wiki/SUSE_Linux_Enterprise>).
    SUSE,
    /// Ubuntu (<https://en.wikipedia.org/wiki/Ubuntu_(operating_system)>).
    Ubuntu,
    /// Ultramarine (<https://ultramarine-linux.org/>).
    Ultramarine,
    /// Uos (<https://uos.uniontech.com/>).
    Uos,
    /// Void Linux (<https://en.wikipedia.org/wiki/Void_Linux>).
    Void,
    /// Zorin OS (<https://en.wikipedia.org/wiki/Zorin_OS>).
    Zorin,
    /// Unknown operating system.
    Unknown,
    /// Windows (<https://en.wikipedia.org/wiki/Microsoft_Windows>).
    Windows,
}

/// The name of an OS type, as its `Debug` formatting writes it.
pub open spec fn os_name(t: OsType) -> Seq<char> {
    match t {
        OsType::AIX => "AIX"@,
        OsType::AlmaLinux => "AlmaLinux"@,
        OsType::Alpaquita => "Alpaquita"@,
        OsType::Alpine => "Alpine"@,
        OsType::ALTLinux => "ALTLinux"@,
        OsType::Amazon => "Amazon"@,
        OsType::Android => "Android"@,
        OsType::AOSC => "AOSC"@,
        OsType::Arch => "Arch"@,
        OsType::Artix => "Artix"@,
        OsType::Bazzite => "Bazzite"@,
        OsType::Bluefin => "Bluefin"@,
        OsType::CachyOS => "CachyOS"@,
        OsType::CentOS => "CentOS"@,
        OsType::Cygwin => "Cygwin"@,
        OsType::Debian => "Debian"@,
        OsType::DragonFly => "DragonFly"@,
        OsType::Elementary => "Elementary"@,
        OsType::Emscripten => "Emscripten"@,
        OsType::EndeavourOS => "EndeavourOS"@,
        OsType::Fedora => "Fedora"@,
        OsType::FreeBSD => "FreeBSD"@,
        OsType::Garuda => "Garuda"@,
        OsType::Gentoo => "Gentoo"@,
        OsType::HardenedBSD => "HardenedBSD"@,
        OsType::Hurd => "Hurd"@,
        OsType::Illumos => "Illumos"@,
        OsType::InstantOS => "InstantOS"@,
        OsType::Ios => "Ios"@,
        OsType::Kali => "Kali"@,
        OsType::KDENeon => "KDENeon"@,
        OsType::Linux => "Linux"@,
        OsType::Mabox => "Mabox"@,
        OsType::Macos => "Macos"@,
        OsType::Manjaro => "Manjaro"@,
        OsType::Mariner => "Mariner"@,
        OsType::MidnightBSD => "MidnightBSD"@,
        OsType::Mint => "Mint"@,
        OsType::NetBSD => "NetBSD"@,
        OsType::NixOS => "NixOS"@,
        OsType::Nobara => "Nobara"@,
        OsType::OpenBSD => "OpenBSD"@,
        OsType::OpenCloudOS => "OpenCloudOS"@,
        OsType::openEuler => "openEuler"@,
        OsType::openSUSE => "openSUSE"@,
        OsType::OracleLinux => "OracleLinux"@,
        OsType::PikaOS => "PikaOS"@,
        OsType::Pop => "Pop"@,
        OsType::Raspbian => "Raspbian"@,
        OsType::Redhat => "Redhat"@,
        OsType::RedHatEnterprise => "RedHatEnterprise"@,
        OsType::Redox => "Redox"@,
        OsType::RockyLinux => "RockyLinux"@,
        OsType::Solus => "Solus"@,
        OsType::SUSE => "SUSE"@,
        OsType::Ubuntu => "Ubuntu"@,
        OsType::Ultramarine => "Ultramarine"@,
        OsType::Uos => "Uos"@,
        OsType::Void => "Void"@,
        OsType::Zorin => "Zorin"@,
        OsType::Unknown => "Unknown"@,
        OsType::Windows => "Windows"@,
    }
}

impl OsType {
    /// The name of the OS type, as its `Debug` formatting writes it.
    pub fn name(&self) -> (r: &'static str)
        ensures
            r@ == os_name(*self),
    {
        match self {
            OsType::AIX => "AIX",
            OsType::AlmaLinux => "AlmaLinux",
            OsType::Alpaquita => "Alpaquita",
            OsType::Alpine => "Alpine",
            OsType::ALTLinux => "ALTLinux",
            OsType::Amazon => "Amazon",
            OsType::Android => "Android",
            OsType::AOSC => "AOSC",
            OsType::Arch => "Arch",
            OsType::Artix => "Artix",
            OsType::Bazzite => "Bazzite",
            OsType::Bluefin => "Bluefin",
            OsType::CachyOS => "CachyOS",
            OsType::CentOS => "CentOS",
            OsType::Cygwin => "Cygwin",
            OsType::Debian => "Debian",
            OsType::DragonFly => "DragonFly",
            OsType::Elementary => "Elementary",
            OsType::Emscripten => "Emscripten",
            OsType::EndeavourOS => "EndeavourOS",
            OsType::Fedora => "Fedora",
            OsType::FreeBSD => "FreeBSD",
            OsType::Garuda => "Garuda",
            OsType::Gentoo => "Gentoo",
            OsType::HardenedBSD => "HardenedBSD",
            OsType::Hurd => "Hurd",
            OsType::Illumos => "Illumos",
            OsType::InstantOS => "InstantOS",
            OsType::Ios => "Ios",
            OsType::Kali => "Kali",
            OsType::KDENeon => "KDENeon",
            OsType::Linux => "Linux",
            OsType::Mabox => "Mabox",
            OsType::Macos => "Macos",
            OsType::Manjaro => "Manjaro",
            OsType::Mariner => "Mariner",
            OsType::MidnightBSD => "MidnightBSD",
            OsType::Mint => "Mint",
            OsType::NetBSD => "NetBSD",
            OsType::NixOS => "NixOS",
            OsType::Nobara => "Nobara",
            OsType::OpenBSD => "OpenBSD",
            OsType::OpenCloudOS => "OpenCloudOS",
            OsType::openEuler => "openEuler",
            OsType::openSUSE => "openSUSE",
            OsType::OracleLinux => "OracleLinux",
            OsType::PikaOS => "PikaOS",
            OsType::Pop => "Pop",
            OsType::Raspbian => "Raspbian",
            OsType::Redhat => "Redhat",
            OsType::RedHatEnterprise => "RedHatEnterprise",
            OsType::Redox => "Redox",
            OsType::RockyLinux => "RockyLinux",
            OsType::Solus => "Solus",
            OsType::SUSE => "SUSE",
            OsType::Ubuntu => "Ubuntu",
            OsType::Ultramarine => "Ultramarine",
            OsType::Uos => "Uos",
            OsType::Void => "Void",
            OsType::Zorin => "Zorin",
            OsType::Unknown => "Unknown",
            OsType::Windows => "Windows",
        }
    }
}

/// Configuration of a package manager for one or more operating systems.
#[derive(Debug, Clone)]
pub struct PlatformConfig {
    /// OS types this config applies to: `Debian`, `Macos`, etc.
    pub targets: Vec<OsType>,
    /// Human-readable name of the package manager: `apt`, `brew`, etc.
    pub manager: String,
    /// Whether install commands need `sudo`.
    pub sudo: bool,
    /// Install command template with `{package}` placeholder.
    pub install: String,
    /// Optional search command template with `{query}` placeholder.
    pub search: Option<String>,
    /// Optional shell glob or regex to discover installed packages.
    pub provides: Option<String>,
    /// Parse strategy override field; unused, the generic parser handles all output formats.
    pub provides_parse: Option<String>,
    /// Paths to manager binaries (supports `%VAR%`, `$VAR`, `${VAR}` expansion).
    pub binary_paths: Vec<String>,
}

/// The config applies to `os`.
pub open spec fn has_target(c: PlatformConfig, os: OsType) -> bool {
    c.targets@.contains(os)
}

/// The first config that applies to `os`.
pub open spec fn config_for(configs: Seq<PlatformConfig>, os: OsType) -> Option<PlatformConfig>
    decreases configs.len(),
{
    if configs.len() == 0 {
        None
    } else if has_target(configs[0], os) {
        Some(configs[0])
    } else {
        config_for(configs.drop_first(), os)
    }
}

/// Every config that applies to `os`, in order.
pub open spec fn configs_for(configs: Seq<PlatformConfig>, os: OsType) -> Seq<PlatformConfig>
    decreases configs.len(),
{
    if configs.len() == 0 {
        Seq::empty()
    } else if has_target(configs[0], os) {
        seq![configs[0]] + configs_for(configs.drop_first(), os)
    } else {
        configs_for(configs.drop_first(), os)
    }
}

/// The lowercase name of an OS type.
pub open spec fn os_lower(t: OsType) -> Seq<char> {
    lowercased(os_name(t))
}

/// The first target whose lowercase name is `n` or a prefix of `n`.
pub open spec fn target_for_repo(targets: Seq<OsType>, n: Seq<char>) -> Option<OsType>
    decreases targets.len(),
{
    if targets.len() == 0 {
        None
    } else if n == os_lower(targets[0]) || starts_with(n, os_lower(targets[0])) {
        Some(targets[0])
    } else {
        target_for_repo(targets.drop_first(), n)
    }
}

/// A part of a repository name that is a version number.
pub open spec fn all_digits(p: Seq<char>) -> bool {
    forall|i: int| 0 <= i < p.len() ==> '0' <= #[trigger] p[i] && p[i] <= '9'
}

/// The parts of a repository name that name it: the non-empty parts before
/// the first version number.
pub open spec fn name_parts(parts: Seq<Seq<char>>) -> Seq<Seq<char>>
    decreases parts.len(),
{
    if parts.len() == 0 {
        Seq::empty()
    } else if parts[0].len() == 0 {
        name_parts(parts.drop_first())
    } else if all_digits(parts[0]) {
        Seq::empty()
    } else {
        seq![parts[0]] + name_parts(parts.drop_first())
    }
}

/// A repology repository name without version suffix and `linux`/`libre`
/// prefix: `debian_13` is `debian`, `linuxmint` is `mint`.
pub open spec fn normalize_repo(repo: Seq<char>) -> Seq<char> {
    let joined = join(name_parts(crate::text::split_on(lowercased(repo), '_')), seq!['_']);
    if starts_with(joined, "linux"@) && joined.len() > "linux"@.len() {
        joined.skip("linux"@.len() as int)
    } else if starts_with(joined, "libre"@) && joined.len() > "libre"@.len() {
        joined.skip("libre"@.len() as int)
    } else {
        joined
    }
}

/// The OS type of a repository: the first target of the first config whose
/// manager is the repository (ignoring case), else the first target whose
/// lowercase name is, or begins, the normalized repository name; configs are
/// tried in order and each gives its answer before the next is looked at.
pub open spec fn repo_os(configs: Seq<PlatformConfig>, repo: Seq<char>) -> Option<OsType>
    decreases configs.len(),
{
    if configs.len() == 0 {
        None
    } else if lowercased(configs[0].manager@) == lowercased(repo) {
        if configs[0].targets@.len() > 0 {
            Some(configs[0].targets@[0])
        } else {
            None
        }
    } else {
        match target_for_repo(configs[0].targets@, normalize_repo(repo)) {
            Some(t) => Some(t),
            None => repo_os(configs.drop_first(), repo),
        }
    }
}

/// The first target that matches a normalized OS name: equal to it, or one a
/// prefix of the other.
pub open spec fn target_for_name(targets: Seq<OsType>, n: Seq<char>) -> Option<OsType>
    decreases targets.len(),
{
    if targets.len() == 0 {
        None
    } else if os_lower(targets[0]) == n || starts_with(os_lower(targets[0]), n) || starts_with(
        n,
        os_lower(targets[0]),
    ) {
        Some(targets[0])
    } else {
        target_for_name(targets.drop_first(), n)
    }
}

/// The OS type that a user-given name designates.
pub open spec fn name_os(configs: Seq<PlatformConfig>, n: Seq<char>) -> Option<OsType>
    decreases configs.len(),
{
    if configs.len() == 0 {
        None
    } else {
        match target_for_name(configs[0].targets@, n) {
            Some(t) => Some(t),
            None => name_os(configs.drop_first(), n),
        }
    }
}

/// A user-given OS name, normalized: lowercase, without `-` and `_`.
pub open spec fn normalize_os_name(name: Seq<char>) -> Seq<char> {
    without_chars(lowercased(name), '-', '_')
}

/// All targets of all configs, in order.
pub open spec fn all_targets(configs: Seq<PlatformConfig>) -> Seq<OsType>
    decreases configs.len(),
{
    if configs.len() == 0 {
        Seq::empty()
    } else {
        all_targets(configs.drop_last()) + configs.last().targets@
    }
}

/// `s` without repetitions, each element where it first occurs.
pub open spec fn dedup(s: Seq<OsType>) -> Seq<OsType>
    decreases s.len(),
{
    if s.len() == 0 {
        Seq::empty()
    } else if dedup(s.drop_last()).contains(s.last()) {
        dedup(s.drop_last())
    } else {
        dedup(s.drop_last()).push(s.last())
    }
}

/// Registry of all platform configurations.
#[derive(Debug, Clone)]
pub struct PlatformRegistry {
    configs: Vec<PlatformConfig>,
}

impl View for PlatformRegistry {
    type V = Seq<PlatformConfig>;

    closed spec fn view(&self) -> Seq<PlatformConfig> {
        self.configs@
    }
}

/// The two OS types are the same.
fn same_os(a: &OsType, b: &OsType) -> (r: bool)
    ensures
        r == (*a == *b),
{
    *a == *b
}

/// The config lists `os` among its targets.
fn has_target_exec(c: &PlatformConfig, os: &OsType) -> (r: bool)
    ensures
        r == has_target(*c, *os),
{
    let mut i: usize = 0;
    while i < c.targets.len()
        invariant
            i <= c.targets.len(),
            forall|j: int| 0 <= j < i ==> c.targets@[j] != *os,
        decreases c.targets.len() - i,
    {
        if same_os(&c.targets[i], os) {
            assert(c.targets@[i as int] == *os);
            return true;
        }
        i = i + 1;
    }
    false
}

/// The lowercase name of an OS type.
fn os_lower_exec(t: &OsType) -> (r: Vec<char>)
    ensures
        r@ == os_lower(*t),
{
    chars_of(lowercase(t.name()).as_str())
}

/// `parts[0..]` of `s` split at `_`, the name parts kept, joined with `_`.
fn normalize_parts(s: &Vec<char>) -> (r: Vec<char>)
    ensures
        r@ == join(name_parts(crate::text::split_on(s@, '_')), seq!['_']),
{
    let mut r: Vec<char> = Vec::new();
    let mut kept: Ghost<Seq<Seq<char>>> = Ghost(Seq::empty());
    let mut start: usize = 0;
    assert(s@.skip(0) =~= s@);
    loop
        invariant_except_break
            start <= s.len(),
            name_parts(crate::text::split_on(s@, '_')) == kept@ + name_parts(
                crate::text::split_on(s@.skip(start as int), '_'),
            ),
            r@ == join(kept@, seq!['_']),
            forall|i: int| 0 <= i < kept@.len() ==> kept@[i].len() > 0,
        ensures
            r@ == join(name_parts(crate::text::split_on(s@, '_')), seq!['_']),
        decreases s.len() - start,
    {
        let (end, last) = crate::text::next_piece(s, start, '_');
        let piece = crate::text::slice(s, start, end);
        let ghost rest = if last {
            Seq::<Seq<char>>::empty()
        } else {
            crate::text::split_on(s@.skip(end + 1), '_')
        };
        proof {
            if last {
                assert(piece@ =~= s@.skip(start as int));
            }
            assert(crate::text::split_on(s@.skip(start as int), '_') =~= seq![piece@] + rest);
            let l = seq![piece@] + rest;
            assert(l[0] == piece@);
            assert(l.drop_first() =~= rest);
        }
        if piece.len() == 0 {
            proof {
                if last {
                    assert(name_parts(rest) =~= Seq::<Seq<char>>::empty());
                    assert(kept@ + Seq::<Seq<char>>::empty() =~= kept@);
                }
            }
            if last {
                break ;
            }
        } else {
            let mut digits = true;
            let mut k: usize = 0;
            while k < piece.len()
                invariant
                    k <= piece.len(),
                    digits == (forall|i: int| 0 <= i < k ==> '0' <= #[trigger] piece@[i] && piece@[i] <= '9'),
                decreases piece.len() - k,
            {
                if !('0' <= piece[k] && piece[k] <= '9') {
                    digits = false;
                }
                k = k + 1;
            }
            if digits {
                assert(kept@ + Seq::<Seq<char>>::empty() =~= kept@);
                break ;
            }
            if r.len() > 0 {
                r.push('_');
            }
            crate::text::push_all(&mut r, &piece);
            proof {
                let nk = kept@.push(piece@);
                assert(nk.drop_last() =~= kept@);
                if kept@.len() == 0 {
                    assert(nk =~= seq![piece@]);
                    assert(r@ =~= piece@);
                } else {
                    assert(join(kept@, seq!['_']).len() > 0) by {
                        lemma_join_nonempty(kept@);
                    }
                }
                assert(kept@ + (seq![piece@] + name_parts(rest)) =~= nk + name_parts(rest));
                kept@ = nk;
            }
            if last {
                assert(name_parts(rest) =~= Seq::<Seq<char>>::empty());
                assert(kept@ + Seq::<Seq<char>>::empty() =~= kept@);
                break ;
            }
        }
        start = end + 1;
    }
    r
}

/// Joining non-empty parts gives a non-empty string.
proof fn lemma_join_nonempty(parts: Seq<Seq<char>>)
    requires
        parts.len() > 0,
        forall|i: int| 0 <= i < parts.len() ==> parts[i].len() > 0,
    ensures
        join(parts, seq!['_']).len() > 0,
    decreases parts.len(),
{
    if parts.len() > 1 {
        lemma_join_nonempty(parts.drop_last());
    }
}

/// Normalizes a repology repository name: lowercase, cut at the first
/// version-number part (`_`-separated), `linux`/`libre` prefix removed when
/// something is left after it.
pub fn normalize_repo_name(repo: &str) -> (r: String)
    ensures
        r@ == normalize_repo(repo@),
{
    let lower = chars_of(lowercase(repo).as_str());
    let joined = normalize_parts(&lower);
    let linux = chars_of("linux");
    let libre = chars_of("libre");
    if starts_with_exec(&joined, &linux) && joined.len() > linux.len() {
        crate::text::string_of(&joined, linux.len(), joined.len())
    } else if starts_with_exec(&joined, &libre) && joined.len() > libre.len() {
        crate::text::string_of(&joined, libre.len(), joined.len())
    } else {
        crate::text::string_from(&joined)
    }
}

impl PlatformRegistry {
    /// A registry of the given configs, in order.
    pub fn from_configs(configs: Vec<PlatformConfig>) -> (r: Self)
        ensures
            r@ == configs@,
    {
        PlatformRegistry { configs }
    }

    /// All platform configs.
    pub fn all(&self) -> (r: &[PlatformConfig])
        ensures
            r@ == self@,
    {
        self.configs.as_slice()
    }

    /// The platform config for a given OS type: the first that lists it.
    pub fn for_type(&self, os_type: &OsType) -> (r: Option<&PlatformConfig>)
        ensures
            r matches Some(c) ==> config_for(self@, *os_type) == Some(*c),
            r is None ==> config_for(self@, *os_type) is None,
    {
        let mut i: usize = 0;
        assert(self.configs@.skip(0) =~= self.configs@);
        while i < self.configs.len()
            invariant
                i <= self.configs.len(),
                config_for(self@, *os_type) == config_for(self.configs@.skip(i as int), *os_type),
            decreases self.configs.len() - i,
        {
            assert(self.configs@.skip(i as int).drop_first() =~= self.configs@.skip(i + 1));
            if has_target_exec(&self.configs[i], os_type) {
                return Some(&self.configs[i]);
            }
            i = i + 1;
        }
        None
    }

    /// Every platform config that lists the OS type, in order.
    pub fn configs_for_type(&self, os_type: &OsType) -> (r: Vec<&PlatformConfig>)
        ensures
            r@.map_values(|c: &PlatformConfig| *c) == configs_for(self@, *os_type),
    {
        let mut r: Vec<&PlatformConfig> = Vec::new();
        let mut i: usize = 0;
        assert(self.configs@.skip(0) =~= self.configs@);
        while i < self.configs.len()
            invariant
                i <= self.configs.len(),
                configs_for(self@, *os_type) == r@.map_values(|c: &PlatformConfig| *c)
                    + configs_for(self.configs@.skip(i as int), *os_type),
            decreases self.configs.len() - i,
        {
            assert(self.configs@.skip(i as int).drop_first() =~= self.configs@.skip(i + 1));
            let ghost before = r@;
            if has_target_exec(&self.configs[i], os_type) {
                r.push(&self.configs[i]);
                assert(r@.map_values(|c: &PlatformConfig| *c) =~= before.map_values(
                    |c: &PlatformConfig| *c,
                ).push(self.configs@[i as int]));
            }
            i = i + 1;
        }
        assert(configs_for(self.configs@.skip(i as int), *os_type) =~= Seq::<PlatformConfig>::empty());
        r
    }

    /// Maps a repology repository name to an OS type (see [`repo_os`]).
    pub fn repo_to_os(&self, repo: &str) -> (r: Option<&OsType>)
        ensures
            r matches Some(t) ==> repo_os(self@, repo@) == Some(*t),
            r is None ==> repo_os(self@, repo@) is None,
    {
        let normalized = chars_of(normalize_repo_name(repo).as_str());
        let repo_lower = chars_of(lowercase(repo).as_str());
        let mut i: usize = 0;
        assert(self.configs@.skip(0) =~= self.configs@);
        while i < self.configs.len()
            invariant
                i <= self.configs.len(),
                normalized@ == normalize_repo(repo@),
                repo_lower@ == lowercased(repo@),
                repo_os(self@, repo@) == repo_os(self.configs@.skip(i as int), repo@),
            decreases self.configs.len() - i,
        {
            let ghost rest = self.configs@.skip(i as int);
            assert(rest.drop_first() =~= self.configs@.skip(i + 1));
            assert(rest[0] == self.configs@[i as int]);
            let config = &self.configs[i];
            let manager_lower = chars_of(lowercase(config.manager.as_str()).as_str());
            if chars_eq(&manager_lower, &repo_lower) {
                if config.targets.len() > 0 {
                    return Some(&config.targets[0]);
                } else {
                    return None;
                }
            }
            let mut j: usize = 0;
            assert(config.targets@.skip(0) =~= config.targets@);
            while j < config.targets.len()
                invariant
                    j <= config.targets.len(),
                    i < self.configs.len(),
                    *config == self.configs@[i as int],
                    rest == self.configs@.skip(i as int),
                    rest[0] == *config,
                    lowercased(config.manager@) != lowercased(repo@),
                    normalized@ == normalize_repo(repo@),
                    repo_os(self@, repo@) == repo_os(rest, repo@),
                    target_for_repo(config.targets@, normalized@) == target_for_repo(
                        config.targets@.skip(j as int),
                        normalized@,
                    ),
                decreases config.targets.len() - j,
            {
                assert(config.targets@.skip(j as int).drop_first() =~= config.targets@.skip(j + 1));
                let t = os_lower_exec(&config.targets[j]);
                if chars_eq(&normalized, &t) || starts_with_exec(&normalized, &t) {
                    return Some(&config.targets[j]);
                }
                j = j + 1;
            }
            i = i + 1;
        }
        None
    }

    /// Parses a human-readable OS name into an OS type (see [`name_os`]),
    /// as the `--os` option does.
    pub fn parse_os(&self, name: &str) -> (r: Option<&OsType>)
        ensures
            r matches Some(t) ==> name_os(self@, normalize_os_name(name@)) == Some(*t),
            r is None ==> name_os(self@, normalize_os_name(name@)) is None,
    {
        let lower = chars_of(lowercase(name).as_str());
        let normalized = without_chars_exec(&lower, '-', '_');
        let mut i: usize = 0;
        assert(self.configs@.skip(0) =~= self.configs@);
        while i < self.configs.len()
            invariant
                i <= self.configs.len(),
                normalized@ == normalize_os_name(name@),
                name_os(self@, normalized@) == name_os(self.configs@.skip(i as int), normalized@),
            decreases self.configs.len() - i,
        {
            let ghost rest = self.configs@.skip(i as int);
            assert(rest.drop_first() =~= self.configs@.skip(i + 1));
            assert(rest[0] == self.configs@[i as int]);
            let config = &self.configs[i];
            let mut j: usize = 0;
            assert(config.targets@.skip(0) =~= config.targets@);
            while j < config.targets.len()
                invariant
                    j <= config.targets.len(),
                    i < self.configs.len(),
                    *config == self.configs@[i as int],
                    rest == self.configs@.skip(i as int),
                    rest[0] == *config,
                    normalized@ == normalize_os_name(name@),
                    name_os(self@, normalized@) == name_os(rest, normalized@),
                    target_for_name(config.targets@, normalized@) == target_for_name(
                        config.targets@.skip(j as int),
                        normalized@,
                    ),
                decreases config.targets.len() - j,
            {
                assert(config.targets@.skip(j as int).drop_first() =~= config.targets@.skip(j + 1));
                let t = os_lower_exec(&config.targets[j]);
                if chars_eq(&t, &normalized) || starts_with_exec(&t, &normalized)
                    || starts_with_exec(&normalized, &t) {
                    return Some(&config.targets[j]);
                }
                j = j + 1;
            }
            i = i + 1;
        }
        None
    }

    /// All OS types referenced across all platform configs, each once, in
    /// the order of their first mention.
    pub fn targets(&self) -> (r: Vec<&OsType>)
        ensures
            r@.map_values(|t: &OsType| *t) == dedup(all_targets(self@)),
    {
        let mut seen: Vec<&OsType> = Vec::new();
        let mut i: usize = 0;
        while i < self.configs.len()
            invariant
                i <= self.configs.len(),
                seen@.map_values(|t: &OsType| *t) == dedup(all_targets(self.configs@.take(i as int))),
            decreases self.configs.len() - i,
        {
            let config = &self.configs[i];
            let ghost base = all_targets(self.configs@.take(i as int));
            let mut j: usize = 0;
            while j < config.targets.len()
                invariant
                    j <= config.targets.len(),
                    seen@.map_values(|t: &OsType| *t) == dedup(base + config.targets@.take(j as int)),
                decreases config.targets.len() - j,
            {
                let target = &config.targets[j];
                let ghost prev = base + config.targets@.take(j as int);
                let ghost next = base + config.targets@.take(j + 1);
                assert(next.drop_last() =~= prev);
                assert(next.last() == *target);
                let mut k: usize = 0;
                let mut found = false;
                while k < seen.len()
                    invariant
                        k <= seen.len(),
                        found == (exists|m: int| 0 <= m < k && *seen@[m] == *target),
                    decreases seen.len() - k,
                {
                    if same_os(seen[k], target) {
                        found = true;
                    }
                    k = k + 1;
                }
                let ghost old_seen = seen@;
                proof {
                    let d = dedup(prev);
                    assert(d == old_seen.map_values(|t: &OsType| *t));
                    if found {
                        let m = choose|m: int| 0 <= m < seen.len() && *seen@[m] == *target;
                        assert(d[m] == *target);
                        assert(d.contains(*target));
                    } else {
                        assert forall|m: int| 0 <= m < d.len() implies d[m] != *target by {
                            assert(d[m] == *old_seen[m]);
                        }
                        assert(!d.contains(*target));
                    }
                }
                if !found {
                    seen.push(target);
                    assert(seen@.map_values(|t: &OsType| *t) =~= old_seen.map_values(
                        |t: &OsType| *t,
                    ).push(*target));
                }
                j = j + 1;
            }
            proof {
                assert(config.targets@.take(config.targets.len() as int) =~= config.targets@);
                let n = self.configs@.take(i + 1);
                assert(n.drop_last() =~= self.configs@.take(i as int));
                assert(n.last() == self.configs@[i as int]);
            }
            i = i + 1;
        }
        assert(self.configs@.take(self.configs.len() as int) =~= self.configs@);
        seen
    }
}


/// `char::is_alphanumeric`: the character has the Unicode `Alphabetic` or
/// `Numeric` property.
pub uninterp spec fn is_alnum(c: char) -> bool;

/// `char::is_alphanumeric`. The result is named; of the Unicode tables it
/// consults only the ASCII part is stated: an ASCII character is
/// alphanumeric exactly when it is a letter or a digit.
#[verifier::external_body]
fn is_alphanumeric(c: char) -> (r: bool)
    ensures
        r == is_alnum(c),
        (c as u32) < 128 ==> (r <==> ('0' <= c <= '9' || 'A' <= c <= 'Z' || 'a' <= c <= 'z')),
{
    c.is_alphanumeric()
}

/// How a variable is written in a path.
#[derive(Clone, Copy, PartialEq, Eq, Structural)]
pub enum VarForm {
    /// `%NAME%` (Windows style).
    Percent,
    /// `${NAME}`.
    Braced,
    /// `$NAME`.
    Bare,
}

/// One piece of a path: a plain character, or a variable reference (its
/// form, its name, and whether its closing `%` or `}` is there).
pub enum EnvPiece {
    Lit(char),
    Var(VarForm, Seq<char>, bool),
}

/// The number of characters from `i` on before the first `c` (or the end).
pub open spec fn run_until(s: Seq<char>, c: char, i: int) -> nat
    decreases s.len() - i,
{
    if i < 0 || i >= s.len() || s[i] == c {
        0
    } else {
        1 + run_until(s, c, i + 1)
    }
}

/// A character that continues a bare `$NAME`: an ASCII letter, digit or
/// `_`, or a non-ASCII alphanumeric character.
pub open spec fn is_name_char(c: char) -> bool {
    if (c as u32) < 128 {
        ('0' <= c <= '9') || ('A' <= c <= 'Z') || ('a' <= c <= 'z') || c == '_'
    } else {
        is_alnum(c)
    }
}

/// The number of name characters from `i` on.
pub open spec fn name_run(s: Seq<char>, i: int) -> nat
    decreases s.len() - i,
{
    if i < 0 || i >= s.len() || !is_name_char(s[i]) {
        0
    } else {
        1 + name_run(s, i + 1)
    }
}

/// The piece that starts at `i` (a position of `s`), and where the next one
/// starts. `%` reads a name up to the next `%`, `${` up to the next `}`
/// (to the end when the closer is missing); `$` otherwise reads letters,
/// digits and `_`. Any other character is plain.
pub open spec fn piece_at(s: Seq<char>, i: int) -> (EnvPiece, int) {
    if s[i] == '%' {
        let j = i + 1 + run_until(s, '%', i + 1);
        (EnvPiece::Var(VarForm::Percent, s.subrange(i + 1, j), j < s.len()), if j < s.len() { j + 1 } else { j })
    } else if s[i] == '$' && i + 1 < s.len() && s[i + 1] == '{' {
        let j = i + 2 + run_until(s, '}', i + 2);
        (EnvPiece::Var(VarForm::Braced, s.subrange(i + 2, j), j < s.len()), if j < s.len() { j + 1 } else { j })
    } else if s[i] == '$' {
        let j = i + 1 + name_run(s, i + 1);
        (EnvPiece::Var(VarForm::Bare, s.subrange(i + 1, j), true), j)
    } else {
        (EnvPiece::Lit(s[i]), i + 1)
    }
}

/// A run ends inside the sequence, at `c` if anywhere, and holds no `c`.
pub proof fn lemma_run_until_bound(s: Seq<char>, c: char, i: int)
    requires
        0 <= i <= s.len(),
    ensures
        i + run_until(s, c, i) <= s.len(),
        i + run_until(s, c, i) < s.len() ==> s[i + run_until(s, c, i)] == c,
        forall|k: int| i <= k < i + run_until(s, c, i) ==> s[k] != c,
    decreases s.len() - i,
{
    if i < s.len() && s[i] != c {
        lemma_run_until_bound(s, c, i + 1);
    }
}

/// A name run ends inside the sequence.
pub proof fn lemma_name_run_bound(s: Seq<char>, i: int)
    requires
        0 <= i <= s.len(),
    ensures
        i + name_run(s, i) <= s.len(),
    decreases s.len() - i,
{
    if i < s.len() && is_name_char(s[i]) {
        lemma_name_run_bound(s, i + 1);
    }
}

/// Every piece is at least one character long and ends inside the sequence.
pub proof fn lemma_piece_next(s: Seq<char>, i: int)
    requires
        0 <= i < s.len(),
    ensures
        i < piece_at(s, i).1 <= s.len(),
{
    lemma_run_until_bound(s, '%', i + 1);
    lemma_name_run_bound(s, i + 1);
    if i + 1 < s.len() {
        lemma_run_until_bound(s, '}', i + 2);
    }
}

/// The pieces of `s` from position `i` on.
pub open spec fn pieces_from(s: Seq<char>, i: int) -> Seq<EnvPiece>
    decreases s.len() - i,
{
    if i < 0 || i >= s.len() {
        Seq::empty()
    } else {
        proof {
            lemma_piece_next(s, i);
        }
        seq![piece_at(s, i).0] + pieces_from(s, piece_at(s, i).1)
    }
}

/// The value of `name` in an environment table (the first entry for it).
pub open spec fn env_value(env: Seq<(Seq<char>, Seq<char>)>, name: Seq<char>) -> Option<Seq<char>>
    decreases env.len(),
{
    if env.len() == 0 {
        None
    } else if env[0].0 == name {
        Some(env[0].1)
    } else {
        env_value(env.drop_first(), name)
    }
}

/// An environment table with its strings as sequences.
pub open spec fn env_view(env: Seq<(String, String)>) -> Seq<(Seq<char>, Seq<char>)> {
    env.map_values(|p: (String, String)| (p.0@, p.1@))
}

/// A variable reference written back as it stood (without a closer that
/// was missing).
pub open spec fn unset_form(f: VarForm, name: Seq<char>, closed: bool) -> Seq<char> {
    match f {
        VarForm::Percent => seq!['%'] + name + (if closed { seq!['%'] } else { Seq::empty() }),
        VarForm::Braced => seq!['$', '{'] + name + (if closed { seq!['}'] } else { Seq::empty() }),
        VarForm::Bare => seq!['$'] + name,
    }
}

/// The value of a variable named in a reference: none for an empty name,
/// which no environment sets.
pub open spec fn var_value(env: Seq<(Seq<char>, Seq<char>)>, name: Seq<char>) -> Option<Seq<char>> {
    if name.len() == 0 {
        None
    } else {
        env_value(env, name)
    }
}

/// What a piece expands to: a set variable gives its value, an unset one
/// stays as written.
pub open spec fn piece_text(p: EnvPiece, env: Seq<(Seq<char>, Seq<char>)>) -> Seq<char> {
    match p {
        EnvPiece::Lit(c) => seq![c],
        EnvPiece::Var(f, name, closed) => match var_value(env, name) {
            Some(v) => v,
            None => unset_form(f, name, closed),
        },
    }
}

/// The expansion of a run of pieces.
pub open spec fn render(pieces: Seq<EnvPiece>, env: Seq<(Seq<char>, Seq<char>)>) -> Seq<char>
    decreases pieces.len(),
{
    if pieces.len() == 0 {
        Seq::empty()
    } else {
        piece_text(pieces[0], env) + render(pieces.drop_first(), env)
    }
}

/// `s` with its `%VAR%`, `${VAR}` and `$VAR` references expanded from `env`.
pub open spec fn expanded(s: Seq<char>, env: Seq<(Seq<char>, Seq<char>)>) -> Seq<char> {
    render(pieces_from(s, 0), env)
}

proof fn lemma_env_value_skip(env: Seq<(Seq<char>, Seq<char>)>, name: Seq<char>, i: int)
    requires
        0 <= i <= env.len(),
        forall|k: int| 0 <= k < i ==> env[k].0 != name,
    ensures
        env_value(env, name) == env_value(env.skip(i), name),
    decreases i,
{
    if i == 0 {
        assert(env.skip(0) =~= env);
    } else {
        lemma_env_value_skip(env, name, i - 1);
        let t = env.skip(i - 1);
        assert(t[0] == env[i - 1]);
        assert(t.drop_first() =~= env.skip(i));
    }
}

/// The value of `name` in `env`.
fn env_lookup(env: &Vec<(String, String)>, name: &String) -> (r: Option<String>)
    ensures
        (match r {
            Some(v) => Some(v@),
            None => None::<Seq<char>>,
        }) == env_value(env_view(env@), name@),
{
    let ghost ev = env_view(env@);
    let mut i: usize = 0;
    while i < env.len()
        invariant
            i <= env.len(),
            ev == env_view(env@),
            forall|k: int| 0 <= k < i ==> ev[k].0 != name@,
        decreases env.len() - i,
    {
        if env[i].0 == *name {
            proof {
                lemma_env_value_skip(ev, name@, i as int);
                assert(ev.skip(i as int)[0] == ev[i as int]);
            }
            return Some(env[i].1.clone());
        }
        i = i + 1;
    }
    proof {
        lemma_env_value_skip(ev, name@, i as int);
        assert(ev.skip(i as int).len() == 0);
    }
    None
}

/// The first position at or after `i` that holds `c` (or the end).
fn run_until_exec(v: &Vec<char>, c: char, i: usize) -> (j: usize)
    requires
        i <= v.len(),
    ensures
        j == i + run_until(v@, c, i as int),
        j <= v.len(),
{
    let mut j = i;
    while j < v.len() && v[j] != c
        invariant
            i <= j <= v.len(),
            run_until(v@, c, i as int) == (j - i) + run_until(v@, c, j as int),
        decreases v.len() - j,
    {
        j = j + 1;
    }
    j
}

/// The first position at or after `i` that does not continue a name.
fn name_run_exec(v: &Vec<char>, i: usize) -> (j: usize)
    requires
        i <= v.len(),
    ensures
        j == i + name_run(v@, i as int),
        j <= v.len(),
{
    let mut j = i;
    while j < v.len() && (is_alphanumeric(v[j]) || v[j] == '_')
        invariant
            i <= j <= v.len(),
            name_run(v@, i as int) == (j - i) + name_run(v@, j as int),
        decreases v.len() - j,
    {
        j = j + 1;
    }
    j
}

/// The text of the piece at `i` and where the next piece starts.
fn piece_exec(v: &Vec<char>, i: usize, env: &Vec<(String, String)>) -> (r: (String, usize))
    requires
        i < v.len(),
    ensures
        r.0@ == piece_text(piece_at(v@, i as int).0, env_view(env@)),
        r.1 == piece_at(v@, i as int).1,
        i < r.1 <= v.len(),
{
    proof {
        lemma_piece_next(v@, i as int);
    }
    if v[i] == '%' {
        let j = run_until_exec(v, '%', i + 1);
        let name = string_of(v, i + 1, j);
        let closed = j < v.len();
        let next = if closed { j + 1 } else { j };
        let found = if j > i + 1 { env_lookup(env, &name) } else { None };
        match found {
            Some(val) => (val, next),
            None => {
                let mut t = String::from_str("%");
                t.append(name.as_str());
                if closed {
                    t.append("%");
                }
                proof {
                    reveal_strlit("%");
                }
                (t, next)
            },
        }
    } else if v[i] == '$' && i + 1 < v.len() && v[i + 1] == '{' {
        let j = run_until_exec(v, '}', i + 2);
        let name = string_of(v, i + 2, j);
        let closed = j < v.len();
        let next = if closed { j + 1 } else { j };
        let found = if j > i + 2 { env_lookup(env, &name) } else { None };
        match found {
            Some(val) => (val, next),
            None => {
                let mut t = String::from_str("${");
                t.append(name.as_str());
                if closed {
                    t.append("}");
                }
                proof {
                    reveal_strlit("${");
                    reveal_strlit("}");
                }
                (t, next)
            },
        }
    } else if v[i] == '$' {
        let j = name_run_exec(v, i + 1);
        let name = string_of(v, i + 1, j);
        let found = if j > i + 1 { env_lookup(env, &name) } else { None };
        match found {
            Some(val) => (val, j),
            None => {
                let mut t = String::from_str("$");
                t.append(name.as_str());
                proof {
                    reveal_strlit("$");
                }
                (t, j)
            },
        }
    } else {
        let mut t = String::new();
        push_char(&mut t, v[i]);
        (t, i + 1)
    }
}

/// Expands the environment variables in `s` from the table `env` of
/// variables that are set (name, value; the first entry for a name counts).
///
/// Supports Windows-style `%VAR%` and Unix-style `$VAR` / `${VAR}`. Unset
/// variables are left as they are written, so that a later step can fall
/// back on another path.
pub fn expand_env(s: &str, env: &Vec<(String, String)>) -> (r: String)
    ensures
        r@ == expanded(s@, env_view(env@)),
{
    let v = chars_of(s);
    let ghost ev = env_view(env@);
    let mut out = String::new();
    let mut i: usize = 0;
    while i < v.len()
        invariant
            i <= v.len(),
            v@ == s@,
            ev == env_view(env@),
            render(pieces_from(v@, 0), ev) == out@ + render(pieces_from(v@, i as int), ev),
        decreases v.len() - i,
    {
        let (text, next) = piece_exec(&v, i, env);
        proof {
            let p = piece_at(v@, i as int);
            let rest = pieces_from(v@, next as int);
            assert(pieces_from(v@, i as int) == seq![p.0] + rest);
            assert((seq![p.0] + rest).drop_first() =~= rest);
            assert((seq![p.0] + rest)[0] == p.0);
            assert(render(seq![p.0] + rest, ev) == piece_text(p.0, ev) + render(rest, ev));
        }
        let ghost before = out@;
        out.append(text.as_str());
        assert(before + render(pieces_from(v@, i as int), ev) =~= out@ + render(
            pieces_from(v@, next as int),
            ev,
        ));
        i = next;
    }
    assert(out@ + render(pieces_from(v@, i as int), ev) =~= out@);
    out
}

/// A string with no `%` and no `$` holds no variable reference: expansion
/// leaves it as it is, whatever the environment.
pub proof fn lemma_expand_plain(s: Seq<char>, env: Seq<(Seq<char>, Seq<char>)>)
    requires
        !s.contains('%'),
        !s.contains('$'),
    ensures
        expanded(s, env) == s,
{
    lemma_expand_plain_from(s, env, 0);
    assert(s.skip(0) =~= s);
}

proof fn lemma_expand_plain_from(s: Seq<char>, env: Seq<(Seq<char>, Seq<char>)>, i: int)
    requires
        0 <= i <= s.len(),
        !s.contains('%'),
        !s.contains('$'),
    ensures
        render(pieces_from(s, i), env) == s.skip(i),
    decreases s.len() - i,
{
    if i < s.len() {
        assert(s[i] != '%' && s[i] != '$') by {
            if s[i] == '%' || s[i] == '$' {
                assert(s.contains(s[i]));
            }
        }
        lemma_expand_plain_from(s, env, i + 1);
        let rest = pieces_from(s, i + 1);
        let first = seq![EnvPiece::Lit(s[i])];
        assert(pieces_from(s, i) == first + rest);
        assert((first + rest).len() == 1 + rest.len());
        assert((first + rest).drop_first() =~= rest);
        assert(render(first + rest, env) == seq![s[i]] + render(rest, env));
        assert(s.skip(i) =~= seq![s[i]] + s.skip(i + 1));
    } else {
        assert(s.skip(i) =~= Seq::<char>::empty());
    }
}

proof fn lemma_run_until_exact(s: Seq<char>, c: char, i: int, m: int)
    requires
        0 <= i <= m <= s.len(),
        forall|k: int| i <= k < m ==> s[k] != c,
        m == s.len() || s[m] == c,
    ensures
        i + run_until(s, c, i) == m,
    decreases m - i,
{
    if i < m {
        lemma_run_until_exact(s, c, i + 1, m);
    }
}

proof fn lemma_name_run_exact(s: Seq<char>, i: int, m: int)
    requires
        0 <= i <= m <= s.len(),
        forall|k: int| i <= k < m ==> is_name_char(s[k]),
        m == s.len() || !is_name_char(s[m]),
    ensures
        i + name_run(s, i) == m,
    decreases m - i,
{
    if i < m {
        lemma_name_run_exact(s, i + 1, m);
    }
}

/// The expansion of a string that is one piece ending at its end.
proof fn lemma_single_piece(s: Seq<char>, env: Seq<(Seq<char>, Seq<char>)>)
    requires
        s.len() > 0,
        piece_at(s, 0).1 == s.len(),
    ensures
        expanded(s, env) == piece_text(piece_at(s, 0).0, env),
{
    let p = piece_at(s, 0).0;
    assert(pieces_from(s, s.len() as int) =~= Seq::<EnvPiece>::empty());
    assert(pieces_from(s, 0) =~= seq![p]);
    assert(seq![p].drop_first() =~= Seq::<EnvPiece>::empty());
    assert(seq![p][0] == p);
    assert(render(Seq::<EnvPiece>::empty(), env) =~= Seq::<char>::empty());
    assert(render(seq![p], env) == piece_text(p, env) + render(seq![p].drop_first(), env));
    assert(render(seq![p], env) =~= piece_text(p, env));
}

/// A reference to a set variable, in any of the three forms, expands to the
/// variable's value, and the value is not expanded again.
pub proof fn lemma_expand_reference(
    name: Seq<char>,
    value: Seq<char>,
    env: Seq<(Seq<char>, Seq<char>)>,
)
    requires
        name.len() > 0,
        forall|k: int| 0 <= k < name.len() ==> is_name_char(#[trigger] name[k]),
        env_value(env, name) == Some(value),
    ensures
        expanded(seq!['%'] + name + seq!['%'], env) == value,
        expanded(seq!['$', '{'] + name + seq!['}'], env) == value,
        expanded(seq!['$'] + name, env) == value,
{
    let n = name.len() as int;
    let a = seq!['%'] + name + seq!['%'];
    assert forall|k: int| 1 <= k < n + 1 implies a[k] != '%' by {
        assert(a[k] == name[k - 1]);
        assert(is_name_char(name[k - 1]));
    }
    lemma_run_until_exact(a, '%', 1, n + 1);
    assert(a.subrange(1, n + 1) =~= name);
    lemma_single_piece(a, env);
    let b = seq!['$', '{'] + name + seq!['}'];
    assert forall|k: int| 2 <= k < n + 2 implies b[k] != '}' by {
        assert(b[k] == name[k - 2]);
        assert(is_name_char(name[k - 2]));
    }
    lemma_run_until_exact(b, '}', 2, n + 2);
    assert(b.subrange(2, n + 2) =~= name);
    lemma_single_piece(b, env);
    let c = seq!['$'] + name;
    assert forall|k: int| 1 <= k < n + 1 implies is_name_char(c[k]) by {
        assert(c[k] == name[k - 1]);
    }
    assert(c[1] == name[0]);
    assert(c[1] != '{') by {
        assert(is_name_char(name[0]));
    }
    lemma_name_run_exact(c, 1, n + 1);
    assert(c.subrange(1, n + 1) =~= name);
    lemma_single_piece(c, env);
}

impl PlatformConfig {
    /// The binary paths with environment variables expanded from `env` (see
    /// [`expand_env`]).
    pub fn expanded_binary_paths(&self, env: &Vec<(String, String)>) -> (r: Vec<String>)
        ensures
            r@.len() == self.binary_paths@.len(),
            forall|k: int|
                0 <= k < r@.len() ==> #[trigger] r@[k]@ == expanded(
                    self.binary_paths@[k]@,
                    env_view(env@),
                ),
    {
        let mut out: Vec<String> = Vec::new();
        let mut k: usize = 0;
        while k < self.binary_paths.len()
            invariant
                k <= self.binary_paths.len(),
                out@.len() == k,
                forall|m: int|
                    0 <= m < k ==> #[trigger] out@[m]@ == expanded(
                        self.binary_paths@[m]@,
                        env_view(env@),
                    ),
            decreases self.binary_paths.len() - k,
        {
            out.push(expand_env(self.binary_paths[k].as_str(), env));
            k = k + 1;
        }
        out
    }
}


/// One platform definition file, as read: its name (the file stem) and
/// either the fact that it is not UTF-8 or its text with what parsing it as
/// a config gave (the parser's message on failure).
pub enum PlatformDocument {
    NotUtf8 { name: String },
    Text { name: String, text: String, parsed: Result<PlatformConfig, String> },
}

/// What loading makes of one definition file.
pub enum DocumentOutcome {
    Keep(PlatformConfig),
    Skip,
    Fail(Seq<char>),
}

/// A file that is not UTF-8 fails; one that parses is kept; one that does
/// not parse is skipped when it is blank and fails otherwise.
pub open spec fn document_outcome(d: PlatformDocument) -> DocumentOutcome {
    match d {
        PlatformDocument::NotUtf8 { name } => DocumentOutcome::Fail(name@ + ": non-UTF-8 content"@),
        PlatformDocument::Text { name, text, parsed } => match parsed {
            Ok(c) => DocumentOutcome::Keep(c),
            Err(m) => if crate::text::trim(text@).len() == 0 {
                DocumentOutcome::Skip
            } else {
                DocumentOutcome::Fail(name@ + ": "@ + m@)
            },
        },
    }
}

/// The configs loaded from the files in order, or the message of the first
/// file that fails.
pub open spec fn load_configs(docs: Seq<PlatformDocument>) -> Result<Seq<PlatformConfig>, Seq<char>>
    decreases docs.len(),
{
    if docs.len() == 0 {
        Ok(Seq::empty())
    } else {
        match load_configs(docs.drop_last()) {
            Err(m) => Err(m),
            Ok(cs) => match document_outcome(docs.last()) {
                DocumentOutcome::Keep(c) => Ok(cs.push(c)),
                DocumentOutcome::Skip => Ok(cs),
                DocumentOutcome::Fail(m) => Err(m),
            },
        }
    }
}

impl PlatformRegistry {
    /// Builds the registry from the platform definition files: blank files
    /// are skipped; a file that is not UTF-8 or does not parse is an error
    /// that names it.
    pub fn from_documents(docs: Vec<PlatformDocument>) -> (r: Result<Self, Error>)
        ensures
            load_configs(docs@) matches Ok(cs) ==> (r matches Ok(reg) && reg@ == cs),
            load_configs(docs@) matches Err(m) ==> (r matches Err(Error::PlatformConfig(m2))
                && m2@ == m),
    {
        let ghost all = docs@;
        let total = docs.len();
        let mut rest = docs;
        let mut configs: Vec<PlatformConfig> = Vec::new();
        let mut i: usize = 0;
        while rest.len() > 0
            invariant
                all == docs@,
                all.len() == total,
                i + rest.len() == all.len(),
                rest@ == all.skip(i as int),
                load_configs(all.take(i as int)) == Ok::<Seq<PlatformConfig>, Seq<char>>(configs@),
            decreases rest.len(),
        {
            let d = rest.remove(0);
            proof {
                let n = all.take(i + 1);
                assert(n.drop_last() =~= all.take(i as int));
                assert(n.last() == all[i as int]);
                assert(all.skip(i as int)[0] == all[i as int]);
                assert(all.skip(i as int).drop_first() =~= all.skip(i + 1));
            }
            match d {
                PlatformDocument::NotUtf8 { name } => {
                    let mut m = name;
                    m.append(": non-UTF-8 content");
                    proof {
                        assert(load_configs(all.take(i + 1)) == Err::<Seq<PlatformConfig>, Seq<char>>(
                            m@,
                        ));
                        lemma_load_stops(all, i + 1);
                    }
                    return Err(Error::PlatformConfig(m));
                },
                PlatformDocument::Text { name, text, parsed } => match parsed {
                    Ok(c) => {
                        configs.push(c);
                    },
                    Err(e) => {
                        let t = crate::text::trim_exec(&chars_of(text.as_str()));
                        if t.len() > 0 {
                            let mut m = name;
                            m.append(": ");
                            m.append(e.as_str());
                            proof {
                                assert(load_configs(all.take(i + 1)) == Err::<
                                    Seq<PlatformConfig>,
                                    Seq<char>,
                                >(m@));
                                lemma_load_stops(all, i + 1);
                            }
                            return Err(Error::PlatformConfig(m));
                        }
                    },
                },
            }
            i = i + 1;
        }
        assert(all.take(i as int) =~= all);
        Ok(PlatformRegistry { configs })
    }
}

/// Once a file fails, loading fails with its message, whatever follows.
pub proof fn lemma_load_stops(docs: Seq<PlatformDocument>, i: int)
    requires
        0 <= i <= docs.len(),
        load_configs(docs.take(i)) is Err,
    ensures
        load_configs(docs) == load_configs(docs.take(i)),
    decreases docs.len() - i,
{
    if i < docs.len() {
        let n = docs.take(i + 1);
        assert(n.drop_last() =~= docs.take(i));
        lemma_load_stops(docs, i + 1);
    } else {
        assert(docs.take(i) =~= docs);
    }
}


/// The OS types listed by the registry appear once each, and they are
/// exactly the ones that some config targets.
pub proof fn lemma_dedup(s: Seq<OsType>)
    ensures
        dedup(s).no_duplicates(),
        forall|x: OsType| dedup(s).contains(x) <==> s.contains(x),
    decreases s.len(),
{
    if s.len() > 0 {
        let init = s.drop_last();
        let prev = dedup(init);
        lemma_dedup(init);
        assert forall|x: OsType| s.contains(x) <==> init.contains(x) || x == s.last() by {
            if s.contains(x) {
                let i = choose|i: int| 0 <= i < s.len() && s[i] == x;
                if i < s.len() - 1 {
                    assert(init[i] == x);
                }
            }
            if init.contains(x) {
                let i = choose|i: int| 0 <= i < init.len() && init[i] == x;
                assert(s[i] == x);
            }
            if x == s.last() {
                assert(s[s.len() - 1] == x);
            }
        }
        if !prev.contains(s.last()) {
            let r = prev.push(s.last());
            assert forall|i: int, j: int| 0 <= i < r.len() && 0 <= j < r.len() && i != j implies r[i]
                != r[j] by {
                if i < prev.len() && j < prev.len() {
                    assert(r[i] == prev[i] && r[j] == prev[j]);
                } else if i < prev.len() {
                    assert(r[i] == prev[i]);
                    assert(r[j] == s.last());
                } else {
                    assert(r[j] == prev[j]);
                    assert(r[i] == s.last());
                }
            }
            assert forall|x: OsType| r.contains(x) <==> prev.contains(x) || x == s.last() by {
                if r.contains(x) {
                    let i = choose|i: int| 0 <= i < r.len() && r[i] == x;
                    if i < prev.len() {
                        assert(prev[i] == x);
                    }
                }
                if prev.contains(x) {
                    let i = choose|i: int| 0 <= i < prev.len() && prev[i] == x;
                    assert(r[i] == x);
                }
                if x == s.last() {
                    assert(r[prev.len() as int] == x);
                }
            }
        }
    }
}

/// Unset variables are left as they are written: with no variable set,
/// every string expands to itself.
pub proof fn lemma_expand_unset(s: Seq<char>)
    ensures
        expanded(s, Seq::empty()) == s,
{
    lemma_expand_unset_from(s, 0);
    assert(s.skip(0) =~= s);
}

proof fn lemma_expand_unset_from(s: Seq<char>, i: int)
    requires
        0 <= i <= s.len(),
    ensures
        render(pieces_from(s, i), Seq::empty()) == s.skip(i),
    decreases s.len() - i,
{
    if i < s.len() {
        let env = Seq::<(Seq<char>, Seq<char>)>::empty();
        lemma_piece_next(s, i);
        lemma_run_until_bound(s, '%', i + 1);
        lemma_name_run_bound(s, i + 1);
        if i + 1 < s.len() {
            lemma_run_until_bound(s, '}', i + 2);
        }
        let (p, n) = piece_at(s, i);
        lemma_expand_unset_from(s, n);
        let rest = pieces_from(s, n);
        let first = seq![p];
        assert(pieces_from(s, i) == first + rest);
        assert((first + rest).drop_first() =~= rest);
        assert((first + rest)[0] == p);
        assert(render(first + rest, env) == piece_text(p, env) + render(rest, env));
        assert(piece_text(p, env) =~= s.subrange(i, n));
        assert(s.skip(i) =~= s.subrange(i, n) + s.skip(n));
    } else {
        assert(s.skip(i) =~= Seq::<char>::empty());
    }
}

} // verus!
