//! Network-backed package resolution through the Repology API: the data it
//! returns and the decisions made on it. The HTTP requests, the JSON parsing
//! and the caches on disk and in memory belong to the caller.
use vstd::prelude::*;
use crate::error::prefixed;
use crate::os::{OsType, PlatformRegistry, repo_os};
use crate::text::views;

verus! {

/// Errors from the Repology HTTP client and response parsing.
#[derive(Debug)]
pub enum Error {
    /// HTTP request failed (connection, timeout, non-2xx status other than 404).
    Http(String),
    /// Response body could not be parsed as the expected JSON shape.
    Parse(String),
    /// The requested resource was not found (HTTP 404).
    NotFound(String),
}

/// The message of an error, as the error's display shows it.
pub open spec fn net_message(e: Error) -> Seq<char> {
    match e {
        Error::Http(m) => "HTTP error: "@ + m@,
        Error::Parse(m) => "parse error: "@ + m@,
        Error::NotFound(m) => "not found: "@ + m@,
    }
}

impl Error {
    /// The human-readable message of the error.
    pub fn message(&self) -> (r: String)
        ensures
            r@ == net_message(*self),
    {
        match self {
            Error::Http(m) => prefixed("HTTP error: ", m.as_str()),
            Error::Parse(m) => prefixed("parse error: ", m.as_str()),
            Error::NotFound(m) => prefixed("not found: ", m.as_str()),
        }
    }
}

/// A single entry from the Repology project API response.
#[derive(Debug, Clone)]
pub struct RepologyPackage {
    /// Repology repository name: `debian_13`, `homebrew`, `arch`, etc.
    pub repo: String,
    /// Source package name in the repository.
    pub srcname: Option<String>,
    /// Binary package name in the repository.
    pub binname: Option<String>,
    /// Human-visible name as displayed on repology.org.
    pub visible_name: Option<String>,
    /// Package version string.
    pub version: Option<String>,
    /// Package status: `unique`, `newest`, `outdated`, etc.
    pub status: Option<String>,
}

/// The name of a package: its binary name, else its source name, else its
/// visible name.
pub open spec fn package_name(p: RepologyPackage) -> Option<Seq<char>> {
    match p.binname {
        Some(b) => Some(b@),
        None => match p.srcname {
            Some(s) => Some(s@),
            None => match p.visible_name {
                Some(v) => Some(v@),
                None => None,
            },
        },
    }
}

/// The package for an OS: the name of the first entry whose repository maps
/// to that OS (nothing if that entry has no name); later entries are not
/// looked at.
pub open spec fn package_for_os(
    data: Seq<RepologyPackage>,
    os: OsType,
    configs: Seq<crate::os::PlatformConfig>,
) -> Option<Seq<char>>
    decreases data.len(),
{
    if data.len() == 0 {
        None
    } else if repo_os(configs, data[0].repo@) == Some(os) {
        package_name(data[0])
    } else {
        package_for_os(data.drop_first(), os, configs)
    }
}

/// The package for an OS comes from the first entry whose repository maps to
/// that OS: its binary name, else its source name, else its visible name,
/// whatever the entries after it hold.
pub proof fn lemma_package_for_os_first(
    data: Seq<RepologyPackage>,
    os: OsType,
    configs: Seq<crate::os::PlatformConfig>,
    i: int,
)
    requires
        0 <= i < data.len(),
        repo_os(configs, data[i].repo@) == Some(os),
        forall|j: int| 0 <= j < i ==> repo_os(configs, #[trigger] data[j].repo@) != Some(os),
    ensures
        package_for_os(data, os, configs) == package_name(data[i]),
    decreases i,
{
    if i > 0 {
        let rest = data.drop_first();
        assert(repo_os(configs, data[0].repo@) != Some(os));
        assert forall|j: int| 0 <= j < i - 1 implies repo_os(configs, #[trigger] rest[j].repo@) != Some(
            os,
        ) by {
            assert(rest[j] == data[j + 1]);
        }
        assert(rest[i - 1] == data[i]);
        lemma_package_for_os_first(rest, os, configs, i - 1);
    }
}

/// When no entry's repository maps to the OS, there is no package for it.
pub proof fn lemma_package_for_os_none(
    data: Seq<RepologyPackage>,
    os: OsType,
    configs: Seq<crate::os::PlatformConfig>,
)
    requires
        forall|j: int| 0 <= j < data.len() ==> repo_os(configs, #[trigger] data[j].repo@) != Some(os),
    ensures
        package_for_os(data, os, configs) is None,
    decreases data.len(),
{
    if data.len() > 0 {
        let rest = data.drop_first();
        assert(repo_os(configs, data[0].repo@) != Some(os));
        assert forall|j: int| 0 <= j < rest.len() implies repo_os(configs, #[trigger] rest[j].repo@)
            != Some(os) by {
            assert(rest[j] == data[j + 1]);
        }
        lemma_package_for_os_none(rest, os, configs);
    }
}

/// Finds the first package in a Repology response matching the given OS
/// type and returns its `binname`, falling back to `srcname`, then
/// `visiblename`.
pub fn find_package_for_os(
    data: &Vec<RepologyPackage>,
    os_type: &OsType,
    registry: &PlatformRegistry,
) -> (r: Option<String>)
    ensures
        r matches Some(n) ==> package_for_os(data@, *os_type, registry@) == Some(n@),
        r is None ==> package_for_os(data@, *os_type, registry@) is None,
{
    let mut i: usize = 0;
    assert(data@.skip(0) =~= data@);
    while i < data.len()
        invariant
            i <= data.len(),
            package_for_os(data@, *os_type, registry@) == package_for_os(
                data@.skip(i as int),
                *os_type,
                registry@,
            ),
        decreases data.len() - i,
    {
        let ghost rest = data@.skip(i as int);
        assert(rest.drop_first() =~= data@.skip(i + 1));
        assert(rest[0] == data@[i as int]);
        let pkg = &data[i];
        match registry.repo_to_os(pkg.repo.as_str()) {
            Some(mapped) => {
                if *mapped == *os_type {
                    return match &pkg.binname {
                        Some(b) => Some(b.clone()),
                        None => match &pkg.srcname {
                            Some(s) => Some(s.clone()),
                            None => match &pkg.visible_name {
                                Some(v) => Some(v.clone()),
                                None => None,
                            },
                        },
                    };
                }
            },
            None => {},
        }
        i = i + 1;
    }
    None
}

/// `a < b` in the order of `String`: lexicographic by character.
pub open spec fn lex_lt(a: Seq<char>, b: Seq<char>) -> bool
    decreases a.len(),
{
    if a.len() == 0 {
        b.len() > 0
    } else if b.len() == 0 {
        false
    } else if a[0] != b[0] {
        (a[0] as u32) < (b[0] as u32)
    } else {
        lex_lt(a.drop_first(), b.drop_first())
    }
}

/// `a < b` for strings, by character.
pub fn str_lt(a: &String, b: &String) -> (r: bool)
    ensures
        r == lex_lt(a@, b@),
{
    let x = crate::text::chars_of(a.as_str());
    let y = crate::text::chars_of(b.as_str());
    let mut i: usize = 0;
    assert(x@.skip(0) =~= x@);
    assert(y@.skip(0) =~= y@);
    while i < x.len() && i < y.len() && x[i] == y[i]
        invariant
            i <= x.len(),
            i <= y.len(),
            lex_lt(a@, b@) == lex_lt(x@.skip(i as int), y@.skip(i as int)),
        decreases x.len() - i,
    {
        assert(x@.skip(i as int).drop_first() =~= x@.skip(i + 1));
        assert(y@.skip(i as int).drop_first() =~= y@.skip(i + 1));
        i = i + 1;
    }
    if i == x.len() {
        i < y.len()
    } else if i == y.len() {
        false
    } else {
        (x[i] as u32) < (y[i] as u32)
    }
}

/// The position at which `x` goes into a sorted list: before the first
/// element greater than it.
pub open spec fn insert_pos(s: Seq<Seq<char>>, x: Seq<char>) -> int
    decreases s.len(),
{
    if s.len() == 0 {
        0
    } else if lex_lt(x, s[0]) {
        0
    } else {
        1 + insert_pos(s.drop_first(), x)
    }
}

/// `s` sorted by insertion, in the order of `String`.
pub open spec fn sort_strings(s: Seq<Seq<char>>) -> Seq<Seq<char>>
    decreases s.len(),
{
    if s.len() == 0 {
        Seq::empty()
    } else {
        let t = sort_strings(s.drop_last());
        t.insert(insert_pos(t, s.last()), s.last())
    }
}

proof fn lemma_insert_pos_bound(s: Seq<Seq<char>>, x: Seq<char>)
    ensures
        0 <= insert_pos(s, x) <= s.len(),
    decreases s.len(),
{
    if s.len() > 0 && !lex_lt(x, s[0]) {
        lemma_insert_pos_bound(s.drop_first(), x);
    }
}

/// No string is before itself.
pub proof fn lemma_lex_irreflexive(a: Seq<char>)
    ensures
        !lex_lt(a, a),
    decreases a.len(),
{
    if a.len() > 0 {
        lemma_lex_irreflexive(a.drop_first());
    }
}

/// The order of strings is transitive.
pub proof fn lemma_lex_transitive(a: Seq<char>, b: Seq<char>, c: Seq<char>)
    requires
        lex_lt(a, b),
        lex_lt(b, c),
    ensures
        lex_lt(a, c),
    decreases a.len(),
{
    if a.len() > 0 && b.len() > 0 && c.len() > 0 && a[0] == b[0] && b[0] == c[0] {
        lemma_lex_transitive(a.drop_first(), b.drop_first(), c.drop_first());
    }
}

/// No element of the sequence comes after a later one.
pub open spec fn sorted_strings(s: Seq<Seq<char>>) -> bool {
    forall|i: int, j: int| 0 <= i < j < s.len() ==> !lex_lt(#[trigger] s[j], #[trigger] s[i])
}

proof fn lemma_insert_pos_facts(s: Seq<Seq<char>>, x: Seq<char>)
    ensures
        0 <= insert_pos(s, x) <= s.len(),
        forall|k: int| 0 <= k < insert_pos(s, x) ==> !lex_lt(x, #[trigger] s[k]),
        insert_pos(s, x) < s.len() ==> lex_lt(x, s[insert_pos(s, x)]),
    decreases s.len(),
{
    if s.len() > 0 && !lex_lt(x, s[0]) {
        let t = s.drop_first();
        lemma_insert_pos_facts(t, x);
        assert forall|k: int| 0 <= k < insert_pos(s, x) implies !lex_lt(x, #[trigger] s[k]) by {
            if k > 0 {
                assert(s[k] == t[k - 1]);
            }
        }
    }
}

/// Sorting by insertion gives the same strings, in order: `s` sorted is
/// sorted and is a permutation of `s`.
pub proof fn lemma_sort_strings(s: Seq<Seq<char>>)
    ensures
        sorted_strings(sort_strings(s)),
        sort_strings(s).to_multiset() == s.to_multiset(),
    decreases s.len(),
{
    broadcast use vstd::seq_lib::to_multiset_insert, vstd::seq_lib::to_multiset_build;

    if s.len() > 0 {
        let t = sort_strings(s.drop_last());
        let x = s.last();
        lemma_sort_strings(s.drop_last());
        lemma_insert_pos_facts(t, x);
        let p = insert_pos(t, x);
        let u = t.insert(p, x);
        assert forall|i: int, j: int| 0 <= i < j < u.len() implies !lex_lt(
            #[trigger] u[j],
            #[trigger] u[i],
        ) by {
            if j < p {
                assert(u[i] == t[i] && u[j] == t[j]);
            } else if j == p {
                assert(u[i] == t[i]);
            } else if i == p {
                assert(u[j] == t[j - 1]);
                if lex_lt(t[j - 1], x) {
                    lemma_lex_transitive(t[j - 1], x, t[p]);
                    if j - 1 == p {
                        lemma_lex_irreflexive(t[p]);
                    }
                }
            } else if i < p {
                assert(u[i] == t[i] && u[j] == t[j - 1]);
            } else {
                assert(u[i] == t[i - 1] && u[j] == t[j - 1]);
            }
        }
        assert(s =~= s.drop_last().push(x));
        assert(u.to_multiset() == t.to_multiset().insert(x));
        assert(s.drop_last().push(x).to_multiset() == s.drop_last().to_multiset().insert(x));
        assert(sort_strings(s) == u);
    } else {
        assert(s =~= Seq::<Seq<char>>::empty());
        assert(sort_strings(s) =~= Seq::<Seq<char>>::empty());
    }
}

/// Inserts `x` into `v` where `insert_pos` puts it.
fn insert_sorted(v: &mut Vec<String>, x: String)
    ensures
        views(final(v)@) == views(old(v)@).insert(insert_pos(views(old(v)@), x@), x@),
{
    let ghost s = views(v@);
    let mut i: usize = 0;
    assert(s.skip(0) =~= s);
    while i < v.len() && !str_lt(&x, &v[i])
        invariant
            i <= v.len(),
            s == views(v@),
            insert_pos(s, x@) == i + insert_pos(s.skip(i as int), x@),
        decreases v.len() - i,
    {
        assert(s.skip(i as int).drop_first() =~= s.skip(i + 1));
        i = i + 1;
    }
    proof {
        if i < v.len() {
            assert(s.skip(i as int)[0] == s[i as int]);
        }
        lemma_insert_pos_bound(s, x@);
    }
    let ghost before = v@;
    v.insert(i, x);
    assert(views(v@) =~= s.insert(i as int, x@));
}

/// The names that the projects of a Repology search give for an OS, in the
/// order of the projects.
pub open spec fn names_for_os(
    projects: Seq<Vec<RepologyPackage>>,
    os: OsType,
    configs: Seq<crate::os::PlatformConfig>,
) -> Seq<Seq<char>>
    decreases projects.len(),
{
    if projects.len() == 0 {
        Seq::empty()
    } else {
        let prev = names_for_os(projects.drop_last(), os, configs);
        match package_for_os(projects.last()@, os, configs) {
            Some(n) => prev.push(n),
            None => prev,
        }
    }
}

/// The results of a Repology search for an OS: for every project the name
/// of its package for the OS, if any, sorted.
pub fn search_results(
    projects: &Vec<Vec<RepologyPackage>>,
    os_type: &OsType,
    registry: &PlatformRegistry,
) -> (r: Vec<String>)
    ensures
        views(r@) == sort_strings(names_for_os(projects@, *os_type, registry@)),
        sorted_strings(views(r@)),
        views(r@).to_multiset() == names_for_os(projects@, *os_type, registry@).to_multiset(),
{
    let mut r: Vec<String> = Vec::new();
    let mut i: usize = 0;
    while i < projects.len()
        invariant
            i <= projects.len(),
            views(r@) == sort_strings(names_for_os(projects@.take(i as int), *os_type, registry@)),
        decreases projects.len() - i,
    {
        proof {
            let n = projects@.take(i + 1);
            assert(n.drop_last() =~= projects@.take(i as int));
            assert(n.last() == projects@[i as int]);
        }
        match find_package_for_os(&projects[i], os_type, registry) {
            Some(name) => {
                proof {
                    let prev = names_for_os(projects@.take(i as int), *os_type, registry@);
                    let next = prev.push(name@);
                    assert(next.drop_last() =~= prev);
                }
                insert_sorted(&mut r, name);
            },
            None => {},
        }
        i = i + 1;
    }
    assert(projects@.take(projects.len() as int) =~= projects@);
    proof {
        lemma_sort_strings(names_for_os(projects@, *os_type, registry@));
    }
    r
}


/// The UTF-8 encoding of one character.
pub open spec fn utf8_char(c: char) -> Seq<u8> {
    let n = c as u32;
    if n < 0x80 {
        seq![n as u8]
    } else if n < 0x800 {
        seq![(0xC0 + n / 64) as u8, (0x80 + n % 64) as u8]
    } else if n < 0x10000 {
        seq![(0xE0 + n / 4096) as u8, (0x80 + (n / 64) % 64) as u8, (0x80 + n % 64) as u8]
    } else {
        seq![
            (0xF0 + n / 262144) as u8,
            (0x80 + (n / 4096) % 64) as u8,
            (0x80 + (n / 64) % 64) as u8,
            (0x80 + n % 64) as u8,
        ]
    }
}

/// The UTF-8 encoding of a string (the bytes of a `str`).
pub open spec fn utf8(s: Seq<char>) -> Seq<u8>
    decreases s.len(),
{
    if s.len() == 0 {
        Seq::empty()
    } else {
        utf8(s.drop_last()) + utf8_char(s.last())
    }
}

/// Bytes that form-urlencoding keeps: `*`, `-`, `.`, `_` and ASCII letters
/// and digits.
pub open spec fn form_unchanged(b: u8) -> bool {
    b == 42 || b == 45 || b == 46 || (48 <= b <= 57) || (65 <= b <= 90) || b == 95 || (97 <= b
        <= 122)
}

/// An uppercase hexadecimal digit.
pub open spec fn hex_digit(d: int) -> char {
    if d < 10 {
        (48 + d) as char
    } else {
        (55 + d) as char
    }
}

/// How form-urlencoding writes one byte: kept, a space as `+`, anything
/// else as `%` and two uppercase hexadecimal digits.
pub open spec fn form_byte(b: u8) -> Seq<char> {
    if form_unchanged(b) {
        seq![b as char]
    } else if b == 32 {
        seq!['+']
    } else {
        seq!['%', hex_digit(b as int / 16), hex_digit(b as int % 16)]
    }
}

/// The `application/x-www-form-urlencoded` form of a byte string.
pub open spec fn form_encode(bytes: Seq<u8>) -> Seq<char>
    decreases bytes.len(),
{
    if bytes.len() == 0 {
        Seq::empty()
    } else {
        form_encode(bytes.drop_last()) + form_byte(bytes.last())
    }
}

/// `url::form_urlencoded::byte_serialize` on the bytes of `s`, collected
/// into a string. The contract states the whole function: each UTF-8 byte
/// is kept, turned into `+` (a space) or percent-encoded, as [`form_byte`]
/// says.
#[verifier::external_body]
pub(crate) fn form_urlencode(s: &str) -> (r: String)
    ensures
        r@ == form_encode(utf8(s@)),
{
    url::form_urlencoded::byte_serialize(s.as_bytes()).collect()
}

/// The name of the disk cache file of a project: the form-urlencoded
/// project name with `.json` after it.
pub fn cache_file_name(project: &str) -> (r: String)
    ensures
        r@ == form_encode(utf8(project@)) + ".json"@,
{
    let mut r = form_urlencode(project);
    r.append(".json");
    r
}

/// The address of a project's page under the API root `base`.
pub fn project_url(base: &str, project: &str) -> (r: String)
    ensures
        r@ == base@ + "/project/"@ + form_encode(utf8(project@)),
{
    let mut r = String::from_str(base);
    r.append("/project/");
    let e = form_urlencode(project);
    r.append(e.as_str());
    r
}

/// The address of a search for `query` under the API root `base`.
pub fn search_url(base: &str, query: &str) -> (r: String)
    ensures
        r@ == base@ + "/projects/?search="@ + form_encode(utf8(query@)),
{
    let mut r = String::from_str(base);
    r.append("/projects/?search=");
    let e = form_urlencode(query);
    r.append(e.as_str());
    r
}

/// The responses that a cache holds, by project: a later entry for a
/// project replaces an earlier one.
pub open spec fn cache_map(entries: Seq<(String, Vec<RepologyPackage>)>) -> Map<
    Seq<char>,
    Seq<RepologyPackage>,
>
    decreases entries.len(),
{
    if entries.len() == 0 {
        Map::empty()
    } else {
        cache_map(entries.drop_last()).insert(entries.last().0@, entries.last().1@)
    }
}

/// The in-memory cache of project responses.
pub struct ResponseCache {
    entries: Vec<(String, Vec<RepologyPackage>)>,
}

impl View for ResponseCache {
    type V = Map<Seq<char>, Seq<RepologyPackage>>;

    closed spec fn view(&self) -> Map<Seq<char>, Seq<RepologyPackage>> {
        cache_map(self.entries@)
    }
}

proof fn lemma_cache_tail(entries: Seq<(String, Vec<RepologyPackage>)>, key: Seq<char>, j: int)
    requires
        0 <= j <= entries.len(),
        forall|m: int| j <= m < entries.len() ==> entries[m].0@ != key,
    ensures
        cache_map(entries).contains_key(key) == cache_map(entries.take(j)).contains_key(key),
        cache_map(entries).contains_key(key) ==> cache_map(entries)[key] == cache_map(
            entries.take(j),
        )[key],
    decreases entries.len() - j,
{
    if j == entries.len() {
        assert(entries.take(j) =~= entries);
    } else {
        let t = entries.take(j + 1);
        lemma_cache_tail(entries, key, j + 1);
        assert(t.drop_last() =~= entries.take(j));
        assert(t.last() == entries[j]);
    }
}

impl ResponseCache {
    /// An empty cache.
    pub fn new() -> (r: Self)
        ensures
            r@ == Map::<Seq<char>, Seq<RepologyPackage>>::empty(),
    {
        ResponseCache { entries: Vec::new() }
    }

    /// The response cached for `project`, if any.
    pub fn get(&self, project: &str) -> (r: Option<&Vec<RepologyPackage>>)
        ensures
            r matches Some(d) ==> self@.contains_key(project@) && self@[project@] == d@,
            r is None ==> !self@.contains_key(project@),
    {
        let key = String::from_str(project);
        let mut j = self.entries.len();
        while j > 0
            invariant
                j <= self.entries.len(),
                key@ == project@,
                forall|m: int| j <= m < self.entries.len() ==> self.entries@[m].0@ != key@,
            decreases j,
        {
            if self.entries[j - 1].0 == key {
                proof {
                    lemma_cache_tail(self.entries@, key@, j as int);
                    let t = self.entries@.take(j as int);
                    assert(t.last() == self.entries@[j - 1]);
                }
                return Some(&self.entries[j - 1].1);
            }
            j = j - 1;
        }
        proof {
            lemma_cache_tail(self.entries@, key@, 0);
            assert(self.entries@.take(0).len() == 0);
        }
        None
    }

    /// Caches `data` as the response for `project`.
    pub fn insert(&mut self, project: &str, data: Vec<RepologyPackage>)
        ensures
            final(self)@ == old(self)@.insert(project@, data@),
    {
        let ghost before = self.entries@;
        self.entries.push((String::from_str(project), data));
        assert(self.entries@.drop_last() =~= before);
    }
}

/// What the cache gives back of a write: the response just stored for a
/// project, and for every other project what it held before.
pub proof fn lemma_cache_read_after_write(
    before: Map<Seq<char>, Seq<RepologyPackage>>,
    project: Seq<char>,
    data: Seq<RepologyPackage>,
    other: Seq<char>,
)
    ensures
        before.insert(project, data).contains_key(project),
        before.insert(project, data)[project] == data,
        other != project ==> (before.insert(project, data).contains_key(other)
            == before.contains_key(other)),
        other != project && before.contains_key(other) ==> before.insert(project, data)[other]
            == before[other],
{
}

/// The answer that the in-memory cache gives for `project` on an OS:
/// `None` when it holds no response for the project, else the package for
/// the OS in the cached response.
pub fn resolve_cached(
    cache: &ResponseCache,
    project: &str,
    os_type: &OsType,
    registry: &PlatformRegistry,
) -> (r: Option<Option<String>>)
    ensures
        !cache@.contains_key(project@) ==> r is None,
        cache@.contains_key(project@) ==> (r matches Some(a) && opt_view(a) == package_for_os(
            cache@[project@],
            *os_type,
            registry@,
        )),
{
    match cache.get(project) {
        Some(data) => Some(find_package_for_os(data, os_type, registry)),
        None => None,
    }
}

/// An optional string as an optional sequence.
pub open spec fn opt_view(o: Option<String>) -> Option<Seq<char>> {
    match o {
        Some(s) => Some(s@),
        None => None,
    }
}

/// The answer from a response read from the disk cache (`None` when there
/// was none, it was too old or it did not parse): a response is cached in
/// memory and answered from; without one the network is next (`None`).
pub fn resolve_from_disk(
    cache: &mut ResponseCache,
    project: &str,
    disk: Option<Vec<RepologyPackage>>,
    os_type: &OsType,
    registry: &PlatformRegistry,
) -> (r: Option<Option<String>>)
    ensures
        disk is None ==> r is None && final(cache)@ == old(cache)@,
        disk matches Some(d) ==> final(cache)@ == old(cache)@.insert(project@, d@) && (r matches Some(
            a,
        ) && opt_view(a) == package_for_os(d@, *os_type, registry@)),
{
    match disk {
        Some(data) => {
            let a = find_package_for_os(&data, os_type, registry);
            cache.insert(project, data);
            Some(a)
        },
        None => None,
    }
}

/// What a request for a project's page came to.
pub enum FetchOutcome {
    /// The page came: its text, and what parsing it as a list of packages
    /// gave (or the parser's message).
    Page { body: String, parsed: Result<Vec<RepologyPackage>, String> },
    /// The response came but its body could not be read (the reason).
    BodyUnreadable(String),
    /// HTTP 404: Repology knows no such project.
    NotFound,
    /// Any other failure of the request (its message).
    Failed(String),
}

/// What to do once a request for a project's page is over.
pub struct FetchDecision {
    /// The text to write to the project's disk cache file, if any.
    pub write: Option<String>,
    /// The answer; `None` when the stale disk cache is to be tried next.
    pub answer: Option<Result<Option<String>, Error>>,
}

/// Decides on the outcome of a request for `project`'s page: a page is
/// written to the disk cache, and when it parses it is cached in memory and
/// answered from, else the parser's error is the answer; a 404 caches an
/// empty response (on disk as `[]`) and answers that nothing is known; a
/// body that cannot be read is an HTTP error; any other failure sends the
/// caller to the stale disk cache.
pub fn after_fetch(
    cache: &mut ResponseCache,
    project: &str,
    outcome: FetchOutcome,
    os_type: &OsType,
    registry: &PlatformRegistry,
) -> (r: FetchDecision)
    ensures
        match outcome {
            FetchOutcome::Page { body, parsed: Ok(d) } => {
                &&& r.write matches Some(w) && w@ == body@
                &&& final(cache)@ == old(cache)@.insert(project@, d@)
                &&& r.answer matches Some(Ok(a)) && opt_view(a) == package_for_os(
                    d@,
                    *os_type,
                    registry@,
                )
            },
            FetchOutcome::Page { body, parsed: Err(m) } => {
                &&& r.write matches Some(w) && w@ == body@
                &&& final(cache)@ == old(cache)@
                &&& r.answer matches Some(Err(Error::Parse(m2))) && m2@ == m@
            },
            FetchOutcome::BodyUnreadable(m) => {
                &&& r.write is None
                &&& final(cache)@ == old(cache)@
                &&& r.answer matches Some(Err(Error::Http(m2))) && m2@ == "body read: "@ + m@
            },
            FetchOutcome::NotFound => {
                &&& r.write matches Some(w) && w@ == "[]"@
                &&& final(cache)@ == old(cache)@.insert(project@, Seq::empty())
                &&& r.answer matches Some(Ok(None))
            },
            FetchOutcome::Failed(_) => {
                &&& r.write is None
                &&& final(cache)@ == old(cache)@
                &&& r.answer is None
            },
        },
{
    match outcome {
        FetchOutcome::Page { body, parsed } => match parsed {
            Ok(data) => {
                let a = find_package_for_os(&data, os_type, registry);
                cache.insert(project, data);
                FetchDecision { write: Some(body), answer: Some(Ok(a)) }
            },
            Err(m) => FetchDecision { write: Some(body), answer: Some(Err(Error::Parse(m))) },
        },
        FetchOutcome::BodyUnreadable(m) => FetchDecision {
            write: None,
            answer: Some(Err(Error::Http(prefixed("body read: ", m.as_str())))),
        },
        FetchOutcome::NotFound => {
            let empty: Vec<RepologyPackage> = Vec::new();
            cache.insert(project, empty);
            FetchDecision { write: Some(String::from_str("[]")), answer: Some(Ok(None)) }
        },
        FetchOutcome::Failed(_) => FetchDecision { write: None, answer: None },
    }
}

/// The answer after a failed request (`failure` is its message), from the
/// stale disk cache (`None` when there was none or it did not parse): a
/// response is cached in memory and answered from; without one the answer
/// is the HTTP error.
pub fn resolve_from_stale(
    cache: &mut ResponseCache,
    project: &str,
    stale: Option<Vec<RepologyPackage>>,
    failure: String,
    os_type: &OsType,
    registry: &PlatformRegistry,
) -> (r: Result<Option<String>, Error>)
    ensures
        stale is None ==> final(cache)@ == old(cache)@ && (r matches Err(Error::Http(m))
            && m@ == failure@),
        stale matches Some(d) ==> final(cache)@ == old(cache)@.insert(project@, d@) && (r matches Ok(
            a,
        ) && opt_view(a) == package_for_os(d@, *os_type, registry@)),
{
    match stale {
        Some(data) => {
            let a = find_package_for_os(&data, os_type, registry);
            cache.insert(project, data);
            Ok(a)
        },
        None => Err(Error::Http(failure)),
    }
}


/// Where the resolution of a project through Repology stands.
#[derive(Clone, Copy, PartialEq, Eq, Structural)]
pub enum ResolveStage {
    /// Waiting for the project's disk cache, if under a day old.
    FreshCache,
    /// Waiting for the outcome of the request for the project's page.
    Network,
    /// Waiting for the project's disk cache, whatever its age.
    StaleCache,
    /// Finished.
    Done,
}

/// What the caller of a Repology resolution is to do next.
pub enum ResolveAction {
    /// Read the project's disk cache if it is under a day old, and hand back
    /// what it parses to (nothing when it is missing, old or unparsable).
    ReadFreshCache,
    /// Request this address, and hand back the outcome.
    Fetch(String),
    /// Read the project's disk cache whatever its age, and hand back what it
    /// parses to.
    ReadStaleCache,
    /// The answer.
    Done(Result<Option<String>, Error>),
}

/// The resolution of a project name to its package on an OS through
/// Repology, driven one answer at a time: the in-memory cache first, then
/// the disk cache while it is fresh, then the network, then (when the
/// request failed) the disk cache of any age.
pub struct RepologyResolve {
    project: String,
    url: String,
    failure: String,
    stage: ResolveStage,
}

impl RepologyResolve {
    /// The stage of the resolution.
    pub closed spec fn spec_stage(&self) -> ResolveStage {
        self.stage
    }

    /// The project being resolved.
    pub closed spec fn spec_project(&self) -> Seq<char> {
        self.project@
    }

    /// The address of the project's page.
    pub closed spec fn spec_url(&self) -> Seq<char> {
        self.url@
    }

    /// The message of the failed request (once there is one).
    pub closed spec fn spec_failure(&self) -> Seq<char> {
        self.failure@
    }

    /// Starts resolving `project`: the answer at once when the in-memory
    /// cache holds its response, else a read of the fresh disk cache.
    pub fn start(
        cache: &ResponseCache,
        base: &str,
        project: &str,
        os_type: &OsType,
        registry: &PlatformRegistry,
    ) -> (r: (RepologyResolve, ResolveAction))
        ensures
            r.0.spec_project() == project@,
            r.0.spec_url() == base@ + "/project/"@ + form_encode(utf8(project@)),
            cache@.contains_key(project@) ==> r.0.spec_stage() == ResolveStage::Done && (r.1 matches ResolveAction::Done(Ok(a)) && opt_view(a) == package_for_os(cache@[project@], *os_type, registry@)),
            !cache@.contains_key(project@) ==> r.0.spec_stage() == ResolveStage::FreshCache
                && r.1 is ReadFreshCache,
    {
        let mut m = RepologyResolve {
            project: String::from_str(project),
            url: project_url(base, project),
            failure: String::new(),
            stage: ResolveStage::FreshCache,
        };
        match resolve_cached(cache, project, os_type, registry) {
            Some(a) => {
                m.stage = ResolveStage::Done;
                (m, ResolveAction::Done(Ok(a)))
            },
            None => (m, ResolveAction::ReadFreshCache),
        }
    }

    /// Hands in what the fresh disk cache gave: a response is cached in
    /// memory and answered from; without one the page is requested.
    pub fn fresh_cache(
        &mut self,
        cache: &mut ResponseCache,
        disk: Option<Vec<RepologyPackage>>,
        os_type: &OsType,
        registry: &PlatformRegistry,
    ) -> (r: ResolveAction)
        requires
            old(self).spec_stage() == ResolveStage::FreshCache,
        ensures
            final(self).spec_project() == old(self).spec_project(),
            final(self).spec_url() == old(self).spec_url(),
            disk is None ==> final(cache)@ == old(cache)@ && final(self).spec_stage()
                == ResolveStage::Network && (r matches ResolveAction::Fetch(u) && u@ == old(
                self,
            ).spec_url()),
            disk matches Some(d) ==> final(cache)@ == old(cache)@.insert(old(self).spec_project(), d@)
                && final(self).spec_stage() == ResolveStage::Done && (r matches ResolveAction::Done(
                Ok(a),
            ) && opt_view(a) == package_for_os(d@, *os_type, registry@)),
    {
        match resolve_from_disk(cache, self.project.as_str(), disk, os_type, registry) {
            Some(a) => {
                self.stage = ResolveStage::Done;
                ResolveAction::Done(Ok(a))
            },
            None => {
                self.stage = ResolveStage::Network;
                ResolveAction::Fetch(self.url.clone())
            },
        }
    }

    /// Hands in the outcome of the request; gives back the text to write to
    /// the disk cache, if any, and what to do next (see [`after_fetch`]): a
    /// failed request leads to the stale disk cache.
    pub fn fetched(
        &mut self,
        cache: &mut ResponseCache,
        outcome: FetchOutcome,
        os_type: &OsType,
        registry: &PlatformRegistry,
    ) -> (r: (Option<String>, ResolveAction))
        requires
            old(self).spec_stage() == ResolveStage::Network,
        ensures
            final(self).spec_project() == old(self).spec_project(),
            final(self).spec_url() == old(self).spec_url(),
            outcome matches FetchOutcome::Failed(m) ==> final(cache)@ == old(cache)@ && r.0 is None
                && final(self).spec_stage() == ResolveStage::StaleCache && final(self).spec_failure()
                == m@ && r.1 is ReadStaleCache,
            !(outcome is Failed) ==> final(self).spec_stage() == ResolveStage::Done && r.1 is Done,
            match outcome {
                FetchOutcome::Page { body, parsed: Ok(d) } => {
                    &&& r.0 matches Some(w) && w@ == body@
                    &&& final(cache)@ == old(cache)@.insert(old(self).spec_project(), d@)
                    &&& r.1 matches ResolveAction::Done(Ok(a)) && opt_view(a) == package_for_os(
                        d@,
                        *os_type,
                        registry@,
                    )
                },
                FetchOutcome::Page { body, parsed: Err(m) } => {
                    &&& r.0 matches Some(w) && w@ == body@
                    &&& final(cache)@ == old(cache)@
                    &&& r.1 matches ResolveAction::Done(Err(Error::Parse(m2))) && m2@ == m@
                },
                FetchOutcome::BodyUnreadable(m) => {
                    &&& r.0 is None
                    &&& final(cache)@ == old(cache)@
                    &&& r.1 matches ResolveAction::Done(Err(Error::Http(m2))) && m2@ == "body read: "@
                        + m@
                },
                FetchOutcome::NotFound => {
                    &&& r.0 matches Some(w) && w@ == "[]"@
                    &&& final(cache)@ == old(cache)@.insert(old(self).spec_project(), Seq::empty())
                    &&& r.1 matches ResolveAction::Done(Ok(None))
                },
                FetchOutcome::Failed(_) => true,
            },
    {
        let failure = match &outcome {
            FetchOutcome::Failed(m) => Some(m.clone()),
            _ => None,
        };
        let d = after_fetch(cache, self.project.as_str(), outcome, os_type, registry);
        match d.answer {
            Some(a) => {
                self.stage = ResolveStage::Done;
                (d.write, ResolveAction::Done(a))
            },
            None => {
                self.stage = ResolveStage::StaleCache;
                match failure {
                    Some(m) => {
                        self.failure = m;
                    },
                    None => {},
                }
                (d.write, ResolveAction::ReadStaleCache)
            },
        }
    }

    /// Hands in what the stale disk cache gave: a response is cached in
    /// memory and answered from; without one the answer is the HTTP error of
    /// the failed request.
    pub fn stale_cache(
        &mut self,
        cache: &mut ResponseCache,
        stale: Option<Vec<RepologyPackage>>,
        os_type: &OsType,
        registry: &PlatformRegistry,
    ) -> (r: Result<Option<String>, Error>)
        requires
            old(self).spec_stage() == ResolveStage::StaleCache,
        ensures
            final(self).spec_stage() == ResolveStage::Done,
            stale is None ==> final(cache)@ == old(cache)@ && (r matches Err(Error::Http(m)) && m@
                == old(self).spec_failure()),
            stale matches Some(d) ==> final(cache)@ == old(cache)@.insert(old(self).spec_project(), d@)
                && (r matches Ok(a) && opt_view(a) == package_for_os(d@, *os_type, registry@)),
    {
        self.stage = ResolveStage::Done;
        let failure = self.failure.clone();
        resolve_from_stale(cache, self.project.as_str(), stale, failure, os_type, registry)
    }

    /// The stage of the resolution.
    pub fn stage(&self) -> (r: ResolveStage)
        ensures
            r == self.spec_stage(),
    {
        self.stage
    }
}

} // verus!
