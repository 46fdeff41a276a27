//! The resolution pipeline: aliases, the sources of package names in their
//! order of priority, suggestions for queries that nothing resolves, and the
//! list of candidates shown by a search.
//!
//! Asking a source, the database or a package manager's search command is the
//! caller's work; the decisions between those steps are made here, one step
//! at a time (see [`Lookup`]).
use vstd::prelude::*;
use crate::db::{Mapping, database_label, database_label_exec, mapping_view};
use crate::error::Error;
use crate::fallback::CONFIDENT_SCORE_KEY;
use crate::exec::{Command, command_for, install_words};
use crate::os::{OsType, PlatformConfig, os_name};
use crate::text::{ascii_lower, ascii_lower_exec, chars_eq, chars_of, join, join_exec, string_from, views};
use vstd::string::StringExecFns;

verus! {

/// A package name found during search, with its provenance label.
#[derive(Debug, Clone)]
pub struct ResolveCandidate {
    /// The OS-specific package name.
    pub name: String,
    /// Where this candidate was found: `repology`, `database`, `fallback search`, etc.
    pub source: String,
}

/// The shorthand names and the packages they stand for.
pub open spec fn alias_table() -> Seq<(Seq<char>, Seq<char>)> {
    seq![
        ("rg"@, "ripgrep"@),
        ("py"@, "python"@),
        ("python3"@, "python"@),
        ("node"@, "nodejs"@),
        ("nodejs-lts"@, "nodejs-lts"@),
        ("yt"@, "yt-dlp"@),
        ("vim"@, "vim"@),
        ("nvim"@, "neovim"@),
        ("gs"@, "ghostscript"@),
        ("ff"@, "ffmpeg"@),
        ("grep"@, "ripgrep"@),
        ("ag"@, "the_silver_searcher"@),
        ("fd"@, "fd-find"@),
        ("bat"@, "bat"@),
        ("exa"@, "exa"@),
        ("lsd"@, "lsd"@),
        ("delta"@, "delta"@),
        ("jq"@, "jq"@),
        ("yq"@, "yq"@),
        ("fzf"@, "fzf"@),
        ("ripgrep"@, "ripgrep"@),
        ("neovim"@, "neovim"@),
        ("ffmpeg"@, "ffmpeg"@),
        ("yt-dlp"@, "yt-dlp"@)
    ]
}

/// The package an alias stands for: the first entry for the name.
pub open spec fn alias_in(table: Seq<(Seq<char>, Seq<char>)>, name: Seq<char>) -> Option<Seq<char>>
    decreases table.len(),
{
    if table.len() == 0 {
        None
    } else if table[0].0 == name {
        Some(table[0].1)
    } else {
        alias_in(table.drop_first(), name)
    }
}

/// The package that a query is shorthand for, matched ignoring ASCII case.
pub open spec fn alias_of(package: Seq<char>) -> Option<Seq<char>> {
    alias_in(alias_table(), ascii_lower(package))
}

fn alias_pairs() -> (r: Vec<(&'static str, &'static str)>)
    ensures
        r@.map_values(|p: (&str, &str)| (p.0@, p.1@)) == alias_table(),
{
    let r = vec![
        ("rg", "ripgrep"),
        ("py", "python"),
        ("python3", "python"),
        ("node", "nodejs"),
        ("nodejs-lts", "nodejs-lts"),
        ("yt", "yt-dlp"),
        ("vim", "vim"),
        ("nvim", "neovim"),
        ("gs", "ghostscript"),
        ("ff", "ffmpeg"),
        ("grep", "ripgrep"),
        ("ag", "the_silver_searcher"),
        ("fd", "fd-find"),
        ("bat", "bat"),
        ("exa", "exa"),
        ("lsd", "lsd"),
        ("delta", "delta"),
        ("jq", "jq"),
        ("yq", "yq"),
        ("fzf", "fzf"),
        ("ripgrep", "ripgrep"),
        ("neovim", "neovim"),
        ("ffmpeg", "ffmpeg"),
        ("yt-dlp", "yt-dlp")
    ];
    assert(r@.map_values(|p: (&str, &str)| (p.0@, p.1@)) =~= alias_table());
    r
}

/// Resolves a shorthand name (`rg`, `py`, `nvim`, ...) to the package it
/// stands for, ignoring ASCII case.
pub fn resolve_alias(package: &str) -> (r: Option<&'static str>)
    ensures
        r matches Some(a) ==> alias_of(package@) == Some(a@),
        r is None ==> alias_of(package@) is None,
{
    let lower = ascii_lower_exec(&chars_of(package));
    let pairs = alias_pairs();
    let ghost table = pairs@.map_values(|p: (&str, &str)| (p.0@, p.1@));
    let mut i: usize = 0;
    assert(table.skip(0) =~= table);
    while i < pairs.len()
        invariant
            i <= pairs.len(),
            table == pairs@.map_values(|p: (&str, &str)| (p.0@, p.1@)),
            table == alias_table(),
            lower@ == ascii_lower(package@),
            alias_of(package@) == alias_in(table.skip(i as int), lower@),
        decreases pairs.len() - i,
    {
        assert(table.skip(i as int).drop_first() =~= table.skip(i + 1));
        assert(table.skip(i as int)[0] == (pairs@[i as int].0@, pairs@[i as int].1@));
        let (from, to) = pairs[i];
        if chars_eq(&chars_of(from), &lower) {
            return Some(to);
        }
        i = i + 1;
    }
    None
}

/// Well-known package names, scored against a query for suggestions when
/// search results are sparse.
pub open spec fn known_names() -> Seq<Seq<char>> {
    seq![
        "ripgrep"@,
        "python"@,
        "python3"@,
        "nodejs"@,
        "nodejs-lts"@,
        "neovim"@,
        "vim"@,
        "ffmpeg"@,
        "yt-dlp"@,
        "git"@,
        "curl"@,
        "wget"@,
        "htop"@,
        "bat"@,
        "fd"@,
        "fzf"@,
        "jq"@,
        "yq"@,
        "exa"@,
        "lsd"@,
        "delta"@,
        "ag"@,
        "ghostscript"@,
        "tree"@,
        "tmux"@,
        "nano"@,
        "gcc"@,
        "make"@,
        "cmake"@,
        "rust"@,
        "go"@,
        "deno"@,
        "bun"@,
        "docker"@,
        "podman"@,
        "gh"@,
        "zig"@,
        "ruby"@,
        "perl"@,
        "lua"@,
        "php"@,
        "swift"@,
        "rustup"@,
        "cargo"@,
        "gradle"@,
        "maven"@,
        "ansible"@,
        "terraform"@,
        "kubectl"@,
        "helm"@,
        "lazygit"@,
        "lazydocker"@,
        "bottom"@,
        "tokei"@,
        "hyperfine"@,
        "bandwhich"@,
        "difftastic"@,
        "grex"@,
        "sd"@,
        "procs"@,
        "duf"@,
        "dust"@,
        "navi"@,
        "zoxide"@,
        "starship"@,
        "alacritty"@,
        "kitty"@,
        "wezterm"@,
        "ranger"@,
        "nnn"@,
        "lf"@,
        "broot"@,
        "fish"@,
        "zsh"@,
        "bash"@,
        "nushell"@,
        "elvish"@
    ]
}

/// The well-known package names.
pub fn known_packages() -> (r: Vec<&'static str>)
    ensures
        r@.map_values(|s: &str| s@) == known_names(),
{
    let r = vec![
        "ripgrep",
        "python",
        "python3",
        "nodejs",
        "nodejs-lts",
        "neovim",
        "vim",
        "ffmpeg",
        "yt-dlp",
        "git",
        "curl",
        "wget",
        "htop",
        "bat",
        "fd",
        "fzf",
        "jq",
        "yq",
        "exa",
        "lsd",
        "delta",
        "ag",
        "ghostscript",
        "tree",
        "tmux",
        "nano",
        "gcc",
        "make",
        "cmake",
        "rust",
        "go",
        "deno",
        "bun",
        "docker",
        "podman",
        "gh",
        "zig",
        "ruby",
        "perl",
        "lua",
        "php",
        "swift",
        "rustup",
        "cargo",
        "gradle",
        "maven",
        "ansible",
        "terraform",
        "kubectl",
        "helm",
        "lazygit",
        "lazydocker",
        "bottom",
        "tokei",
        "hyperfine",
        "bandwhich",
        "difftastic",
        "grex",
        "sd",
        "procs",
        "duf",
        "dust",
        "navi",
        "zoxide",
        "starship",
        "alacritty",
        "kitty",
        "wezterm",
        "ranger",
        "nnn",
        "lf",
        "broot",
        "fish",
        "zsh",
        "bash",
        "nushell",
        "elvish"
    ];
    assert(r@.map_values(|s: &str| s@) =~= known_names());
    r
}

/// A name with the order key of its suggestion score against the query
/// (see [`crate::fallback::order_key`]).
pub struct ScoredName {
    pub name: String,
    pub key: i64,
}

/// The key of `s` in `table`: that of its first entry, or `i64::MIN`.
pub open spec fn key_of(table: Seq<ScoredName>, s: Seq<char>) -> i64
    decreases table.len(),
{
    if table.len() == 0 {
        i64::MIN
    } else if table[0].name@ == s {
        table[0].key
    } else {
        key_of(table.drop_first(), s)
    }
}

/// The names of the candidates that did not come from identity.
pub open spec fn ranked_names(cands: Seq<ResolveCandidate>) -> Seq<Seq<char>>
    decreases cands.len(),
{
    if cands.len() == 0 {
        Seq::empty()
    } else if cands.last().source@ == "identity"@ {
        ranked_names(cands.drop_last())
    } else {
        ranked_names(cands.drop_last()).push(cands.last().name@)
    }
}

/// The names whose score reaches the suggestion threshold, in order.
pub open spec fn confident_names(s: Seq<Seq<char>>, table: Seq<ScoredName>) -> Seq<Seq<char>>
    decreases s.len(),
{
    if s.len() == 0 {
        Seq::empty()
    } else if key_of(table, s.last()) >= CONFIDENT_SCORE_KEY {
        confident_names(s.drop_last(), table).push(s.last())
    } else {
        confident_names(s.drop_last(), table)
    }
}

/// No name reaches the suggestion threshold.
pub open spec fn all_below(s: Seq<Seq<char>>, table: Seq<ScoredName>) -> bool {
    forall|i: int| 0 <= i < s.len() ==> key_of(table, #[trigger] s[i]) < CONFIDENT_SCORE_KEY
}

/// The names ranked for suggestions: the candidates' names, and when none of
/// them is confident, the well-known package names that are.
pub open spec fn suggestion_pool(cands: Seq<ResolveCandidate>, table: Seq<ScoredName>) -> Seq<Seq<char>> {
    let r = ranked_names(cands);
    if all_below(r, table) {
        r + confident_names(known_names(), table)
    } else {
        r
    }
}

/// Where `x` goes in a list sorted by decreasing key, after the names with
/// the same key (a stable sort).
pub open spec fn desc_pos(s: Seq<Seq<char>>, k: i64, table: Seq<ScoredName>) -> int
    decreases s.len(),
{
    if s.len() == 0 {
        0
    } else if key_of(table, s[0]) < k {
        0
    } else {
        1 + desc_pos(s.drop_first(), k, table)
    }
}

/// `s` stably sorted by decreasing key.
pub open spec fn sort_by_key(s: Seq<Seq<char>>, table: Seq<ScoredName>) -> Seq<Seq<char>>
    decreases s.len(),
{
    if s.len() == 0 {
        Seq::empty()
    } else {
        let t = sort_by_key(s.drop_last(), table);
        t.insert(desc_pos(t, key_of(table, s.last()), table), s.last())
    }
}

/// The first `limit` distinct names of `s`.
pub open spec fn distinct_prefix(s: Seq<Seq<char>>, limit: nat) -> Seq<Seq<char>>
    decreases s.len(),
{
    if s.len() == 0 {
        Seq::empty()
    } else {
        let prev = distinct_prefix(s.drop_last(), limit);
        if prev.len() >= limit || prev.contains(s.last()) {
            prev
        } else {
            prev.push(s.last())
        }
    }
}

/// The suggestions for a query that nothing resolved: at most three distinct
/// names, best first, each scoring at least the threshold.
pub open spec fn suggestions_for(cands: Seq<ResolveCandidate>, table: Seq<ScoredName>) -> Seq<Seq<char>> {
    distinct_prefix(confident_names(sort_by_key(suggestion_pool(cands, table), table), table), 3)
}

/// The key of a name.
fn key_exec(table: &Vec<ScoredName>, s: &String) -> (k: i64)
    ensures
        k == key_of(table@, s@),
{
    let mut i: usize = 0;
    assert(table@.skip(0) =~= table@);
    while i < table.len()
        invariant
            i <= table.len(),
            key_of(table@, s@) == key_of(table@.skip(i as int), s@),
        decreases table.len() - i,
    {
        assert(table@.skip(i as int).drop_first() =~= table@.skip(i + 1));
        if table[i].name.eq(s) {
            return table[i].key;
        }
        i = i + 1;
    }
    i64::MIN
}

/// The names that need suggestion scores: the candidates' names (other than
/// identity) and the well-known package names.
pub fn suggestion_terms(cands: &Vec<ResolveCandidate>) -> (r: Vec<String>)
    ensures
        views(r@) == ranked_names(cands@) + known_names(),
{
    let mut r: Vec<String> = Vec::new();
    let identity = chars_of("identity");
    let mut i: usize = 0;
    while i < cands.len()
        invariant
            i <= cands.len(),
            identity@ == "identity"@,
            views(r@) == ranked_names(cands@.take(i as int)),
        decreases cands.len() - i,
    {
        proof {
            let n = cands@.take(i + 1);
            assert(n.drop_last() =~= cands@.take(i as int));
            assert(n.last() == cands@[i as int]);
        }
        if !chars_eq(&chars_of(cands[i].source.as_str()), &identity) {
            let ghost before = r@;
            r.push(cands[i].name.clone());
            assert(views(r@) =~= views(before).push(cands@[i as int].name@));
        }
        i = i + 1;
    }
    assert(cands@.take(cands.len() as int) =~= cands@);
    let known = known_packages();
    let ghost base = views(r@);
    let mut j: usize = 0;
    while j < known.len()
        invariant
            j <= known.len(),
            known@.map_values(|s: &str| s@) == known_names(),
            views(r@) == base + known_names().take(j as int),
        decreases known.len() - j,
    {
        let ghost before = r@;
        let w = String::from_str(known[j]);
        assert(known_names()[j as int] == known@[j as int]@);
        assert(w@ == known_names()[j as int]);
        r.push(w);
        assert(views(r@) =~= views(before).push(w@));
        assert(views(r@) =~= base + known_names().take(j + 1));
        j = j + 1;
    }
    assert(known_names().take(known.len() as int) =~= known_names());
    r
}

/// Inserts `x` (with key `k`) after the names whose key is at least `k`.
fn insert_desc(v: &mut Vec<String>, x: String, k: i64, table: &Vec<ScoredName>)
    requires
        k == key_of(table@, x@),
    ensures
        views(final(v)@) == views(old(v)@).insert(desc_pos(views(old(v)@), k, table@), x@),
{
    let ghost s = views(v@);
    let mut i: usize = 0;
    assert(s.skip(0) =~= s);
    while i < v.len() && key_exec(table, &v[i]) >= k
        invariant
            i <= v.len(),
            s == views(v@),
            desc_pos(s, k, table@) == i + desc_pos(s.skip(i as int), k, table@),
        decreases v.len() - i,
    {
        assert(s.skip(i as int).drop_first() =~= s.skip(i + 1));
        assert(s.skip(i as int)[0] == v@[i as int]@);
        i = i + 1;
    }
    proof {
        if i < v.len() {
            assert(s.skip(i as int)[0] == v@[i as int]@);
        }
        lemma_desc_pos_bound(s, k, table@);
    }
    v.insert(i, x);
    assert(views(v@) =~= s.insert(i as int, x@));
}

proof fn lemma_desc_pos_bound(s: Seq<Seq<char>>, k: i64, table: Seq<ScoredName>)
    ensures
        0 <= desc_pos(s, k, table) <= s.len(),
    decreases s.len(),
{
    if s.len() > 0 && key_of(table, s[0]) >= k {
        lemma_desc_pos_bound(s.drop_first(), k, table);
    }
}

/// The names of `s` that reach the threshold.
fn confident_exec(s: &Vec<String>, table: &Vec<ScoredName>) -> (r: Vec<String>)
    ensures
        views(r@) == confident_names(views(s@), table@),
{
    let mut r: Vec<String> = Vec::new();
    let mut i: usize = 0;
    while i < s.len()
        invariant
            i <= s.len(),
            views(r@) == confident_names(views(s@.take(i as int)), table@),
        decreases s.len() - i,
    {
        proof {
            let n = views(s@.take(i + 1));
            assert(n.drop_last() =~= views(s@.take(i as int)));
            assert(n.last() == s@[i as int]@);
        }
        if key_exec(table, &s[i]) >= CONFIDENT_SCORE_KEY {
            let ghost before = r@;
            r.push(s[i].clone());
            assert(views(r@) =~= views(before).push(s@[i as int]@));
        }
        i = i + 1;
    }
    assert(s@.take(s.len() as int) =~= s@);
    r
}

/// Picks "did you mean" suggestions for a query that nothing resolved.
///
/// The candidates found so far (other than identity) are ranked by their
/// suggestion score; when none reaches the threshold (220), the well-known
/// package names are ranked too. The result holds at most three distinct
/// names, best first, each scoring at least the threshold. `scores` holds the
/// scores of the names that [`suggestion_terms`] lists; a name without an
/// entry scores lowest.
pub fn best_suggestions(cands: &Vec<ResolveCandidate>, scores: &Vec<ScoredName>) -> (r: Vec<String>)
    ensures
        views(r@) == suggestions_for(cands@, scores@),
{
    let terms = suggestion_terms(cands);
    let kp = known_packages();
    assert(kp@.len() == known_names().len()) by {
        assert(kp@.map_values(|s: &str| s@).len() == kp@.len());
    }
    assert(views(terms@).len() == terms@.len());
    let n_ranked = terms.len() - kp.len();
    let ghost ranked = ranked_names(cands@);
    assert(views(terms@).subrange(0, ranked.len() as int) =~= ranked);
    // the pool: the ranked names, then the confident known names if needed
    let mut pool: Vec<String> = Vec::new();
    let mut all_low = true;
    let mut i: usize = 0;
    while i < n_ranked
        invariant
            i <= n_ranked,
            n_ranked == ranked.len(),
            n_ranked <= terms.len(),
            views(terms@).subrange(0, n_ranked as int) == ranked,
            views(pool@) == ranked.take(i as int),
            all_low == (forall|j: int| 0 <= j < i ==> key_of(scores@, #[trigger] ranked[j])
                < CONFIDENT_SCORE_KEY),
        decreases n_ranked - i,
    {
        assert(ranked[i as int] == terms@[i as int]@);
        if key_exec(scores, &terms[i]) >= CONFIDENT_SCORE_KEY {
            all_low = false;
        }
        let ghost before = pool@;
        let w = terms[i].clone();
        pool.push(w);
        assert(views(pool@) =~= views(before).push(w@));
        assert(views(pool@) =~= ranked.take(i + 1));
        i = i + 1;
    }
    assert(ranked.take(n_ranked as int) =~= ranked);
    if all_low {
        let mut known: Vec<String> = Vec::new();
        let mut j: usize = 0;
        while j < kp.len()
            invariant
                j <= kp.len(),
                kp@.map_values(|s: &str| s@) == known_names(),
                views(known@) == known_names().take(j as int),
            decreases kp.len() - j,
        {
            let ghost before = known@;
            let w = String::from_str(kp[j]);
            assert(known_names()[j as int] == kp@[j as int]@);
            known.push(w);
            assert(views(known@) =~= views(before).push(w@));
            assert(views(known@) =~= known_names().take(j + 1));
            j = j + 1;
        }
        assert(known_names().take(kp.len() as int) =~= known_names());
        let confident = confident_exec(&known, scores);
        let ghost before = views(pool@);
        let mut k: usize = 0;
        while k < confident.len()
            invariant
                k <= confident.len(),
                views(pool@) == before + views(confident@).take(k as int),
            decreases confident.len() - k,
        {
            let ghost prev = pool@;
            let w = confident[k].clone();
            pool.push(w);
            assert(views(pool@) =~= views(prev).push(w@));
            assert(views(pool@) =~= before + views(confident@).take(k + 1));
            k = k + 1;
        }
        assert(views(confident@).take(confident.len() as int) =~= views(confident@));
    }
    assert(views(pool@) == suggestion_pool(cands@, scores@));
    // stable sort by decreasing score
    let mut sorted: Vec<String> = Vec::new();
    let mut p: usize = 0;
    while p < pool.len()
        invariant
            p <= pool.len(),
            views(sorted@) == sort_by_key(views(pool@.take(p as int)), scores@),
        decreases pool.len() - p,
    {
        proof {
            let n = views(pool@.take(p + 1));
            assert(n.drop_last() =~= views(pool@.take(p as int)));
            assert(n.last() == pool@[p as int]@);
        }
        let k = key_exec(scores, &pool[p]);
        insert_desc(&mut sorted, pool[p].clone(), k, scores);
        p = p + 1;
    }
    assert(pool@.take(pool.len() as int) =~= pool@);
    let kept = confident_exec(&sorted, scores);
    // the first three distinct names
    let mut out: Vec<String> = Vec::new();
    let mut q: usize = 0;
    while q < kept.len()
        invariant
            q <= kept.len(),
            views(out@) == distinct_prefix(views(kept@.take(q as int)), 3),
        decreases kept.len() - q,
    {
        proof {
            let n = views(kept@.take(q + 1));
            assert(n.drop_last() =~= views(kept@.take(q as int)));
            assert(n.last() == kept@[q as int]@);
        }
        if out.len() < 3 {
            let mut seen = false;
            let mut m: usize = 0;
            while m < out.len()
                invariant
                    m <= out.len(),
                    q < kept.len(),
                    seen == (exists|z: int| 0 <= z < m && out@[z]@ == kept@[q as int]@),
                decreases out.len() - m,
            {
                if out[m].eq(&kept[q]) {
                    seen = true;
                }
                m = m + 1;
            }
            proof {
                let prev = views(out@);
                if seen {
                    let z = choose|z: int| 0 <= z < out.len() && out@[z]@ == kept@[q as int]@;
                    assert(prev[z] == kept@[q as int]@);
                } else {
                    assert forall|z: int| 0 <= z < prev.len() implies prev[z] != kept@[q as int]@ by {
                        assert(prev[z] == out@[z]@);
                    }
                }
            }
            if !seen {
                let ghost before = out@;
                out.push(kept[q].clone());
                assert(views(out@) =~= views(before).push(kept@[q as int]@));
            }
        }
        q = q + 1;
    }
    assert(kept@.take(kept.len() as int) =~= kept@);
    out
}

/// Queries of at most this many characters are matched exactly or by alias
/// only: they skip the fuzzy fallback search.
pub open spec fn is_short_query(q: Seq<char>) -> bool {
    q.len() <= 3
}

/// The query is short: no fuzzy fallback search for it.
pub fn short_query(q: &str) -> (r: bool)
    ensures
        r == is_short_query(q@),
{
    chars_of(q).len() <= 3
}

/// Where a lookup stands.
#[derive(Clone, Copy, PartialEq, Eq, Structural)]
pub enum LookupStage {
    /// Waiting for source `i` (Repology and other network sources, in order).
    Source(usize),
    /// Waiting for the local database.
    Database,
    /// Waiting for the search command of fallback searcher `i`.
    Fallback(usize),
    /// Finished.
    Done,
}

/// What the caller of a lookup is to do next.
pub enum LookupAction {
    /// Ask source `i` to resolve the package, then hand its answer back.
    AskSource(usize),
    /// Look the package up in the local database, then hand the mapping
    /// found (if any) to [`Lookup::answer_database`].
    AskDatabase,
    /// Run fallback searcher `i` for the package, then hand the answer back.
    RunFallback(usize),
    /// The package resolves to `name`, found by `source`.
    Resolved { name: String, source: String },
    /// Nothing resolves the package and identity is not allowed: the caller
    /// ranks suggestions (see [`best_suggestions`]) and reports
    /// [`unresolved_error`].
    Suggest,
    /// The lookup failed.
    Failed(Error),
}

/// An action, with its strings as sequences.
pub enum Step {
    Ask(LookupStage),
    Resolved(Seq<char>, Seq<char>),
    Suggest,
    Failed(Error),
}

pub open spec fn step_of(a: LookupAction) -> Step {
    match a {
        LookupAction::AskSource(i) => Step::Ask(LookupStage::Source(i)),
        LookupAction::AskDatabase => Step::Ask(LookupStage::Database),
        LookupAction::RunFallback(i) => Step::Ask(LookupStage::Fallback(i)),
        LookupAction::Resolved { name, source } => Step::Resolved(name@, source@),
        LookupAction::Suggest => Step::Suggest,
        LookupAction::Failed(e) => Step::Failed(e),
    }
}

/// The resolution of one package name, driven one answer at a time: aliases
/// first, then every source in order, then the local database, then (for
/// queries longer than three characters) every fallback searcher in order,
/// then identity if allowed; the first that gives a name wins, and an error
/// from any of them ends the lookup.
pub struct Lookup {
    package: String,
    allow_identity: bool,
    sources: usize,
    fallbacks: Vec<String>,
    stage: LookupStage,
}

/// A lookup, with its strings as sequences.
pub struct LookupView {
    pub package: Seq<char>,
    pub allow_identity: bool,
    pub sources: nat,
    pub fallbacks: Seq<Seq<char>>,
    pub stage: LookupStage,
}

impl View for Lookup {
    type V = LookupView;

    closed spec fn view(&self) -> LookupView {
        LookupView {
            package: self.package@,
            allow_identity: self.allow_identity,
            sources: self.sources as nat,
            fallbacks: views(self.fallbacks@),
            stage: self.stage,
        }
    }
}

/// The stage that a lookup enters when it moves on to `stage`, and what it
/// asks for there: sources past the last lead to the database; fallback
/// searchers past the last, or any for a short query, lead to identity when
/// allowed, else to suggestions.
pub open spec fn enter(l: LookupView, stage: LookupStage) -> (LookupStage, Step) {
    match stage {
        LookupStage::Source(i) => if i < l.sources {
            (LookupStage::Source(i), Step::Ask(LookupStage::Source(i)))
        } else {
            (LookupStage::Database, Step::Ask(LookupStage::Database))
        },
        LookupStage::Database => (LookupStage::Database, Step::Ask(LookupStage::Database)),
        LookupStage::Fallback(j) => if !is_short_query(l.package) && j < l.fallbacks.len() {
            (LookupStage::Fallback(j), Step::Ask(LookupStage::Fallback(j)))
        } else if l.allow_identity {
            (LookupStage::Done, Step::Resolved(l.package, "identity"@))
        } else {
            (LookupStage::Done, Step::Suggest)
        },
        LookupStage::Done => (LookupStage::Done, Step::Suggest),
    }
}

/// The label of a name found by a source or a fallback searcher (the
/// database stage labels its mappings by their confidence, see
/// [`after_database`]).
pub open spec fn found_label(l: LookupView) -> Seq<char> {
    match l.stage {
        LookupStage::Source(_) => "repology"@,
        LookupStage::Database => Seq::empty(),
        LookupStage::Fallback(j) => "fallback search ("@ + l.fallbacks[j as int] + ")"@,
        LookupStage::Done => Seq::empty(),
    }
}

/// The stage after the current one when it found nothing.
pub open spec fn next_stage(stage: LookupStage) -> LookupStage {
    match stage {
        LookupStage::Source(i) => LookupStage::Source((i + 1) as usize),
        LookupStage::Database => LookupStage::Fallback(0),
        LookupStage::Fallback(j) => LookupStage::Fallback((j + 1) as usize),
        LookupStage::Done => LookupStage::Done,
    }
}

/// The lookup waits for an answer (it is not done, and its stage is one it
/// can be in).
pub open spec fn awaiting(l: LookupView) -> bool {
    match l.stage {
        LookupStage::Source(i) => i < l.sources,
        LookupStage::Database => true,
        LookupStage::Fallback(j) => j < l.fallbacks.len() && !is_short_query(l.package),
        LookupStage::Done => false,
    }
}

/// The answer to the current question, with its name as a sequence.
pub open spec fn answer_view(a: Result<Option<String>, Error>) -> Result<Option<Seq<char>>, Error> {
    match a {
        Ok(Some(n)) => Ok(Some(n@)),
        Ok(None) => Ok(None),
        Err(e) => Err(e),
    }
}

/// The stage and step that follow an answer.
pub open spec fn after_answer(l: LookupView, a: Result<Option<Seq<char>>, Error>) -> (LookupStage, Step) {
    match a {
        Err(e) => (LookupStage::Done, Step::Failed(e)),
        Ok(Some(n)) => (LookupStage::Done, Step::Resolved(n, found_label(l))),
        Ok(None) => enter(l, next_stage(l.stage)),
    }
}

/// The stage and step after the database answered with a mapping (its OS
/// package name and its confidence in tenths) or with none: a mapping
/// settles the lookup, labelled with its confidence; none moves on to the
/// fallback searchers.
pub open spec fn after_database(l: LookupView, m: Option<(Seq<char>, Seq<char>, u8)>) -> (
    LookupStage,
    Step,
) {
    match m {
        Some(x) => (LookupStage::Done, Step::Resolved(x.0, database_label(x.2))),
        None => enter(l, LookupStage::Fallback(0)),
    }
}

/// The stage and step with which a lookup starts.
pub open spec fn start_step(l: LookupView) -> (LookupStage, Step) {
    match alias_of(l.package) {
        Some(a) => (LookupStage::Done, Step::Resolved(a, "alias"@)),
        None => enter(l, LookupStage::Source(0)),
    }
}

/// `a + b + c` as a string.
fn concat3(a: &str, b: &str, c: &str) -> (r: String)
    ensures
        r@ == a@ + b@ + c@,
{
    let mut r = String::from_str(a);
    r.append(b);
    r.append(c);
    r
}

impl Lookup {
    /// The lookup's view when at `stage`.
    pub open spec fn at(l: LookupView, stage: LookupStage) -> LookupView {
        LookupView { stage: stage, ..l }
    }

    /// Moves on to `stage` and says what to do there.
    fn enter_exec(&mut self, stage: LookupStage) -> (r: LookupAction)
        requires
            match stage {
                LookupStage::Source(i) => i <= old(self)@.sources,
                LookupStage::Fallback(j) => j <= old(self)@.fallbacks.len(),
                _ => true,
            },
        ensures
            final(self)@ == Lookup::at(old(self)@, enter(old(self)@, stage).0),
            step_of(r) == enter(old(self)@, stage).1,
    {
        match stage {
            LookupStage::Source(i) => {
                if i < self.sources {
                    self.stage = LookupStage::Source(i);
                    LookupAction::AskSource(i)
                } else {
                    self.stage = LookupStage::Database;
                    LookupAction::AskDatabase
                }
            },
            LookupStage::Database => {
                self.stage = LookupStage::Database;
                LookupAction::AskDatabase
            },
            LookupStage::Fallback(j) => {
                if !short_query(self.package.as_str()) && j < self.fallbacks.len() {
                    self.stage = LookupStage::Fallback(j);
                    LookupAction::RunFallback(j)
                } else if self.allow_identity {
                    self.stage = LookupStage::Done;
                    LookupAction::Resolved {
                        name: self.package.clone(),
                        source: String::from_str("identity"),
                    }
                } else {
                    self.stage = LookupStage::Done;
                    LookupAction::Suggest
                }
            },
            LookupStage::Done => {
                self.stage = LookupStage::Done;
                LookupAction::Suggest
            },
        }
    }

    /// Starts the lookup of `package`, with `sources` network sources to ask
    /// and the fallback searchers of the managers in `fallbacks` (in the
    /// order to try them); identity is used last only if `allow_identity`.
    pub fn start(package: &str, allow_identity: bool, sources: usize, fallbacks: Vec<String>) -> (r: (
        Lookup,
        LookupAction,
    ))
        ensures
            r.0@.package == package@,
            r.0@.allow_identity == allow_identity,
            r.0@.sources == sources,
            r.0@.fallbacks == views(fallbacks@),
            (r.0@.stage, step_of(r.1)) == start_step(Lookup::at(r.0@, LookupStage::Source(0))),
    {
        let mut l = Lookup {
            package: String::from_str(package),
            allow_identity,
            sources,
            fallbacks,
            stage: LookupStage::Source(0),
        };
        match resolve_alias(package) {
            Some(a) => {
                l.stage = LookupStage::Done;
                (l, LookupAction::Resolved { name: String::from_str(a), source: String::from_str("alias") })
            },
            None => {
                let act = l.enter_exec(LookupStage::Source(0));
                (l, act)
            },
        }
    }

    /// The stage the lookup is at.
    pub fn stage(&self) -> (r: LookupStage)
        ensures
            r == self@.stage,
    {
        self.stage
    }

    /// Hands in what the database maps the package to on the OS, if
    /// anything, and says what to do next.
    pub fn answer_database(&mut self, found: Option<Mapping>) -> (r: LookupAction)
        requires
            old(self)@.stage is Database,
        ensures
            final(self)@ == Lookup::at(
                old(self)@,
                after_database(old(self)@, crate::db::opt_mapping_view(found)).0,
            ),
            step_of(r) == after_database(old(self)@, crate::db::opt_mapping_view(found)).1,
    {
        match found {
            Some(m) => {
                let source = database_label_exec(m.confidence_tenths);
                self.stage = LookupStage::Done;
                LookupAction::Resolved { name: m.os_package, source }
            },
            None => self.enter_exec(LookupStage::Fallback(0)),
        }
    }

    /// Hands in the answer to what the lookup asked for last and says what
    /// to do next.
    pub fn answer(&mut self, answer: Result<Option<String>, Error>) -> (r: LookupAction)
        requires
            awaiting(old(self)@),
            !(old(self)@.stage is Database),
        ensures
            final(self)@ == Lookup::at(old(self)@, after_answer(old(self)@, answer_view(answer)).0),
            step_of(r) == after_answer(old(self)@, answer_view(answer)).1,
    {
        assert(views(self.fallbacks@).len() == self.fallbacks@.len());
        match answer {
            Err(e) => {
                self.stage = LookupStage::Done;
                LookupAction::Failed(e)
            },
            Ok(Some(name)) => {
                let source = match self.stage {
                    LookupStage::Source(_) => String::from_str("repology"),
                    LookupStage::Fallback(j) => concat3(
                        "fallback search (",
                        self.fallbacks[j].as_str(),
                        ")",
                    ),
                    _ => String::new(),
                };
                self.stage = LookupStage::Done;
                LookupAction::Resolved { name, source }
            },
            Ok(None) => {
                let n_fallbacks = self.fallbacks.len();
                let next = match self.stage {
                    LookupStage::Source(i) => LookupStage::Source(i + 1),
                    LookupStage::Database => LookupStage::Fallback(0),
                    LookupStage::Fallback(j) => {
                        assert(j < n_fallbacks);
                        LookupStage::Fallback(j + 1)
                    },
                    LookupStage::Done => LookupStage::Done,
                };
                self.enter_exec(next)
            },
        }
    }
}


/// The candidates as (name, source) pairs.
pub open spec fn cand_views(c: Seq<ResolveCandidate>) -> Seq<(Seq<char>, Seq<char>)> {
    c.map_values(|x: ResolveCandidate| (x.name@, x.source@))
}

/// Some candidate in the list has the name `n`.
pub open spec fn has_name(list: Seq<(Seq<char>, Seq<char>)>, n: Seq<char>) -> bool {
    exists|i: int| 0 <= i < list.len() && #[trigger] list[i].0 == n
}

/// No two candidates in the list have the same name.
pub open spec fn distinct_names(list: Seq<(Seq<char>, Seq<char>)>) -> bool {
    forall|i: int, j: int| 0 <= i < j < list.len() ==> #[trigger] list[i].0 != #[trigger] list[j].0
}

/// The list with the names added in order under `label`, each one only if
/// no candidate has it yet.
pub open spec fn add_names(
    list: Seq<(Seq<char>, Seq<char>)>,
    names: Seq<Seq<char>>,
    label: Seq<char>,
) -> Seq<(Seq<char>, Seq<char>)>
    decreases names.len(),
{
    if names.len() == 0 {
        list
    } else {
        let prev = add_names(list, names.drop_last(), label);
        if has_name(prev, names.last()) {
            prev
        } else {
            prev.push((names.last(), label))
        }
    }
}

/// The list with the OS package names of the database mappings added in
/// order, each labelled with its confidence, each only if no candidate has
/// it yet.
pub open spec fn add_mappings(
    list: Seq<(Seq<char>, Seq<char>)>,
    ms: Seq<(Seq<char>, Seq<char>, u8)>,
) -> Seq<(Seq<char>, Seq<char>)>
    decreases ms.len(),
{
    if ms.len() == 0 {
        list
    } else {
        add_names(add_mappings(list, ms.drop_last()), seq![ms.last().0], database_label(ms.last().2))
    }
}

/// What the caller of a candidate search is to do next.
pub enum SearchAction {
    /// Ask source `i` to search for the query, then hand back the names.
    AskSource(usize),
    /// Search the local database for the query, then hand the mappings found
    /// to [`CandidateSearch::answer_database`].
    AskDatabase,
    /// Run fallback searcher `i` for the query, then hand back the name it
    /// found (as a list of at most one).
    RunFallback(usize),
    /// The search is over: the candidates, in order of source priority.
    Finished(Vec<ResolveCandidate>),
    /// The search failed.
    Failed(Error),
}

/// A search action with its candidates as pairs.
pub enum SearchStep {
    Ask(LookupStage),
    Finished(Seq<(Seq<char>, Seq<char>)>),
    Failed(Error),
}

pub open spec fn search_step_of(a: SearchAction) -> SearchStep {
    match a {
        SearchAction::AskSource(i) => SearchStep::Ask(LookupStage::Source(i)),
        SearchAction::AskDatabase => SearchStep::Ask(LookupStage::Database),
        SearchAction::RunFallback(i) => SearchStep::Ask(LookupStage::Fallback(i)),
        SearchAction::Finished(c) => SearchStep::Finished(cand_views(c@)),
        SearchAction::Failed(e) => SearchStep::Failed(e),
    }
}

/// The search for candidates for a query, one answer at a time: every
/// source in order, then the local database, then (for queries longer than
/// three characters) every fallback searcher in order, and last the query
/// itself as identity. A name is listed once, under the first source that
/// gave it; an error from any of them ends the search.
pub struct CandidateSearch {
    query: String,
    sources: usize,
    fallbacks: Vec<String>,
    stage: LookupStage,
    found: Vec<ResolveCandidate>,
}

/// A candidate search, with its strings as sequences.
pub struct CandidateSearchView {
    pub query: Seq<char>,
    pub sources: nat,
    pub fallbacks: Seq<Seq<char>>,
    pub stage: LookupStage,
    pub found: Seq<(Seq<char>, Seq<char>)>,
}

impl View for CandidateSearch {
    type V = CandidateSearchView;

    closed spec fn view(&self) -> CandidateSearchView {
        CandidateSearchView {
            query: self.query@,
            sources: self.sources as nat,
            fallbacks: views(self.fallbacks@),
            stage: self.stage,
            found: cand_views(self.found@),
        }
    }
}

/// The search after moving on to `stage`, and what it asks for there:
/// sources past the last lead to the database; fallback searchers past the
/// last, or any for a short query, end the search with the query added as
/// identity.
pub open spec fn search_enter(l: CandidateSearchView, stage: LookupStage) -> (
    CandidateSearchView,
    SearchStep,
) {
    match stage {
        LookupStage::Source(i) => if i < l.sources {
            (CandidateSearchView { stage: LookupStage::Source(i), ..l }, SearchStep::Ask(stage))
        } else {
            (
                CandidateSearchView { stage: LookupStage::Database, ..l },
                SearchStep::Ask(LookupStage::Database),
            )
        },
        LookupStage::Database => (
            CandidateSearchView { stage: LookupStage::Database, ..l },
            SearchStep::Ask(LookupStage::Database),
        ),
        LookupStage::Fallback(j) => if !is_short_query(l.query) && j < l.fallbacks.len() {
            (CandidateSearchView { stage: stage, ..l }, SearchStep::Ask(stage))
        } else {
            let f = add_names(l.found, seq![l.query], "identity"@);
            (
                CandidateSearchView { stage: LookupStage::Done, found: f, ..l },
                SearchStep::Finished(f),
            )
        },
        LookupStage::Done => (
            CandidateSearchView { stage: LookupStage::Done, ..l },
            SearchStep::Finished(l.found),
        ),
    }
}

/// The label of names found by a source or a fallback searcher at the
/// search's current stage (database mappings are labelled by their
/// confidence, see [`add_mappings`]).
pub open spec fn search_label(l: CandidateSearchView) -> Seq<char> {
    match l.stage {
        LookupStage::Source(_) => "repology"@,
        LookupStage::Database => Seq::empty(),
        LookupStage::Fallback(j) => "fallback search ("@ + l.fallbacks[j as int] + ")"@,
        LookupStage::Done => Seq::empty(),
    }
}

/// The search waits for an answer.
pub open spec fn search_awaiting(l: CandidateSearchView) -> bool {
    match l.stage {
        LookupStage::Source(i) => i < l.sources,
        LookupStage::Database => true,
        LookupStage::Fallback(j) => j < l.fallbacks.len() && !is_short_query(l.query),
        LookupStage::Done => false,
    }
}

/// The names of an answer, as sequences.
pub open spec fn names_view(a: Result<Vec<String>, Error>) -> Result<Seq<Seq<char>>, Error> {
    match a {
        Ok(v) => Ok(views(v@)),
        Err(e) => Err(e),
    }
}

/// The search and its step after the database answered with its mappings.
pub open spec fn after_search_database(l: CandidateSearchView, ms: Seq<(Seq<char>, Seq<char>, u8)>) -> (
    CandidateSearchView,
    SearchStep,
) {
    search_enter(
        CandidateSearchView { found: add_mappings(l.found, ms), ..l },
        LookupStage::Fallback(0),
    )
}

/// The search and its step after an answer.
pub open spec fn after_search(l: CandidateSearchView, a: Result<Seq<Seq<char>>, Error>) -> (
    CandidateSearchView,
    SearchStep,
) {
    match a {
        Err(e) => (CandidateSearchView { stage: LookupStage::Done, ..l }, SearchStep::Failed(e)),
        Ok(names) => search_enter(
            CandidateSearchView { found: add_names(l.found, names, search_label(l)), ..l },
            next_stage(l.stage),
        ),
    }
}

/// Adding names keeps the names distinct, and every added name is then
/// listed.
pub proof fn lemma_add_names(
    list: Seq<(Seq<char>, Seq<char>)>,
    names: Seq<Seq<char>>,
    label: Seq<char>,
)
    requires
        distinct_names(list),
    ensures
        distinct_names(add_names(list, names, label)),
        forall|k: int| 0 <= k < names.len() ==> has_name(add_names(list, names, label), #[trigger] names[k]),
        forall|n: Seq<char>| has_name(list, n) ==> has_name(add_names(list, names, label), n),
    decreases names.len(),
{
    if names.len() > 0 {
        let prev = add_names(list, names.drop_last(), label);
        lemma_add_names(list, names.drop_last(), label);
        let r = add_names(list, names, label);
        if !has_name(prev, names.last()) {
            assert(r == prev.push((names.last(), label)));
            assert forall|n: Seq<char>| has_name(prev, n) implies has_name(r, n) by {
                let i = choose|i: int| 0 <= i < prev.len() && #[trigger] prev[i].0 == n;
                assert(r[i] == prev[i]);
            }
            assert(r[prev.len() as int].0 == names.last());
        }
        assert forall|k: int| 0 <= k < names.len() implies has_name(r, #[trigger] names[k]) by {
            if k < names.len() - 1 {
                assert(names.drop_last()[k] == names[k]);
            }
        }
    }
}

/// Adds the names to the list under `label`, skipping names already listed.
fn add_names_exec(found: &mut Vec<ResolveCandidate>, names: Vec<String>, label: &String)
    ensures
        cand_views(final(found)@) == add_names(cand_views(old(found)@), views(names@), label@),
{
    let ghost start = cand_views(found@);
    let mut i: usize = 0;
    while i < names.len()
        invariant
            i <= names.len(),
            cand_views(found@) == add_names(start, views(names@).take(i as int), label@),
        decreases names.len() - i,
    {
        let ghost prev = cand_views(found@);
        proof {
            let n = views(names@).take(i + 1);
            assert(n.drop_last() =~= views(names@).take(i as int));
            assert(n.last() == names@[i as int]@);
        }
        let mut seen = false;
        let mut k: usize = 0;
        while k < found.len()
            invariant
                k <= found.len(),
                i < names.len(),
                prev == cand_views(found@),
                seen == (exists|m: int| 0 <= m < k && #[trigger] prev[m].0 == names@[i as int]@),
            decreases found.len() - k,
        {
            assert(prev[k as int].0 == found@[k as int].name@);
            if found[k].name == names[i] {
                seen = true;
            }
            k = k + 1;
        }
        if !seen {
            let ghost before = found@;
            found.push(ResolveCandidate { name: names[i].clone(), source: label.clone() });
            assert(cand_views(found@) =~= cand_views(before).push((names@[i as int]@, label@)));
        }
        i = i + 1;
    }
    assert(views(names@).take(names.len() as int) =~= views(names@));
}

/// A copy of the candidates.
fn copy_candidates(c: &Vec<ResolveCandidate>) -> (r: Vec<ResolveCandidate>)
    ensures
        cand_views(r@) == cand_views(c@),
{
    let mut r: Vec<ResolveCandidate> = Vec::new();
    let mut i: usize = 0;
    while i < c.len()
        invariant
            i <= c.len(),
            cand_views(r@) == cand_views(c@).take(i as int),
        decreases c.len() - i,
    {
        let ghost before = r@;
        let x = ResolveCandidate { name: c[i].name.clone(), source: c[i].source.clone() };
        assert(x.name@ == c@[i as int].name@ && x.source@ == c@[i as int].source@);
        r.push(x);
        assert(cand_views(r@) =~= cand_views(before).push((x.name@, x.source@)));
        assert(cand_views(r@) =~= cand_views(c@).take(i + 1));
        i = i + 1;
    }
    assert(cand_views(c@).take(c.len() as int) =~= cand_views(c@));
    r
}

impl CandidateSearch {
    /// Moves on to `stage` and says what to do there.
    fn enter_exec(&mut self, stage: LookupStage) -> (r: SearchAction)
        requires
            match stage {
                LookupStage::Source(i) => i <= old(self)@.sources,
                LookupStage::Fallback(j) => j <= old(self)@.fallbacks.len(),
                _ => true,
            },
        ensures
            (final(self)@, search_step_of(r)) == search_enter(old(self)@, stage),
    {
        match stage {
            LookupStage::Source(i) => {
                if i < self.sources {
                    self.stage = LookupStage::Source(i);
                    SearchAction::AskSource(i)
                } else {
                    self.stage = LookupStage::Database;
                    SearchAction::AskDatabase
                }
            },
            LookupStage::Database => {
                self.stage = LookupStage::Database;
                SearchAction::AskDatabase
            },
            LookupStage::Fallback(j) => {
                if !short_query(self.query.as_str()) && j < self.fallbacks.len() {
                    self.stage = LookupStage::Fallback(j);
                    SearchAction::RunFallback(j)
                } else {
                    let mut q: Vec<String> = Vec::new();
                    q.push(self.query.clone());
                    assert(views(q@) =~= seq![self.query@]);
                    let label = String::from_str("identity");
                    add_names_exec(&mut self.found, q, &label);
                    self.stage = LookupStage::Done;
                    SearchAction::Finished(copy_candidates(&self.found))
                }
            },
            LookupStage::Done => {
                self.stage = LookupStage::Done;
                SearchAction::Finished(copy_candidates(&self.found))
            },
        }
    }

    /// Starts the search for candidates for `query`, with `sources` network
    /// sources to ask and the fallback searchers of the managers in
    /// `fallbacks` (in the order to try them).
    pub fn start(query: &str, sources: usize, fallbacks: Vec<String>) -> (r: (
        CandidateSearch,
        SearchAction,
    ))
        ensures
            (r.0@, search_step_of(r.1)) == search_enter(
                CandidateSearchView {
                    query: query@,
                    sources: sources as nat,
                    fallbacks: views(fallbacks@),
                    stage: LookupStage::Source(0),
                    found: Seq::empty(),
                },
                LookupStage::Source(0),
            ),
    {
        let mut l = CandidateSearch {
            query: String::from_str(query),
            sources,
            fallbacks,
            stage: LookupStage::Source(0),
            found: Vec::new(),
        };
        assert(cand_views(l.found@) =~= Seq::<(Seq<char>, Seq<char>)>::empty());
        let act = l.enter_exec(LookupStage::Source(0));
        (l, act)
    }

    /// Hands in the mappings that the database search found and says what
    /// to do next.
    pub fn answer_database(&mut self, found: Vec<Mapping>) -> (r: SearchAction)
        requires
            old(self)@.stage is Database,
        ensures
            (final(self)@, search_step_of(r)) == after_search_database(
                old(self)@,
                found@.map_values(|m: Mapping| mapping_view(m)),
            ),
    {
        let ghost ms = found@.map_values(|m: Mapping| mapping_view(m));
        let ghost start = cand_views(self.found@);
        let mut i: usize = 0;
        while i < found.len()
            invariant
                i <= found.len(),
                ms == found@.map_values(|m: Mapping| mapping_view(m)),
                cand_views(self.found@) == add_mappings(start, ms.take(i as int)),
                self.stage == old(self).stage,
                self.query == old(self).query,
                self.sources == old(self).sources,
                self.fallbacks == old(self).fallbacks,
            decreases found.len() - i,
        {
            proof {
                let n = ms.take(i + 1);
                assert(n.drop_last() =~= ms.take(i as int));
                assert(n.last() == mapping_view(found@[i as int]));
            }
            let mut one: Vec<String> = Vec::new();
            one.push(found[i].os_package.clone());
            assert(views(one@) =~= seq![found@[i as int].os_package@]);
            let label = database_label_exec(found[i].confidence_tenths);
            add_names_exec(&mut self.found, one, &label);
            i = i + 1;
        }
        assert(ms.take(found.len() as int) =~= ms);
        self.enter_exec(LookupStage::Fallback(0))
    }

    /// Hands in the names found by what the search asked for last (or the
    /// error it met) and says what to do next.
    pub fn answer(&mut self, answer: Result<Vec<String>, Error>) -> (r: SearchAction)
        requires
            search_awaiting(old(self)@),
            !(old(self)@.stage is Database),
        ensures
            (final(self)@, search_step_of(r)) == after_search(old(self)@, names_view(answer)),
    {
        assert(views(self.fallbacks@).len() == self.fallbacks@.len());
        match answer {
            Err(e) => {
                self.stage = LookupStage::Done;
                SearchAction::Failed(e)
            },
            Ok(names) => {
                let label = match self.stage {
                    LookupStage::Source(_) => String::from_str("repology"),
                    LookupStage::Fallback(j) => concat3(
                        "fallback search (",
                        self.fallbacks[j].as_str(),
                        ")",
                    ),
                    _ => String::new(),
                };
                add_names_exec(&mut self.found, names, &label);
                let n_fallbacks = self.fallbacks.len();
                let next = match self.stage {
                    LookupStage::Source(i) => LookupStage::Source(i + 1),
                    LookupStage::Database => LookupStage::Fallback(0),
                    LookupStage::Fallback(j) => {
                        assert(j < n_fallbacks);
                        LookupStage::Fallback(j + 1)
                    },
                    LookupStage::Done => LookupStage::Done,
                };
                self.enter_exec(next)
            },
        }
    }
}

/// Adding database mappings keeps the names distinct and keeps every name
/// that was listed.
pub proof fn lemma_add_mappings(
    list: Seq<(Seq<char>, Seq<char>)>,
    ms: Seq<(Seq<char>, Seq<char>, u8)>,
)
    requires
        distinct_names(list),
    ensures
        distinct_names(add_mappings(list, ms)),
        forall|n: Seq<char>| has_name(list, n) ==> has_name(add_mappings(list, ms), n),
    decreases ms.len(),
{
    if ms.len() > 0 {
        lemma_add_mappings(list, ms.drop_last());
        lemma_add_names(
            add_mappings(list, ms.drop_last()),
            seq![ms.last().0],
            database_label(ms.last().2),
        );
    }
}

/// Whatever the database answers, the search keeps every name once, and a
/// finished search lists the query.
pub proof fn lemma_search_database(l: CandidateSearchView, ms: Seq<(Seq<char>, Seq<char>, u8)>)
    requires
        distinct_names(l.found),
    ensures
        distinct_names(after_search_database(l, ms).0.found),
        after_search_database(l, ms).1 matches SearchStep::Finished(f) ==> has_name(f, l.query)
            && distinct_names(f) && f == after_search_database(l, ms).0.found,
{
    let f1 = add_mappings(l.found, ms);
    lemma_add_mappings(l.found, ms);
    lemma_add_names(f1, seq![l.query], "identity"@);
    assert(seq![l.query][0] == l.query);
}

/// Whatever the sources answer, a finished search lists every name once,
/// and lists the query: the candidates that a search keeps have distinct
/// names, and the list it finishes with holds the query.
pub proof fn lemma_search_candidates(l: CandidateSearchView, a: Result<Seq<Seq<char>>, Error>)
    requires
        search_awaiting(l),
        distinct_names(l.found),
    ensures
        distinct_names(after_search(l, a).0.found),
        after_search(l, a).1 matches SearchStep::Finished(f) ==> has_name(f, l.query)
            && distinct_names(f) && f == after_search(l, a).0.found,
{
    match a {
        Err(_) => {},
        Ok(names) => {
            let f1 = add_names(l.found, names, search_label(l));
            lemma_add_names(l.found, names, search_label(l));
            lemma_add_names(f1, seq![l.query], "identity"@);
            assert(seq![l.query][0] == l.query);
        },
    }
}

/// The message of the error for a package that nothing resolved, with the
/// suggestions for it.
pub open spec fn unresolved_message(package: Seq<char>, suggestions: Seq<Seq<char>>) -> Seq<char> {
    let head = "no confident match for '"@ + package + "'. "@;
    let tail = "Re-run with --allow-identity to install the exact input"@;
    if suggestions.len() == 0 {
        head + tail
    } else {
        head + "Did you mean: "@ + join(suggestions, seq![',', ' ']) + "? "@ + tail
    }
}

/// The error for a package that nothing resolved while identity was not
/// allowed: it names the package, offers the suggestions (see
/// [`best_suggestions`]) when there are any, and points to
/// `--allow-identity`.
pub fn unresolved_error(package: &str, suggestions: &Vec<String>) -> (r: Error)
    ensures
        r matches Error::Resolve(m) && m@ == unresolved_message(package@, views(suggestions@)),
{
    let mut m = String::from_str("no confident match for '");
    m.append(package);
    m.append("'. ");
    if suggestions.len() > 0 {
        m.append("Did you mean: ");
        let sep = vec![',', ' '];
        assert(sep@ =~= seq![',', ' ']);
        let joined = string_from(&join_exec(suggestions, &sep));
        m.append(joined.as_str());
        m.append("? ");
    }
    m.append("Re-run with --allow-identity to install the exact input");
    Error::Resolve(m)
}

/// The error for an OS that no platform config covers; the OS is named as
/// `os_info` spells it.
pub fn unsupported_os_error(os_type: &OsType) -> (r: Error)
    ensures
        r matches Error::UnsupportedOs(m) && m@ == os_name(*os_type),
{
    Error::UnsupportedOs(String::from_str(os_type.name()))
}

/// The first of the install commands, or the error that there is none for
/// the OS.
pub fn first_command(commands: Vec<Command>, os_type: &OsType) -> (r: Result<Command, Error>)
    ensures
        commands.len() > 0 ==> (r matches Ok(c) && c == commands@[0]),
        commands.len() == 0 ==> (r matches Err(Error::Resolve(m)) && m@
            == "no install command available for "@ + os_name(*os_type)),
{
    let mut commands = commands;
    if commands.len() > 0 {
        Ok(commands.remove(0))
    } else {
        let mut m = String::from_str("no install command available for ");
        m.append(os_type.name());
        Err(Error::Resolve(m))
    }
}

/// The configs whose availability is `want`, in order.
pub open spec fn with_availability(
    configs: Seq<PlatformConfig>,
    available: Seq<bool>,
    want: bool,
) -> Seq<PlatformConfig>
    decreases configs.len(),
{
    if configs.len() == 0 || available.len() == 0 {
        Seq::empty()
    } else {
        let prev = with_availability(configs.drop_last(), available.drop_last(), want);
        if available.last() == want {
            prev.push(configs.last())
        } else {
            prev
        }
    }
}

/// The configs with the available ones first, each group in its order (a
/// stable sort on "not available").
pub open spec fn available_first_spec(configs: Seq<PlatformConfig>, available: Seq<bool>) -> Seq<
    PlatformConfig,
> {
    with_availability(configs, available, true) + with_availability(configs, available, false)
}

/// Orders the configs of an OS so that the package managers that are
/// available come first, keeping the order within each group;
/// `available[i]` says whether the manager of `configs[i]` is.
pub fn available_first<'a>(configs: Vec<&'a PlatformConfig>, available: &Vec<bool>) -> (r: Vec<
    &'a PlatformConfig,
>)
    requires
        available.len() == configs.len(),
    ensures
        r@.map_values(|c: &PlatformConfig| *c) == available_first_spec(
            configs@.map_values(|c: &PlatformConfig| *c),
            available@,
        ),
{
    let ghost cs = configs@.map_values(|c: &PlatformConfig| *c);
    let mut yes: Vec<&PlatformConfig> = Vec::new();
    let mut no: Vec<&PlatformConfig> = Vec::new();
    let mut i: usize = 0;
    while i < configs.len()
        invariant
            i <= configs.len(),
            available.len() == configs.len(),
            cs == configs@.map_values(|c: &PlatformConfig| *c),
            yes@.map_values(|c: &PlatformConfig| *c) == with_availability(
                cs.take(i as int),
                available@.take(i as int),
                true,
            ),
            no@.map_values(|c: &PlatformConfig| *c) == with_availability(
                cs.take(i as int),
                available@.take(i as int),
                false,
            ),
        decreases configs.len() - i,
    {
        proof {
            let c2 = cs.take(i + 1);
            let a2 = available@.take(i + 1);
            assert(c2.drop_last() =~= cs.take(i as int));
            assert(a2.drop_last() =~= available@.take(i as int));
            assert(c2.last() == *configs@[i as int]);
            assert(a2.last() == available@[i as int]);
        }
        if available[i] {
            let ghost before = yes@;
            yes.push(configs[i]);
            assert(yes@.map_values(|c: &PlatformConfig| *c) =~= before.map_values(
                |c: &PlatformConfig| *c,
            ).push(*configs@[i as int]));
        } else {
            let ghost before = no@;
            no.push(configs[i]);
            assert(no@.map_values(|c: &PlatformConfig| *c) =~= before.map_values(
                |c: &PlatformConfig| *c,
            ).push(*configs@[i as int]));
        }
        i = i + 1;
    }
    assert(cs.take(configs.len() as int) =~= cs);
    assert(available@.take(configs.len() as int) =~= available@);
    let ghost y = yes@;
    let ghost n = no@;
    let mut k: usize = 0;
    while k < no.len()
        invariant
            k <= no.len(),
            no@ == n,
            yes@ == y + n.take(k as int),
        decreases no.len() - k,
    {
        yes.push(no[k]);
        assert(yes@ =~= y + n.take(k + 1));
        k = k + 1;
    }
    assert(n.take(no.len() as int) =~= n);
    assert(yes@.map_values(|c: &PlatformConfig| *c) =~= y.map_values(|c: &PlatformConfig| *c)
        + n.map_values(|c: &PlatformConfig| *c));
    yes
}

/// The install commands for `package` under each config, in order; `None`
/// when a config asks for sudo and its install line has no words (there is
/// no program to run).
pub fn install_commands(configs: &Vec<&PlatformConfig>, package: &str) -> (r: Option<Vec<Command>>)
    ensures
        r is None <==> exists|i: int|
            0 <= i < configs.len() && #[trigger] configs@[i].sudo && install_words(
                *configs@[i],
                package@,
            ).len() == 0,
        r matches Some(v) ==> v.len() == configs.len() && forall|i: int|
            0 <= i < v.len() ==> (#[trigger] v@[i]).program@ == command_for(
                *configs@[i],
                package@,
            ).0 && views(v@[i].args@) == command_for(*configs@[i], package@).1,
{
    let mut out: Vec<Command> = Vec::new();
    let mut i: usize = 0;
    while i < configs.len()
        invariant
            i <= configs.len(),
            out.len() == i,
            forall|k: int|
                0 <= k < i ==> !(#[trigger] configs@[k].sudo && install_words(
                    *configs@[k],
                    package@,
                ).len() == 0),
            forall|k: int|
                0 <= k < i ==> (#[trigger] out@[k]).program@ == command_for(
                    *configs@[k],
                    package@,
                ).0 && views(out@[k].args@) == command_for(*configs@[k], package@).1,
        decreases configs.len() - i,
    {
        match Command::try_from_config(configs[i], package) {
            Some(c) => out.push(c),
            None => {
                return None;
            },
        }
        i = i + 1;
    }
    Some(out)
}

/// An alias settles a lookup at once, whatever the sources would say.
pub proof fn lemma_alias_first(l: LookupView)
    ensures
        alias_of(l.package) matches Some(a) ==> start_step(l) == (
            LookupStage::Done,
            Step::Resolved(a, "alias"@),
        ),
{
}

/// The first source that gives a name settles the lookup with it, labelled
/// by where it was found; an error from any source ends the lookup with that
/// error.
pub proof fn lemma_first_answer_wins(
    l: LookupView,
    n: Seq<char>,
    e: Error,
    m: (Seq<char>, Seq<char>, u8),
)
    ensures
        after_answer(l, Ok(Some(n))) == (LookupStage::Done, Step::Resolved(n, found_label(l))),
        after_answer(l, Err(e)) == (LookupStage::Done, Step::Failed(e)),
        after_database(l, Some(m)) == (LookupStage::Done, Step::Resolved(m.0, database_label(m.2))),
{
}

/// The query itself is taken as the package name only when identity is
/// allowed, and only after every other source came up empty; when it is
/// not allowed, the lookup ends with suggestions instead.
pub proof fn lemma_identity_only_when_allowed(
    l: LookupView,
    a: Result<Option<Seq<char>>, Error>,
    m: Option<(Seq<char>, Seq<char>, u8)>,
)
    requires
        awaiting(l),
    ensures
        after_database(l, m).1 matches Step::Resolved(n, src) ==> (src == "identity"@ ==> m is None
            && l.allow_identity && n == l.package),
        after_database(l, m).1 is Suggest ==> m is None && !l.allow_identity,
        after_answer(l, a).1 matches Step::Resolved(n, src) ==> (src == "identity"@ ==> a == Ok::<Option<Seq<char>>, Error>(None)
            && l.allow_identity && n == l.package),
        after_answer(l, a).1 is Suggest ==> a == Ok::<Option<Seq<char>>, Error>(None)
            && !l.allow_identity,
        start_step(l).1 matches Step::Resolved(n, src) ==> (src == "identity"@ ==> l.allow_identity
            && n == l.package),
        start_step(l).1 is Suggest ==> !l.allow_identity,
{
    reveal_strlit("identity");
    reveal_strlit("repology");
    reveal_strlit("database (confidence=");
    reveal_strlit("alias");
    match m {
        Some(x) => {
            assert(database_label(x.2).len() >= 21);
            assert(database_label(x.2) != "identity"@);
        },
        None => {},
    }
    reveal_strlit("fallback search (");
    reveal_strlit(")");
    match l.stage {
        LookupStage::Fallback(j) => {
            let lab = "fallback search ("@ + l.fallbacks[j as int] + ")"@;
            assert(lab.len() >= 17);
            assert(lab != "identity"@);
        },
        LookupStage::Source(_) => {
            assert("repology"@[0] != "identity"@[0]);
        },
        _ => {},
    }
    assert("alias"@.len() != "identity"@.len());
}

/// A source or fallback searcher that finds nothing hands the lookup on to
/// the next one in order: the next source, after the last source the
/// database, the next fallback searcher, and only after the last fallback
/// searcher identity (when allowed) or suggestions.
pub proof fn lemma_miss_asks_next(l: LookupView)
    requires
        awaiting(l),
        l.sources <= usize::MAX,
        l.fallbacks.len() <= usize::MAX,
        !(l.stage is Database),
    ensures
        l.stage matches LookupStage::Source(i) ==> after_answer(l, Ok(None)) == (if i + 1 < l.sources {
            (
                LookupStage::Source((i + 1) as usize),
                Step::Ask(LookupStage::Source((i + 1) as usize)),
            )
        } else {
            (LookupStage::Database, Step::Ask(LookupStage::Database))
        }),
        l.stage matches LookupStage::Fallback(j) ==> after_answer(l, Ok(None)) == (if j + 1
            < l.fallbacks.len() {
            (
                LookupStage::Fallback((j + 1) as usize),
                Step::Ask(LookupStage::Fallback((j + 1) as usize)),
            )
        } else if l.allow_identity {
            (LookupStage::Done, Step::Resolved(l.package, "identity"@))
        } else {
            (LookupStage::Done, Step::Suggest)
        }),
{
}

/// A database that maps nothing hands the lookup to the first fallback
/// searcher (for a query longer than three characters, when there is one),
/// else to identity when allowed, else to suggestions.
pub proof fn lemma_database_miss(l: LookupView)
    ensures
        after_database(l, None) == (if !is_short_query(l.package) && 0 < l.fallbacks.len() {
            (LookupStage::Fallback(0), Step::Ask(LookupStage::Fallback(0)))
        } else if l.allow_identity {
            (LookupStage::Done, Step::Resolved(l.package, "identity"@))
        } else {
            (LookupStage::Done, Step::Suggest)
        }),
{
}

/// A lookup gives up (identity or suggestions) after an empty answer only
/// when that answer came from the last fallback searcher: every fallback
/// searcher was asked before.
pub proof fn lemma_gives_up_after_last_fallback(l: LookupView, a: Result<Option<Seq<char>>, Error>)
    requires
        awaiting(l),
        !(l.stage is Database),
    ensures
        (after_answer(l, a).1 is Suggest || after_answer(l, a).1 == Step::Resolved(
            l.package,
            "identity"@,
        ) && a == Ok::<Option<Seq<char>>, Error>(None)) ==> (l.stage matches LookupStage::Fallback(
            j,
        ) && j + 1 == l.fallbacks.len()),
{
}

/// A candidate search hands every answer on to the next source or fallback
/// searcher in order, keeping the names found so far and adding the new ones
/// under the label of the one that gave them; only after the last fallback
/// searcher does it finish, with the query added as identity.
pub proof fn lemma_search_asks_next(l: CandidateSearchView, names: Seq<Seq<char>>)
    requires
        search_awaiting(l),
        l.sources <= usize::MAX,
        l.fallbacks.len() <= usize::MAX,
        !(l.stage is Database),
    ensures
        l.stage matches LookupStage::Source(i) ==> after_search(l, Ok(names)) == (if i + 1
            < l.sources {
            (
                CandidateSearchView {
                    stage: LookupStage::Source((i + 1) as usize),
                    found: add_names(l.found, names, "repology"@),
                    ..l
                },
                SearchStep::Ask(LookupStage::Source((i + 1) as usize)),
            )
        } else {
            (
                CandidateSearchView {
                    stage: LookupStage::Database,
                    found: add_names(l.found, names, "repology"@),
                    ..l
                },
                SearchStep::Ask(LookupStage::Database),
            )
        }),
        l.stage matches LookupStage::Fallback(j) ==> after_search(l, Ok(names)) == (if j + 1
            < l.fallbacks.len() {
            (
                CandidateSearchView {
                    stage: LookupStage::Fallback((j + 1) as usize),
                    found: add_names(l.found, names, "fallback search ("@ + l.fallbacks[j as int] + ")"@),
                    ..l
                },
                SearchStep::Ask(LookupStage::Fallback((j + 1) as usize)),
            )
        } else {
            (
                CandidateSearchView {
                    stage: LookupStage::Done,
                    found: add_names(
                        add_names(l.found, names, "fallback search ("@ + l.fallbacks[j as int] + ")"@),
                        seq![l.query],
                        "identity"@,
                    ),
                    ..l
                },
                SearchStep::Finished(
                    add_names(
                        add_names(l.found, names, "fallback search ("@ + l.fallbacks[j as int] + ")"@),
                        seq![l.query],
                        "identity"@,
                    ),
                ),
            )
        }),
{
}

/// A candidate search finishes after an answer only when that answer came
/// from the last fallback searcher: every fallback searcher was consulted.
pub proof fn lemma_search_finishes_after_last_fallback(
    l: CandidateSearchView,
    a: Result<Seq<Seq<char>>, Error>,
)
    requires
        search_awaiting(l),
        !(l.stage is Database),
    ensures
        after_search(l, a).1 is Finished ==> (l.stage matches LookupStage::Fallback(j) && j + 1
            == l.fallbacks.len()),
{
}

/// A query of three characters or fewer never goes to a fallback searcher.
pub proof fn lemma_short_query_no_fallback(
    l: LookupView,
    a: Result<Option<Seq<char>>, Error>,
    m: Option<(Seq<char>, Seq<char>, u8)>,
)
    requires
        is_short_query(l.package),
    ensures
        !(after_database(l, m).1 matches Step::Ask(LookupStage::Fallback(_))),
        !(after_answer(l, a).1 matches Step::Ask(LookupStage::Fallback(_))),
        !(start_step(l).1 matches Step::Ask(LookupStage::Fallback(_))),
{
}


/// Names sorted by decreasing key.
pub open spec fn desc_sorted(s: Seq<Seq<char>>, table: Seq<ScoredName>) -> bool {
    forall|i: int, j: int|
        0 <= i < j < s.len() ==> key_of(table, #[trigger] s[i]) >= key_of(table, #[trigger] s[j])
}

proof fn lemma_desc_pos_facts(s: Seq<Seq<char>>, k: i64, table: Seq<ScoredName>)
    ensures
        0 <= desc_pos(s, k, table) <= s.len(),
        forall|m: int| 0 <= m < desc_pos(s, k, table) ==> key_of(table, #[trigger] s[m]) >= k,
        desc_pos(s, k, table) < s.len() ==> key_of(table, s[desc_pos(s, k, table)]) < k,
    decreases s.len(),
{
    if s.len() > 0 && key_of(table, s[0]) >= k {
        let t = s.drop_first();
        lemma_desc_pos_facts(t, k, table);
        assert forall|m: int| 0 <= m < desc_pos(s, k, table) implies key_of(
            table,
            #[trigger] s[m],
        ) >= k by {
            if m > 0 {
                assert(s[m] == t[m - 1]);
            }
        }
    }
}

/// Sorting by key gives the same names, best first.
pub proof fn lemma_sort_by_key(s: Seq<Seq<char>>, table: Seq<ScoredName>)
    ensures
        desc_sorted(sort_by_key(s, table), table),
        sort_by_key(s, table).to_multiset() == s.to_multiset(),
    decreases s.len(),
{
    broadcast use vstd::seq_lib::to_multiset_insert, vstd::seq_lib::to_multiset_build;

    if s.len() > 0 {
        let t = sort_by_key(s.drop_last(), table);
        let x = s.last();
        let k = key_of(table, x);
        lemma_sort_by_key(s.drop_last(), table);
        lemma_desc_pos_facts(t, k, table);
        let p = desc_pos(t, k, table);
        let u = t.insert(p, x);
        assert forall|i: int, j: int| 0 <= i < j < u.len() implies key_of(table, #[trigger] u[i])
            >= key_of(table, #[trigger] u[j]) by {
            if j < p {
                assert(u[i] == t[i] && u[j] == t[j]);
            } else if j == p {
                assert(u[i] == t[i]);
            } else if i == p {
                assert(u[j] == t[j - 1]);
                assert(key_of(table, t[p]) >= key_of(table, t[j - 1]) || j - 1 == p);
            } else if i < p {
                assert(u[i] == t[i] && u[j] == t[j - 1]);
            } else {
                assert(u[i] == t[i - 1] && u[j] == t[j - 1]);
            }
        }
        assert(s =~= s.drop_last().push(x));
        assert(u.to_multiset() == t.to_multiset().insert(x));
        assert(s.drop_last().push(x).to_multiset() == s.drop_last().to_multiset().insert(x));
        assert(sort_by_key(s, table) == u);
    } else {
        assert(sort_by_key(s, table) =~= Seq::<Seq<char>>::empty());
        assert(s =~= Seq::<Seq<char>>::empty());
    }
}

/// Keeping the confident names keeps the order and drops the others.
pub proof fn lemma_confident_names(s: Seq<Seq<char>>, table: Seq<ScoredName>)
    ensures
        forall|i: int|
            0 <= i < confident_names(s, table).len() ==> s.contains(
                #[trigger] confident_names(s, table)[i],
            ) && key_of(table, confident_names(s, table)[i]) >= CONFIDENT_SCORE_KEY,
        desc_sorted(s, table) ==> desc_sorted(confident_names(s, table), table),
    decreases s.len(),
{
    if s.len() > 0 {
        let prev = confident_names(s.drop_last(), table);
        lemma_confident_names(s.drop_last(), table);
        let r = confident_names(s, table);
        assert forall|i: int| 0 <= i < r.len() implies s.contains(#[trigger] r[i]) && key_of(
            table,
            r[i],
        ) >= CONFIDENT_SCORE_KEY by {
            if i < prev.len() {
                assert(r[i] == prev[i]);
                let m = choose|m: int| 0 <= m < s.drop_last().len() && s.drop_last()[m] == prev[i];
                assert(s[m] == prev[i]);
            } else {
                assert(s[s.len() - 1] == r[i]);
            }
        }
        if desc_sorted(s, table) {
            assert(desc_sorted(s.drop_last(), table)) by {
                assert forall|i: int, j: int| 0 <= i < j < s.drop_last().len() implies key_of(
                    table,
                    #[trigger] s.drop_last()[i],
                ) >= key_of(table, #[trigger] s.drop_last()[j]) by {
                    assert(s.drop_last()[i] == s[i] && s.drop_last()[j] == s[j]);
                }
            }
            assert forall|i: int, j: int| 0 <= i < j < r.len() implies key_of(
                table,
                #[trigger] r[i],
            ) >= key_of(table, #[trigger] r[j]) by {
                if j < prev.len() {
                    assert(r[i] == prev[i] && r[j] == prev[j]);
                } else {
                    assert(r[i] == prev[i]);
                    assert(r[j] == s.last());
                    let m = choose|m: int| 0 <= m < s.drop_last().len() && s.drop_last()[m] == prev[i];
                    assert(s[m] == prev[i]);
                    assert(key_of(table, s[m]) >= key_of(table, s[s.len() - 1]));
                }
            }
        }
    }
}

/// The distinct prefix holds at most `limit` names, no name twice, each a
/// name of `s`, and keeps the order of a sorted `s`.
pub proof fn lemma_distinct_prefix(s: Seq<Seq<char>>, limit: nat, table: Seq<ScoredName>)
    ensures
        distinct_prefix(s, limit).len() <= limit,
        distinct_prefix(s, limit).no_duplicates(),
        forall|i: int|
            0 <= i < distinct_prefix(s, limit).len() ==> s.contains(
                #[trigger] distinct_prefix(s, limit)[i],
            ),
        desc_sorted(s, table) ==> desc_sorted(distinct_prefix(s, limit), table),
    decreases s.len(),
{
    if s.len() > 0 {
        let prev = distinct_prefix(s.drop_last(), limit);
        lemma_distinct_prefix(s.drop_last(), limit, table);
        let r = distinct_prefix(s, limit);
        assert forall|i: int| 0 <= i < r.len() implies s.contains(#[trigger] r[i]) by {
            if i < prev.len() {
                assert(r[i] == prev[i]);
                let m = choose|m: int| 0 <= m < s.drop_last().len() && s.drop_last()[m] == prev[i];
                assert(s[m] == prev[i]);
            } else {
                assert(s[s.len() - 1] == r[i]);
            }
        }
        if !(prev.len() >= limit || prev.contains(s.last())) {
            assert forall|i: int, j: int| 0 <= i < r.len() && 0 <= j < r.len() && i != j implies r[i]
                != r[j] by {
                if i < prev.len() && j < prev.len() {
                    assert(r[i] == prev[i] && r[j] == prev[j]);
                } else if i < prev.len() {
                    assert(r[i] == prev[i]);
                } else {
                    assert(r[j] == prev[j]);
                }
            }
        }
        if desc_sorted(s, table) {
            assert(desc_sorted(s.drop_last(), table)) by {
                assert forall|i: int, j: int| 0 <= i < j < s.drop_last().len() implies key_of(
                    table,
                    #[trigger] s.drop_last()[i],
                ) >= key_of(table, #[trigger] s.drop_last()[j]) by {
                    assert(s.drop_last()[i] == s[i] && s.drop_last()[j] == s[j]);
                }
            }
            assert forall|i: int, j: int| 0 <= i < j < r.len() implies key_of(
                table,
                #[trigger] r[i],
            ) >= key_of(table, #[trigger] r[j]) by {
                if j < prev.len() {
                    assert(r[i] == prev[i] && r[j] == prev[j]);
                } else {
                    assert(r[i] == prev[i]);
                    let m = choose|m: int| 0 <= m < s.drop_last().len() && s.drop_last()[m] == prev[i];
                    assert(s[m] == prev[i]);
                    assert(key_of(table, s[m]) >= key_of(table, s[s.len() - 1]));
                }
            }
        }
    }
}

/// The suggestions for an unresolved query: at most three, no name twice,
/// best first, each scoring at least the threshold, each one of the ranked
/// candidates or (when none of those is confident) of the well-known names.
pub proof fn lemma_suggestions(cands: Seq<ResolveCandidate>, table: Seq<ScoredName>)
    ensures
        suggestions_for(cands, table).len() <= 3,
        suggestions_for(cands, table).no_duplicates(),
        desc_sorted(suggestions_for(cands, table), table),
        forall|i: int|
            0 <= i < suggestions_for(cands, table).len() ==> key_of(
                table,
                #[trigger] suggestions_for(cands, table)[i],
            ) >= CONFIDENT_SCORE_KEY && suggestion_pool(cands, table).contains(
                suggestions_for(cands, table)[i],
            ),
{
    let pool = suggestion_pool(cands, table);
    let sorted = sort_by_key(pool, table);
    let conf = confident_names(sorted, table);
    lemma_sort_by_key(pool, table);
    lemma_confident_names(sorted, table);
    lemma_distinct_prefix(conf, 3, table);
    let r = suggestions_for(cands, table);
    assert forall|i: int| 0 <= i < r.len() implies key_of(table, #[trigger] r[i])
        >= CONFIDENT_SCORE_KEY && pool.contains(r[i]) by {
        let m = choose|m: int| 0 <= m < conf.len() && conf[m] == r[i];
        assert(conf.contains(conf[m]));
        let q = choose|q: int| 0 <= q < sorted.len() && sorted[q] == conf[m];
        assert(sorted.contains(sorted[q]));
        vstd::seq_lib::to_multiset_contains(sorted, sorted[q]);
        vstd::seq_lib::to_multiset_contains(pool, sorted[q]);
    }
}


/// Aliases ignore ASCII case: a query and its lowercase stand for the same
/// package.
pub proof fn lemma_alias_ignores_case(package: Seq<char>)
    ensures
        alias_of(package) == alias_of(ascii_lower(package)),
{
    assert(ascii_lower(ascii_lower(package)) =~= ascii_lower(package));
}


/// Putting the available managers first loses no config and adds none: the
/// result holds the same configs, as many times each.
pub proof fn lemma_available_first_permutes(configs: Seq<PlatformConfig>, available: Seq<bool>)
    requires
        configs.len() == available.len(),
    ensures
        available_first_spec(configs, available).to_multiset() == configs.to_multiset(),
    decreases configs.len(),
{
    if configs.len() > 0 {
        let c = configs.drop_last();
        let a = available.drop_last();
        lemma_available_first_permutes(c, a);
        let yes = with_availability(c, a, true);
        let no = with_availability(c, a, false);
        let x = configs.last();
        assert(configs =~= c.push(x));
        vstd::seq_lib::to_multiset_build(c, x);
        vstd::seq_lib::lemma_seq_union_to_multiset_commutative(yes, no);
        if available.last() {
            assert(available_first_spec(configs, available) == yes.push(x) + no);
            vstd::seq_lib::lemma_seq_union_to_multiset_commutative(yes.push(x), no);
            assert(no + yes.push(x) =~= (no + yes).push(x));
            vstd::seq_lib::to_multiset_build(no + yes, x);
            assert((yes.push(x) + no).to_multiset() == (no + yes.push(x)).to_multiset());
            assert((no + yes).push(x).to_multiset() == (no + yes).to_multiset().insert(x));
            assert((no + yes).to_multiset() == (yes + no).to_multiset());
            assert((yes + no).to_multiset() == c.to_multiset());
            assert(c.push(x).to_multiset() == c.to_multiset().insert(x));
        } else {
            assert(available_first_spec(configs, available) == yes + no.push(x));
            assert(yes + no.push(x) =~= (yes + no).push(x));
            vstd::seq_lib::to_multiset_build(yes + no, x);
            assert((yes + no).to_multiset() == c.to_multiset());
            assert(c.push(x).to_multiset() == c.to_multiset().insert(x));
        }
    } else {
        assert(available_first_spec(configs, available) =~= configs);
    }
}

} // verus!
