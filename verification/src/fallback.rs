//! Reading the output of a package manager's own search command.
//!
//! The scan of the output (lines, noise lines, the column that holds the
//! package name, repository prefixes, version and architecture suffixes) is
//! done here. How well a string matches the query is a fuzzy score that the
//! caller computes with `strsim` in floating point; it reaches this module as
//! an order key per string (see [`order_key`]), and the choice between the
//! candidates is made here.
use vstd::prelude::*;
use crate::os::PlatformConfig;
use crate::text::{
    before_char, before_char_exec, chars_of, contains, contains_exec, find, find_exec, first_word,
    first_word_exec, lemma_find_from_facts, next_piece, replace, replace_exec, slice, split_on,
    starts_with, starts_with_exec, string_from, trim, trim_exec, views,
};

verus! {

/// The order key of the score 220, the least score at which a fuzzy match is
/// accepted.
pub const CONFIDENT_SCORE_KEY: i64 = 4641944578423783424i64;

/// The order key of an IEEE-754 double given by its bits: keys compare as
/// `f64::total_cmp` compares the doubles. Non-negative doubles keep their bits;
/// a negative double with magnitude bits `m` gets `-1 - m`.
pub open spec fn spec_order_key(bits: u64) -> int {
    if bits < 0x8000_0000_0000_0000u64 {
        bits as int
    } else {
        -1 - (bits - 0x8000_0000_0000_0000u64)
    }
}

/// The order key of a score given by `f64::to_bits`.
pub fn order_key(bits: u64) -> (k: i64)
    ensures
        k == spec_order_key(bits),
{
    if bits < 0x8000_0000_0000_0000u64 {
        bits as i64
    } else {
        let m = bits - 0x8000_0000_0000_0000u64;
        -1i64 - (m as i64)
    }
}

/// A string with the order keys of its two fuzzy scores against the
/// (lowercased) query: as one side of `repo/name`, and as a package name.
pub struct ScoredTerm {
    pub term: String,
    pub side_key: i64,
    pub name_key: i64,
}

/// The side key of `s` in `table`: that of its first entry, or `i64::MIN`.
pub open spec fn side_key_of(table: Seq<ScoredTerm>, s: Seq<char>) -> i64
    decreases table.len(),
{
    if table.len() == 0 {
        i64::MIN
    } else if table[0].term@ == s {
        table[0].side_key
    } else {
        side_key_of(table.drop_first(), s)
    }
}

/// The name key of `s` in `table`: that of its first entry, or `i64::MIN`.
pub open spec fn name_key_of(table: Seq<ScoredTerm>, s: Seq<char>) -> i64
    decreases table.len(),
{
    if table.len() == 0 {
        i64::MIN
    } else if table[0].term@ == s {
        table[0].name_key
    } else {
        name_key_of(table.drop_first(), s)
    }
}

/// Header, separator and notice lines of the supported package managers.
pub open spec fn should_skip(line: Seq<char>) -> bool {
    ||| starts_with(line, "=="@)
    ||| starts_with(line, "Sorting"@)
    ||| starts_with(line, "Full Text"@)
    ||| starts_with(line, "Name"@) && contains(line, "Id"@) && contains(line, "Version"@)
    ||| starts_with(line, "---"@)
    ||| contains(line, "suggests"@)
    ||| contains(line, "Results from"@)
}

/// The column of a line that holds the package name: the word after `-->`
/// (scoop), else what comes before a double space (winget's name column),
/// else the first word.
pub open spec fn raw_name(t: Seq<char>) -> Seq<char> {
    match find(t, "-->"@) {
        Some(i) => match first_word(t.skip(i + "-->"@.len())) {
            Some(w) => w,
            None => Seq::empty(),
        },
        None => match find(t, "  "@) {
            Some(i) => trim(t.take(i)),
            None => match first_word(t) {
                Some(w) => w,
                None => t,
            },
        },
    }
}

/// A package name cut before its first `.`, `@` and `:` (architecture,
/// version and epoch suffixes).
pub open spec fn strip_name(x: Seq<char>) -> Seq<char> {
    before_char(before_char(before_char(x, '.'), '@'), ':')
}

/// The name column of one line of output, unless the line is noise.
pub open spec fn line_raw(line: Seq<char>) -> Option<Seq<char>> {
    let t = trim(line);
    if should_skip(t) {
        None
    } else {
        let r = raw_name(t);
        if r.len() == 0 {
            None
        } else {
            Some(r)
        }
    }
}

/// The two sides of `repo/name`, if there is a `/`.
pub open spec fn slash_sides(raw: Seq<char>) -> Option<(Seq<char>, Seq<char>)> {
    match find(raw, seq!['/']) {
        Some(i) => if 0 <= i < raw.len() {
            Some((raw.take(i), raw.skip(i + 1)))
        } else {
            None
        },
        None => None,
    }
}

/// The package name in a name column: of `before/after` the side whose side
/// key is at least that of the other (`before` on a tie), then stripped.
pub open spec fn clean_name(raw: Seq<char>, table: Seq<ScoredTerm>) -> Option<Seq<char>> {
    let name = match slash_sides(raw) {
        Some((b, a)) => if side_key_of(table, b) >= side_key_of(table, a) {
            b
        } else {
            a
        },
        None => raw,
    };
    let n = strip_name(name);
    if n.len() == 0 {
        None
    } else {
        Some(n)
    }
}

/// The candidate that one line of output gives.
pub open spec fn line_candidate(piece: Seq<char>, table: Seq<ScoredTerm>) -> Option<Seq<char>> {
    if trim(piece).len() == 0 {
        None
    } else {
        match line_raw(trim(piece)) {
            Some(r) => clean_name(r, table),
            None => None,
        }
    }
}

/// The strings of one line that need scores: both sides and both stripped
/// sides of `repo/name`, or the stripped name column.
pub open spec fn line_terms(piece: Seq<char>) -> Seq<Seq<char>> {
    if trim(piece).len() == 0 {
        Seq::empty()
    } else {
        match line_raw(trim(piece)) {
            Some(r) => match slash_sides(r) {
                Some((b, a)) => seq![b, a, strip_name(b), strip_name(a)],
                None => seq![strip_name(r)],
            },
            None => Seq::empty(),
        }
    }
}

pub open spec fn opt_seq(o: Option<Seq<char>>) -> Seq<Seq<char>> {
    match o {
        Some(x) => seq![x],
        None => Seq::empty(),
    }
}

/// The candidates of a list of lines, in order.
pub open spec fn candidates_of(pieces: Seq<Seq<char>>, table: Seq<ScoredTerm>) -> Seq<Seq<char>>
    decreases pieces.len(),
{
    if pieces.len() == 0 {
        Seq::empty()
    } else {
        opt_seq(line_candidate(pieces[0], table)) + candidates_of(pieces.drop_first(), table)
    }
}

/// The strings to score of a list of lines, in order.
pub open spec fn terms_of(pieces: Seq<Seq<char>>) -> Seq<Seq<char>>
    decreases pieces.len(),
{
    if pieces.len() == 0 {
        Seq::empty()
    } else {
        line_terms(pieces[0]) + terms_of(pieces.drop_first())
    }
}

/// The candidate with the greatest positive name key, the first among equals.
pub open spec fn best_of(cands: Seq<Seq<char>>, table: Seq<ScoredTerm>) -> Option<(i64, Seq<char>)>
    decreases cands.len(),
{
    if cands.len() == 0 {
        None
    } else {
        let prev = best_of(cands.drop_last(), table);
        let c = cands.last();
        let k = name_key_of(table, c);
        if k <= 0 {
            prev
        } else {
            match prev {
                None => Some((k, c)),
                Some((bk, bc)) => if k > bk {
                    Some((k, c))
                } else {
                    prev
                },
            }
        }
    }
}

/// The package that a search output names: the best candidate, if its score
/// reaches the confidence threshold.
pub open spec fn search_result(output: Seq<char>, table: Seq<ScoredTerm>) -> Option<Seq<char>> {
    match best_of(candidates_of(split_on(output, '\n'), table), table) {
        Some((k, c)) => if k >= CONFIDENT_SCORE_KEY {
            Some(c)
        } else {
            None
        },
        None => None,
    }
}

/// The strings of a search output that need scores.
pub open spec fn search_terms(output: Seq<char>) -> Seq<Seq<char>> {
    terms_of(split_on(output, '\n'))
}

/// Looks up the side key of `s`.
fn side_key_exec(table: &Vec<ScoredTerm>, s: &String) -> (k: i64)
    ensures
        k == side_key_of(table@, s@),
{
    let mut i: usize = 0;
    assert(table@.skip(0) =~= table@);
    while i < table.len()
        invariant
            i <= table.len(),
            side_key_of(table@, s@) == side_key_of(table@.skip(i as int), s@),
        decreases table.len() - i,
    {
        assert(table@.skip(i as int).drop_first() =~= table@.skip(i + 1));
        if table[i].term.eq(s) {
            return table[i].side_key;
        }
        i = i + 1;
    }
    i64::MIN
}

/// Looks up the name key of `s`.
fn name_key_exec(table: &Vec<ScoredTerm>, s: &String) -> (k: i64)
    ensures
        k == name_key_of(table@, s@),
{
    let mut i: usize = 0;
    assert(table@.skip(0) =~= table@);
    while i < table.len()
        invariant
            i <= table.len(),
            name_key_of(table@, s@) == name_key_of(table@.skip(i as int), s@),
        decreases table.len() - i,
    {
        assert(table@.skip(i as int).drop_first() =~= table@.skip(i + 1));
        if table[i].term.eq(s) {
            return table[i].name_key;
        }
        i = i + 1;
    }
    i64::MIN
}

/// Whether a (trimmed) line is noise.
fn should_skip_exec(t: &Vec<char>) -> (r: bool)
    ensures
        r == should_skip(t@),
{
    starts_with_exec(t, &chars_of("==")) || starts_with_exec(t, &chars_of("Sorting"))
        || starts_with_exec(t, &chars_of("Full Text")) || (starts_with_exec(t, &chars_of("Name"))
        && contains_exec(t, &chars_of("Id")) && contains_exec(t, &chars_of("Version")))
        || starts_with_exec(t, &chars_of("---")) || contains_exec(t, &chars_of("suggests"))
        || contains_exec(t, &chars_of("Results from"))
}

/// The name column of a (trimmed) line.
fn raw_name_exec(t: &Vec<char>) -> (r: Vec<char>)
    ensures
        r@ == raw_name(t@),
{
    let arrow = chars_of("-->");
    match find_exec(t, &arrow) {
        Some(i) => {
            proof {
                lemma_find_from_facts(t@, arrow@, 0);
            }
            let rest = slice(t, i + arrow.len(), t.len());
            assert(rest@ =~= t@.skip(i + arrow@.len()));
            match first_word_exec(&rest) {
                Some(w) => w,
                None => Vec::new(),
            }
        },
        None => {
            let gap = chars_of("  ");
            match find_exec(t, &gap) {
                Some(i) => {
                    proof {
                        lemma_find_from_facts(t@, gap@, 0);
                    }
                    let head = slice(t, 0, i);
                    assert(head@ =~= t@.take(i as int));
                    trim_exec(&head)
                },
                None => match first_word_exec(t) {
                    Some(w) => w,
                    None => t.clone(),
                },
            }
        },
    }
}

/// A name cut before its first `.`, `@` and `:`.
fn strip_name_exec(x: &Vec<char>) -> (r: Vec<char>)
    ensures
        r@ == strip_name(x@),
{
    let a = before_char_exec(x, '.');
    let b = before_char_exec(&a, '@');
    before_char_exec(&b, ':')
}

/// The name column of one line of output, unless the line is noise.
fn line_raw_exec(line: &Vec<char>) -> (r: Option<Vec<char>>)
    ensures
        r matches Some(v) ==> line_raw(line@) == Some(v@),
        r is None ==> line_raw(line@) is None,
{
    let t = trim_exec(line);
    if should_skip_exec(&t) {
        None
    } else {
        let r = raw_name_exec(&t);
        if r.len() == 0 {
            None
        } else {
            Some(r)
        }
    }
}

/// The two sides of `repo/name`.
fn slash_sides_exec(raw: &Vec<char>) -> (r: Option<(Vec<char>, Vec<char>)>)
    ensures
        r matches Some((b, a)) ==> slash_sides(raw@) == Some((b@, a@)),
        r is None ==> slash_sides(raw@) is None,
{
    let slash = vec!['/'];
    assert(slash@ =~= seq!['/']);
    match find_exec(raw, &slash) {
        Some(i) => {
            proof {
                lemma_find_from_facts(raw@, slash@, 0);
                assert(slash@.len() == 1);
            }
            assert(i < raw.len());
            let b = slice(raw, 0, i);
            let a = slice(raw, i + 1, raw.len());
            assert(b@ =~= raw@.take(i as int));
            assert(a@ =~= raw@.skip(i + 1));
            Some((b, a))
        },
        None => None,
    }
}

/// The candidate that one line gives.
fn line_candidate_exec(piece: &Vec<char>, table: &Vec<ScoredTerm>) -> (r: Option<String>)
    ensures
        r matches Some(n) ==> line_candidate(piece@, table@) == Some(n@),
        r is None ==> line_candidate(piece@, table@) is None,
{
    let t = trim_exec(piece);
    if t.len() == 0 {
        return None;
    }
    let raw = match line_raw_exec(&t) {
        Some(r) => r,
        None => {
            return None;
        },
    };
    let name = match slash_sides_exec(&raw) {
        Some((b, a)) => {
            let bs = string_from(&b);
            let as_ = string_from(&a);
            if side_key_exec(table, &bs) >= side_key_exec(table, &as_) {
                b
            } else {
                a
            }
        },
        None => raw,
    };
    let n = strip_name_exec(&name);
    if n.len() == 0 {
        None
    } else {
        Some(string_from(&n))
    }
}

/// The strings of one line that need scores.
fn line_terms_exec(piece: &Vec<char>) -> (r: Vec<String>)
    ensures
        views(r@) == line_terms(piece@),
{
    let t = trim_exec(piece);
    let mut r: Vec<String> = Vec::new();
    if t.len() == 0 {
        assert(views(r@) =~= line_terms(piece@));
        return r;
    }
    match line_raw_exec(&t) {
        Some(raw) => match slash_sides_exec(&raw) {
            Some((b, a)) => {
                r.push(string_from(&b));
                r.push(string_from(&a));
                r.push(string_from(&strip_name_exec(&b)));
                r.push(string_from(&strip_name_exec(&a)));
            },
            None => {
                r.push(string_from(&strip_name_exec(&raw)));
            },
        },
        None => {},
    }
    assert(views(r@) =~= line_terms(piece@));
    r
}

proof fn lemma_candidates_cons(p: Seq<char>, rest: Seq<Seq<char>>, table: Seq<ScoredTerm>)
    ensures
        candidates_of(seq![p] + rest, table) == opt_seq(line_candidate(p, table))
            + candidates_of(rest, table),
{
    let l = seq![p] + rest;
    assert(l[0] == p);
    assert(l.drop_first() =~= rest);
}

proof fn lemma_terms_cons(p: Seq<char>, rest: Seq<Seq<char>>)
    ensures
        terms_of(seq![p] + rest) == line_terms(p) + terms_of(rest),
{
    let l = seq![p] + rest;
    assert(l[0] == p);
    assert(l.drop_first() =~= rest);
}

/// The strings of a search output that need fuzzy scores against the query,
/// in the order in which the lines name them (with repetitions): both sides
/// of every `repo/name` column, and every name as it stands once cut before
/// `.`, `@` and `:`. Scoring each of them lets [`parse_search_output`] decide.
pub fn search_output_terms(output: &str) -> (r: Vec<String>)
    ensures
        views(r@) == search_terms(output@),
{
    let s = chars_of(output);
    let mut r: Vec<String> = Vec::new();
    let mut start: usize = 0;
    assert(s@.skip(0) =~= s@);
    loop
        invariant
            start <= s.len(),
            s@ == output@,
            search_terms(s@) == views(r@) + terms_of(split_on(s@.skip(start as int), '\n')),
        decreases s.len() - start,
    {
        let (end, last) = next_piece(&s, start, '\n');
        let piece = slice(&s, start, end);
        let terms = line_terms_exec(&piece);
        let ghost before = r@;
        let mut i: usize = 0;
        while i < terms.len()
            invariant
                i <= terms.len(),
                r@ == before + terms@.take(i as int),
            decreases terms.len() - i,
        {
            r.push(terms[i].clone());
            assert(r@ =~= before + terms@.take(i + 1));
            i = i + 1;
        }
        proof {
            assert(terms@.take(terms.len() as int) =~= terms@);
            assert(views(r@) =~= views(before) + views(terms@));
            if last {
                assert(piece@ =~= s@.skip(start as int));
                lemma_terms_cons(piece@, Seq::empty());
                assert(seq![piece@] + Seq::<Seq<char>>::empty() =~= seq![piece@]);
                assert(terms_of(Seq::<Seq<char>>::empty()) =~= Seq::<Seq<char>>::empty());
                assert(terms_of(split_on(s@.skip(start as int), '\n')) == line_terms(piece@));
                assert(views(terms@) == line_terms(piece@));
                assert(search_terms(s@) =~= views(r@));
            } else {
                lemma_terms_cons(piece@, split_on(s@.skip(end + 1), '\n'));
            }
        }
        if last {
            assert(search_terms(s@) == views(r@));
            return r;
        }
        start = end + 1;
    }
}

/// The best candidate of a list, with its key.
fn best_exec(cands: &Vec<String>, table: &Vec<ScoredTerm>) -> (r: Option<(i64, String)>)
    ensures
        r matches Some((k, c)) ==> best_of(views(cands@), table@) == Some((k, c@)),
        r is None ==> best_of(views(cands@), table@) is None,
{
    let mut best: Option<(i64, String)> = None;
    let mut i: usize = 0;
    while i < cands.len()
        invariant
            i <= cands.len(),
            best matches Some((k, c)) ==> best_of(views(cands@.take(i as int)), table@) == Some(
                (k, c@),
            ),
            best is None ==> best_of(views(cands@.take(i as int)), table@) is None,
        decreases cands.len() - i,
    {
        proof {
            let next = views(cands@.take(i + 1));
            assert(next.drop_last() =~= views(cands@.take(i as int)));
            assert(next.last() == cands@[i as int]@);
        }
        let k = name_key_exec(table, &cands[i]);
        if k > 0 {
            let replace = match &best {
                None => true,
                Some((bk, _)) => k > *bk,
            };
            if replace {
                best = Some((k, cands[i].clone()));
            }
        }
        i = i + 1;
    }
    assert(cands@.take(cands.len() as int) =~= cands@);
    best
}

/// Parses the stdout of a package manager's search command and returns the
/// package name it most likely offers for the query.
///
/// Lines are trimmed; empty lines and the headers and notices of the
/// supported managers are skipped. The name is taken from the `-->` column
/// (scoop), the column before a double space (winget), or the first word; of
/// `repo/name` the side that scores better is kept; the name is cut before
/// `.`, `@` and `:`. Among the names, the one with the greatest positive
/// score wins (the first among equals), if its score reaches 220.
///
/// `scores` holds the fuzzy scores of the strings that [`search_output_terms`]
/// lists; a string without an entry counts as scoring lowest.
pub fn parse_search_output(output: &str, scores: &Vec<ScoredTerm>) -> (r: Option<String>)
    ensures
        r matches Some(n) ==> search_result(output@, scores@) == Some(n@),
        r is None ==> search_result(output@, scores@) is None,
{
    let s = chars_of(output);
    let mut cands: Vec<String> = Vec::new();
    let mut start: usize = 0;
    assert(s@.skip(0) =~= s@);
    loop
        invariant_except_break
            start <= s.len(),
            candidates_of(split_on(s@, '\n'), scores@) == views(cands@) + candidates_of(
                split_on(s@.skip(start as int), '\n'),
                scores@,
            ),
        ensures
            views(cands@) == candidates_of(split_on(s@, '\n'), scores@),
        decreases s.len() - start,
    {
        let (end, last) = next_piece(&s, start, '\n');
        let piece = slice(&s, start, end);
        let ghost before = cands@;
        match line_candidate_exec(&piece, scores) {
            Some(c) => {
                cands.push(c);
            },
            None => {},
        }
        proof {
            assert(views(cands@) =~= views(before) + opt_seq(line_candidate(piece@, scores@)));
            if last {
                assert(piece@ =~= s@.skip(start as int));
                lemma_candidates_cons(piece@, Seq::empty(), scores@);
                assert(seq![piece@] + Seq::<Seq<char>>::empty() =~= seq![piece@]);
                assert(candidates_of(Seq::<Seq<char>>::empty(), scores@) =~= Seq::<
                    Seq<char>,
                >::empty());
            } else {
                lemma_candidates_cons(piece@, split_on(s@.skip(end + 1), '\n'), scores@);
            }
        }
        if last {
            assert(views(cands@) =~= candidates_of(split_on(s@, '\n'), scores@));
            break ;
        }
        start = end + 1;
    }
    match best_exec(&cands, scores) {
        Some((k, c)) => if k >= CONFIDENT_SCORE_KEY {
            Some(c)
        } else {
            None
        },
        None => None,
    }
}

/// Searches for packages with the OS package manager's own search command.
///
/// Used as a last-resort source when Repology and the local database have no
/// match. Running the command is left to the caller; this type builds it.
pub struct FallbackSearcher {
    search_template: String,
}

impl View for FallbackSearcher {
    type V = Seq<char>;

    /// The search command template, with its `{query}` placeholder.
    closed spec fn view(&self) -> Seq<char> {
        self.search_template@
    }
}

impl FallbackSearcher {
    /// A searcher for the config's `search` template, if it has one.
    pub fn from_config(config: &PlatformConfig) -> (r: Option<Self>)
        ensures
            r is Some <==> config.search is Some,
            r matches Some(s) ==> (config.search matches Some(t) && s@ == t@),
    {
        match &config.search {
            Some(t) => Some(FallbackSearcher { search_template: t.clone() }),
            None => None,
        }
    }

    /// The shell command that searches for `query`: the template with every
    /// `{query}` replaced.
    pub fn search_command(&self, query: &str) -> (r: String)
        ensures
            r@ == replace(self@, "{query}"@, query@),
    {
        let template = chars_of(self.search_template.as_str());
        let pat = chars_of("{query}");
        let q = chars_of(query);
        string_from(&replace_exec(&template, &pat, &q))
    }
}


/// The best candidate is a candidate with a positive key that no candidate
/// beats; there is none when no key is positive.
pub proof fn lemma_best_of(cands: Seq<Seq<char>>, table: Seq<ScoredTerm>)
    ensures
        best_of(cands, table) matches Some((k, c)) ==> cands.contains(c) && k == name_key_of(
            table,
            c,
        ) && k > 0 && forall|i: int| 0 <= i < cands.len() ==> name_key_of(table, #[trigger] cands[i]) <= k,
        best_of(cands, table) is None ==> forall|i: int|
            0 <= i < cands.len() ==> name_key_of(table, #[trigger] cands[i]) <= 0,
    decreases cands.len(),
{
    if cands.len() > 0 {
        let init = cands.drop_last();
        lemma_best_of(init, table);
        assert forall|i: int| 0 <= i < init.len() implies #[trigger] init[i] == cands[i] by {}
        match best_of(init, table) {
            Some((bk, bc)) => {
                let m = choose|m: int| 0 <= m < init.len() && init[m] == bc;
                assert(cands[m] == bc);
            },
            None => {},
        }
        assert(cands[cands.len() - 1] == cands.last());
        assert forall|i: int| 0 <= i < cands.len() - 1 implies name_key_of(table, #[trigger] cands[i])
            == name_key_of(table, init[i]) by {}
    }
}

/// What a search output names is one of its candidate lines' names, it
/// scores at least the threshold, and no candidate of the output scores
/// more.
pub proof fn lemma_search_result(output: Seq<char>, table: Seq<ScoredTerm>)
    ensures
        search_result(output, table) matches Some(c) ==> candidates_of(
            split_on(output, '\n'),
            table,
        ).contains(c) && name_key_of(table, c) >= CONFIDENT_SCORE_KEY && forall|i: int|
            0 <= i < candidates_of(split_on(output, '\n'), table).len() ==> name_key_of(
                table,
                #[trigger] candidates_of(split_on(output, '\n'), table)[i],
            ) <= name_key_of(table, c),
{
    lemma_best_of(candidates_of(split_on(output, '\n'), table), table);
}


/// A blank line or a noise line (a header, separator or notice) in front
/// of a search output does not change what the output names.
pub proof fn lemma_noise_line_ignored(h: Seq<char>, out: Seq<char>, table: Seq<ScoredTerm>)
    requires
        !h.contains('\n'),
        trim(h).len() == 0 || should_skip(trim(h)),
    ensures
        search_result(h + seq!['\n'] + out, table) == search_result(out, table),
{
    let x = h + seq!['\n'] + out;
    let k = h.len() as int;
    assert forall|m: int| 0 <= m < k implies x[m] != '\n' by {
        assert(x[m] == h[m]);
        if x[m] == '\n' {
            assert(h.contains(h[m]));
        }
    }
    assert(x[k] == '\n');
    crate::text::lemma_find_char(x, '\n', 0, k);
    assert(x.take(k) =~= h);
    assert(x.skip(k + 1) =~= out);
    assert(split_on(x, '\n') == seq![h] + split_on(out, '\n'));
    crate::text::lemma_trim_idempotent(h);
    assert(line_candidate(h, table) is None);
    lemma_candidates_cons(h, split_on(out, '\n'), table);
    assert(opt_seq(line_candidate(h, table)) + candidates_of(split_on(out, '\n'), table)
        =~= candidates_of(split_on(out, '\n'), table));
}

} // verus!
