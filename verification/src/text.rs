//! Character-level text operations used throughout the library.
//!
//! Strings are modelled by their views, sequences of `char`. The executable
//! helpers work on `Vec<char>` copies of strings so that every step can be
//! stated and proved over those sequences.
use vstd::prelude::*;

verus! {

/// The Unicode `White_Space` property, which is what `char::is_whitespace`,
/// `str::trim` and `str::split_whitespace` go by.
pub open spec fn is_space(c: char) -> bool {
    ||| ('\u{9}' <= c && c <= '\u{d}')
    ||| c == ' '
    ||| c == '\u{85}'
    ||| c == '\u{a0}'
    ||| c == '\u{1680}'
    ||| ('\u{2000}' <= c && c <= '\u{200a}')
    ||| c == '\u{2028}'
    ||| c == '\u{2029}'
    ||| c == '\u{202f}'
    ||| c == '\u{205f}'
    ||| c == '\u{3000}'
}

/// Executable form of [`is_space`].
pub fn is_whitespace(c: char) -> (r: bool)
    ensures
        r == is_space(c),
{
    ('\u{9}' <= c && c <= '\u{d}') || c == ' ' || c == '\u{85}' || c == '\u{a0}' || c == '\u{1680}'
        || ('\u{2000}' <= c && c <= '\u{200a}') || c == '\u{2028}' || c == '\u{2029}' || c
        == '\u{202f}' || c == '\u{205f}' || c == '\u{3000}'
}

/// ASCII lowercase of one character; every other character is kept.
pub open spec fn ascii_lower_char(c: char) -> char {
    if 'A' <= c && c <= 'Z' {
        ((c as u32) + 32) as char
    } else {
        c
    }
}

/// `str::to_ascii_lowercase` on the character level.
pub open spec fn ascii_lower(s: Seq<char>) -> Seq<char> {
    s.map_values(|c: char| ascii_lower_char(c))
}

/// First position at or after `i` that is not whitespace (or the end).
pub open spec fn skip_space(s: Seq<char>, i: int) -> int
    decreases s.len() - i,
{
    if 0 <= i < s.len() && is_space(s[i]) {
        skip_space(s, i + 1)
    } else {
        i
    }
}

/// First position at or after `i` that is whitespace (or the end).
pub open spec fn skip_word(s: Seq<char>, i: int) -> int
    decreases s.len() - i,
{
    if 0 <= i < s.len() && !is_space(s[i]) {
        skip_word(s, i + 1)
    } else {
        i
    }
}

/// The end of `s.take(j)` once trailing whitespace is removed.
pub open spec fn back_space(s: Seq<char>, j: int) -> int
    decreases j,
{
    if 0 < j <= s.len() && is_space(s[j - 1]) {
        back_space(s, j - 1)
    } else {
        j
    }
}

/// `str::trim`: leading and trailing whitespace removed.
pub open spec fn trim(s: Seq<char>) -> Seq<char> {
    let a = skip_space(s, 0);
    let b = back_space(s, s.len() as int);
    if a < b {
        s.subrange(a, b)
    } else {
        Seq::empty()
    }
}

/// `str::split_whitespace().next()`: the first whitespace-separated word.
pub open spec fn first_word(s: Seq<char>) -> Option<Seq<char>> {
    let a = skip_space(s, 0);
    if a < s.len() {
        Some(s.subrange(a, skip_word(s, a)))
    } else {
        None
    }
}

/// `pat` occurs in `s` at position `i`.
pub open spec fn matches_at(s: Seq<char>, pat: Seq<char>, i: int) -> bool {
    0 <= i && i + pat.len() <= s.len() && s.subrange(i, i + pat.len()) == pat
}

/// First occurrence of `pat` in `s` at or after `i`.
pub open spec fn find_from(s: Seq<char>, pat: Seq<char>, i: int) -> Option<int>
    decreases s.len() + 1 - i,
{
    if i < 0 || i + pat.len() > s.len() {
        None
    } else if matches_at(s, pat, i) {
        Some(i)
    } else {
        find_from(s, pat, i + 1)
    }
}

/// `str::find`: the first position at which `pat` occurs.
pub open spec fn find(s: Seq<char>, pat: Seq<char>) -> Option<int> {
    find_from(s, pat, 0)
}

/// `str::contains`.
pub open spec fn contains(s: Seq<char>, pat: Seq<char>) -> bool {
    find(s, pat) is Some
}

/// `str::starts_with`.
pub open spec fn starts_with(s: Seq<char>, pat: Seq<char>) -> bool {
    pat.len() <= s.len() && s.subrange(0, pat.len() as int) == pat
}

/// `str::ends_with`.
pub open spec fn ends_with(s: Seq<char>, pat: Seq<char>) -> bool {
    pat.len() <= s.len() && s.subrange(s.len() - pat.len(), s.len() as int) == pat
}

/// The part of `s` before the first `c`, or all of `s`:
/// `s.split(c).next().unwrap()`.
pub open spec fn before_char(s: Seq<char>, c: char) -> Seq<char> {
    match find(s, seq![c]) {
        Some(i) => s.take(i),
        None => s,
    }
}

/// Non-overlapping replacement of every `pat` by `rep`, scanning from the left,
/// as `str::replace` does for a non-empty pattern.
pub open spec fn replace(s: Seq<char>, pat: Seq<char>, rep: Seq<char>) -> Seq<char>
    decreases s.len(),
{
    if pat.len() == 0 {
        s
    } else {
        match find(s, pat) {
            Some(i) => if 0 <= i && i + pat.len() <= s.len() {
                s.take(i) + rep + replace(s.skip(i + pat.len()), pat, rep)
            } else {
                s
            },
            None => s,
        }
    }
}

/// `[a, b, c].join(sep)`.
pub open spec fn join(parts: Seq<Seq<char>>, sep: Seq<char>) -> Seq<char>
    decreases parts.len(),
{
    if parts.len() == 0 {
        Seq::empty()
    } else if parts.len() == 1 {
        parts[0]
    } else {
        join(parts.drop_last(), sep) + sep + parts.last()
    }
}

/// The views of a vector of strings.
pub open spec fn views(v: Seq<String>) -> Seq<Seq<char>> {
    v.map_values(|s: String| s@)
}


/// `String::push`: appends one character.
#[verifier::external_body]
pub(crate) fn push_char(s: &mut String, c: char)
    ensures
        final(s)@ == old(s)@.push(c),
{
    s.push(c)
}

/// The characters of `s`, in order.
pub fn chars_of(s: &str) -> (v: Vec<char>)
    ensures
        v@ == s@,
{
    let mut v: Vec<char> = Vec::new();
    for c in it: s.chars()
        invariant
            it.seq() == s@,
            v@ == it.seq().take(it.index() as int),
    {
        v.push(c);
        assert(v@ =~= it.seq().take(it.index() + 1));
    }
    assert(v@ =~= s@);
    v
}

/// The string made of `v[lo..hi]`.
pub fn string_of(v: &Vec<char>, lo: usize, hi: usize) -> (r: String)
    requires
        lo <= hi <= v.len(),
    ensures
        r@ == v@.subrange(lo as int, hi as int),
{
    let mut r = String::new();
    let mut i = lo;
    while i < hi
        invariant
            lo <= i <= hi <= v.len(),
            r@ == v@.subrange(lo as int, i as int),
        decreases hi - i,
    {
        push_char(&mut r, v[i]);
        assert(r@ =~= v@.subrange(lo as int, i + 1));
        i = i + 1;
    }
    r
}

/// The string made of all of `v`.
pub fn string_from(v: &Vec<char>) -> (r: String)
    ensures
        r@ == v@,
{
    let r = string_of(v, 0, v.len());
    assert(v@.subrange(0, v@.len() as int) =~= v@);
    r
}

/// A copy of `v[lo..hi]`.
pub fn slice(v: &Vec<char>, lo: usize, hi: usize) -> (r: Vec<char>)
    requires
        lo <= hi <= v.len(),
    ensures
        r@ == v@.subrange(lo as int, hi as int),
{
    let mut r: Vec<char> = Vec::new();
    let mut i = lo;
    while i < hi
        invariant
            lo <= i <= hi <= v.len(),
            r@ == v@.subrange(lo as int, i as int),
        decreases hi - i,
    {
        r.push(v[i]);
        assert(r@ =~= v@.subrange(lo as int, i + 1));
        i = i + 1;
    }
    r
}

/// `pat` occurs in `s` at position `i`.
pub fn matches_at_exec(s: &Vec<char>, pat: &Vec<char>, i: usize) -> (r: bool)
    ensures
        r == matches_at(s@, pat@, i as int),
{
    if i > s.len() || pat.len() > s.len() - i {
        return false;
    }
    let mut k: usize = 0;
    while k < pat.len()
        invariant
            i + pat.len() <= s.len(),
            k <= pat.len(),
            forall|j: int| 0 <= j < k ==> s@[i + j] == pat@[j],
        decreases pat.len() - k,
    {
        if s[i + k] != pat[k] {
            assert(s@.subrange(i as int, i + pat.len())[k as int] != pat@[k as int]);
            return false;
        }
        k = k + 1;
    }
    assert(s@.subrange(i as int, i + pat.len()) =~= pat@);
    true
}

/// The first occurrence of `pat` at or after `i` is the first at or after `i + 1`
/// when `pat` does not occur at `i`.
proof fn lemma_find_step(s: Seq<char>, pat: Seq<char>, i: int)
    requires
        0 <= i,
        i + pat.len() <= s.len(),
        !matches_at(s, pat, i),
    ensures
        find_from(s, pat, i) == find_from(s, pat, i + 1),
{
}

/// A found position is a match and there is none before it.
pub proof fn lemma_find_from_facts(s: Seq<char>, pat: Seq<char>, i: int)
    requires
        0 <= i,
    ensures
        find_from(s, pat, i) matches Some(k) ==> i <= k && matches_at(s, pat, k)
            && forall|j: int| i <= j < k ==> !matches_at(s, pat, j),
        find_from(s, pat, i) is None ==> forall|j: int| i <= j ==> !matches_at(s, pat, j),
    decreases s.len() + 1 - i,
{
    if i + pat.len() > s.len() {
    } else if matches_at(s, pat, i) {
    } else {
        lemma_find_from_facts(s, pat, i + 1);
    }
}

/// Matching inside a suffix is matching in the whole sequence, shifted.
proof fn lemma_matches_skip(s: Seq<char>, pat: Seq<char>, start: int, i: int)
    requires
        0 <= start <= s.len(),
        start <= i,
    ensures
        matches_at(s.skip(start), pat, i - start) == matches_at(s, pat, i),
{
    if i + pat.len() <= s.len() {
        assert(s.skip(start).subrange(i - start, i - start + pat.len()) =~= s.subrange(
            i,
            i + pat.len(),
        ));
    }
}

/// `s[start..].find(pat)`, reported as a position in `s`.
pub fn find_from_exec(s: &Vec<char>, pat: &Vec<char>, start: usize) -> (r: Option<usize>)
    requires
        start <= s.len(),
    ensures
        r matches Some(k) ==> start <= k && find(s@.skip(start as int), pat@) == Some(k - start),
        r is None ==> find(s@.skip(start as int), pat@) is None,
{
    let ghost t = s@.skip(start as int);
    if pat.len() > s.len() - start {
        return None;
    }
    let mut i: usize = start;
    while i <= s.len() - pat.len()
        invariant
            start <= i,
            pat.len() <= s.len() - start,
            i <= s.len() - pat.len() + 1,
            t == s@.skip(start as int),
            find(t, pat@) == find_from(t, pat@, i - start),
        decreases s.len() - pat.len() + 1 - i,
    {
        proof {
            lemma_matches_skip(s@, pat@, start as int, i as int);
        }
        if matches_at_exec(s, pat, i) {
            return Some(i);
        }
        proof {
            lemma_find_step(t, pat@, i - start);
        }
        if i == s.len() - pat.len() {
            return None;
        }
        i = i + 1;
    }
    None
}

/// `str::find` on character vectors.
pub fn find_exec(s: &Vec<char>, pat: &Vec<char>) -> (r: Option<usize>)
    ensures
        r matches Some(k) ==> find(s@, pat@) == Some(k as int),
        r is None ==> find(s@, pat@) is None,
{
    assert(s@.skip(0) =~= s@);
    find_from_exec(s, pat, 0)
}

/// `str::starts_with` on character vectors.
pub fn starts_with_exec(s: &Vec<char>, pat: &Vec<char>) -> (r: bool)
    ensures
        r == starts_with(s@, pat@),
{
    let r = matches_at_exec(s, pat, 0);
    proof {
        if r {
            assert(s@.subrange(0, pat@.len() as int) == pat@);
        }
    }
    r
}

/// `str::ends_with` on character vectors.
pub fn ends_with_exec(s: &Vec<char>, pat: &Vec<char>) -> (r: bool)
    ensures
        r == ends_with(s@, pat@),
{
    if pat.len() > s.len() {
        return false;
    }
    let r = matches_at_exec(s, pat, s.len() - pat.len());
    proof {
        if r {
            assert(s@.subrange(s.len() - pat.len(), s.len() as int) == pat@);
        }
    }
    r
}

/// `str::contains` on character vectors.
pub fn contains_exec(s: &Vec<char>, pat: &Vec<char>) -> (r: bool)
    ensures
        r == contains(s@, pat@),
{
    find_exec(s, pat).is_some()
}

/// Position of the first non-whitespace character at or after `i`.
pub fn skip_space_exec(s: &Vec<char>, i: usize) -> (r: usize)
    requires
        i <= s.len(),
    ensures
        r == skip_space(s@, i as int),
        i <= r <= s.len(),
{
    let mut k = i;
    while k < s.len() && is_whitespace(s[k])
        invariant
            i <= k <= s.len(),
            skip_space(s@, i as int) == skip_space(s@, k as int),
        decreases s.len() - k,
    {
        k = k + 1;
    }
    k
}

/// Position of the first whitespace character at or after `i`.
pub fn skip_word_exec(s: &Vec<char>, i: usize) -> (r: usize)
    requires
        i <= s.len(),
    ensures
        r == skip_word(s@, i as int),
        i <= r <= s.len(),
{
    let mut k = i;
    while k < s.len() && !is_whitespace(s[k])
        invariant
            i <= k <= s.len(),
            skip_word(s@, i as int) == skip_word(s@, k as int),
        decreases s.len() - k,
    {
        k = k + 1;
    }
    k
}

/// End of `s.take(j)` with trailing whitespace removed.
pub fn back_space_exec(s: &Vec<char>, j: usize) -> (r: usize)
    requires
        j <= s.len(),
    ensures
        r == back_space(s@, j as int),
        r <= j,
{
    let mut k = j;
    while k > 0 && is_whitespace(s[k - 1])
        invariant
            k <= j <= s.len(),
            back_space(s@, j as int) == back_space(s@, k as int),
        decreases k,
    {
        k = k - 1;
    }
    k
}

/// `str::trim` on character vectors.
pub fn trim_exec(s: &Vec<char>) -> (r: Vec<char>)
    ensures
        r@ == trim(s@),
{
    let a = skip_space_exec(s, 0);
    let b = back_space_exec(s, s.len());
    if a < b {
        slice(s, a, b)
    } else {
        Vec::new()
    }
}

/// `str::split_whitespace().next()` on character vectors.
pub fn first_word_exec(s: &Vec<char>) -> (r: Option<Vec<char>>)
    ensures
        r matches Some(w) ==> first_word(s@) == Some(w@),
        r is None ==> first_word(s@) is None,
{
    let a = skip_space_exec(s, 0);
    if a < s.len() {
        let e = skip_word_exec(s, a);
        Some(slice(s, a, e))
    } else {
        None
    }
}

/// The part of `s` before the first `c`, or all of `s`.
pub fn before_char_exec(s: &Vec<char>, c: char) -> (r: Vec<char>)
    ensures
        r@ == before_char(s@, c),
{
    let pat = vec![c];
    assert(pat@ =~= seq![c]);
    match find_exec(s, &pat) {
        Some(i) => {
            proof {
                lemma_find_from_facts(s@, pat@, 0);
            }
            slice(s, 0, i)
        },
        None => s.clone(),
    }
}

/// Two character sequences are equal.
pub fn chars_eq(a: &Vec<char>, b: &Vec<char>) -> (r: bool)
    ensures
        r == (a@ == b@),
{
    if a.len() != b.len() {
        return false;
    }
    let mut i: usize = 0;
    while i < a.len()
        invariant
            a.len() == b.len(),
            i <= a.len(),
            forall|j: int| 0 <= j < i ==> a@[j] == b@[j],
        decreases a.len() - i,
    {
        if a[i] != b[i] {
            return false;
        }
        i = i + 1;
    }
    assert(a@ =~= b@);
    true
}

/// `str::to_ascii_lowercase` on character vectors.
pub fn ascii_lower_exec(s: &Vec<char>) -> (r: Vec<char>)
    ensures
        r@ == ascii_lower(s@),
{
    let mut r: Vec<char> = Vec::new();
    let mut i: usize = 0;
    while i < s.len()
        invariant
            i <= s.len(),
            r@ == ascii_lower(s@.take(i as int)),
        decreases s.len() - i,
    {
        let c = s[i];
        let l = ascii_lowercase_char(c);
        r.push(l);
        assert(ascii_lower(s@.take(i + 1)) =~= ascii_lower(s@.take(i as int)).push(
            ascii_lower_char(c),
        ));
        i = i + 1;
    }
    assert(s@.take(s.len() as int) =~= s@);
    r
}

/// ASCII capitals become lowercase, every other character is returned
/// unchanged (`char::to_ascii_lowercase`).
fn ascii_lowercase_char(c: char) -> (r: char)
    ensures
        r == ascii_lower_char(c),
{
    if 'A' <= c && c <= 'Z' {
        let b = c as u8;
        assert(b as u32 == c as u32);
        ((b + 32) as char)
    } else {
        c
    }
}

/// Appends `v[lo..hi]` to `r`.
pub fn push_range(r: &mut Vec<char>, v: &Vec<char>, lo: usize, hi: usize)
    requires
        lo <= hi <= v.len(),
    ensures
        final(r)@ == old(r)@ + v@.subrange(lo as int, hi as int),
{
    let ghost r0 = r@;
    let mut i = lo;
    while i < hi
        invariant
            lo <= i <= hi <= v.len(),
            r@ == r0 + v@.subrange(lo as int, i as int),
        decreases hi - i,
    {
        r.push(v[i]);
        assert(r@ =~= r0 + v@.subrange(lo as int, i + 1));
        i = i + 1;
    }
}

/// Appends all of `v` to `r`.
pub fn push_all(r: &mut Vec<char>, v: &Vec<char>)
    ensures
        final(r)@ == old(r)@ + v@,
{
    push_range(r, v, 0, v.len());
    assert(v@.subrange(0, v@.len() as int) =~= v@);
}

/// `str::replace` on character vectors.
pub fn replace_exec(s: &Vec<char>, pat: &Vec<char>, rep: &Vec<char>) -> (r: Vec<char>)
    ensures
        r@ == replace(s@, pat@, rep@),
{
    if pat.len() == 0 {
        return s.clone();
    }
    let mut r: Vec<char> = Vec::new();
    let mut start: usize = 0;
    assert(s@.skip(0) =~= s@);
    loop
        invariant
            start <= s.len(),
            pat.len() > 0,
            replace(s@, pat@, rep@) == r@ + replace(s@.skip(start as int), pat@, rep@),
        decreases s.len() - start,
    {
        let ghost t = s@.skip(start as int);
        match find_from_exec(s, pat, start) {
            Some(k) => {
                proof {
                    lemma_find_from_facts(t, pat@, 0);
                    assert(t.take(k - start) =~= s@.subrange(start as int, k as int));
                    assert(t.skip(k - start + pat.len()) =~= s@.skip(k + pat.len()));
                }
                push_range(&mut r, s, start, k);
                push_all(&mut r, rep);
                start = k + pat.len();
            },
            None => {
                assert(t =~= s@.subrange(start as int, s.len() as int));
                push_range(&mut r, s, start, s.len());
                return r;
            },
        }
    }
}

/// `parts.join(sep)` for strings.
pub fn join_exec(parts: &Vec<String>, sep: &Vec<char>) -> (r: Vec<char>)
    ensures
        r@ == join(views(parts@), sep@),
{
    let mut r: Vec<char> = Vec::new();
    let mut i: usize = 0;
    while i < parts.len()
        invariant
            i <= parts.len(),
            r@ == join(views(parts@.take(i as int)), sep@),
        decreases parts.len() - i,
    {
        let part = chars_of(parts[i].as_str());
        if i > 0 {
            push_all(&mut r, sep);
        }
        push_all(&mut r, &part);
        proof {
            let prev = views(parts@.take(i as int));
            let next = views(parts@.take(i + 1));
            assert(next.drop_last() =~= prev);
            assert(next.last() == parts@[i as int]@);
            if i == 0 {
                assert(next =~= seq![parts@[0]@]);
            }
        }
        i = i + 1;
    }
    assert(parts@.take(parts.len() as int) =~= parts@);
    r
}

/// `str::split(c)`: the pieces between the occurrences of `c`.
pub open spec fn split_on(s: Seq<char>, c: char) -> Seq<Seq<char>>
    decreases s.len(),
{
    match find(s, seq![c]) {
        Some(i) => if 0 <= i < s.len() {
            seq![s.take(i)] + split_on(s.skip(i + 1), c)
        } else {
            seq![s]
        },
        None => seq![s],
    }
}

/// One step of `split_on`: the piece before the first `c`, then the rest.
proof fn lemma_split_step(s: Seq<char>, c: char, k: int)
    requires
        find(s, seq![c]) == Some(k),
        0 <= k < s.len(),
    ensures
        split_on(s, c) == seq![s.take(k)] + split_on(s.skip(k + 1), c),
{
}

/// The next piece of `s[start..]` when splitting at `c`: the piece is
/// `s[start..end]`; the flag tells whether it is the last one.
pub fn next_piece(s: &Vec<char>, start: usize, c: char) -> (r: (usize, bool))
    requires
        start <= s.len(),
    ensures
        start <= r.0 <= s.len(),
        r.1 ==> r.0 == s.len() && split_on(s@.skip(start as int), c) == seq![s@.skip(start as int)],
        !r.1 ==> r.0 < s.len() && split_on(s@.skip(start as int), c) == seq![
            s@.subrange(start as int, r.0 as int),
        ] + split_on(s@.skip(r.0 + 1), c),
{
    let pat = vec![c];
    assert(pat@ =~= seq![c]);
    let ghost t = s@.skip(start as int);
    match find_from_exec(s, &pat, start) {
        Some(k) => {
            proof {
                lemma_find_from_facts(t, pat@, 0);
                lemma_split_step(t, c, k - start);
                assert(t.take(k - start) =~= s@.subrange(start as int, k as int));
                assert(t.skip(k - start + 1) =~= s@.skip(k + 1));
            }
            (k, false)
        },
        None => (s.len(), true),
    }
}

/// The Unicode lowercase mapping of a string, as `str::to_lowercase` computes
/// it (the result of that function, by name).
pub uninterp spec fn to_lower(s: Seq<char>) -> Seq<char>;

/// Every character is ASCII.
pub open spec fn all_ascii(s: Seq<char>) -> bool {
    forall|i: int| 0 <= i < s.len() ==> (s[i] as u32) < 128
}

/// The lowercase of a string, with its ASCII part spelled out: ASCII text
/// has its capitals lowered; any other text is lowered as
/// `str::to_lowercase` does ([`to_lower`]).
pub open spec fn lowercased(s: Seq<char>) -> Seq<char> {
    if all_ascii(s) {
        ascii_lower(s)
    } else {
        to_lower(s)
    }
}

/// `str::to_lowercase`: the Unicode lowercase of `s`. Its result is named
/// ([`to_lower`]); the mapping comes from Unicode's tables, of which only
/// the ASCII part is stated: on ASCII text it lowercases the capitals.
#[verifier::external_body]
pub(crate) fn lowercase(s: &str) -> (r: String)
    ensures
        r@ == to_lower(s@),
        all_ascii(s@) ==> r@ == ascii_lower(s@),
        r@ == lowercased(s@),
{
    s.to_lowercase()
}

/// `s` without the characters `a` and `b`: `s.replace([a, b], "")`.
pub open spec fn without_chars(s: Seq<char>, a: char, b: char) -> Seq<char>
    decreases s.len(),
{
    if s.len() == 0 {
        Seq::empty()
    } else if s.last() == a || s.last() == b {
        without_chars(s.drop_last(), a, b)
    } else {
        without_chars(s.drop_last(), a, b).push(s.last())
    }
}

/// `s.replace([a, b], "")` on character vectors.
pub fn without_chars_exec(s: &Vec<char>, a: char, b: char) -> (r: Vec<char>)
    ensures
        r@ == without_chars(s@, a, b),
{
    let mut r: Vec<char> = Vec::new();
    let mut i: usize = 0;
    while i < s.len()
        invariant
            i <= s.len(),
            r@ == without_chars(s@.take(i as int), a, b),
        decreases s.len() - i,
    {
        proof {
            let n = s@.take(i + 1);
            assert(n.drop_last() =~= s@.take(i as int));
            assert(n.last() == s@[i as int]);
        }
        if s[i] != a && s[i] != b {
            r.push(s[i]);
        }
        i = i + 1;
    }
    assert(s@.take(s.len() as int) =~= s@);
    r
}


proof fn lemma_skip_space_stop(s: Seq<char>, i: int)
    requires
        0 <= i <= s.len(),
    ensures
        i <= skip_space(s, i) <= s.len(),
        skip_space(s, i) < s.len() ==> !is_space(s[skip_space(s, i)]),
    decreases s.len() - i,
{
    if i < s.len() && is_space(s[i]) {
        lemma_skip_space_stop(s, i + 1);
    }
}

proof fn lemma_back_space_stop(s: Seq<char>, j: int)
    requires
        0 <= j <= s.len(),
    ensures
        0 <= back_space(s, j) <= j,
        back_space(s, j) > 0 ==> !is_space(s[back_space(s, j) - 1]),
    decreases j,
{
    if 0 < j && is_space(s[j - 1]) {
        lemma_back_space_stop(s, j - 1);
    }
}

/// Trimming twice is trimming once.
pub proof fn lemma_trim_idempotent(s: Seq<char>)
    ensures
        trim(trim(s)) == trim(s),
{
    let a = skip_space(s, 0);
    let b = back_space(s, s.len() as int);
    lemma_skip_space_stop(s, 0);
    lemma_back_space_stop(s, s.len() as int);
    let t = trim(s);
    if a < b {
        assert(t[0] == s[a]);
        assert(t[t.len() - 1] == s[b - 1]);
        assert(skip_space(t, 0) == 0);
        assert(back_space(t, t.len() as int) == t.len());
        assert(t.subrange(0, t.len() as int) =~= t);
    } else {
        assert(t.len() == 0);
        assert(trim(t) =~= t);
    }
}

/// The first `c` from position `i` on is at `k`: `find_from` gives `k`.
pub proof fn lemma_find_char(s: Seq<char>, c: char, i: int, k: int)
    requires
        0 <= i <= k < s.len(),
        s[k] == c,
        forall|m: int| i <= m < k ==> s[m] != c,
    ensures
        find_from(s, seq![c], i) == Some(k),
    decreases k - i,
{
    assert(s.subrange(i, i + 1) =~= seq![s[i]]);
    if i < k {
        assert(!matches_at(s, seq![c], i)) by {
            if matches_at(s, seq![c], i) {
                assert(s.subrange(i, i + 1)[0] == seq![c][0]);
            }
        }
        lemma_find_char(s, c, i + 1, k);
    }
}

} // verus!
