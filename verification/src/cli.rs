//! The decisions of the command-line front end: how an error message is
//! split for display, how search results are labelled and laid out, and what
//! an install attempt leads to. Printing and running commands belong to the
//! caller.
use vstd::prelude::*;
use crate::color::{Color, colored, colorize};
use crate::error::Error;
use crate::os::{OsType, os_name};
use crate::resolver::ResolveCandidate;
use crate::text::{chars_of, find, find_exec, push_char, starts_with, starts_with_exec, string_of};

verus! {

/// `s.split_once(pat)`: the parts before and after the first `pat`.
pub open spec fn split_once_spec(s: Seq<char>, pat: Seq<char>) -> Option<(Seq<char>, Seq<char>)> {
    match find(s, pat) {
        Some(i) => Some((s.take(i), s.skip(i + pat.len()))),
        None => None,
    }
}

/// Splits an unresolved-package message at the `--allow-identity` hint, so
/// that the hint goes on a line of its own: the text before `Re-run with `
/// and the text after it.
pub fn split_hint(msg: &str) -> (r: Option<(String, String)>)
    ensures
        (match r {
            Some((a, b)) => Some((a@, b@)),
            None => None::<(Seq<char>, Seq<char>)>,
        }) == split_once_spec(msg@, "Re-run with "@),
{
    let s = chars_of(msg);
    let pat = chars_of("Re-run with ");
    match find_exec(&s, &pat) {
        Some(i) => {
            proof {
                crate::text::lemma_find_from_facts(s@, pat@, 0);
            }
            let a = string_of(&s, 0, i);
            let b = string_of(&s, i + pat.len(), s.len());
            assert(s@.subrange(0, i as int) =~= s@.take(i as int));
            assert(s@.subrange(i + pat.len(), s.len() as int) =~= s@.skip(i + pat.len()));
            Some((a, b))
        },
        None => None,
    }
}

/// The style of a candidate's source label in search results: green for the
/// database, dim for identity, plain otherwise.
pub open spec fn source_color(source: Seq<char>) -> Option<Color> {
    if starts_with(source, "database"@) {
        Some(Color::Green)
    } else if source == "identity"@ {
        Some(Color::Dim)
    } else {
        None
    }
}

/// A candidate's source label as search results show it.
pub fn source_label(source: &str, color_enabled: bool) -> (r: String)
    ensures
        r@ == match source_color(source@) {
            Some(c) => colored(source@, c, color_enabled),
            None => source@,
        },
{
    let s = chars_of(source);
    let db = chars_of("database");
    if starts_with_exec(&s, &db) {
        colorize(source, Color::Green, color_enabled)
    } else if crate::text::chars_eq(&s, &chars_of("identity")) {
        colorize(source, Color::Dim, color_enabled)
    } else {
        source.to_string()
    }
}

/// `s` padded with spaces on the right to `width` characters (`{:<width}`);
/// a longer `s` is kept whole.
pub open spec fn padded(s: Seq<char>, width: nat) -> Seq<char> {
    if s.len() >= width {
        s
    } else {
        s + Seq::new((width - s.len()) as nat, |i: int| ' ')
    }
}

/// Pads `s` with spaces on the right to `width` characters.
pub fn pad_right(s: &str, width: usize) -> (r: String)
    ensures
        r@ == padded(s@, width as nat),
{
    let n = chars_of(s).len();
    let mut r = s.to_string();
    let mut k = n;
    while k < width
        invariant
            n <= k <= width || (n >= width && k == n),
            n == s@.len(),
            r@ == s@ + Seq::new((k - n) as nat, |i: int| ' '),
        decreases width - k,
    {
        let ghost before = r@;
        push_char(&mut r, ' ');
        assert(r@ =~= s@ + Seq::new((k + 1 - n) as nat, |i: int| ' '));
        k = k + 1;
    }
    assert(n >= width ==> r@ =~= s@);
    r
}

/// The name shown in the command line of search results: the first
/// candidate's, or the query when there is none.
pub fn primary_name(candidates: &Vec<ResolveCandidate>, query: &str) -> (r: String)
    ensures
        candidates.len() > 0 ==> r@ == candidates@[0].name@,
        candidates.len() == 0 ==> r@ == query@,
{
    if candidates.len() > 0 {
        candidates[0].name.clone()
    } else {
        query.to_string()
    }
}

/// What an install attempt leads to.
pub enum InstallStep {
    /// The package is installed.
    Installed,
    /// The package manager is not there: try the next command, with this
    /// error kept in case none is left.
    TryNext(Error),
    /// The install failed: stop with this error.
    Stop(Error),
}

/// Decides on the result of running one install command: success ends the
/// install; a missing program moves on to the next command; any other error
/// stops.
pub fn after_install_attempt(result: Result<(), Error>, os_type: &OsType) -> (r: InstallStep)
    ensures
        result is Ok ==> r is Installed,
        result matches Err(Error::ProgramNotFound(_)) ==> (r matches InstallStep::TryNext(
            Error::Resolve(m),
        ) && m@ == "package manager not available for "@ + os_name(*os_type)),
        result matches Err(e) ==> (!(e is ProgramNotFound) ==> r == InstallStep::Stop(e)),
{
    match result {
        Ok(()) => InstallStep::Installed,
        Err(Error::ProgramNotFound(_)) => {
            let mut m = String::from_str("package manager not available for ");
            m.append(os_type.name());
            InstallStep::TryNext(Error::Resolve(m))
        },
        Err(e) => InstallStep::Stop(e),
    }
}

/// The error when every install command was tried: the last one kept, or
/// that there was no command at all.
pub fn install_exhausted(last: Option<Error>, os_type: &OsType) -> (r: Error)
    ensures
        last matches Some(e) ==> r == e,
        last is None ==> (r matches Error::Resolve(m) && m@ == "no install command available for "@
            + os_name(*os_type)),
{
    match last {
        Some(e) => e,
        None => {
            let mut m = String::from_str("no install command available for ");
            m.append(os_type.name());
            Error::Resolve(m)
        },
    }
}

} // verus!
