//! The local package database: the seed mappings from generic package names
//! to the package names of each OS, with their provenance. Reading the
//! SQLite file is the caller's work; the rows it holds are handed in, and
//! the lookups are made here.
use vstd::prelude::*;
use crate::os::OsType;
use crate::text::{ascii_lower, ascii_lower_exec, chars_of, contains, contains_exec};

verus! {

/// The package name of a generic package on one OS, with where the mapping
/// came from (`repology_auto`, `winget_direct`, `derived`) and the
/// confidence in it, in tenths (10 stands for 1.0).
#[derive(Debug, Clone)]
pub struct Mapping {
    pub os_package: String,
    pub source: String,
    pub confidence_tenths: u8,
}

/// A mapping with its strings as sequences.
pub open spec fn mapping_view(m: Mapping) -> (Seq<char>, Seq<char>, u8) {
    (m.os_package@, m.source@, m.confidence_tenths)
}

/// One mapping row of the seed database: the generic package and the OS it
/// maps for.
#[derive(Debug, Clone)]
pub struct SeedRow {
    pub package: String,
    pub os: OsType,
    pub mapping: Mapping,
}

/// An alternative name of a package (`python3` for `python`).
#[derive(Debug, Clone)]
pub struct SeedAlias {
    pub alias: String,
    pub package: String,
}

/// A row as (package, OS, mapping).
pub open spec fn row_view(r: SeedRow) -> (Seq<char>, OsType, (Seq<char>, Seq<char>, u8)) {
    (r.package@, r.os, mapping_view(r.mapping))
}

/// An alias as (alias, package).
pub open spec fn alias_view(a: SeedAlias) -> (Seq<char>, Seq<char>) {
    (a.alias@, a.package@)
}

/// The contents of a database: its rows and its aliases, in order.
pub struct SeedView {
    pub rows: Seq<(Seq<char>, OsType, (Seq<char>, Seq<char>, u8))>,
    pub aliases: Seq<(Seq<char>, Seq<char>)>,
}

/// The seed database.
pub struct Database {
    rows: Vec<SeedRow>,
    aliases: Vec<SeedAlias>,
}

impl View for Database {
    type V = SeedView;

    closed spec fn view(&self) -> SeedView {
        SeedView {
            rows: self.rows@.map_values(|r: SeedRow| row_view(r)),
            aliases: self.aliases@.map_values(|a: SeedAlias| alias_view(a)),
        }
    }
}

/// The mapping of the first row for `package` on `os`.
pub open spec fn first_mapping(
    rows: Seq<(Seq<char>, OsType, (Seq<char>, Seq<char>, u8))>,
    package: Seq<char>,
    os: OsType,
) -> Option<(Seq<char>, Seq<char>, u8)>
    decreases rows.len(),
{
    if rows.len() == 0 {
        None
    } else if rows[0].0 == package && rows[0].1 == os {
        Some(rows[0].2)
    } else {
        first_mapping(rows.drop_first(), package, os)
    }
}

/// The package that the first alias entry for `name` stands for.
pub open spec fn alias_target(aliases: Seq<(Seq<char>, Seq<char>)>, name: Seq<char>) -> Option<
    Seq<char>,
>
    decreases aliases.len(),
{
    if aliases.len() == 0 {
        None
    } else if aliases[0].0 == name {
        Some(aliases[0].1)
    } else {
        alias_target(aliases.drop_first(), name)
    }
}

/// What the database maps `package` to on `os`: the first mapping of the
/// package, else the first mapping of the package its alias stands for,
/// else nothing.
pub open spec fn seed_lookup(db: SeedView, package: Seq<char>, os: OsType) -> Option<
    (Seq<char>, Seq<char>, u8),
> {
    match first_mapping(db.rows, package, os) {
        Some(m) => Some(m),
        None => match alias_target(db.aliases, package) {
            Some(p) => first_mapping(db.rows, p, os),
            None => None,
        },
    }
}

/// The row matches a search for `query` on `os`: it is for that OS, and the
/// query occurs in its package name or its OS package name, ignoring ASCII
/// case.
pub open spec fn row_matches(
    row: (Seq<char>, OsType, (Seq<char>, Seq<char>, u8)),
    query: Seq<char>,
    os: OsType,
) -> bool {
    &&& row.1 == os
    &&& contains(ascii_lower(row.0), ascii_lower(query)) || contains(
        ascii_lower(row.2.0),
        ascii_lower(query),
    )
}

/// The mappings of the rows that match a search, in the order of the rows.
pub open spec fn seed_search(
    rows: Seq<(Seq<char>, OsType, (Seq<char>, Seq<char>, u8))>,
    query: Seq<char>,
    os: OsType,
) -> Seq<(Seq<char>, Seq<char>, u8)>
    decreases rows.len(),
{
    if rows.len() == 0 {
        Seq::empty()
    } else {
        let prev = seed_search(rows.drop_last(), query, os);
        if row_matches(rows.last(), query, os) {
            prev.push(rows.last().2)
        } else {
            prev
        }
    }
}

/// An optional mapping with its strings as sequences.
pub open spec fn opt_mapping_view(m: Option<Mapping>) -> Option<(Seq<char>, Seq<char>, u8)> {
    match m {
        Some(x) => Some(mapping_view(x)),
        None => None,
    }
}

/// A copy of a mapping.
fn copy_mapping(m: &Mapping) -> (r: Mapping)
    ensures
        mapping_view(r) == mapping_view(*m),
{
    Mapping {
        os_package: m.os_package.clone(),
        source: m.source.clone(),
        confidence_tenths: m.confidence_tenths,
    }
}

impl Database {
    /// The database of the given rows and aliases (as read from the seed
    /// file).
    pub fn new(rows: Vec<SeedRow>, aliases: Vec<SeedAlias>) -> (r: Database)
        ensures
            r@.rows == rows@.map_values(|x: SeedRow| row_view(x)),
            r@.aliases == aliases@.map_values(|a: SeedAlias| alias_view(a)),
    {
        Database { rows, aliases }
    }

    /// The first mapping of `package` on `os`.
    fn first_mapping_exec(&self, package: &String, os: &OsType) -> (r: Option<Mapping>)
        ensures
            opt_mapping_view(r) == first_mapping(self@.rows, package@, *os),
    {
        let ghost rows = self@.rows;
        let mut i: usize = 0;
        assert(rows.skip(0) =~= rows);
        while i < self.rows.len()
            invariant
                i <= self.rows.len(),
                rows == self@.rows,
                first_mapping(rows, package@, *os) == first_mapping(rows.skip(i as int), package@, *os),
            decreases self.rows.len() - i,
        {
            assert(rows.skip(i as int).drop_first() =~= rows.skip(i + 1));
            assert(rows.skip(i as int)[0] == row_view(self.rows@[i as int]));
            if self.rows[i].package == *package && self.rows[i].os == *os {
                return Some(copy_mapping(&self.rows[i].mapping));
            }
            i = i + 1;
        }
        None
    }

    /// The package that `name` is an alias of.
    fn alias_exec(&self, name: &String) -> (r: Option<String>)
        ensures
            (match r {
                Some(p) => Some(p@),
                None => None::<Seq<char>>,
            }) == alias_target(self@.aliases, name@),
    {
        let ghost al = self@.aliases;
        let mut i: usize = 0;
        assert(al.skip(0) =~= al);
        while i < self.aliases.len()
            invariant
                i <= self.aliases.len(),
                al == self@.aliases,
                alias_target(al, name@) == alias_target(al.skip(i as int), name@),
            decreases self.aliases.len() - i,
        {
            assert(al.skip(i as int).drop_first() =~= al.skip(i + 1));
            assert(al.skip(i as int)[0] == alias_view(self.aliases@[i as int]));
            if self.aliases[i].alias == *name {
                return Some(self.aliases[i].package.clone());
            }
            i = i + 1;
        }
        None
    }

    /// Looks a package up for an OS: its own mapping, else that of the
    /// package it is an alias of; `None` when there is none.
    pub fn lookup(&self, package: &str, os: &OsType) -> (r: Option<Mapping>)
        ensures
            opt_mapping_view(r) == seed_lookup(self@, package@, *os),
    {
        let name = String::from_str(package);
        match self.first_mapping_exec(&name, os) {
            Some(m) => Some(m),
            None => match self.alias_exec(&name) {
                Some(p) => self.first_mapping_exec(&p, os),
                None => None,
            },
        }
    }

    /// The mappings on `os` whose package name or OS package name contains
    /// the query, ignoring ASCII case, in the order of the rows.
    pub fn search(&self, query: &str, os: &OsType) -> (r: Vec<Mapping>)
        ensures
            r@.map_values(|m: Mapping| mapping_view(m)) == seed_search(self@.rows, query@, *os),
    {
        let ghost rows = self@.rows;
        let q = ascii_lower_exec(&chars_of(query));
        let mut out: Vec<Mapping> = Vec::new();
        let mut i: usize = 0;
        while i < self.rows.len()
            invariant
                i <= self.rows.len(),
                rows == self@.rows,
                q@ == ascii_lower(query@),
                out@.map_values(|m: Mapping| mapping_view(m)) == seed_search(
                    rows.take(i as int),
                    query@,
                    *os,
                ),
            decreases self.rows.len() - i,
        {
            let row = &self.rows[i];
            proof {
                let n = rows.take(i + 1);
                assert(n.drop_last() =~= rows.take(i as int));
                assert(n.last() == row_view(*row));
            }
            if row.os == *os {
                let p = ascii_lower_exec(&chars_of(row.package.as_str()));
                let o = ascii_lower_exec(&chars_of(row.mapping.os_package.as_str()));
                if contains_exec(&p, &q) || contains_exec(&o, &q) {
                    let ghost before = out@;
                    let m = copy_mapping(&row.mapping);
                    out.push(m);
                    assert(out@.map_values(|m: Mapping| mapping_view(m)) =~= before.map_values(
                        |m: Mapping| mapping_view(m),
                    ).push(mapping_view(m)));
                }
            }
            i = i + 1;
        }
        assert(rows.take(self.rows.len() as int) =~= rows);
        out
    }
}

/// A decimal digit.
pub open spec fn digit_char(d: int) -> char {
    (48 + d) as char
}

/// How a confidence given in tenths is printed as a decimal number: `1`,
/// `0.9`, `0` (no trailing `.0`).
pub open spec fn confidence_text(t: u8) -> Seq<char> {
    let whole = t / 10;
    let frac = t % 10;
    let w = if whole < 10 {
        seq![digit_char(whole as int)]
    } else {
        seq![digit_char(whole as int / 10), digit_char(whole as int % 10)]
    };
    if frac == 0 {
        w
    } else {
        w + seq!['.', digit_char(frac as int)]
    }
}

/// The label of a candidate found in the database.
pub open spec fn database_label(t: u8) -> Seq<char> {
    "database (confidence="@ + confidence_text(t) + ")"@
}

/// A decimal digit as a character.
fn digit_exec(d: u8) -> (c: char)
    requires
        d < 10,
    ensures
        c == digit_char(d as int),
{
    match d {
        0 => '0',
        1 => '1',
        2 => '2',
        3 => '3',
        4 => '4',
        5 => '5',
        6 => '6',
        7 => '7',
        8 => '8',
        _ => '9',
    }
}

/// The label of a candidate found in the database with the given
/// confidence: `database (confidence=1)`.
pub fn database_label_exec(t: u8) -> (r: String)
    ensures
        r@ == database_label(t),
{
    let mut r = String::from_str("database (confidence=");
    let whole = t / 10;
    let frac = t % 10;
    let ghost start = r@;
    if whole < 10 {
        crate::text::push_char(&mut r, digit_exec(whole));
    } else {
        crate::text::push_char(&mut r, digit_exec(whole / 10));
        crate::text::push_char(&mut r, digit_exec(whole % 10));
    }
    if frac != 0 {
        crate::text::push_char(&mut r, '.');
        crate::text::push_char(&mut r, digit_exec(frac));
    }
    assert(r@ =~= start + confidence_text(t));
    r.append(")");
    r
}


proof fn lemma_first_mapping_absent(
    rows: Seq<(Seq<char>, OsType, (Seq<char>, Seq<char>, u8))>,
    package: Seq<char>,
    os: OsType,
)
    requires
        forall|i: int| 0 <= i < rows.len() ==> (#[trigger] rows[i]).0 != package,
    ensures
        first_mapping(rows, package, os) is None,
    decreases rows.len(),
{
    if rows.len() > 0 {
        assert forall|i: int| 0 <= i < rows.drop_first().len() implies (
        #[trigger] rows.drop_first()[i]).0 != package by {
            assert(rows.drop_first()[i] == rows[i + 1]);
        }
        lemma_first_mapping_absent(rows.drop_first(), package, os);
    }
}

proof fn lemma_alias_absent(aliases: Seq<(Seq<char>, Seq<char>)>, name: Seq<char>)
    requires
        forall|i: int| 0 <= i < aliases.len() ==> (#[trigger] aliases[i]).0 != name,
    ensures
        alias_target(aliases, name) is None,
    decreases aliases.len(),
{
    if aliases.len() > 0 {
        assert forall|i: int| 0 <= i < aliases.drop_first().len() implies (
        #[trigger] aliases.drop_first()[i]).0 != name by {
            assert(aliases.drop_first()[i] == aliases[i + 1]);
        }
        lemma_alias_absent(aliases.drop_first(), name);
    }
}

/// A package that no row and no alias names is not in the database: its
/// lookup gives nothing, on every OS.
pub proof fn lemma_unknown_package(db: SeedView, package: Seq<char>, os: OsType)
    requires
        forall|i: int| 0 <= i < db.rows.len() ==> (#[trigger] db.rows[i]).0 != package,
        forall|i: int| 0 <= i < db.aliases.len() ==> (#[trigger] db.aliases[i]).0 != package,
    ensures
        seed_lookup(db, package, os) is None,
{
    lemma_first_mapping_absent(db.rows, package, os);
    lemma_alias_absent(db.aliases, package);
}

} // verus!
