//! Listing installed packages.
use vstd::prelude::*;
use crate::text::{append_chars, chars_of, contains, contains_seq, string_of, string_views};

verus! {

/// Listing fails where nothing is installed, or nothing matches.
#[derive(Debug)]
pub enum ListError {
    NoPackagesInstalled,
    NoMatch(String),
}

/// What the listing shows of an installed package.
pub struct PackageSummary {
    pub name: String,
    pub version: String,
    pub description: String,
}

/// How a package is shown in the listing.
pub open spec fn summary_entry(p: PackageSummary) -> Seq<char> {
    "> "@ + p.name@ + "-"@ + p.version@ + "\n    "@ + p.description@
}

/// The entries of the packages among `ps` whose name holds `pattern`.
pub open spec fn matching_entries(ps: Seq<PackageSummary>, pattern: Seq<char>) -> Seq<Seq<char>>
    decreases ps.len(),
{
    if ps.len() == 0 {
        seq![]
    } else if contains_seq(ps.last().name@, pattern) {
        matching_entries(ps.drop_last(), pattern).push(summary_entry(ps.last()))
    } else {
        matching_entries(ps.drop_last(), pattern)
    }
}

fn entry_of(p: &PackageSummary) -> (r: String)
    ensures
        r@ == summary_entry(*p),
{
    let mut v = chars_of("> ");
    append_chars(&mut v, &chars_of(p.name.as_str()));
    append_chars(&mut v, &chars_of("-"));
    append_chars(&mut v, &chars_of(p.version.as_str()));
    append_chars(&mut v, &chars_of("\n    "));
    append_chars(&mut v, &chars_of(p.description.as_str()));
    string_of(&v)
}

/// The lines that list the installed packages `installed` whose names hold
/// `optional_string`: a heading, then one entry a package. Nothing
/// installed is an error, and so is a pattern that no name holds.
pub fn list_packages(installed: &Vec<PackageSummary>, optional_string: &str) -> (r: Result<
    Vec<String>,
    ListError,
>)
    ensures
        ({
            let entries = matching_entries(installed@, optional_string@);
            if installed@.len() == 0 {
                r matches Err(ListError::NoPackagesInstalled)
            } else if optional_string@.len() == 0 {
                r matches Ok(v) && string_views(v@) == seq!["Installed packages:\n"@] + entries
            } else if entries.len() == 0 {
                r matches Err(ListError::NoMatch(x)) && x@ == optional_string@
            } else {
                r matches Ok(v) && string_views(v@) == seq!["Matching installed packages:\n"@]
                    + entries
            }
        }),
{
    if installed.len() == 0 {
        return Err(ListError::NoPackagesInstalled);
    }
    let pattern = chars_of(optional_string);
    let mut entries: Vec<String> = Vec::new();
    let mut i: usize = 0;
    while i < installed.len()
        invariant
            i <= installed.len(),
            pattern@ == optional_string@,
            string_views(entries@) == matching_entries(installed@.take(i as int), optional_string@),
        decreases installed.len() - i,
    {
        proof {
            assert(installed@.take(i + 1).drop_last() == installed@.take(i as int));
            assert(installed@.take(i + 1).last() == installed@[i as int]);
        }
        if contains(&chars_of(installed[i].name.as_str()), &pattern) {
            let ghost prev = entries@;
            entries.push(entry_of(&installed[i]));
            assert(string_views(entries@) == string_views(prev).push(
                summary_entry(installed@[i as int]),
            ));
        }
        i = i + 1;
    }
    assert(installed@.take(installed.len() as int) == installed@);
    let heading = if optional_string.is_empty() {
        string_of(&chars_of("Installed packages:\n"))
    } else if entries.len() == 0 {
        return Err(ListError::NoMatch(string_of(&pattern)));
    } else {
        string_of(&chars_of("Matching installed packages:\n"))
    };
    let ghost h = heading@;
    let mut lines: Vec<String> = Vec::new();
    lines.push(heading);
    let mut k: usize = 0;
    while k < entries.len()
        invariant
            k <= entries.len(),
            lines@.len() == k + 1,
            string_views(lines@)[0] == h,
            string_views(lines@) == seq![h] + string_views(entries@).take(
                k as int,
            ),
        decreases entries.len() - k,
    {
        let ghost prev = lines@;
        lines.push(string_of(&chars_of(entries[k].as_str())));
        assert(string_views(lines@) == string_views(prev).push(entries@[k as int]@));
        assert(string_views(lines@) =~= seq![h] + string_views(
            entries@,
        ).take(k + 1));
        k = k + 1;
    }
    assert(string_views(entries@).take(entries.len() as int) == string_views(entries@));
    Ok(lines)
}

/// The packages listed for a pattern are exactly the installed packages
/// whose name holds the pattern anywhere, in the order they are installed,
/// each shown by its entry.
pub proof fn lemma_listed_are_those_holding_pattern(ps: Seq<PackageSummary>, pattern: Seq<char>)
    ensures
        matching_entries(ps, pattern) == ps.filter(
            |p: PackageSummary| contains_seq(p.name@, pattern),
        ).map_values(|p: PackageSummary| summary_entry(p)),
    decreases ps.len(),
{
    reveal(Seq::filter);
    if ps.len() > 0 {
        lemma_listed_are_those_holding_pattern(ps.drop_last(), pattern);
        let pred = |p: PackageSummary| contains_seq(p.name@, pattern);
        let f = |p: PackageSummary| summary_entry(p);
        let sub = ps.drop_last().filter(pred);
        if pred(ps.last()) {
            assert(sub.push(ps.last()).map_values(f) =~= sub.map_values(f).push(f(ps.last())));
        }
    }
}

/// An installed package whose name holds the pattern somewhere (not only
/// at its start) is listed.
pub proof fn lemma_package_with_pattern_is_listed(ps: Seq<PackageSummary>, pattern: Seq<char>)
    ensures
        forall|j: int|
            0 <= j < ps.len() && contains_seq(ps[j].name@, pattern) ==> matching_entries(
                ps,
                pattern,
            ).contains(summary_entry(#[trigger] ps[j])),
    decreases ps.len(),
{
    if ps.len() > 0 {
        let q = ps.drop_last();
        lemma_package_with_pattern_is_listed(q, pattern);
        let m = matching_entries(ps, pattern);
        let mq = matching_entries(q, pattern);
        assert forall|j: int|
            0 <= j < ps.len() && contains_seq(ps[j].name@, pattern) implies m.contains(
            summary_entry(#[trigger] ps[j]),
        ) by {
            if j < ps.len() - 1 {
                assert(ps[j] == q[j]);
                let k = choose|k: int| 0 <= k < mq.len() && mq[k] == summary_entry(q[j]);
                assert(m[k] == mq[k]);
            } else {
                assert(ps[j] == ps.last());
                assert(m[mq.len() as int] == summary_entry(ps.last()));
            }
        }
    }
}

} // verus!
