//! Removing installed packages: the packages a request names, how they are
//! listed before removal, and the paths a package's metadata records.
use vstd::prelude::*;
use crate::text::{
    chars_of, has_prefix, join, join_with, lines, split_lines, starts_with, string_of,
    string_views, views,
};

verus! {

/// Removing fails where no package is named.
#[derive(Debug)]
pub enum RemoveError {
    NoPackages,
}

/// `s` with each element after its first occurrence dropped.
pub open spec fn dedup(s: Seq<Seq<char>>) -> Seq<Seq<char>>
    decreases s.len(),
{
    if s.len() == 0 {
        seq![]
    } else if dedup(s.drop_last()).contains(s.last()) {
        dedup(s.drop_last())
    } else {
        dedup(s.drop_last()).push(s.last())
    }
}

/// No element occurs twice.
pub open spec fn no_duplicates(s: Seq<Seq<char>>) -> bool {
    forall|i: int, j: int| 0 <= i < j < s.len() ==> s[i] != s[j]
}

/// What dropping repeated packages keeps: every package named, each once.
pub proof fn lemma_dedup(s: Seq<Seq<char>>)
    ensures
        no_duplicates(dedup(s)),
        forall|x: Seq<char>| dedup(s).contains(x) <==> s.contains(x),
    decreases s.len(),
{
    if s.len() > 0 {
        let p = s.drop_last();
        lemma_dedup(p);
        assert forall|x: Seq<char>| dedup(s).contains(x) <==> s.contains(x) by {
            if s.contains(x) && x != s.last() {
                let i = choose|i: int| 0 <= i < s.len() && s[i] == x;
                assert(p[i] == x);
            }
            if p.contains(x) {
                let i = choose|i: int| 0 <= i < p.len() && p[i] == x;
                assert(s[i] == x);
            }
            if !dedup(p).contains(s.last()) {
                assert(dedup(s).last() == s.last());
                if dedup(s).contains(x) && x != s.last() {
                    let i = choose|i: int| 0 <= i < dedup(s).len() && dedup(s)[i] == x;
                    assert(dedup(p)[i] == x);
                }
                if dedup(p).contains(x) {
                    let i = choose|i: int| 0 <= i < dedup(p).len() && dedup(p)[i] == x;
                    assert(dedup(s)[i] == x);
                }
            }
            assert(s.last() == s[s.len() - 1]);
        }
    }
}

fn contains_string(v: &Vec<String>, x: &str) -> (r: bool)
    ensures
        r == string_views(v@).contains(x@),
{
    crate::sys::args_contains(v, x)
}

/// The packages to remove: those named, each once, in the order first
/// named; naming none is an error.
pub fn plan_removal(packages_to_remove: Vec<String>) -> (r: Result<Vec<String>, RemoveError>)
    ensures
        match r {
            Ok(v) => packages_to_remove@.len() > 0 && string_views(v@) == dedup(
                string_views(packages_to_remove@),
            ),
            Err(e) => packages_to_remove@.len() == 0 && e matches RemoveError::NoPackages,
        },
{
    if packages_to_remove.len() == 0 {
        return Err(RemoveError::NoPackages);
    }
    let ghost input = string_views(packages_to_remove@);
    let mut kept: Vec<String> = Vec::new();
    let mut i: usize = 0;
    while i < packages_to_remove.len()
        invariant
            i <= packages_to_remove.len(),
            input == string_views(packages_to_remove@),
            string_views(kept@) == dedup(input.take(i as int)),
        decreases packages_to_remove.len() - i,
    {
        proof {
            assert(input.take(i + 1).drop_last() == input.take(i as int));
            assert(input.take(i + 1).last() == packages_to_remove@[i as int]@);
        }
        let name = packages_to_remove[i].as_str();
        if !contains_string(&kept, name) {
            let ghost prev = kept@;
            kept.push(string_of(&chars_of(name)));
            assert(string_views(kept@) == string_views(prev).push(name@));
        }
        i = i + 1;
    }
    assert(input.take(packages_to_remove.len() as int) == input);
    Ok(kept)
}

/// How the packages about to be removed are listed: on one line between
/// spaces, or one a line where there are more than five.
pub fn removal_listing(package_list: &Vec<String>) -> (r: String)
    ensures
        r@ == join(
            string_views(package_list@),
            if package_list@.len() > 5 {
                seq!['\n']
            } else {
                seq![' ']
            },
        ),
{
    let mut parts: Vec<Vec<char>> = Vec::new();
    let mut i: usize = 0;
    while i < package_list.len()
        invariant
            i <= package_list.len(),
            views(parts@) == string_views(package_list@).take(i as int),
        decreases package_list.len() - i,
    {
        let ghost prev = parts@;
        parts.push(chars_of(package_list[i].as_str()));
        assert(views(parts@) == views(prev).push(package_list@[i as int]@));
        assert(views(parts@) =~= string_views(package_list@).take(i + 1));
        i = i + 1;
    }
    assert(string_views(package_list@).take(package_list.len() as int) == string_views(
        package_list@,
    ));
    let sep: Vec<char> = if package_list.len() > 5 {
        vec!['\n']
    } else {
        vec![' ']
    };
    assert(sep@ == if package_list@.len() > 5 {
        seq!['\n']
    } else {
        seq![' ']
    });
    string_of(&join_with(&parts, &sep))
}

/// The lines of `ls` that are paths: those that begin with `/`.
pub open spec fn path_lines(ls: Seq<Seq<char>>) -> Seq<Seq<char>>
    decreases ls.len(),
{
    if ls.len() == 0 {
        seq![]
    } else if has_prefix(ls.last(), seq!['/']) {
        path_lines(ls.drop_last()).push(ls.last())
    } else {
        path_lines(ls.drop_last())
    }
}

/// The paths that the metadata of an installed package records: its lines
/// that begin with `/`, in order.
pub fn installed_paths(meta_contents: &str) -> (r: Vec<String>)
    ensures
        string_views(r@) == path_lines(lines(meta_contents@)),
{
    let entries = split_lines(&chars_of(meta_contents));
    let ghost ls = views(entries@);
    let root: Vec<char> = vec!['/'];
    assert(root@ == seq!['/']);
    let mut paths: Vec<String> = Vec::new();
    let mut i: usize = 0;
    while i < entries.len()
        invariant
            i <= entries.len(),
            ls == views(entries@),
            root@ == seq!['/'],
            string_views(paths@) == path_lines(ls.take(i as int)),
        decreases entries.len() - i,
    {
        proof {
            assert(ls.take(i + 1).drop_last() == ls.take(i as int));
            assert(ls.take(i + 1).last() == entries@[i as int]@);
        }
        if starts_with(&entries[i], &root) {
            let ghost prev = paths@;
            paths.push(string_of(&entries[i]));
            assert(string_views(paths@) == string_views(prev).push(entries@[i as int]@));
        }
        i = i + 1;
    }
    assert(ls.take(entries.len() as int) == ls);
    paths
}

} // verus!
