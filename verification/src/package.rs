//! Creating an spf package from a package config: the checks on the
//! request, the metadata the package gets, and where each path of the
//! config is copied to.
use vstd::prelude::*;
use crate::paths::{
    ext_or_empty,
    FileProperty, extension, file_name, lemma_file_name_of_suffix, lemma_rfind_char_to, rfind_char,
    rfind_char_to,
};
use crate::sys::is_listed_arch;
use crate::text::{
    append_chars, before_char, before_first, chars_of, contains, contains_seq, ends_with,
    find_char_from, has_prefix, has_suffix, join, join_with, lemma_find_char_from, lines,
    prefix_before, prefix_before_char, replace, replace_all, seq_equal, slice_of, split,
    split_char, split_lines, starts_with, string_of, string_views, trim_end_matches, trim_suffixes,
    views,
};

verus! {

/// The ways creating a package can fail.
#[derive(Debug)]
pub enum PackageError {
    /// The package config is not named, or its name has an extension.
    ConfigHasExtension,
    /// The package config does not exist.
    ConfigNotFound,
    /// The output is not a `.spf` file.
    OutputNotSpf(String),
    /// A metadata entry without ` = ` between category and value.
    InvalidEntryFormat(String),
    /// A metadata entry whose category is not one spf knows.
    InvalidCategory(String),
    /// An `ARCH` entry whose architecture is not one a package may be made
    /// for.
    UnsupportedArch(String),
    /// A path entry whose destination does not start at the root.
    DestinationNotRooted(String),
    /// A path entry that is not `original:destination`.
    InvalidPathEntry(String),
}

/// Where a package is put together and archived to.
pub struct PackagePlan {
    /// The directory the package is put together in.
    pub output_dir: String,
    /// The metadata file inside that directory.
    pub meta_file: String,
    /// The package file.
    pub archive_name: String,
    /// The directory the archive holds: the package file's name without
    /// `.spf`.
    pub archive_dir_name: String,
}

/// The package file for the directory `dir`: `dir` with `.spf` added unless
/// it ends with it already.
pub open spec fn archive_name_of(dir: Seq<char>) -> Seq<char> {
    if has_suffix(dir, ".spf"@) {
        dir
    } else {
        dir + ".spf"@
    }
}

/// Checks a request to package the config `package_config` (which exists
/// where `config_exists`) into `output_location`, and gives where the
/// package is put together.
pub fn plan_package(package_config: &str, config_exists: bool, output_location: &str) -> (r: Result<
    PackagePlan,
    PackageError,
>)
    ensures
        if ext_or_empty(package_config@).len() != 0 || package_config@.len() == 0 {
            r matches Err(PackageError::ConfigHasExtension)
        } else if !config_exists {
            r matches Err(PackageError::ConfigNotFound)
        } else if !has_suffix(ext_or_empty(output_location@), "spf"@) {
            r matches Err(PackageError::OutputNotSpf(x)) && x@ == output_location@
        } else {
            &&& r is Ok
            &&& r->Ok_0.output_dir@ == trim_suffixes(output_location@, ".spf"@)
            &&& r->Ok_0.meta_file@ == r->Ok_0.output_dir@ + "/META"@
            &&& r->Ok_0.archive_name@ == archive_name_of(r->Ok_0.output_dir@)
            &&& file_name(r->Ok_0.archive_name@) is Some
            &&& r->Ok_0.archive_dir_name@ == crate::text::replace_all(
                file_name(r->Ok_0.archive_name@)->0,
                ".spf"@,
                Seq::<char>::empty(),
            )
        },
{
    let config_ext = match FileProperty::extension(package_config) {
        Ok(e) => e,
        Err(_) => String::new(),
    };
    if !config_ext.as_str().is_empty() || package_config.is_empty() {
        return Err(PackageError::ConfigHasExtension);
    } else if !config_exists {
        return Err(PackageError::ConfigNotFound);
    }
    let output_ext = match FileProperty::extension(output_location) {
        Ok(e) => e,
        Err(_) => String::new(),
    };
    if !ends_with(&chars_of(output_ext.as_str()), &chars_of("spf")) {
        return Err(PackageError::OutputNotSpf(string_of(&chars_of(output_location))));
    }
    let spf = chars_of(".spf");
    let dir = trim_end_matches(&chars_of(output_location), &spf);
    let mut meta = slice_of(&dir, 0, dir.len());
    append_chars(&mut meta, &chars_of("/META"));
    let mut archive = slice_of(&dir, 0, dir.len());
    if !ends_with(&dir, &spf) {
        append_chars(&mut archive, &spf);
    }
    proof {
        reveal_strlit(".spf");
        assert(dir@.subrange(0, dir@.len() as int) == dir@);
        if !has_suffix(dir@, ".spf"@) {
            assert(archive@.subrange(archive@.len() - 4, archive@.len() as int) == ".spf"@);
        }
        lemma_file_name_of_suffix(archive@, ".spf"@);
    }
    let archive_name = string_of(&archive);
    let name = match FileProperty::file_name(archive_name.as_str()) {
        Ok(n) => n,
        Err(_) => String::new(),
    };
    let dir_name = replace(&chars_of(name.as_str()), &spf, &Vec::new());
    Ok(
        PackagePlan {
            output_dir: string_of(&dir),
            meta_file: string_of(&meta),
            archive_name,
            archive_dir_name: string_of(&dir_name),
        },
    )
}


/// The categories a package config may give.
pub open spec fn is_meta_category(c: Seq<char>) -> bool {
    c == "PROJECT_NAME"@ || c == "VERSION"@ || c == "DESCRIPTION"@ || c == "LICENSE"@ || c
        == "AUTHORS"@ || c == "ARCH"@
}

/// Why spf refuses a metadata entry.
pub enum EntryFaultKind {
    /// No ` = ` between category and value.
    NoSeparator,
    /// A category spf does not know.
    UnknownCategory,
    /// An architecture a package may not be made for.
    UnlistedArch,
}

/// A metadata entry that spf refuses, and why.
pub struct EntryFault {
    pub entry: Seq<char>,
    pub kind: EntryFaultKind,
}

/// The value of a metadata entry: what follows its first ` = `, without
/// surrounding white space; empty where there is no ` = `.
pub open spec fn entry_value(e: Seq<char>) -> Seq<char> {
    let k = crate::text::find_from(e, " = "@, 0);
    if k < 0 {
        seq![]
    } else {
        crate::text::trim(e.subrange(k + 3, e.len() as int))
    }
}

/// The metadata entries of the config lines `ls` from line `k` on: empty
/// lines, comments and the start header are skipped, the end header ends
/// them, and the first entry whose category (what stands before ` = `) is
/// not one spf knows, or that gives an architecture a package may not be
/// made for, is refused.
pub open spec fn meta_entries_from(ls: Seq<Seq<char>>, k: int) -> Result<
    Seq<Seq<char>>,
    EntryFault,
>
    decreases ls.len() - k,
{
    if k < 0 || k >= ls.len() {
        Ok(seq![])
    } else {
        let e = ls[k];
        if e == ":::META DEFINE START:::"@ || e.len() == 0 || has_prefix(e, seq!['#']) {
            meta_entries_from(ls, k + 1)
        } else if e == ":::META DEFINE END:::"@ {
            Ok(seq![])
        } else if !is_meta_category(before_first(e, " = "@)) {
            if contains_seq(e, " = "@) {
                Err(EntryFault { entry: e, kind: EntryFaultKind::UnknownCategory })
            } else {
                Err(EntryFault { entry: e, kind: EntryFaultKind::NoSeparator })
            }
        } else if before_first(e, " = "@) == "ARCH"@ && !is_listed_arch(entry_value(e)) {
            Err(EntryFault { entry: e, kind: EntryFaultKind::UnlistedArch })
        } else {
            match meta_entries_from(ls, k + 1) {
                Ok(rest) => Ok(seq![e] + rest),
                Err(f) => Err(f),
            }
        }
    }
}

/// The metadata entries of a package config.
pub open spec fn meta_entries(config: Seq<char>) -> Result<Seq<Seq<char>>, EntryFault> {
    meta_entries_from(lines(config), 0)
}

/// `entries` put before what the rest of a scan gives.
pub open spec fn prepend_entries(
    entries: Seq<Seq<char>>,
    rest: Result<Seq<Seq<char>>, EntryFault>,
) -> Result<Seq<Seq<char>>, EntryFault> {
    match rest {
        Ok(r) => Ok(entries + r),
        Err(f) => Err(f),
    }
}

/// Whether the category `c` is `ARCH`.
fn is_arch_category(c: &Vec<char>) -> (r: bool)
    ensures
        r == (c@ == "ARCH"@),
{
    let s = string_of(c);
    crate::text::str_equal(s.as_str(), "ARCH")
}

/// Whether the value of the entry `e` is an architecture a package may be
/// made for.
fn value_is_listed_arch(e: &Vec<char>, sep: &Vec<char>) -> (r: bool)
    requires
        sep@ == " = "@,
    ensures
        r == is_listed_arch(entry_value(e@)),
{
    proof {
        crate::text::lemma_find_from(e@, sep@, 0);
        reveal_strlit(" = ");
    }
    let value = match crate::text::find(e, sep, 0) {
        Some(k) => {
            assert(crate::text::occurs_at(e@, sep@, k as int));
            assert(sep@.len() == 3);
            let n = e.len();
            assert(k + 3 <= n);
            let start: usize = k + 3;
            crate::text::trim_whitespace(&slice_of(e, start, e.len()))
        },
        None => Vec::new(),
    };
    let v = string_of(&value);
    crate::sys::arch_is_listed(v.as_str())
}

fn is_category(c: &Vec<char>) -> (r: bool)
    ensures
        r == is_meta_category(c@),
{
    let s = string_of(c);
    let c = s.as_str();
    crate::text::str_equal(c, "PROJECT_NAME") || crate::text::str_equal(c, "VERSION")
        || crate::text::str_equal(c, "DESCRIPTION") || crate::text::str_equal(c, "LICENSE")
        || crate::text::str_equal(c, "AUTHORS") || crate::text::str_equal(c, "ARCH")
}

/// The metadata entries of the package config `package_config`, in order:
/// what the package's metadata file holds, one entry a line.
pub fn collect_project_meta(package_config: &str) -> (r: Result<Vec<String>, PackageError>)
    ensures
        match (r, meta_entries(package_config@)) {
            (Ok(v), Ok(s)) => string_views(v@) == s,
            (Err(PackageError::InvalidEntryFormat(x)), Err(f)) => x@ == f.entry && f.kind
                is NoSeparator,
            (Err(PackageError::InvalidCategory(x)), Err(f)) => x@ == f.entry && f.kind
                is UnknownCategory,
            (Err(PackageError::UnsupportedArch(x)), Err(f)) => x@ == f.entry && f.kind
                is UnlistedArch,
            _ => false,
        },
{
    let contents = chars_of(package_config);
    let entries = split_lines(&contents);
    let start = chars_of(":::META DEFINE START:::");
    let end = chars_of(":::META DEFINE END:::");
    let sep = chars_of(" = ");
    let hash: Vec<char> = vec!['#'];
    let ghost ls = lines(contents@);
    let mut collected: Vec<String> = Vec::new();
    let mut k: usize = 0;
    while k < entries.len()
        invariant
            k <= entries.len(),
            views(entries@) == ls,
            ls == lines(package_config@),
            start@ == ":::META DEFINE START:::"@,
            end@ == ":::META DEFINE END:::"@,
            sep@ == " = "@,
            hash@ == seq!['#'],
            meta_entries(package_config@) == prepend_entries(
                string_views(collected@),
                meta_entries_from(ls, k as int),
            ),
        decreases entries.len() - k,
    {
        let entry = &entries[k];
        assert(entry@ == ls[k as int]);
        let ghost before = string_views(collected@);
        if seq_equal(entry, &start) || entry.len() == 0 || starts_with(entry, &hash) {
        } else if seq_equal(entry, &end) {
            assert(meta_entries_from(ls, k as int) == Ok::<Seq<Seq<char>>, EntryFault>(seq![]));
            assert(before + seq![] == before);
            return Ok(collected);
        } else if is_category(&prefix_before(entry, &sep)) {
            if is_arch_category(&prefix_before(entry, &sep)) && !value_is_listed_arch(entry, &sep) {
                return Err(PackageError::UnsupportedArch(string_of(entry)));
            }
            collected.push(string_of(entry));
            assert(string_views(collected@) == before + seq![entry@]);
            assert forall|rest: Seq<Seq<char>>| #![auto]
                before + (seq![entry@] + rest) == (before + seq![entry@]) + rest by {
                assert(before + (seq![entry@] + rest) =~= (before + seq![entry@]) + rest);
            }
        } else if contains(entry, &sep) {
            return Err(PackageError::InvalidCategory(string_of(entry)));
        } else {
            return Err(PackageError::InvalidEntryFormat(string_of(entry)));
        }
        k = k + 1;
    }
    assert(string_views(collected@) + seq![] == string_views(collected@));
    Ok(collected)
}

/// The first line of a package's metadata file: the version of spf that
/// packaged it.
pub open spec fn packaged_header() -> Seq<char> {
    "### PACKAGED WITH SPF "@ + crate::VERSION@ + " ###"@
}

/// The text of a package's metadata file: the header line, an empty line,
/// then its entries, one a line.
pub open spec fn created_meta_text(entries: Seq<Seq<char>>) -> Seq<char> {
    packaged_header() + seq!['\n', '\n'] + join(entries, seq!['\n'])
}

/// The text of a package's metadata file made of `entries`.
pub fn project_meta_text(entries: &Vec<String>) -> (r: String)
    ensures
        r@ == created_meta_text(string_views(entries@)),
{
    let mut parts: Vec<Vec<char>> = Vec::new();
    let mut i: usize = 0;
    while i < entries.len()
        invariant
            i <= entries.len(),
            views(parts@) == string_views(entries@).take(i as int),
        decreases entries.len() - i,
    {
        let ghost prev = parts@;
        parts.push(chars_of(entries[i].as_str()));
        assert(views(parts@) == views(prev).push(entries@[i as int]@));
        assert(views(parts@) =~= string_views(entries@).take(i + 1));
        i = i + 1;
    }
    assert(string_views(entries@).take(entries.len() as int) == string_views(entries@));
    let nl: Vec<char> = vec!['\n'];
    assert(nl@ == seq!['\n']);
    let body = join_with(&parts, &nl);
    let mut text = chars_of("### PACKAGED WITH SPF ");
    append_chars(&mut text, &chars_of(crate::VERSION));
    append_chars(&mut text, &chars_of(" ###"));
    let blank: Vec<char> = vec!['\n', '\n'];
    append_chars(&mut text, &blank);
    append_chars(&mut text, &body);
    string_of(&text)
}


/// What `s.split(c).next_back()` gives: `s` after its last `c`, or all of
/// `s`.
pub open spec fn after_last_char(s: Seq<char>, c: char) -> Seq<char> {
    s.subrange(rfind_char_to(s, c, s.len() as int) + 1, s.len() as int)
}

fn suffix_after_last_char(s: &Vec<char>, c: char) -> (r: Vec<char>)
    ensures
        r@ == after_last_char(s@, c),
{
    proof {
        lemma_rfind_char_to(s@, c, s@.len() as int);
    }
    match rfind_char(s, c, s.len()) {
        Some(k) => slice_of(s, k + 1, s.len()),
        None => slice_of(s, 0, s.len()),
    }
}

/// A path entry written correctly: both paths given, and the entry is the
/// original, a `:`, and the destination.
pub open spec fn path_entry_ok(entry: Seq<char>, original: Seq<char>, destination: Seq<char>) -> bool {
    &&& original.len() > 0
    &&& destination.len() > 0
    &&& original + seq![':'] + destination == entry
    &&& entry.contains(':')
}

/// Checks that `entry` is `original:destination`, with both paths given.
pub fn check_path_entry(entry: &str, original: &str, destination: &str) -> (r: Result<
    (),
    PackageError,
>)
    ensures
        match r {
            Ok(_) => path_entry_ok(entry@, original@, destination@),
            Err(e) => {
                &&& !path_entry_ok(entry@, original@, destination@)
                &&& e matches PackageError::InvalidPathEntry(x)
                &&& x@ == entry@
            },
        },
{
    let paths_are_included = !original.is_empty() && !destination.is_empty();
    let mut formatted = chars_of(original);
    formatted.push(':');
    append_chars(&mut formatted, &chars_of(destination));
    assert(formatted@ =~= original@ + seq![':'] + destination@);
    let e = chars_of(entry);
    let entry_formatting_is_preserved = seq_equal(&formatted, &e);
    let paths_are_split = crate::text::char_in(&e, ':');
    if !(paths_are_included && entry_formatting_is_preserved && paths_are_split) {
        return Err(PackageError::InvalidPathEntry(string_of(&e)));
    }
    Ok(())
}

/// The pieces from index `k` on, up to the first that equals `name`.
pub open spec fn take_until(ps: Seq<Seq<char>>, name: Seq<char>, k: int) -> Seq<Seq<char>>
    decreases ps.len() - k,
{
    if k < 0 || k >= ps.len() || ps[k] == name {
        seq![]
    } else {
        seq![ps[k]] + take_until(ps, name, k + 1)
    }
}

/// The directories inside the package to create for a file copied to
/// `destination`: the components of the destination after those of
/// `output_location`, up to the one named like the file.
pub open spec fn dirs_to_create(
    output_location: Seq<char>,
    destination: Seq<char>,
    name: Seq<char>,
) -> Seq<Seq<char>> {
    take_until(split_char(destination, '/'), name, split_char(output_location, '/').len() as int)
}

fn dirs_to_create_chars(output_location: &Vec<char>, destination: &Vec<char>, name: &Vec<char>) -> (r:
    Vec<Vec<char>>)
    ensures
        views(r@) == dirs_to_create(output_location@, destination@, name@),
{
    let extra_dirs = split(output_location, '/');
    let pieces = split(destination, '/');
    let ghost ps = views(pieces@);
    let mut dirs: Vec<Vec<char>> = Vec::new();
    let mut k = extra_dirs.len();
    while k < pieces.len()
        invariant
            ps == views(pieces@),
            extra_dirs.len() <= k,
            dirs_to_create(output_location@, destination@, name@) == views(dirs@) + take_until(
                ps,
                name@,
                k as int,
            ),
        decreases pieces.len() - k,
    {
        assert(ps[k as int] == pieces@[k as int]@);
        if seq_equal(&pieces[k], name) {
            assert(views(dirs@) + seq![] == views(dirs@));
            return dirs;
        }
        let ghost prev = views(dirs@);
        let piece = slice_of(&pieces[k], 0, pieces[k].len());
        assert(piece@ =~= ps[k as int]);
        dirs.push(piece);
        assert(views(dirs@) == prev.push(ps[k as int]));
        assert(prev + (seq![ps[k as int]] + take_until(ps, name@, k + 1)) == views(dirs@)
            + take_until(ps, name@, k + 1));
        k = k + 1;
    }
    assert(views(dirs@) + seq![] == views(dirs@));
    dirs
}

/// The directories to create inside the package `output_location` for the
/// file `original_file_name` copied to `destination_of_file`.
pub fn get_dirs_to_create(
    output_location: &str,
    destination_of_file: String,
    original_file_name: &str,
) -> (r: Vec<String>)
    ensures
        string_views(r@) == dirs_to_create(
            output_location@,
            destination_of_file@,
            original_file_name@,
        ),
{
    let dirs = dirs_to_create_chars(
        &chars_of(output_location),
        &chars_of(destination_of_file.as_str()),
        &chars_of(original_file_name),
    );
    let mut r: Vec<String> = Vec::new();
    let mut i: usize = 0;
    while i < dirs.len()
        invariant
            i <= dirs.len(),
            string_views(r@) == views(dirs@).take(i as int),
        decreases dirs.len() - i,
    {
        let ghost prev = r@;
        r.push(string_of(&dirs[i]));
        assert(string_views(r@) == string_views(prev).push(dirs@[i as int]@));
        assert(string_views(r@) =~= views(dirs@).take(i + 1));
        i = i + 1;
    }
    assert(views(dirs@).take(dirs.len() as int) == views(dirs@));
    r
}


/// Where a path of the config is copied to inside the package: the
/// directories to create, and the file's destination.
pub struct PathCopy {
    /// The file to copy.
    pub original: String,
    /// The directory inside the package that the file is copied into.
    pub directories: String,
    /// Where the file is copied to.
    pub destination: String,
}

/// Where the file named `name`, whose destination in the config is
/// `destination`, goes inside the package `output_location`: the
/// destination put under the package (doubled `/` made single) names the
/// file, or, where it ends with `/`, the directory the file keeps its name
/// in. The first part is the directory to create: what stands before the
/// last `/` of the file's path.
pub open spec fn copy_target(output_location: Seq<char>, destination: Seq<char>, name: Seq<char>) -> (
    Seq<char>,
    Seq<char>,
) {
    let destination_of_file = replace_all(
        output_location + seq!['/'] + destination,
        seq!['/', '/'],
        seq!['/'],
    );
    let target = if has_suffix(destination_of_file, seq!['/']) {
        destination_of_file + name
    } else {
        destination_of_file
    };
    let cut = rfind_char_to(target, '/', target.len() as int);
    let dirs = if cut < 0 {
        seq![]
    } else {
        target.subrange(0, cut)
    };
    (dirs, target)
}

/// A path entry that spf refuses: a destination that does not start at the
/// root, or an entry that is not `original:destination`.
pub struct PathFault {
    pub text: Seq<char>,
    pub not_rooted: bool,
}

/// The copies that the path entries from line `k` on ask for: empty lines,
/// comments and the start header are skipped, the end header ends them, an
/// entry whose original has no file name is skipped, and the first faulty
/// entry is refused.
pub open spec fn copies_from(ls: Seq<Seq<char>>, k: int, output_location: Seq<char>) -> Result<
    Seq<(Seq<char>, Seq<char>, Seq<char>)>,
    PathFault,
>
    decreases ls.len() - k,
{
    if k < 0 || k >= ls.len() {
        Ok(seq![])
    } else {
        let e = ls[k];
        if e == ":::PATH DEFINE START:::"@ || e.len() == 0 || has_prefix(e, seq!['#']) {
            copies_from(ls, k + 1, output_location)
        } else if e == ":::PATH DEFINE END:::"@ {
            Ok(seq![])
        } else {
            let original = before_char(e, ':');
            let destination = after_last_char(e, ':');
            if !has_prefix(destination, seq!['/']) {
                Err(PathFault { text: destination, not_rooted: true })
            } else if !path_entry_ok(e, original, destination) {
                Err(PathFault { text: e, not_rooted: false })
            } else {
                match file_name(original) {
                    Some(name) => {
                        let t = copy_target(output_location, destination, name);
                        match copies_from(ls, k + 1, output_location) {
                            Ok(rest) => Ok(seq![(original, t.0, t.1)] + rest),
                            Err(f) => Err(f),
                        }
                    },
                    None => copies_from(ls, k + 1, output_location),
                }
            }
        }
    }
}

/// The index of the first line at or after `k` that starts the path
/// section, or -1.
pub open spec fn path_section_from(ls: Seq<Seq<char>>, k: int) -> int
    decreases ls.len() - k,
{
    if k < 0 || k >= ls.len() {
        -1
    } else if ls[k] == ":::PATH DEFINE START:::"@ {
        k
    } else {
        path_section_from(ls, k + 1)
    }
}

/// The copies that a package config asks for: those of the entries after
/// the first start header of its path section.
pub open spec fn package_copies(config: Seq<char>, output_location: Seq<char>) -> Result<
    Seq<(Seq<char>, Seq<char>, Seq<char>)>,
    PathFault,
> {
    let ls = lines(config);
    let s = path_section_from(ls, 0);
    if s < 0 {
        Ok(seq![])
    } else {
        copies_from(ls, s + 1, output_location)
    }
}

/// The views of path copies.
pub open spec fn copy_views(v: Seq<PathCopy>) -> Seq<(Seq<char>, Seq<char>, Seq<char>)> {
    v.map_values(|c: PathCopy| (c.original@, c.directories@, c.destination@))
}

/// `copies` put before what the rest of a scan gives.
pub open spec fn prepend_copies(
    copies: Seq<(Seq<char>, Seq<char>, Seq<char>)>,
    rest: Result<Seq<(Seq<char>, Seq<char>, Seq<char>)>, PathFault>,
) -> Result<Seq<(Seq<char>, Seq<char>, Seq<char>)>, PathFault> {
    match rest {
        Ok(r) => Ok(copies + r),
        Err(f) => Err(f),
    }
}

fn copy_for(output_location: &Vec<char>, destination: &Vec<char>, name: &Vec<char>) -> (r: (
    Vec<char>,
    Vec<char>,
))
    ensures
        (r.0@, r.1@) == copy_target(output_location@, destination@, name@),
{
    let mut joined = slice_of(output_location, 0, output_location.len());
    joined.push('/');
    append_chars(&mut joined, destination);
    assert(joined@ =~= output_location@ + seq!['/'] + destination@);
    let double: Vec<char> = vec!['/', '/'];
    let single: Vec<char> = vec!['/'];
    assert(double@ == seq!['/', '/']);
    assert(single@ == seq!['/']);
    let mut target = replace(&joined, &double, &single);
    if ends_with(&target, &single) {
        append_chars(&mut target, name);
    }
    proof {
        lemma_rfind_char_to(target@, '/', target.len() as int);
    }
    let directories = match rfind_char(&target, '/', target.len()) {
        Some(cut) => slice_of(&target, 0, cut),
        None => Vec::new(),
    };
    assert(directories@ =~= copy_target(output_location@, destination@, name@).0);
    (directories, target)
}

/// Where each path entry of the package config `package_config` is copied
/// to inside the package being put together at `output_location`.
pub fn plan_package_paths(package_config: &str, output_location: &str) -> (r: Result<
    Vec<PathCopy>,
    PackageError,
>)
    ensures
        match (r, package_copies(package_config@, output_location@)) {
            (Ok(v), Ok(s)) => copy_views(v@) == s,
            (Err(PackageError::DestinationNotRooted(x)), Err(f)) => x@ == f.text && f.not_rooted,
            (Err(PackageError::InvalidPathEntry(x)), Err(f)) => x@ == f.text && !f.not_rooted,
            _ => false,
        },
{
    let contents = chars_of(package_config);
    let out = chars_of(output_location);
    let entries = split_lines(&contents);
    let start = chars_of(":::PATH DEFINE START:::");
    let end = chars_of(":::PATH DEFINE END:::");
    let hash: Vec<char> = vec!['#'];
    let root: Vec<char> = vec!['/'];
    let ghost ls = lines(contents@);
    let mut k: usize = 0;
    while k < entries.len() && !seq_equal(&entries[k], &start)
        invariant
            k <= entries.len(),
            views(entries@) == ls,
            start@ == ":::PATH DEFINE START:::"@,
            path_section_from(ls, 0) == path_section_from(ls, k as int),
        decreases entries.len() - k,
    {
        assert(entries@[k as int]@ == ls[k as int]);
        k = k + 1;
    }
    let mut copies: Vec<PathCopy> = Vec::new();
    if k == entries.len() {
        assert(package_copies(package_config@, output_location@) == Ok::<
            Seq<(Seq<char>, Seq<char>, Seq<char>)>,
            PathFault,
        >(seq![]));
        assert(copy_views(copies@) =~= seq![]);
        return Ok(copies);
    }
    assert(entries@[k as int]@ == ls[k as int]);
    k = k + 1;
    while k < entries.len()
        invariant
            1 <= k <= entries.len(),
            views(entries@) == ls,
            ls == lines(package_config@),
            out@ == output_location@,
            start@ == ":::PATH DEFINE START:::"@,
            end@ == ":::PATH DEFINE END:::"@,
            hash@ == seq!['#'],
            root@ == seq!['/'],
            package_copies(package_config@, output_location@) == prepend_copies(
                copy_views(copies@),
                copies_from(ls, k as int, output_location@),
            ),
        decreases entries.len() - k,
    {
        let entry = &entries[k];
        assert(entry@ == ls[k as int]);
        let ghost before = copy_views(copies@);
        if seq_equal(entry, &start) || entry.len() == 0 || starts_with(entry, &hash) {
        } else if seq_equal(entry, &end) {
            assert(before + seq![] == before);
            return Ok(copies);
        } else {
            let original = prefix_before_char(entry, ':');
            let destination = suffix_after_last_char(entry, ':');
            if !starts_with(&destination, &root) {
                return Err(PackageError::DestinationNotRooted(string_of(&destination)));
            }
            let o = string_of(&original);
            let d = string_of(&destination);
            let e = string_of(entry);
            match check_path_entry(e.as_str(), o.as_str(), d.as_str()) {
                Ok(_) => {},
                Err(err) => return Err(err),
            }
            match crate::paths::file_name_of(&original) {
                Some(name) => {
                    let (directories, dest) = copy_for(&out, &destination, &name);
                    let copy = PathCopy {
                        original: o,
                        directories: string_of(&directories),
                        destination: string_of(&dest),
                    };
                    copies.push(copy);
                    assert(copy_views(copies@) == before + seq![
                        (original@, directories@, dest@),
                    ]);
                    assert forall|rest: Seq<(Seq<char>, Seq<char>, Seq<char>)>| #![auto]
                        before + (seq![(original@, directories@, dest@)] + rest) == (before
                            + seq![(original@, directories@, dest@)]) + rest by {
                        assert(before + (seq![(original@, directories@, dest@)] + rest) =~= (
                        before + seq![(original@, directories@, dest@)]) + rest);
                    }
                },
                None => {},
            }
        }
        k = k + 1;
    }
    assert(copy_views(copies@) + seq![] == copy_views(copies@));
    Ok(copies)
}


/// `e` is the non-empty path `o`, one `:`, and the non-empty path `d`.
pub open spec fn is_single_colon_split(e: Seq<char>, o: Seq<char>, d: Seq<char>) -> bool {
    &&& o.len() > 0
    &&& d.len() > 0
    &&& !o.contains(':')
    &&& !d.contains(':')
    &&& e == o + seq![':'] + d
}

/// The form of path entries: an entry is accepted exactly where it is two
/// non-empty paths with a single `:` between them, and then the original
/// and the destination read from it are those two paths.
pub proof fn lemma_path_entry_form(e: Seq<char>)
    ensures
        path_entry_ok(e, before_char(e, ':'), after_last_char(e, ':')) <==> exists|
            o: Seq<char>,
            d: Seq<char>,
        | is_single_colon_split(e, o, d),
        forall|o: Seq<char>, d: Seq<char>|
            is_single_colon_split(e, o, d) ==> before_char(e, ':') == o && after_last_char(e, ':')
                == d,
{
    lemma_find_char_from(e, ':', 0);
    lemma_rfind_char_to(e, ':', e.len() as int);
    let j = find_char_from(e, ':', 0);
    let r = rfind_char_to(e, ':', e.len() as int);
    assert forall|o: Seq<char>, d: Seq<char>| is_single_colon_split(e, o, d) implies before_char(
        e,
        ':',
    ) == o && after_last_char(e, ':') == d by {
        let n = o.len() as int;
        assert(e[n] == ':');
        if 0 <= j < n {
            assert(o[j] == e[j]);
        }
        assert(j == n);
        if r > n {
            assert(d[r - n - 1] == e[r]);
        }
        assert(r == n);
        assert(e.subrange(0, n) =~= o);
        assert(e.subrange(n + 1, e.len() as int) =~= d);
    }
    let o = before_char(e, ':');
    let d = after_last_char(e, ':');
    if path_entry_ok(e, o, d) {
        if j < 0 {
            let i = choose|i: int| 0 <= i < e.len() && e[i] == ':';
            assert(e[i] != ':');
        }
        assert forall|i: int| 0 <= i < o.len() implies o[i] != ':' by {
            assert(o[i] == e[i]);
        }
        assert forall|i: int| 0 <= i < d.len() implies d[i] != ':' by {
            assert(d[i] == e[r + 1 + i]);
        }
        assert(is_single_colon_split(e, o, d));
    }
    if exists|o2: Seq<char>, d2: Seq<char>| is_single_colon_split(e, o2, d2) {
        let (o2, d2) = choose|o2: Seq<char>, d2: Seq<char>| is_single_colon_split(e, o2, d2);
        assert(before_char(e, ':') == o2 && after_last_char(e, ':') == d2);
        assert(o2[0] == e[0]);
        assert(e[o2.len() as int] == ':');
    }
}


/// Each metadata entry of the config lines from `k` on is one of those lines.
proof fn lemma_meta_entries_are_lines(ls: Seq<Seq<char>>, k: int)
    requires
        0 <= k,
    ensures
        meta_entries_from(ls, k) matches Ok(es) ==> forall|i: int|
            0 <= i < es.len() ==> ls.contains(#[trigger] es[i]),
    decreases ls.len() - k,
{
    if 0 <= k < ls.len() {
        lemma_meta_entries_are_lines(ls, k + 1);
        let e = ls[k];
        if let Ok(es) = meta_entries_from(ls, k) {
            assert forall|i: int| 0 <= i < es.len() implies ls.contains(#[trigger] es[i]) by {
                if !(e == ":::META DEFINE START:::"@ || e.len() == 0 || has_prefix(e, seq!['#']))
                    && e != ":::META DEFINE END:::"@ && i == 0 {
                    assert(es[0] == ls[k]);
                } else if !(e == ":::META DEFINE START:::"@ || e.len() == 0 || has_prefix(
                    e,
                    seq!['#'],
                )) && e != ":::META DEFINE END:::"@ {
                    let rest = meta_entries_from(ls, k + 1)->Ok_0;
                    assert(es[i] == rest[i - 1]);
                }
            }
        }
    }
}

/// What installing reads back of the metadata that creating a package
/// writes: the value of a category in the written metadata file is the one
/// on the first entry of the config that gives it.
pub proof fn lemma_created_meta_reads_back(config: Seq<char>, category: Seq<char>)
    requires
        meta_entries(config) is Ok,
        meta_entries(config)->Ok_0.len() > 0,
    ensures
        ({
            let es = meta_entries(config)->Ok_0;
            let k = crate::metadata::first_value_line(es, category, 0);
            crate::metadata::meta_value(created_meta_text(es), category) == if k < 0 {
                None
            } else {
                Some(
                    crate::text::trim(
                        crate::text::trim_prefixes(es[k], crate::metadata::value_prefix(category)),
                    ),
                )
            }
        }),
{
    let ls = lines(config);
    let es = meta_entries(config)->Ok_0;
    crate::text::lemma_lines_no_newline(config, 0);
    lemma_meta_entries_are_lines(ls, 0);
    assert forall|i: int| 0 <= i < es.len() implies !(#[trigger] es[i]).contains('\n') by {
        let j = choose|j: int| 0 <= j < ls.len() && ls[j] == es[i];
        assert(!ls[j].contains('\n'));
    }
    crate::text::lemma_split_join(es, '\n');
    let h = packaged_header();
    reveal_strlit("### PACKAGED WITH SPF ");
    reveal_strlit(" ###");
    reveal_strlit("v0.5.1");
    assert(crate::VERSION@ == "v0.5.1"@);
    assert(!h.contains('\n')) by {
        reveal_strlit("### PACKAGED WITH SPF v0.5.1 ###");
        assert(h =~= "### PACKAGED WITH SPF v0.5.1 ###"@);
    }
    crate::metadata::lemma_meta_value_after_header(h, join(es, seq!['\n']), category);
}

} // verus!
