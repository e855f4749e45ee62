//! The metadata of spf packages: the `CATEGORY = value` lines of a `META`
//! file, and the categories a package is described by.
use vstd::prelude::*;
use crate::text::{
    before_first, chars_of, has_prefix, join, lemma_split_join, lemma_trim_leading_space,
    occurs_at, prefix_before, split, split_char, starts_with, string_of, trim, trim_prefixes,
    trim_prefixes_from, trim_start_matches, trim_whitespace, views,
};

verus! {

/// Where spf keeps the metadata of installed packages.
pub const PACKAGE_INSTALL_PATH: &'static str = "/usr/share/spf/packages/";

/// What stands before the value of `category` on its line: the category
/// and ` =`.
pub open spec fn value_prefix(category: Seq<char>) -> Seq<char> {
    category + seq![' ', '=']
}

/// A line that gives the value of `category`: it begins with the category
/// and ` =`, and is not a comment.
pub open spec fn is_value_line(line: Seq<char>, category: Seq<char>) -> bool {
    has_prefix(line, value_prefix(category)) && !has_prefix(line, seq!['#'])
}

/// The index of the first line at or after `k` that gives the value of
/// `category`, or -1.
pub open spec fn first_value_line(ls: Seq<Seq<char>>, category: Seq<char>, k: int) -> int
    decreases ls.len() - k,
{
    if k < 0 || k >= ls.len() {
        -1
    } else if is_value_line(ls[k], category) {
        k
    } else {
        first_value_line(ls, category, k + 1)
    }
}

/// What `first_value_line` returns: the first value line at or after `k`.
pub proof fn lemma_first_value_line(ls: Seq<Seq<char>>, category: Seq<char>, k: int)
    requires
        0 <= k,
    ensures
        -1 <= first_value_line(ls, category, k) < ls.len(),
        first_value_line(ls, category, k) >= 0 ==> k <= first_value_line(ls, category, k)
            && is_value_line(ls[first_value_line(ls, category, k)], category),
        forall|j: int|
            k <= j < ls.len() && (first_value_line(ls, category, k) < 0 || j < first_value_line(
                ls,
                category,
                k,
            )) ==> !is_value_line(#[trigger] ls[j], category),
    decreases ls.len() - k,
{
    if k < ls.len() && !is_value_line(ls[k], category) {
        lemma_first_value_line(ls, category, k + 1);
    }
}

/// The value of `category` in metadata `contents`: on the first line (lines
/// cut at `\n`) that gives it, what follows the category and ` =` (every
/// repetition of that prefix removed), without surrounding white space.
pub open spec fn meta_value(contents: Seq<char>, category: Seq<char>) -> Option<Seq<char>> {
    let ls = split_char(contents, '\n');
    let k = first_value_line(ls, category, 0);
    if k < 0 {
        None
    } else {
        Some(trim(trim_prefixes(ls[k], value_prefix(category))))
    }
}

/// The metadata of a package: the text of its metadata file, and where
/// that file was read from.
#[derive(Clone)]
pub struct Meta {
    meta_file_contents: String,
    meta_file: String,
}

impl Meta {
    /// The text of the metadata file.
    pub closed spec fn contents(&self) -> Seq<char> {
        self.meta_file_contents@
    }

    /// The path the metadata was read from.
    pub closed spec fn file(&self) -> Seq<char> {
        self.meta_file@
    }

    /// Metadata read from `loaded_meta_file`, whose text is
    /// `meta_file_contents`.
    pub fn from(loaded_meta_file: &str, meta_file_contents: String) -> (m: Meta)
        ensures
            m.contents() == meta_file_contents@,
            m.file() == loaded_meta_file@,
    {
        Meta { meta_file: string_of(&chars_of(loaded_meta_file)), meta_file_contents }
    }

    /// The path the metadata was read from.
    pub fn meta_file(&self) -> (r: &str)
        ensures
            r@ == self.file(),
    {
        self.meta_file.as_str()
    }

    /// The value of `category`, if a line gives it.
    pub fn find_value(&self, category: &str) -> (r: Option<String>)
        ensures
            match r {
                Some(v) => meta_value(self.contents(), category@) == Some(v@),
                None => meta_value(self.contents(), category@) is None,
            },
    {
        let contents = chars_of(self.meta_file_contents.as_str());
        let entries = split(&contents, '\n');
        let mut prefix = chars_of(category);
        prefix.push(' ');
        prefix.push('=');
        let hash: Vec<char> = vec!['#'];
        assert(hash@ == seq!['#']);
        let ghost ls = split_char(contents@, '\n');
        let mut k: usize = 0;
        while k < entries.len()
            invariant
                k <= entries.len(),
                views(entries@) == ls,
                ls == split_char(self.contents(), '\n'),
                prefix@ == value_prefix(category@),
                hash@ == seq!['#'],
                first_value_line(ls, category@, 0) == first_value_line(ls, category@, k as int),
            decreases entries.len() - k,
        {
            let entry = &entries[k];
            assert(entry@ == ls[k as int]);
            if starts_with(entry, &prefix) && !starts_with(entry, &hash) {
                let value = trim_whitespace(&trim_start_matches(entry, &prefix));
                return Some(string_of(&value));
            }
            k = k + 1;
        }
        None
    }

    /// The value of `category_to_find`, which a line must give.
    pub fn load_value(self, category_to_find: &str) -> (r: String)
        requires
            meta_value(self.contents(), category_to_find@) is Some,
        ensures
            r@ == meta_value(self.contents(), category_to_find@)->0,
    {
        match self.find_value(category_to_find) {
            Some(v) => v,
            None => String::new(),
        }
    }
}

/// The categories that describe a package, as they are carried from one
/// package format to another.
pub struct Categories {
    pub name: String,
    pub version: String,
    pub description: String,
    pub source: String,
    /// `None` where the package format has no license field.
    pub license: Option<String>,
    pub authors: String,
    pub arch: String,
}

/// A category that the metadata of a package lacks.
pub struct MissingCategory {
    pub category: String,
}

/// The categories an spf package must give, in the order they are read.
pub open spec fn spf_category_names() -> Seq<Seq<char>> {
    seq!["PROJECT_NAME"@, "VERSION"@, "DESCRIPTION"@, "LICENSE"@, "AUTHORS"@, "ARCH"@]
}

/// The source of an spf package whose metadata names no repository.
pub open spec fn spf_unknown_source() -> Seq<char> {
    "Unknown (not given by the package)"@
}

/// What a Debian package leaves unknown.
pub open spec fn deb_unknown() -> Seq<char> {
    "Unknown (converted from Debian package)"@
}

/// What an RPM package leaves unknown.
pub open spec fn rpm_unknown() -> Seq<char> {
    "Unknown (likely lost in conversion)"@
}

/// The value of an RPM header field, or `default` where the package has none.
pub open spec fn or_default(v: Option<String>, default: Seq<char>) -> Seq<char> {
    match v {
        Some(s) => s@,
        None => default,
    }
}

fn value_or(v: Option<String>, default: &str) -> (r: String)
    ensures
        r@ == or_default(v, default@),
{
    match v {
        Some(s) => s,
        None => string_of(&chars_of(default)),
    }
}

fn load_category(meta: &Meta, category: &str) -> (r: Result<String, MissingCategory>)
    ensures
        match r {
            Ok(v) => meta_value(meta.contents(), category@) == Some(v@),
            Err(e) => meta_value(meta.contents(), category@) is None && e.category@ == category@,
        },
{
    match meta.find_value(category) {
        Some(v) => Ok(v),
        None => Err(MissingCategory { category: string_of(&chars_of(category)) }),
    }
}

impl Categories {
    /// The categories of an spf package, read from its metadata; the first
    /// category (in the order of `spf_category_names`) that it lacks is an
    /// error.
    pub fn from_meta(meta: &Meta) -> (r: Result<Categories, MissingCategory>)
        ensures
            match r {
                Ok(c) => {
                    &&& meta_value(meta.contents(), "PROJECT_NAME"@) == Some(c.name@)
                    &&& meta_value(meta.contents(), "VERSION"@) == Some(c.version@)
                    &&& meta_value(meta.contents(), "DESCRIPTION"@) == Some(c.description@)
                    &&& c.source@ == match meta_value(meta.contents(), "REPOSITORY"@) {
                        Some(v) => v,
                        None => spf_unknown_source(),
                    }
                    &&& c.license matches Some(l) && meta_value(meta.contents(), "LICENSE"@)
                        == Some(l@)
                    &&& meta_value(meta.contents(), "AUTHORS"@) == Some(c.authors@)
                    &&& meta_value(meta.contents(), "ARCH"@) == Some(c.arch@)
                },
                Err(e) => exists|i: int|
                    0 <= i < 6 && e.category@ == spf_category_names()[i] && meta_value(
                        meta.contents(),
                        spf_category_names()[i],
                    ) is None && forall|j: int|
                        0 <= j < i ==> meta_value(
                            meta.contents(),
                            #[trigger] spf_category_names()[j],
                        ) is Some,
            },
    {
        let ghost names = spf_category_names();
        let name = match load_category(meta, "PROJECT_NAME") {
            Ok(v) => v,
            Err(e) => {
                assert(names[0] == "PROJECT_NAME"@);
                return Err(e);
            },
        };
        let version = match load_category(meta, "VERSION") {
            Ok(v) => v,
            Err(e) => {
                assert(names[1] == "VERSION"@);
                return Err(e);
            },
        };
        let description = match load_category(meta, "DESCRIPTION") {
            Ok(v) => v,
            Err(e) => {
                assert(names[2] == "DESCRIPTION"@);
                return Err(e);
            },
        };
        let license = match load_category(meta, "LICENSE") {
            Ok(v) => v,
            Err(e) => {
                assert(names[3] == "LICENSE"@);
                return Err(e);
            },
        };
        let authors = match load_category(meta, "AUTHORS") {
            Ok(v) => v,
            Err(e) => {
                assert(names[4] == "AUTHORS"@);
                return Err(e);
            },
        };
        let arch = match load_category(meta, "ARCH") {
            Ok(v) => v,
            Err(e) => {
                assert(names[5] == "ARCH"@);
                return Err(e);
            },
        };
        let source = match meta.find_value("REPOSITORY") {
            Some(v) => v,
            None => string_of(&chars_of("Unknown (not given by the package)")),
        };
        Ok(
            Categories {
                name,
                version,
                description,
                source,
                license: Some(license),
                authors,
                arch,
            },
        )
    }

    /// The categories of a Debian package, from the fields of its control
    /// file: the description up to the first ` #`, the homepage as the
    /// source, the maintainer as the authors; Debian gives no license.
    pub fn from_deb_control(
        package: String,
        version: String,
        description: String,
        homepage: Option<String>,
        maintainer: String,
        architecture: String,
    ) -> (c: Categories)
        ensures
            c.name@ == package@,
            c.version@ == version@,
            c.description@ == before_first(description@, " #"@),
            c.source@ == or_default(homepage, deb_unknown()),
            c.license is None,
            c.authors@ == maintainer@,
            c.arch@ == architecture@,
    {
        let unknown = "Unknown (converted from Debian package)";
        let d = prefix_before(&chars_of(description.as_str()), &chars_of(" #"));
        Categories {
            name: package,
            version,
            description: string_of(&d),
            source: value_or(homepage, unknown),
            license: None,
            authors: maintainer,
            arch: architecture,
        }
    }

    /// The categories of an RPM package, from its header: each field the
    /// package lacks is unknown, and a missing architecture is `noarch`.
    pub fn from_rpm_header(
        name: Option<String>,
        version: Option<String>,
        description: Option<String>,
        vendor: Option<String>,
        license: Option<String>,
        packager: Option<String>,
        arch: Option<String>,
    ) -> (c: Categories)
        ensures
            c.name@ == or_default(name, rpm_unknown()),
            c.version@ == or_default(version, rpm_unknown()),
            c.description@ == or_default(description, rpm_unknown()),
            c.source@ == or_default(vendor, rpm_unknown()),
            c.license matches Some(l) && l@ == or_default(license, rpm_unknown()),
            c.authors@ == or_default(packager, rpm_unknown()),
            c.arch@ == or_default(arch, "noarch"@),
    {
        let unknown = "Unknown (likely lost in conversion)";
        Categories {
            name: value_or(name, unknown),
            version: value_or(version, unknown),
            description: value_or(description, unknown),
            source: value_or(vendor, unknown),
            license: Some(value_or(license, unknown)),
            authors: value_or(packager, unknown),
            arch: value_or(arch, "noarch"),
        }
    }
}


/// A line is not the value line of `category` where it differs from the
/// category at some index below both lengths.
pub proof fn lemma_not_value_line(line: Seq<char>, category: Seq<char>, i: int)
    requires
        0 <= i < line.len(),
        i < category.len(),
        line[i] != category[i],
    ensures
        !is_value_line(line, category),
{
    if has_prefix(line, value_prefix(category)) {
        assert(line.subrange(0, value_prefix(category).len() as int)[i] == value_prefix(category)[i]);
    }
}

/// In metadata whose lines hold no `\n`, where line `k` reads
/// `category = v` and no line before it gives `category`, the value of
/// `category` is `v` (a value without surrounding white space).
pub proof fn lemma_meta_value_of_lines(
    ls: Seq<Seq<char>>,
    category: Seq<char>,
    k: int,
    v: Seq<char>,
)
    requires
        0 <= k < ls.len(),
        forall|i: int| 0 <= i < ls.len() ==> !(#[trigger] ls[i]).contains('\n'),
        ls[k] == value_prefix(category) + seq![' '] + v,
        forall|j: int| 0 <= j < k ==> !is_value_line(#[trigger] ls[j], category),
        category.len() > 0,
        category[0] != ' ',
        category[0] != '#',
        trim(v) == v,
    ensures
        meta_value(join(ls, seq!['\n']), category) == Some(v),
{
    lemma_split_join(ls, '\n');
    let vp = value_prefix(category);
    let line = ls[k];
    assert(line.subrange(0, vp.len() as int) == vp);
    assert(line[0] == category[0]);
    if has_prefix(line, seq!['#']) {
        assert(line.subrange(0, 1)[0] == '#');
    }
    assert(is_value_line(line, category));
    lemma_first_value_line(ls, category, 0);
    let r = first_value_line(ls, category, 0);
    assert(r == k);
    assert(line[vp.len() as int] == ' ');
    if occurs_at(line, vp, vp.len() as int) {
        assert(line.subrange(vp.len() as int, (vp.len() + vp.len()) as int)[0] == vp[0]);
    }
    assert(occurs_at(line, vp, 0));
    assert(!occurs_at(line, vp, vp.len() as int));
    assert(trim_prefixes_from(line, vp, vp.len() as int) == line.subrange(
        vp.len() as int,
        line.len() as int,
    ));
    assert(trim_prefixes(line, vp) == trim_prefixes_from(line, vp, vp.len() as int));
    assert(line.subrange(vp.len() as int, line.len() as int) == seq![' '] + v);
    lemma_trim_leading_space(v);
}


/// Below a first line, the value lines of a category are where they were
/// without it, one further down.
proof fn lemma_first_value_line_cons(h: Seq<char>, ls: Seq<Seq<char>>, category: Seq<char>, k: int)
    requires
        0 <= k,
    ensures
        first_value_line(seq![h] + ls, category, k + 1) == if first_value_line(ls, category, k) < 0 {
            -1
        } else {
            first_value_line(ls, category, k) + 1
        },
    decreases ls.len() - k,
{
    let hl = seq![h] + ls;
    if k < ls.len() {
        assert(hl[k + 1] == ls[k]);
        lemma_first_value_line_cons(h, ls, category, k + 1);
    }
}

/// A line before metadata that gives no value leaves every value as it is.
pub proof fn lemma_meta_value_after_line(h: Seq<char>, rest: Seq<char>, category: Seq<char>)
    requires
        !h.contains('\n'),
        !is_value_line(h, category),
    ensures
        meta_value(h + seq!['\n'] + rest, category) == meta_value(rest, category),
{
    crate::text::lemma_split_cons(h, '\n', rest);
    let ls = split_char(rest, '\n');
    let hl = seq![h] + ls;
    assert(split_char(h + seq!['\n'] + rest, '\n') == hl);
    assert(hl[0] == h);
    lemma_first_value_line_cons(h, ls, category, 0);
    assert(first_value_line(hl, category, 0) == first_value_line(hl, category, 1));
    let k = first_value_line(ls, category, 0);
    if k >= 0 {
        lemma_first_value_line(ls, category, 0);
        assert(hl[k + 1] == ls[k]);
    }
}

/// A `#` header line and an empty line before metadata leave every value
/// as it is.
pub proof fn lemma_meta_value_after_header(h: Seq<char>, body: Seq<char>, category: Seq<char>)
    requires
        !h.contains('\n'),
        h.len() > 0,
        h[0] == '#',
    ensures
        meta_value(h + seq!['\n', '\n'] + body, category) == meta_value(body, category),
{
    let empty: Seq<char> = seq![];
    assert(h.subrange(0, 1) =~= seq!['#']);
    assert(!is_value_line(h, category));
    assert(!is_value_line(empty, category));
    assert(!empty.contains('\n'));
    lemma_meta_value_after_line(empty, body, category);
    assert(empty + seq!['\n'] + body =~= seq!['\n'] + body);
    lemma_meta_value_after_line(h, seq!['\n'] + body, category);
    assert(h + seq!['\n'] + (seq!['\n'] + body) =~= h + seq!['\n', '\n'] + body);
}

/// Where the metadata of the installed package `package` is kept.
pub fn installed_meta_path(package: &str) -> (r: String)
    ensures
        r@ == PACKAGE_INSTALL_PATH@ + package@,
{
    crate::text::concat(PACKAGE_INSTALL_PATH, package)
}

} // verus!
