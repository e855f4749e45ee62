//! Installing an spf package: the checks on the package, the version
//! comparison with an installed copy, and where its files go.
use vstd::prelude::*;
use crate::paths::{FileProperty, extension, file_name};
use crate::remove::path_lines;
use crate::sys::args_contains;
use crate::text::{
    append_chars, chars_of, concat, has_prefix, lemma_lines_after, lemma_lines_cons, lines,
    split_char, strip_all, strip_cr, eq_ignore_ascii_case, equal_ignore_ascii_case, parse_decimal, parse_usize,
    remove_chars, replace, replace_all, replace_first, replace_once, str_equal, string_of,
    string_views, trim, trim_char, trim_matches_char, trim_whitespace, without_chars,
};

verus! {

/// Installing fails where the path names no `.spf` package.
#[derive(Debug)]
pub enum InstallError {
    NotSpfPackage,
}

/// Where the parts of a package are once it is extracted.
pub struct InstallPlan {
    /// The package's file name.
    pub package_file: String,
    /// Its metadata file, once extracted.
    pub metadata_file: String,
    /// The directory it is extracted to.
    pub extracted_dir: String,
}

/// A path that names an spf package: its extension is `spf` in any case.
pub open spec fn names_spf_package(path: Seq<char>) -> bool {
    extension(path) matches Some(x) && eq_ignore_ascii_case(x, "spf"@)
}

/// Checks the package path `spf_package_path` (which exists where
/// `package_exists`) and gives where its parts will be.
pub fn plan_install(spf_package_path: &str, package_exists: bool) -> (r: Result<
    InstallPlan,
    InstallError,
>)
    ensures
        if spf_package_path@.len() == 0 || !names_spf_package(spf_package_path@)
            || !package_exists {
            r matches Err(InstallError::NotSpfPackage)
        } else {
            &&& r is Ok
            &&& file_name(spf_package_path@) is Some
            &&& r->Ok_0.package_file@ == file_name(spf_package_path@)->0
            &&& r->Ok_0.metadata_file@ == replace_all(r->Ok_0.package_file@, ".spf"@, "/META"@)
            &&& r->Ok_0.extracted_dir@ == replace_all(
                r->Ok_0.package_file@,
                ".spf"@,
                Seq::<char>::empty(),
            )
        },
{
    let is_spf = match crate::paths::extension_of(&chars_of(spf_package_path)) {
        Some(e) => equal_ignore_ascii_case(&e, &chars_of("spf")),
        None => false,
    };
    if spf_package_path.is_empty() || !is_spf || !package_exists {
        return Err(InstallError::NotSpfPackage);
    }
    let package_file = match FileProperty::file_name(spf_package_path) {
        Ok(n) => n,
        Err(_) => String::new(),
    };
    let name = chars_of(package_file.as_str());
    let spf = chars_of(".spf");
    proof {
        reveal_strlit(".spf");
    }
    let metadata_file = replace(&name, &spf, &chars_of("/META"));
    let extracted_dir = replace(&name, &spf, &Vec::new());
    Ok(
        InstallPlan {
            package_file,
            metadata_file: string_of(&metadata_file),
            extracted_dir: string_of(&extracted_dir),
        },
    )
}

/// Whether a package built for `package_arch` may not be installed on a
/// system of `system_arch`: the two differ and `--ignore-args` is not among
/// the arguments.
pub fn arch_blocks_install(package_arch: &str, system_arch: &str, args: &Vec<String>) -> (r: bool)
    ensures
        r == (package_arch@ != system_arch@ && !string_views(args@).contains("--ignore-args"@)),
{
    !str_equal(package_arch, system_arch) && !args_contains(args, "--ignore-args")
}

/// How a package is shown: its name, `-`, and its version.
pub fn formatted_package_name(name: &str, version: &str) -> (r: String)
    ensures
        r@ == name@ + "-"@ + version@,
{
    let with_dash = concat(name, "-");
    concat(with_dash.as_str(), version)
}

/// The characters removed from a version before it is read as a number.
pub open spec fn version_special_chars() -> Seq<char> {
    seq!['(', ')', ',', '"', '.', ';', ':', '\'']
}

/// A version as a number: without the special characters and the `v`s
/// around it, read in decimal; 0 where that fails.
pub open spec fn version_number(v: Seq<char>) -> usize {
    match parse_usize(trim_char(without_chars(v, version_special_chars()), 'v')) {
        Some(n) => n,
        None => 0,
    }
}

fn version_to_number(version: &str) -> (r: usize)
    ensures
        r == version_number(version@),
{
    let special_chars: Vec<char> = vec!['(', ')', ',', '"', '.', ';', ':', '\''];
    assert(special_chars@ == version_special_chars());
    let cleaned = remove_chars(&chars_of(version), &special_chars);
    let trimmed = trim_matches_char(&cleaned, 'v');
    match parse_decimal(&trimmed) {
        Some(n) => n,
        None => 0,
    }
}

/// The packaged and the installed version, each as a number (see
/// `version_number`).
pub fn parse_installed_and_packaged_versions(
    packaged_project_version: &str,
    installed_version: &str,
) -> (r: (usize, usize))
    ensures
        r == (version_number(packaged_project_version@), version_number(installed_version@)),
{
    let project_version_num = version_to_number(packaged_project_version);
    let installed_version_num = version_to_number(installed_version);
    (project_version_num, installed_version_num)
}

/// What installing a package over an installed copy does.
#[derive(Clone, Copy, Debug, PartialEq, Eq, Structural)]
pub enum VersionAction {
    /// The same version is installed.
    AlreadyInstalled,
    /// The package is newer.
    Update,
    /// The package is older, or as old under another name.
    Downgrade,
    /// A version could not be read as a number.
    Unparsable,
}

/// What installing the version `packaged` over the installed `installed`
/// does.
pub open spec fn version_action_of(packaged: Seq<char>, installed: Seq<char>) -> VersionAction {
    if packaged == installed {
        VersionAction::AlreadyInstalled
    } else if version_number(packaged) == 0 || version_number(installed) == 0 {
        VersionAction::Unparsable
    } else if version_number(packaged) > version_number(installed) {
        VersionAction::Update
    } else {
        VersionAction::Downgrade
    }
}

/// Compares the version of a package with that of its installed copy.
pub fn version_action(packaged_project_version: &str, installed_version: &str) -> (r:
    VersionAction)
    ensures
        r == version_action_of(packaged_project_version@, installed_version@),
{
    if str_equal(packaged_project_version, installed_version) {
        return VersionAction::AlreadyInstalled;
    }
    let (project_version_num, installed_version_num) = parse_installed_and_packaged_versions(
        packaged_project_version,
        installed_version,
    );
    if project_version_num == 0 || installed_version_num == 0 {
        VersionAction::Unparsable
    } else if project_version_num > installed_version_num {
        VersionAction::Update
    } else {
        VersionAction::Downgrade
    }
}

/// Whether an answer to a yes-or-no question is yes: without the white
/// space around it, `y` in either case.
pub fn confirms(answer: &str) -> (r: bool)
    ensures
        r == (trim(answer@) == "y"@ || trim(answer@) == "Y"@),
{
    let t = string_of(&trim_whitespace(&chars_of(answer)));
    str_equal(t.as_str(), "y") || str_equal(t.as_str(), "Y")
}

/// Where a file extracted to `file_from_archive` is installed: its path
/// without the first occurrence of the extracted package's directory.
pub fn install_destination(file_from_archive: &str, extracted_package_path: &str) -> (r: String)
    ensures
        r@ == replace_first(file_from_archive@, extracted_package_path@, Seq::<char>::empty()),
{
    string_of(&replace_once(&chars_of(file_from_archive), &chars_of(extracted_package_path), &Vec::new()))
}

/// The header that starts the list of installed paths in the metadata of an
/// installed package.
pub open spec fn path_define_header() -> Seq<char> {
    ":::PATH DEFINE START:::"@
}

/// The installed paths, each followed by `\n`.
pub open spec fn path_list_text(ds: Seq<Seq<char>>) -> Seq<char>
    decreases ds.len(),
{
    if ds.len() == 0 {
        seq![]
    } else {
        ds[0] + seq!['\n'] + path_list_text(ds.drop_first())
    }
}

/// What installing appends to a package's metadata: an empty line's end,
/// the path header on a line of its own, then one line per installed path.
pub open spec fn marker_section(ds: Seq<Seq<char>>) -> Seq<char> {
    seq!['\n'] + path_define_header() + seq!['\n'] + path_list_text(ds)
}

proof fn lemma_path_list_push(ds: Seq<Seq<char>>, d: Seq<char>)
    ensures
        path_list_text(ds.push(d)) == path_list_text(ds) + d + seq!['\n'],
    decreases ds.len(),
{
    if ds.len() == 0 {
        assert(ds.push(d).drop_first() =~= seq![]);
        assert(path_list_text(ds.push(d).drop_first()) == Seq::<char>::empty());
        assert(ds.push(d)[0] == d);
        assert(path_list_text(ds) == Seq::<char>::empty());
        assert(path_list_text(ds.push(d)) =~= d + seq!['\n']);
    } else {
        assert(ds.push(d).drop_first() =~= ds.drop_first().push(d));
        lemma_path_list_push(ds.drop_first(), d);
        assert(ds.push(d)[0] == ds[0]);
        assert(path_list_text(ds.push(d)) =~= path_list_text(ds) + d + seq!['\n']);
    }
}

/// The part of an installed package's metadata that lists the paths
/// `installed`.
pub fn marker_path_section(installed: &Vec<String>) -> (r: String)
    ensures
        r@ == marker_section(string_views(installed@)),
{
    let mut text: Vec<char> = vec!['\n'];
    append_chars(&mut text, &chars_of(":::PATH DEFINE START:::"));
    text.push('\n');
    let ghost head = text@;
    assert(head =~= seq!['\n'] + path_define_header() + seq!['\n']);
    let mut i: usize = 0;
    while i < installed.len()
        invariant
            i <= installed.len(),
            text@ == head + path_list_text(string_views(installed@).take(i as int)),
        decreases installed.len() - i,
    {
        let ghost before = text@;
        append_chars(&mut text, &chars_of(installed[i].as_str()));
        text.push('\n');
        proof {
            let ds = string_views(installed@);
            assert(ds.take(i + 1) =~= ds.take(i as int).push(ds[i as int]));
            lemma_path_list_push(ds.take(i as int), ds[i as int]);
            assert(text@ =~= head + path_list_text(ds.take(i + 1)));
        }
        i = i + 1;
    }
    assert(string_views(installed@).take(installed.len() as int) =~= string_views(installed@));
    string_of(&text)
}

/// A path found in an extracted package, and whether it is a directory.
pub struct FoundPath {
    pub path: String,
    pub is_dir: bool,
}

/// One step of putting a package's files into place.
pub enum InstallStep {
    /// Create the directory, with its parents.
    CreateDir(String),
    /// Copy the file `from` to `to`; where `to` is the running spf itself,
    /// the running binary is replaced first.
    CopyFile { from: String, to: String, replaces_self: bool },
}

/// What a step does, over plain values.
pub enum StepView {
    CreateDir(Seq<char>),
    CopyFile(Seq<char>, Seq<char>, bool),
}

impl InstallStep {
    /// What the step does.
    pub open spec fn step_view(&self) -> StepView {
        match self {
            InstallStep::CreateDir(d) => StepView::CreateDir(d@),
            InstallStep::CopyFile { from, to, replaces_self } => StepView::CopyFile(
                from@,
                to@,
                *replaces_self,
            ),
        }
    }
}

/// How the files of an extracted package are put into place: the steps in
/// order, and what is appended to the installed metadata.
pub struct InstallFilesPlan {
    pub steps: Vec<InstallStep>,
    pub marker: String,
}

/// The paths found, over plain values.
pub open spec fn found_views(found: Seq<FoundPath>) -> Seq<(Seq<char>, bool)> {
    found.map_values(|f: FoundPath| (f.path@, f.is_dir))
}

/// What is done with the path `path` found in the package extracted to
/// `extracted`: a directory is created, a file copied, each to the path
/// without the extracted directory; a copy onto `binary` replaces the
/// running spf.
pub open spec fn install_step(
    path: Seq<char>,
    is_dir: bool,
    extracted: Seq<char>,
    binary: Seq<char>,
) -> StepView {
    let destination = replace_first(path, extracted, Seq::<char>::empty());
    if is_dir {
        StepView::CreateDir(destination)
    } else {
        StepView::CopyFile(path, destination, destination == binary)
    }
}

/// The installed files: the destination of each found path that is not a
/// directory, in order.
pub open spec fn installed_files(found: Seq<(Seq<char>, bool)>, extracted: Seq<char>) -> Seq<
    Seq<char>,
>
    decreases found.len(),
{
    if found.len() == 0 {
        seq![]
    } else if found.last().1 {
        installed_files(found.drop_last(), extracted)
    } else {
        installed_files(found.drop_last(), extracted).push(
            replace_first(found.last().0, extracted, Seq::<char>::empty()),
        )
    }
}

/// How the paths `found` in the package extracted to
/// `extracted_package_path` are put into place, spf itself running from
/// `binary_path`: one step a path, and the list of installed files for the
/// installed metadata.
pub fn install_files(
    found: &Vec<FoundPath>,
    extracted_package_path: &str,
    binary_path: &str,
) -> (r: InstallFilesPlan)
    ensures
        r.steps.len() == found.len(),
        forall|i: int|
            0 <= i < found.len() ==> (#[trigger] r.steps@[i]).step_view() == install_step(
                found@[i].path@,
                found@[i].is_dir,
                extracted_package_path@,
                binary_path@,
            ),
        r.marker@ == marker_section(installed_files(found_views(found@), extracted_package_path@)),
{
    let mut steps: Vec<InstallStep> = Vec::new();
    let mut installed: Vec<String> = Vec::new();
    let mut i: usize = 0;
    while i < found.len()
        invariant
            i <= found.len(),
            steps.len() == i,
            forall|k: int|
                0 <= k < i ==> (#[trigger] steps@[k]).step_view() == install_step(
                    found@[k].path@,
                    found@[k].is_dir,
                    extracted_package_path@,
                    binary_path@,
                ),
            string_views(installed@) == installed_files(
                found_views(found@).take(i as int),
                extracted_package_path@,
            ),
        decreases found.len() - i,
    {
        let f = &found[i];
        let destination = install_destination(f.path.as_str(), extracted_package_path);
        let ghost fv = found_views(found@);
        proof {
            assert(fv.take(i + 1).drop_last() =~= fv.take(i as int));
            assert(fv.take(i + 1).last() == (f.path@, f.is_dir));
        }
        if f.is_dir {
            steps.push(InstallStep::CreateDir(destination));
        } else {
            let replaces_self = str_equal(destination.as_str(), binary_path);
            let ghost before = installed@;
            installed.push(string_of(&chars_of(destination.as_str())));
            assert(string_views(installed@) =~= string_views(before).push(destination@));
            steps.push(
                InstallStep::CopyFile {
                    from: string_of(&chars_of(f.path.as_str())),
                    to: destination,
                    replaces_self,
                },
            );
        }
        i = i + 1;
    }
    assert(found_views(found@).take(found.len() as int) =~= found_views(found@));
    InstallFilesPlan { steps, marker: marker_path_section(&installed) }
}

proof fn lemma_path_lines_append(a: Seq<Seq<char>>, b: Seq<Seq<char>>)
    ensures
        path_lines(a + b) == path_lines(a) + path_lines(b),
    decreases b.len(),
{
    if b.len() == 0 {
        assert(a + b =~= a);
        assert(path_lines(a) + seq![] =~= path_lines(a));
    } else {
        lemma_path_lines_append(a, b.drop_last());
        assert((a + b).drop_last() =~= a + b.drop_last());
        assert((a + b).last() == b.last());
        if has_prefix(b.last(), seq!['/']) {
            assert(path_lines(a) + path_lines(b.drop_last()).push(b.last()) =~= (path_lines(a)
                + path_lines(b.drop_last())).push(b.last()));
        }
    }
}

proof fn lemma_path_lines_all(ls: Seq<Seq<char>>, all_paths: bool)
    requires
        forall|i: int| 0 <= i < ls.len() ==> has_prefix(#[trigger] ls[i], seq!['/']) == all_paths,
    ensures
        path_lines(ls) == if all_paths { ls } else { seq![] },
    decreases ls.len(),
{
    if ls.len() > 0 {
        assert(ls.last() == ls[ls.len() - 1]);
        lemma_path_lines_all(ls.drop_last(), all_paths);
        if all_paths {
            assert(ls.drop_last().push(ls.last()) =~= ls);
        }
    }
}

proof fn lemma_lines_of_path_list(ds: Seq<Seq<char>>)
    requires
        forall|i: int| 0 <= i < ds.len() ==> !(#[trigger] ds[i]).contains('\n') && strip_cr(ds[i]) == ds[i],
    ensures
        lines(path_list_text(ds)) == ds,
    decreases ds.len(),
{
    if ds.len() > 0 {
        let rest = ds.drop_first();
        assert forall|i: int| 0 <= i < rest.len() implies !(#[trigger] rest[i]).contains('\n') && strip_cr(rest[i]) == rest[i] by {
            assert(rest[i] == ds[i + 1]);
        }
        lemma_lines_of_path_list(rest);
        assert(!ds[0].contains('\n'));
        lemma_lines_cons(ds[0], path_list_text(rest));
        assert(seq![ds[0]] + rest =~= ds);
    } else {
        assert(lines(Seq::<char>::empty()) == Seq::<Seq<char>>::empty());
    }
}

/// Installing, then removing: the paths that removal reads back from the
/// metadata of an installed package are exactly those installing recorded
/// after the package's own metadata `meta`, where no line of `meta` starts
/// with `/` and each recorded path starts with `/` and holds no line break
/// and no final carriage return.
pub proof fn lemma_marker_reads_back(meta: Seq<char>, ds: Seq<Seq<char>>)
    requires
        forall|i: int|
            0 <= i < split_char(meta, '\n').len() ==> !has_prefix(
                #[trigger] split_char(meta, '\n')[i],
                seq!['/'],
            ),
        forall|i: int|
            0 <= i < ds.len() ==> has_prefix(#[trigger] ds[i], seq!['/']) && !ds[i].contains('\n')
                && strip_cr(ds[i]) == ds[i],
    ensures
        path_lines(lines(meta + marker_section(ds))) == ds,
{
    let h = path_define_header();
    let p = path_list_text(ds);
    let ms = split_char(meta, '\n');
    reveal_strlit(":::PATH DEFINE START:::");
    assert(h[0] == ':');
    assert(h.last() == ':');
    assert(!h.contains('\n')) by {
        assert forall|k: int| 0 <= k < h.len() implies h[k] != '\n' by {}
    }
    assert(meta + marker_section(ds) =~= meta + seq!['\n'] + (h + seq!['\n'] + p));
    lemma_lines_after(meta, h + seq!['\n'] + p);
    lemma_lines_cons(h, p);
    assert(strip_cr(h) == h);
    assert forall|i: int| 0 <= i < ds.len() implies !(#[trigger] ds[i]).contains('\n') && strip_cr(ds[i]) == ds[i] by {}
    lemma_lines_of_path_list(ds);
    let stripped = strip_all(ms);
    assert forall|i: int| 0 <= i < stripped.len() implies has_prefix(#[trigger] stripped[i], seq!['/']) == false by {
        let l = ms[i];
        assert(!has_prefix(l, seq!['/']));
        assert(stripped[i] == strip_cr(l));
        if has_prefix(strip_cr(l), seq!['/']) {
            assert(strip_cr(l).subrange(0, 1)[0] == '/');
            assert(strip_cr(l)[0] == '/');
            assert(l[0] == strip_cr(l)[0]);
            assert(l.subrange(0, 1) =~= seq!['/']);
        }
    }
    lemma_path_lines_all(stripped, false);
    assert forall|i: int| 0 <= i < seq![h].len() implies has_prefix(#[trigger] seq![h][i], seq!['/']) == false by {
        assert(seq![h][i] == h);
        if has_prefix(h, seq!['/']) {
            assert(h.subrange(0, 1)[0] == '/');
        }
    }
    lemma_path_lines_all(seq![h], false);
    lemma_path_lines_all(ds, true);
    lemma_path_lines_append(stripped, seq![h] + ds);
    lemma_path_lines_append(seq![h], ds);
    assert(stripped + (seq![h] + ds) =~= stripped + lines(h + seq!['\n'] + p));
}

/// Between two different versions that both read as numbers, installing
/// updates exactly when the packaged number is the greater, and downgrades
/// otherwise.
pub proof fn lemma_update_when_packaged_is_greater(packaged: Seq<char>, installed: Seq<char>)
    requires
        packaged != installed,
        version_number(packaged) > 0,
        version_number(installed) > 0,
    ensures
        (version_action_of(packaged, installed) == VersionAction::Update) == (version_number(
            packaged,
        ) > version_number(installed)),
        (version_action_of(packaged, installed) == VersionAction::Downgrade) == (version_number(
            packaged,
        ) <= version_number(installed)),
{
}

proof fn lemma_without_chars_append(x: Seq<char>, y: Seq<char>, set: Seq<char>)
    ensures
        without_chars(x + y, set) == without_chars(x, set) + without_chars(y, set),
    decreases y.len(),
{
    if y.len() == 0 {
        assert(x + y =~= x);
        assert(without_chars(x, set) + seq![] =~= without_chars(x, set));
    } else {
        lemma_without_chars_append(x, y.drop_last(), set);
        assert((x + y).drop_last() =~= x + y.drop_last());
        assert((x + y).last() == y.last());
        if !set.contains(y.last()) {
            assert(without_chars(x, set) + without_chars(y.drop_last(), set).push(y.last())
                =~= (without_chars(x, set) + without_chars(y.drop_last(), set)).push(y.last()));
        }
    }
}

/// A `.` in a version is not read: `v1.4.3` is read as `v143`.
pub proof fn lemma_version_number_ignores_dots(a: Seq<char>, b: Seq<char>)
    ensures
        version_number(a + seq!['.'] + b) == version_number(a + b),
{
    let set = version_special_chars();
    lemma_without_chars_append(a + seq!['.'], b, set);
    lemma_without_chars_append(a, seq!['.'], set);
    lemma_without_chars_append(a, b, set);
    assert(set[4] == '.');
    assert(set.contains('.'));
    let dot = seq!['.'];
    assert(dot.last() == '.');
    assert(dot.drop_last() =~= Seq::<char>::empty());
    assert(without_chars(Seq::<char>::empty(), set) == Seq::<char>::empty());
    assert(without_chars(seq!['.'], set) =~= Seq::<char>::empty());
    assert(without_chars(a, set) + Seq::<char>::empty() =~= without_chars(a, set));
}

proof fn lemma_without_chars_none(s: Seq<char>, set: Seq<char>)
    requires
        forall|i: int| 0 <= i < s.len() ==> !set.contains(#[trigger] s[i]),
    ensures
        without_chars(s, set) == s,
    decreases s.len(),
{
    if s.len() > 0 {
        assert(s.last() == s[s.len() - 1]);
        lemma_without_chars_none(s.drop_last(), set);
        assert(s.drop_last().push(s.last()) =~= s);
    }
}

/// A version of decimal digits, with or without a leading `v`, is read as
/// the number those digits write (where it fits in a `usize`).
pub proof fn lemma_version_number_reads_digits(d: Seq<char>)
    requires
        d.len() > 0,
        crate::text::all_digits(d),
        crate::text::decimal_value(d) <= usize::MAX,
    ensures
        version_number(seq!['v'] + d) == crate::text::decimal_value(d),
        version_number(d) == crate::text::decimal_value(d),
{
    let set = version_special_chars();
    let vd = seq!['v'] + d;
    assert forall|i: int| 0 <= i < vd.len() implies !set.contains(#[trigger] vd[i]) by {
        if i > 0 {
            assert(vd[i] == d[i - 1]);
            assert(crate::text::is_digit(d[i - 1]));
        }
        if set.contains(vd[i]) {
            let k = choose|k: int| 0 <= k < set.len() && set[k] == vd[i];
            assert(k == 0 || k == 1 || k == 2 || k == 3 || k == 4 || k == 5 || k == 6 || k == 7);
        }
    }
    assert forall|i: int| 0 <= i < d.len() implies !set.contains(#[trigger] d[i]) by {
        assert(d[i] == vd[i + 1]);
    }
    lemma_without_chars_none(vd, set);
    lemma_without_chars_none(d, set);
    let f = crate::text::CharClass::Exactly('v');
    assert(crate::text::is_digit(d[0]));
    assert(crate::text::is_digit(d.last()));
    assert(vd[1] == d[0]);
    assert(crate::text::skip_while(vd, f, 1) == 1);
    assert(crate::text::skip_while(vd, f, 0) == 1);
    assert(vd.subrange(1, vd.len() as int) =~= d);
    assert(crate::text::back_while(d, f, d.len() as int) == d.len());
    assert(d.subrange(0, d.len() as int) =~= d);
    assert(trim_char(vd, 'v') == d);
    assert(crate::text::skip_while(d, f, 0) == 0);
    assert(trim_char(d, 'v') == d);
    assert(crate::text::unsigned_digits(d) == d);
}

} // verus!
