//! Converting packages between the spf, Debian and RPM formats: which
//! conversions exist, how architectures are named in each format, and what
//! the metadata of a converted package says.
use vstd::prelude::*;
use crate::metadata::{
    Categories, is_value_line, lemma_meta_value_of_lines, lemma_not_value_line, meta_value,
    value_prefix,
};
use crate::VERSION;
use crate::paths::{ext_or_empty, extension, file_name, lemma_file_name_of_suffix, FileProperty};
use crate::text::{
    before_first, chars_of, concat, join, join_with, lemma_join_append, lemma_trim_unchanged,
    prefix_before, str_equal, string_of, trim, trim_end_matches, trim_prefixes, trim_start_matches,
    trim_suffixes, views,
};

verus! {

/// The formats spf converts between.
#[derive(Clone, Copy, Debug, PartialEq, Eq, Structural)]
pub enum PackageType {
    Spf,
    Deb,
    Rpm,
}

/// The ways a conversion can fail.
#[derive(Debug)]
pub enum ConvertError {
    /// No source package was named.
    MissingInput,
    /// The named source package does not exist.
    SourceNotFound(String),
    /// The source package's extension names no supported format.
    UnsupportedInput(String),
    /// The output package's extension names no supported format.
    UnsupportedOutput(String),
    /// No output package was named.
    MissingOutput,
    /// Source and output are of the same format.
    SameFormat,
    /// A Debian package was to become an RPM package, or the other way.
    DebRpm,
    /// The source package's extension names no format.
    InvalidSourceType(String),
    /// An architecture that the target format has no name for.
    UnknownArch(String, PackageType),
    /// A conversion from the first format to the second, which spf does not do.
    CannotConvert(PackageType, PackageType),
    /// An spf architecture that has no Debian equivalent.
    NoDebArch,
}

/// The name that the `t` format gives to the architecture named `a` in
/// another format.
pub open spec fn arch_in(a: Seq<char>, t: PackageType) -> Option<Seq<char>> {
    match t {
        PackageType::Spf => {
            if a == "all"@ || a == "noarch"@ || a == "src"@ || a == "nosrc"@ {
                Some("universal"@)
            } else if a == "amd64"@ || a == "x86_64"@ {
                Some("x86_64"@)
            } else if a == "i386"@ || a == "i686"@ {
                Some("x86"@)
            } else if a == "arm64"@ || a == "aarch64"@ {
                Some("aarch64"@)
            } else if a == "armhf"@ || a == "armv7hl"@ || a == "armvhl"@ {
                Some("arm"@)
            } else {
                None
            }
        },
        PackageType::Deb => {
            if a == "universal"@ || a == "noarch"@ || a == "src"@ || a == "nosrc"@ {
                Some("all"@)
            } else if a == "x86_64"@ {
                Some("amd64"@)
            } else if a == "x86"@ || a == "i386"@ || a == "i686"@ {
                Some("i386"@)
            } else if a == "aarch64"@ {
                Some("arm64"@)
            } else if a == "arm"@ || a == "armv7hl"@ || a == "armvhl"@ {
                Some("armhf"@)
            } else {
                None
            }
        },
        PackageType::Rpm => {
            if a == "universal"@ || a == "all"@ {
                Some("noarch"@)
            } else if a == "x86_64"@ {
                Some("amd64"@)
            } else if a == "x86"@ || a == "i386"@ {
                Some("i686"@)
            } else if a == "aarch64"@ || a == "arm64"@ {
                Some("aarch64"@)
            } else if a == "arm"@ || a == "armhf"@ {
                Some("armv7hl"@)
            } else {
                None
            }
        },
    }
}

/// Converts the architecture name `input_arch` to the name that
/// `output_package_type` gives it.
pub fn convert_arch(input_arch: &str, output_package_type: PackageType) -> (r: Result<
    &'static str,
    ConvertError,
>)
    ensures
        match r {
            Ok(a) => arch_in(input_arch@, output_package_type) == Some(a@),
            Err(e) => {
                &&& arch_in(input_arch@, output_package_type) is None
                &&& e matches ConvertError::UnknownArch(x, t)
                &&& x@ == input_arch@
                &&& t == output_package_type
            },
        },
{
    let a = input_arch;
    match output_package_type {
        PackageType::Spf => {
            if str_equal(a, "all") || str_equal(a, "noarch") || str_equal(a, "src") || str_equal(
                a,
                "nosrc",
            ) {
                Ok("universal")
            } else if str_equal(a, "amd64") || str_equal(a, "x86_64") {
                Ok("x86_64")
            } else if str_equal(a, "i386") || str_equal(a, "i686") {
                Ok("x86")
            } else if str_equal(a, "arm64") || str_equal(a, "aarch64") {
                Ok("aarch64")
            } else if str_equal(a, "armhf") || str_equal(a, "armv7hl") || str_equal(a, "armvhl") {
                Ok("arm")
            } else {
                Err(ConvertError::UnknownArch(string_of(&chars_of(a)), output_package_type))
            }
        },
        PackageType::Deb => {
            if str_equal(a, "universal") || str_equal(a, "noarch") || str_equal(a, "src")
                || str_equal(a, "nosrc") {
                Ok("all")
            } else if str_equal(a, "x86_64") {
                Ok("amd64")
            } else if str_equal(a, "x86") || str_equal(a, "i386") || str_equal(a, "i686") {
                Ok("i386")
            } else if str_equal(a, "aarch64") {
                Ok("arm64")
            } else if str_equal(a, "arm") || str_equal(a, "armv7hl") || str_equal(a, "armvhl") {
                Ok("armhf")
            } else {
                Err(ConvertError::UnknownArch(string_of(&chars_of(a)), output_package_type))
            }
        },
        PackageType::Rpm => {
            if str_equal(a, "universal") || str_equal(a, "all") {
                Ok("noarch")
            } else if str_equal(a, "x86_64") {
                Ok("amd64")
            } else if str_equal(a, "x86") || str_equal(a, "i386") {
                Ok("i686")
            } else if str_equal(a, "aarch64") || str_equal(a, "arm64") {
                Ok("aarch64")
            } else if str_equal(a, "arm") || str_equal(a, "armhf") {
                Ok("armv7hl")
            } else {
                Err(ConvertError::UnknownArch(string_of(&chars_of(a)), output_package_type))
            }
        },
    }
}


/// The format an extension names.
pub open spec fn format_of(ext: Seq<char>) -> Option<PackageType> {
    if ext == "spf"@ {
        Some(PackageType::Spf)
    } else if ext == "deb"@ {
        Some(PackageType::Deb)
    } else if ext == "rpm"@ {
        Some(PackageType::Rpm)
    } else {
        None
    }
}

fn extension_string(path: &str) -> (r: String)
    ensures
        r@ == ext_or_empty(path@),
{
    match FileProperty::extension(path) {
        Ok(e) => e,
        Err(_) => String::new(),
    }
}

fn format_of_ext(ext: &str) -> (r: Option<PackageType>)
    ensures
        r == format_of(ext@),
{
    if str_equal(ext, "spf") {
        Some(PackageType::Spf)
    } else if str_equal(ext, "deb") {
        Some(PackageType::Deb)
    } else if str_equal(ext, "rpm") {
        Some(PackageType::Rpm)
    } else {
        None
    }
}

/// Checks that the source and output paths name supported formats that spf
/// converts between, and gives the output's extension.
pub fn verify_input_paths(source_package_path: &str, output_package_path: &str) -> (r: Result<
    String,
    ConvertError,
>)
    ensures
        ({
            let s = ext_or_empty(source_package_path@);
            let o = ext_or_empty(output_package_path@);
            if format_of(s) is None {
                r matches Err(ConvertError::UnsupportedInput(x)) && x@ == s
            } else if format_of(o) is None {
                r matches Err(ConvertError::UnsupportedOutput(x)) && x@ == o
            } else if output_package_path@.len() == 0 {
                r matches Err(ConvertError::MissingOutput)
            } else if s == o {
                r matches Err(ConvertError::SameFormat)
            } else if (s == "rpm"@ && o == "deb"@) || (s == "deb"@ && o == "rpm"@) {
                r matches Err(ConvertError::DebRpm)
            } else {
                r matches Ok(x) && x@ == o
            }
        }),
{
    let source_file_ext = extension_string(source_package_path);
    let output_file_ext = extension_string(output_package_path);
    let source_format = format_of_ext(source_file_ext.as_str());
    let output_format = format_of_ext(output_file_ext.as_str());
    if source_format.is_none() {
        return Err(ConvertError::UnsupportedInput(source_file_ext));
    } else if output_format.is_none() {
        return Err(ConvertError::UnsupportedOutput(output_file_ext));
    }
    if output_package_path.is_empty() {
        return Err(ConvertError::MissingOutput);
    }
    if str_equal(source_file_ext.as_str(), output_file_ext.as_str()) {
        return Err(ConvertError::SameFormat);
    }
    let s = source_file_ext.as_str();
    let o = output_file_ext.as_str();
    if (str_equal(s, "rpm") && str_equal(o, "deb")) || (str_equal(s, "deb") && str_equal(o, "rpm")) {
        return Err(ConvertError::DebRpm);
    }
    Ok(output_file_ext)
}

/// A package to convert: where it is, and its format.
#[derive(Clone, Debug)]
pub struct Package {
    pub source_package_path: String,
    pub package_type: PackageType,
}

impl Package {
    /// The package at `package_path`, whose format its extension names.
    pub fn from(package_path: String) -> (r: Result<Package, ConvertError>)
        ensures
            match r {
                Ok(p) => p.source_package_path@ == package_path@ && format_of(
                    ext_or_empty(package_path@),
                ) == Some(p.package_type),
                Err(e) => {
                    &&& format_of(ext_or_empty(package_path@)) is None
                    &&& e matches ConvertError::InvalidSourceType(x)
                    &&& x@ == ext_or_empty(package_path@)
                },
            },
    {
        let source_package_ext = extension_string(package_path.as_str());
        match format_of_ext(source_package_ext.as_str()) {
            Some(t) => Ok(Package { source_package_path: package_path, package_type: t }),
            None => Err(ConvertError::InvalidSourceType(source_package_ext)),
        }
    }
}


/// A conversion that passed the checks: the source package and the format
/// to convert it to.
pub struct Conversion {
    pub package: Package,
    pub output_package_type: PackageType,
}

/// Checks a request to convert the package at `source_package_path` (which
/// exists where `source_exists`) to `output_package_path`, in the order the
/// `convert` command checks it.
pub fn plan_conversion(
    source_package_path: &str,
    source_exists: bool,
    output_package_path: &str,
) -> (r: Result<Conversion, ConvertError>)
    ensures
        ({
            let s = ext_or_empty(source_package_path@);
            let o = ext_or_empty(output_package_path@);
            if source_package_path@.len() == 0 {
                r matches Err(ConvertError::MissingInput)
            } else if !source_exists {
                r matches Err(ConvertError::SourceNotFound(x)) && x@ == source_package_path@
            } else if format_of(s) is None {
                r matches Err(ConvertError::UnsupportedInput(x)) && x@ == s
            } else if format_of(o) is None {
                r matches Err(ConvertError::UnsupportedOutput(x)) && x@ == o
            } else if output_package_path@.len() == 0 {
                r matches Err(ConvertError::MissingOutput)
            } else if s == o {
                r matches Err(ConvertError::SameFormat)
            } else if (s == "rpm"@ && o == "deb"@) || (s == "deb"@ && o == "rpm"@) {
                r matches Err(ConvertError::DebRpm)
            } else {
                &&& r is Ok
                &&& r->Ok_0.package.source_package_path@ == source_package_path@
                &&& Some(r->Ok_0.package.package_type) == format_of(s)
                &&& Some(r->Ok_0.output_package_type) == format_of(o)
            }
        }),
{
    if source_package_path.is_empty() {
        return Err(ConvertError::MissingInput);
    }
    if !source_exists {
        return Err(ConvertError::SourceNotFound(string_of(&chars_of(source_package_path))));
    }
    let output_extension = match verify_input_paths(source_package_path, output_package_path) {
        Ok(e) => e,
        Err(e) => return Err(e),
    };
    let output_package_type = match format_of_ext(output_extension.as_str()) {
        Some(t) => t,
        None => return Err(ConvertError::UnsupportedOutput(output_extension)),
    };
    let package = match Package::from(string_of(&chars_of(source_package_path))) {
        Ok(p) => p,
        Err(e) => return Err(e),
    };
    Ok(Conversion { package, output_package_type })
}

/// The conversions spf does.
#[derive(Clone, Copy, Debug, PartialEq, Eq, Structural)]
pub enum ConversionRoute {
    SpfToDeb,
    SpfToRpm,
    DebToSpf,
    RpmToSpf,
}

/// The conversion from format `from` to format `to`, if spf does it.
pub open spec fn route_of(from: PackageType, to: PackageType) -> Option<ConversionRoute> {
    match (from, to) {
        (PackageType::Spf, PackageType::Deb) => Some(ConversionRoute::SpfToDeb),
        (PackageType::Spf, PackageType::Rpm) => Some(ConversionRoute::SpfToRpm),
        (PackageType::Deb, PackageType::Spf) => Some(ConversionRoute::DebToSpf),
        (PackageType::Rpm, PackageType::Spf) => Some(ConversionRoute::RpmToSpf),
        _ => None,
    }
}

impl Package {
    /// The conversion of this package to `output_package_type`; converting
    /// to the same format, or between Debian and RPM, is an error.
    pub fn route(&self, output_package_type: PackageType) -> (r: Result<
        ConversionRoute,
        ConvertError,
    >)
        ensures
            match route_of(self.package_type, output_package_type) {
                Some(route) => r == Ok::<ConversionRoute, ConvertError>(route),
                None => r matches Err(ConvertError::CannotConvert(a, b)) && a == self.package_type
                    && b == output_package_type,
            },
    {
        match (self.package_type, output_package_type) {
            (PackageType::Spf, PackageType::Deb) => Ok(ConversionRoute::SpfToDeb),
            (PackageType::Spf, PackageType::Rpm) => Ok(ConversionRoute::SpfToRpm),
            (PackageType::Deb, PackageType::Spf) => Ok(ConversionRoute::DebToSpf),
            (PackageType::Rpm, PackageType::Spf) => Ok(ConversionRoute::RpmToSpf),
            (a, b) => Err(ConvertError::CannotConvert(a, b)),
        }
    }

    /// Where an spf package at this path is extracted to: its file name
    /// without the trailing `.spf`s.
    pub fn extracted_dir(&self) -> (r: String)
        requires
            extension(self.source_package_path@) is Some,
        ensures
            r@ == trim_suffixes(file_name(self.source_package_path@)->0, ".spf"@),
    {
        let name = match FileProperty::file_name(self.source_package_path.as_str()) {
            Ok(n) => n,
            Err(_) => String::new(),
        };
        string_of(&trim_end_matches(&chars_of(name.as_str()), &chars_of(".spf")))
    }
}

/// The Debian names of architectures that an spf package can be built for.
#[derive(Clone, Copy, Debug, PartialEq, Eq, Structural)]
pub enum DebArch {
    All,
    Amd64,
    I386,
    Arm64,
    Armhf,
}

/// The Debian architecture for the spf architecture `a`.
pub open spec fn deb_arch_of(a: Seq<char>) -> Option<DebArch> {
    if a == "universal"@ {
        Some(DebArch::All)
    } else if a == "x86_64"@ {
        Some(DebArch::Amd64)
    } else if a == "x86"@ {
        Some(DebArch::I386)
    } else if a == "aarch64"@ {
        Some(DebArch::Arm64)
    } else if a == "arm"@ {
        Some(DebArch::Armhf)
    } else {
        None
    }
}

/// The Debian architecture that a package built for the spf architecture
/// `package_arch` gets.
pub fn deb_architecture(package_arch: &str) -> (r: Result<DebArch, ConvertError>)
    ensures
        match deb_arch_of(package_arch@) {
            Some(d) => r == Ok::<DebArch, ConvertError>(d),
            None => r matches Err(ConvertError::NoDebArch),
        },
{
    if str_equal(package_arch, "universal") {
        Ok(DebArch::All)
    } else if str_equal(package_arch, "x86_64") {
        Ok(DebArch::Amd64)
    } else if str_equal(package_arch, "x86") {
        Ok(DebArch::I386)
    } else if str_equal(package_arch, "aarch64") {
        Ok(DebArch::Arm64)
    } else if str_equal(package_arch, "arm") {
        Ok(DebArch::Armhf)
    } else {
        Err(ConvertError::NoDebArch)
    }
}

/// The path a file extracted to `path` gets inside the converted package:
/// `path` with every leading copy of `root` removed.
pub fn destination_in_package(path: &str, root: &str) -> (r: String)
    ensures
        r@ == trim_prefixes(path@, root@),
{
    string_of(&trim_start_matches(&chars_of(path), &chars_of(root)))
}

/// The directory a Debian package's data becomes when it is converted to
/// the spf package `output_location`: the output's file name up to its
/// first `.`.
pub fn deb_package_dir(output_location: &str) -> (r: String)
    requires
        file_name(output_location@) is Some,
    ensures
        r@ == before_first(file_name(output_location@)->0, "."@),
{
    let name = match FileProperty::file_name(output_location) {
        Ok(n) => n,
        Err(_) => String::new(),
    };
    string_of(&prefix_before(&chars_of(name.as_str()), &chars_of(".")))
}

/// The archive that `rpm2archive` writes for an RPM package, and the
/// directory it is extracted to: `./` and the archive's file name, without
/// the trailing `.rpm.tgz`s.
pub fn rpm_archive_paths(source_package_path: &str) -> (r: (String, String))
    ensures
        r.0@ == source_package_path@ + ".tgz"@,
        r.1@ == trim_suffixes("./"@ + file_name(r.0@)->0, ".rpm.tgz"@),
        file_name(r.0@) is Some,
{
    let tgz = concat(source_package_path, ".tgz");
    proof {
        reveal_strlit(".tgz");
        assert(tgz@.subrange(tgz@.len() - 4, tgz@.len() as int) == ".tgz"@);
        lemma_file_name_of_suffix(tgz@, ".tgz"@);
    }
    let name = match FileProperty::file_name(tgz.as_str()) {
        Ok(n) => n,
        Err(_) => String::new(),
    };
    let dest = concat("./", name.as_str());
    let clean = trim_end_matches(&chars_of(dest.as_str()), &chars_of(".rpm.tgz"));
    (tgz, string_of(&clean))
}

/// The directory an spf package is put together in before it is archived
/// to `output_location`: the output without its trailing `.spf`s.
pub fn spf_build_dir(output_location: &str) -> (r: String)
    ensures
        r@ == trim_suffixes(output_location@, ".spf"@),
{
    string_of(&trim_end_matches(&chars_of(output_location), &chars_of(".spf")))
}


/// The license line of converted metadata: one where the source package
/// gives a license, none where its format has no license field.
pub open spec fn license_lines(c: &Categories) -> Seq<Seq<char>> {
    match c.license {
        Some(l) => seq!["LICENSE = "@ + l@],
        None => seq![],
    }
}

/// The lines of the metadata of a package converted to spf, whose
/// categories are `c` and whose spf architecture is `arch`.
pub open spec fn converted_meta_lines(c: &Categories, arch: Seq<char>) -> Seq<Seq<char>> {
    seq![
        "PROJECT_NAME = "@ + c.name@,
        "VERSION = "@ + c.version@,
        "DESCRIPTION = "@ + c.description@,
        "REPOSITORY = "@ + c.source@,
    ] + license_lines(c) + seq!["AUTHORS = "@ + c.authors@, "ARCH = "@ + arch]
}

/// The first line of the metadata of a converted package: the version of
/// spf that converted it.
pub open spec fn converted_header() -> Seq<char> {
    "### CONVERTED & PACKAGED WITH SPF "@ + VERSION@ + " ###"@
}

/// The metadata of a package converted to spf: the header line, an empty
/// line, then its lines joined by `\n`.
pub open spec fn converted_meta(c: &Categories, arch: Seq<char>) -> Seq<char> {
    converted_header() + seq!['\n', '\n'] + join(converted_meta_lines(c, arch), seq!['\n'])
}

fn labelled(label: &str, value: &str) -> (r: Vec<char>)
    ensures
        r@ == label@ + value@,
{
    let mut r = chars_of(label);
    let v = chars_of(value);
    crate::text::append_chars(&mut r, &v);
    r
}

/// The metadata file of a package converted to spf from a package with the
/// categories `c`; its architecture must have an spf name. A license line
/// is written only where the source package gives a license.
pub fn converted_meta_contents(c: &Categories) -> (r: Result<String, ConvertError>)
    ensures
        match arch_in(c.arch@, PackageType::Spf) {
            Some(a) => r matches Ok(m) && m@ == converted_meta(c, a),
            None => r matches Err(ConvertError::UnknownArch(x, t)) && x@ == c.arch@ && t
                == PackageType::Spf,
        },
{
    let arch = match convert_arch(c.arch.as_str(), PackageType::Spf) {
        Ok(a) => a,
        Err(e) => return Err(e),
    };
    let mut lines: Vec<Vec<char>> = Vec::new();
    lines.push(labelled("PROJECT_NAME = ", c.name.as_str()));
    lines.push(labelled("VERSION = ", c.version.as_str()));
    lines.push(labelled("DESCRIPTION = ", c.description.as_str()));
    lines.push(labelled("REPOSITORY = ", c.source.as_str()));
    match &c.license {
        Some(l) => lines.push(labelled("LICENSE = ", l.as_str())),
        None => {},
    }
    lines.push(labelled("AUTHORS = ", c.authors.as_str()));
    lines.push(labelled("ARCH = ", arch));
    assert(views(lines@) =~= converted_meta_lines(c, arch@));
    let nl: Vec<char> = vec!['\n'];
    assert(nl@ == seq!['\n']);
    let body = join_with(&lines, &nl);
    let mut text = chars_of("### CONVERTED & PACKAGED WITH SPF ");
    crate::text::append_chars(&mut text, &chars_of(VERSION));
    crate::text::append_chars(&mut text, &chars_of(" ###"));
    let blank: Vec<char> = vec!['\n', '\n'];
    crate::text::append_chars(&mut text, &blank);
    crate::text::append_chars(&mut text, &body);
    Ok(string_of(&text))
}

/// A value that reads back as written: no `\n` in it, and no white space
/// around it.
pub open spec fn clean_value(v: Seq<char>) -> bool {
    !v.contains('\n') && trim(v) == v
}

/// A line label is the category and ` = `.
proof fn lemma_label(label: Seq<char>, category: Seq<char>, v: Seq<char>)
    requires
        label == category + seq![' ', '=', ' '],
    ensures
        label + v == value_prefix(category) + seq![' '] + v,
{
    assert(label + v =~= value_prefix(category) + seq![' '] + v);
}

/// The category lines of a converted package read back as written.
proof fn lemma_converted_lines_round_trip(c: &Categories, arch: Seq<char>)
    requires
        arch_in(c.arch@, PackageType::Spf) == Some(arch),
        clean_value(c.name@),
        clean_value(c.version@),
        clean_value(c.description@),
        clean_value(c.source@),
        c.license matches Some(l) ==> clean_value(l@),
        clean_value(c.authors@),
    ensures
        meta_value(join(converted_meta_lines(c, arch), seq!['\n']), "PROJECT_NAME"@) == Some(c.name@),
        meta_value(join(converted_meta_lines(c, arch), seq!['\n']), "VERSION"@) == Some(c.version@),
        meta_value(join(converted_meta_lines(c, arch), seq!['\n']), "DESCRIPTION"@) == Some(c.description@),
        meta_value(join(converted_meta_lines(c, arch), seq!['\n']), "REPOSITORY"@) == Some(c.source@),
        meta_value(join(converted_meta_lines(c, arch), seq!['\n']), "LICENSE"@) == match c.license {
            Some(l) => Some(l@),
            None => None,
        },
        meta_value(join(converted_meta_lines(c, arch), seq!['\n']), "AUTHORS"@) == Some(c.authors@),
        meta_value(join(converted_meta_lines(c, arch), seq!['\n']), "ARCH"@) == Some(arch),
{
    reveal_strlit("PROJECT_NAME = ");
    reveal_strlit("VERSION = ");
    reveal_strlit("DESCRIPTION = ");
    reveal_strlit("REPOSITORY = ");
    reveal_strlit("LICENSE = ");
    reveal_strlit("AUTHORS = ");
    reveal_strlit("ARCH = ");
    reveal_strlit("PROJECT_NAME");
    reveal_strlit("VERSION");
    reveal_strlit("DESCRIPTION");
    reveal_strlit("REPOSITORY");
    reveal_strlit("LICENSE");
    reveal_strlit("AUTHORS");
    reveal_strlit("ARCH");
    reveal_strlit("universal");
    reveal_strlit("x86_64");
    reveal_strlit("x86");
    reveal_strlit("aarch64");
    reveal_strlit("arm");
    let nl = seq!['\n'];
    let ls = converted_meta_lines(c, arch);
    lemma_trim_unchanged(arch);
    assert(clean_value(arch));
    let (labels, names, values) = match c.license {
        Some(l) => (
            seq![
                "PROJECT_NAME = "@,
                "VERSION = "@,
                "DESCRIPTION = "@,
                "REPOSITORY = "@,
                "LICENSE = "@,
                "AUTHORS = "@,
                "ARCH = "@,
            ],
            seq![
                "PROJECT_NAME"@,
                "VERSION"@,
                "DESCRIPTION"@,
                "REPOSITORY"@,
                "LICENSE"@,
                "AUTHORS"@,
                "ARCH"@,
            ],
            seq![c.name@, c.version@, c.description@, c.source@, l@, c.authors@, arch],
        ),
        None => (
            seq![
                "PROJECT_NAME = "@,
                "VERSION = "@,
                "DESCRIPTION = "@,
                "REPOSITORY = "@,
                "AUTHORS = "@,
                "ARCH = "@,
            ],
            seq!["PROJECT_NAME"@, "VERSION"@, "DESCRIPTION"@, "REPOSITORY"@, "AUTHORS"@, "ARCH"@],
            seq![c.name@, c.version@, c.description@, c.source@, c.authors@, arch],
        ),
    };
    let n = ls.len() as int;
    assert(labels.len() == n && names.len() == n && values.len() == n);
    assert forall|i: int| 0 <= i < n implies {
        &&& ls[i] == labels[i] + values[i]
        &&& labels[i] == names[i] + seq![' ', '=', ' ']
        &&& !labels[i].contains('\n')
        &&& clean_value(values[i])
        &&& names[i].len() > 1
        &&& names[i][0] != ' '
        &&& names[i][0] != '#'
    } by {}
    assert forall|i: int| 0 <= i < n implies !(#[trigger] ls[i]).contains('\n') by {
        lemma_no_newline_concat(labels[i], values[i]);
    }
    assert forall|i: int, j: int| 0 <= i < n && 0 <= j < i implies !is_value_line(
        #[trigger] ls[j],
        #[trigger] names[i],
    ) by {
        if i == n - 1 && j == n - 2 {
            lemma_not_value_line(ls[j], names[i], 1);
        } else {
            lemma_not_value_line(ls[j], names[i], 0);
        }
    }
    assert forall|i: int| 0 <= i < n implies meta_value(join(ls, nl), #[trigger] names[i]) == Some(
        values[i],
    ) by {
        lemma_label(labels[i], names[i], values[i]);
        lemma_meta_value_of_lines(ls, names[i], i, values[i]);
    }
    if c.license is None {
        let lic = "LICENSE"@;
        crate::text::lemma_split_join(ls, '\n');
        crate::metadata::lemma_first_value_line(ls, lic, 0);
        let r = crate::metadata::first_value_line(ls, lic, 0);
        if r >= 0 {
            lemma_not_value_line(ls[r], lic, 0);
        }
    }
    assert(names[0] == "PROJECT_NAME"@);
    assert(names[1] == "VERSION"@);
    assert(names[2] == "DESCRIPTION"@);
    assert(names[3] == "REPOSITORY"@);
    assert(names[n - 2] == "AUTHORS"@);
    assert(names[n - 1] == "ARCH"@);
    if c.license is Some {
        assert(names[4] == "LICENSE"@);
    }
}

/// Reading the metadata of a converted package gives back each category
/// that was written, where the values are clean; a package without a
/// license reads back without one.
pub proof fn lemma_converted_meta_round_trip(c: &Categories, arch: Seq<char>)
    requires
        arch_in(c.arch@, PackageType::Spf) == Some(arch),
        clean_value(c.name@),
        clean_value(c.version@),
        clean_value(c.description@),
        clean_value(c.source@),
        c.license matches Some(l) ==> clean_value(l@),
        clean_value(c.authors@),
    ensures
        meta_value(converted_meta(c, arch), "PROJECT_NAME"@) == Some(c.name@),
        meta_value(converted_meta(c, arch), "VERSION"@) == Some(c.version@),
        meta_value(converted_meta(c, arch), "DESCRIPTION"@) == Some(c.description@),
        meta_value(converted_meta(c, arch), "REPOSITORY"@) == Some(c.source@),
        meta_value(converted_meta(c, arch), "LICENSE"@) == match c.license {
            Some(l) => Some(l@),
            None => None,
        },
        meta_value(converted_meta(c, arch), "AUTHORS"@) == Some(c.authors@),
        meta_value(converted_meta(c, arch), "ARCH"@) == Some(arch),
{
    lemma_converted_lines_round_trip(c, arch);
    let h = converted_header();
    let body = join(converted_meta_lines(c, arch), seq!['\n']);
    reveal_strlit("### CONVERTED & PACKAGED WITH SPF ");
    reveal_strlit(" ###");
    reveal_strlit("v0.5.1");
    assert(VERSION@ == "v0.5.1"@);
    assert(!h.contains('\n')) by {
        reveal_strlit("### CONVERTED & PACKAGED WITH SPF v0.5.1 ###");
        assert(h =~= "### CONVERTED & PACKAGED WITH SPF v0.5.1 ###"@);
    }
    assert(h[0] == '#');
    crate::metadata::lemma_meta_value_after_header(h, body, "PROJECT_NAME"@);
    crate::metadata::lemma_meta_value_after_header(h, body, "VERSION"@);
    crate::metadata::lemma_meta_value_after_header(h, body, "DESCRIPTION"@);
    crate::metadata::lemma_meta_value_after_header(h, body, "REPOSITORY"@);
    crate::metadata::lemma_meta_value_after_header(h, body, "LICENSE"@);
    crate::metadata::lemma_meta_value_after_header(h, body, "AUTHORS"@);
    crate::metadata::lemma_meta_value_after_header(h, body, "ARCH"@);
}

/// Two sequences without `\n` make one without it.
proof fn lemma_no_newline_concat(a: Seq<char>, b: Seq<char>)
    requires
        !a.contains('\n'),
        !b.contains('\n'),
    ensures
        !(a + b).contains('\n'),
{
    if (a + b).contains('\n') {
        let i = choose|i: int| 0 <= i < (a + b).len() && (a + b)[i] == '\n';
        if i < a.len() {
            assert(a[i] == '\n');
        } else {
            assert(b[i - a.len()] == '\n');
        }
    }
}


/// Sequences of different lengths differ.
proof fn lemma_differ_len(a: Seq<char>, b: Seq<char>)
    requires
        a.len() != b.len(),
    ensures
        a != b,
{
}

/// Sequences that differ at an index differ.
proof fn lemma_differ_at(a: Seq<char>, b: Seq<char>, i: int)
    requires
        0 <= i < a.len(),
        i < b.len(),
        a[i] != b[i],
    ensures
        a != b,
{
}

/// The names spf gives to architectures.
pub open spec fn is_spf_arch(a: Seq<char>) -> bool {
    a == "universal"@ || a == "x86_64"@ || a == "x86"@ || a == "aarch64"@ || a == "arm"@
}

/// Every architecture name that converting to spf gives is an spf name.
pub proof fn lemma_spf_arch_names(a: Seq<char>)
    ensures
        arch_in(a, PackageType::Spf) matches Some(x) ==> is_spf_arch(x),
{
}

/// An spf architecture converted to Debian or RPM and back to spf is
/// itself, and it has a Debian architecture.
pub proof fn lemma_arch_round_trip(a: Seq<char>)
    requires
        is_spf_arch(a),
    ensures
        arch_in(a, PackageType::Deb) is Some,
        arch_in(arch_in(a, PackageType::Deb)->0, PackageType::Spf) == Some(a),
        arch_in(a, PackageType::Rpm) is Some,
        arch_in(arch_in(a, PackageType::Rpm)->0, PackageType::Spf) == Some(a),
        deb_arch_of(a) is Some,
{
    reveal_strlit("universal");
    reveal_strlit("x86_64");
    reveal_strlit("x86");
    reveal_strlit("aarch64");
    reveal_strlit("arm");
    reveal_strlit("all");
    reveal_strlit("noarch");
    reveal_strlit("src");
    reveal_strlit("nosrc");
    reveal_strlit("amd64");
    reveal_strlit("i386");
    reveal_strlit("i686");
    reveal_strlit("arm64");
    reveal_strlit("armhf");
    reveal_strlit("armv7hl");
    reveal_strlit("armvhl");
    if a == "universal"@ {
        assert(arch_in(a, PackageType::Deb) == Some("all"@));
        assert(arch_in("all"@, PackageType::Spf) == Some("universal"@));
        assert(arch_in(a, PackageType::Rpm) == Some("noarch"@));
        assert(arch_in("noarch"@, PackageType::Spf) == Some("universal"@));
    } else if a == "x86_64"@ {
        lemma_differ_at("x86_64"@, "noarch"@, 0);
        lemma_differ_at("amd64"@, "nosrc"@, 0);
        assert(arch_in(a, PackageType::Deb) == Some("amd64"@));
        assert(arch_in("amd64"@, PackageType::Spf) == Some("x86_64"@));
        assert(arch_in(a, PackageType::Rpm) == Some("amd64"@));
    } else if a == "x86"@ {
        lemma_differ_at("x86"@, "src"@, 0);
        lemma_differ_at("x86"@, "all"@, 0);
        lemma_differ_at("i686"@, "i386"@, 1);
        assert(arch_in(a, PackageType::Deb) == Some("i386"@));
        assert(arch_in("i386"@, PackageType::Spf) == Some("x86"@));
        assert(arch_in(a, PackageType::Rpm) == Some("i686"@));
        assert(arch_in("i686"@, PackageType::Spf) == Some("x86"@));
    } else if a == "aarch64"@ {
        lemma_differ_at("arm64"@, "nosrc"@, 0);
        lemma_differ_at("arm64"@, "amd64"@, 1);
        lemma_differ_len("aarch64"@, "universal"@);
        lemma_differ_len("aarch64"@, "noarch"@);
        lemma_differ_len("aarch64"@, "src"@);
        lemma_differ_len("aarch64"@, "nosrc"@);
        lemma_differ_len("aarch64"@, "x86_64"@);
        lemma_differ_len("aarch64"@, "x86"@);
        lemma_differ_len("aarch64"@, "i386"@);
        lemma_differ_len("aarch64"@, "i686"@);
        assert(arch_in(a, PackageType::Deb) == Some("arm64"@));
        assert(arch_in("arm64"@, PackageType::Spf) == Some("aarch64"@));
        assert(arch_in(a, PackageType::Rpm) == Some("aarch64"@));
        assert(arch_in("aarch64"@, PackageType::Spf) == Some("aarch64"@));
    } else {
        lemma_differ_at("arm"@, "src"@, 0);
        lemma_differ_at("arm"@, "x86"@, 0);
        lemma_differ_at("arm"@, "all"@, 1);
        lemma_differ_at("armhf"@, "nosrc"@, 0);
        lemma_differ_at("armhf"@, "amd64"@, 1);
        lemma_differ_at("armhf"@, "arm64"@, 3);
        lemma_differ_at("armv7hl"@, "aarch64"@, 1);
        assert(arch_in(a, PackageType::Deb) == Some("armhf"@));
        assert(arch_in("armhf"@, PackageType::Spf) == Some("arm"@));
        assert(arch_in(a, PackageType::Rpm) == Some("armv7hl"@));
        lemma_differ_len("armv7hl"@, "all"@);
        lemma_differ_len("armv7hl"@, "noarch"@);
        lemma_differ_len("armv7hl"@, "src"@);
        lemma_differ_len("armv7hl"@, "nosrc"@);
        lemma_differ_len("armv7hl"@, "amd64"@);
        lemma_differ_len("armv7hl"@, "x86_64"@);
        lemma_differ_len("armv7hl"@, "i386"@);
        lemma_differ_len("armv7hl"@, "i686"@);
        lemma_differ_len("armv7hl"@, "arm64"@);
        lemma_differ_len("armv7hl"@, "armhf"@);
        assert(arch_in("armv7hl"@, PackageType::Spf) == Some("arm"@));
    }
}

/// What a Debian package built from an spf package is given.
pub struct DebFields {
    pub name: String,
    pub version: String,
    pub description: String,
    /// The package's authors.
    pub maintainer: String,
    /// The package's source.
    pub homepage: String,
    pub architecture: DebArch,
}

fn copy_of(s: &String) -> (r: String)
    ensures
        r@ == s@,
{
    string_of(&chars_of(s.as_str()))
}

/// The fields of the Debian package made from the spf package described by
/// `c`: name, version and description as they are, the authors as
/// maintainer, the source as homepage, and the Debian name of the
/// architecture; an architecture Debian has no name for is an error.
pub fn deb_fields(c: &Categories) -> (r: Result<DebFields, ConvertError>)
    ensures
        match deb_arch_of(c.arch@) {
            Some(d) => r matches Ok(f) && {
                &&& f.name@ == c.name@
                &&& f.version@ == c.version@
                &&& f.description@ == c.description@
                &&& f.maintainer@ == c.authors@
                &&& f.homepage@ == c.source@
                &&& f.architecture == d
            },
            None => r matches Err(ConvertError::NoDebArch),
        },
{
    let architecture = match deb_architecture(c.arch.as_str()) {
        Ok(a) => a,
        Err(e) => return Err(e),
    };
    Ok(
        DebFields {
            name: copy_of(&c.name),
            version: copy_of(&c.version),
            description: copy_of(&c.description),
            maintainer: copy_of(&c.authors),
            homepage: copy_of(&c.source),
            architecture,
        },
    )
}

/// What an RPM package built from an spf package is given.
pub struct RpmFields {
    pub name: String,
    pub version: String,
    pub license: String,
    pub arch: String,
    pub description: String,
    /// The host the package says it was built on.
    pub build_host: String,
}

/// The fields of the RPM package made from the spf package described by
/// `c` (whose categories give a license, as an spf package's do), on the
/// host named `hostname`: name, version, license and description as they
/// are, the RPM name of the architecture, and the converter on that host
/// as the build host; an architecture RPM has no name for is an error.
pub fn rpm_fields(c: &Categories, hostname: &str) -> (r: Result<RpmFields, ConvertError>)
    requires
        c.license is Some,
    ensures
        match arch_in(c.arch@, PackageType::Rpm) {
            Some(a) => r matches Ok(f) && {
                &&& f.name@ == c.name@
                &&& f.version@ == c.version@
                &&& f.license@ == c.license->Some_0@
                &&& f.arch@ == a
                &&& f.description@ == c.description@
                &&& f.build_host@ == "SPF package converter @ "@ + hostname@
            },
            None => r matches Err(ConvertError::UnknownArch(x, t)) && x@ == c.arch@ && t
                == PackageType::Rpm,
        },
{
    let arch = match convert_arch(c.arch.as_str(), PackageType::Rpm) {
        Ok(a) => a,
        Err(e) => return Err(e),
    };
    let license = match &c.license {
        Some(l) => copy_of(l),
        None => String::new(),
    };
    Ok(
        RpmFields {
            name: copy_of(&c.name),
            version: copy_of(&c.version),
            license,
            arch: string_of(&chars_of(arch)),
            description: copy_of(&c.description),
            build_host: concat("SPF package converter @ ", hostname),
        },
    )
}

} // verus!
