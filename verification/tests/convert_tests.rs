use spf::convert::{
    convert_arch, deb_architecture, deb_package_dir, destination_in_package, plan_conversion,
    rpm_archive_paths, spf_build_dir, verify_input_paths, ConversionRoute, ConvertError, DebArch,
    Package, PackageType,
};

#[test]
fn arch_names_to_spf() {
    for (input, expected) in [
        ("all", "universal"),
        ("noarch", "universal"),
        ("src", "universal"),
        ("nosrc", "universal"),
        ("amd64", "x86_64"),
        ("x86_64", "x86_64"),
        ("i386", "x86"),
        ("i686", "x86"),
        ("arm64", "aarch64"),
        ("aarch64", "aarch64"),
        ("armhf", "arm"),
        ("armv7hl", "arm"),
        ("armvhl", "arm"),
    ] {
        assert_eq!(convert_arch(input, PackageType::Spf).ok(), Some(expected));
    }
}

#[test]
fn arch_names_to_deb() {
    for (input, expected) in [
        ("universal", "all"),
        ("noarch", "all"),
        ("x86_64", "amd64"),
        ("x86", "i386"),
        ("i386", "i386"),
        ("i686", "i386"),
        ("aarch64", "arm64"),
        ("arm", "armhf"),
        ("armv7hl", "armhf"),
    ] {
        assert_eq!(convert_arch(input, PackageType::Deb).ok(), Some(expected));
    }
}

#[test]
fn arch_names_to_rpm() {
    for (input, expected) in [
        ("universal", "noarch"),
        ("all", "noarch"),
        ("x86_64", "amd64"),
        ("x86", "i686"),
        ("i386", "i686"),
        ("aarch64", "aarch64"),
        ("arm64", "aarch64"),
        ("arm", "armv7hl"),
        ("armhf", "armv7hl"),
    ] {
        assert_eq!(convert_arch(input, PackageType::Rpm).ok(), Some(expected));
    }
}

#[test]
fn unknown_arch_is_an_error() {
    match convert_arch("universal", PackageType::Spf) {
        Err(ConvertError::UnknownArch(a, t)) => {
            assert_eq!(a, "universal");
            assert_eq!(t, PackageType::Spf);
        }
        _ => panic!("expected an error"),
    }
    assert!(convert_arch("amd64", PackageType::Rpm).is_err());
    assert!(convert_arch("", PackageType::Deb).is_err());
}

#[test]
fn spf_arch_round_trips() {
    for a in ["universal", "x86_64", "x86", "aarch64", "arm"] {
        let deb = convert_arch(a, PackageType::Deb).ok().unwrap();
        assert_eq!(convert_arch(deb, PackageType::Spf).ok(), Some(a));
        let rpm = convert_arch(a, PackageType::Rpm).ok().unwrap();
        assert_eq!(convert_arch(rpm, PackageType::Spf).ok(), Some(a));
        assert!(deb_architecture(a).is_ok());
    }
}

#[test]
fn deb_architectures() {
    assert_eq!(deb_architecture("universal").ok(), Some(DebArch::All));
    assert_eq!(deb_architecture("x86_64").ok(), Some(DebArch::Amd64));
    assert_eq!(deb_architecture("x86").ok(), Some(DebArch::I386));
    assert_eq!(deb_architecture("aarch64").ok(), Some(DebArch::Arm64));
    assert_eq!(deb_architecture("arm").ok(), Some(DebArch::Armhf));
    assert!(matches!(deb_architecture("amd64"), Err(ConvertError::NoDebArch)));
}

#[test]
fn input_paths_are_checked_in_order() {
    assert!(matches!(verify_input_paths("a.zip", "b.deb"), Err(ConvertError::UnsupportedInput(e)) if e == "zip"));
    assert!(matches!(verify_input_paths("a.spf", "b.zip"), Err(ConvertError::UnsupportedOutput(e)) if e == "zip"));
    assert!(matches!(verify_input_paths("a.spf", ""), Err(ConvertError::UnsupportedOutput(e)) if e.is_empty()));
    assert!(matches!(verify_input_paths("a.spf", "b.spf"), Err(ConvertError::SameFormat)));
    assert!(matches!(verify_input_paths("a.deb", "b.rpm"), Err(ConvertError::DebRpm)));
    assert!(matches!(verify_input_paths("a.rpm", "b.deb"), Err(ConvertError::DebRpm)));
    assert_eq!(verify_input_paths("a.deb", "out/b.spf").ok(), Some("spf".to_string()));
    assert_eq!(verify_input_paths("a.spf", "b.rpm").ok(), Some("rpm".to_string()));
}

#[test]
fn conversion_plan() {
    assert!(matches!(plan_conversion("", true, "b.spf"), Err(ConvertError::MissingInput)));
    assert!(matches!(plan_conversion("a.deb", false, "b.spf"), Err(ConvertError::SourceNotFound(p)) if p == "a.deb"));
    let c = plan_conversion("a.deb", true, "b.spf").ok().unwrap();
    assert_eq!(c.package.source_package_path, "a.deb");
    assert_eq!(c.package.package_type, PackageType::Deb);
    assert_eq!(c.output_package_type, PackageType::Spf);
}

#[test]
fn package_type_from_extension() {
    assert_eq!(Package::from("x/y.rpm".to_string()).ok().unwrap().package_type, PackageType::Rpm);
    assert_eq!(Package::from("y.spf".to_string()).ok().unwrap().package_type, PackageType::Spf);
    assert!(matches!(Package::from("y.tar".to_string()), Err(ConvertError::InvalidSourceType(e)) if e == "tar"));
}

#[test]
fn conversion_routes() {
    let spf = Package::from("p.spf".to_string()).ok().unwrap();
    let deb = Package::from("p.deb".to_string()).ok().unwrap();
    let rpm = Package::from("p.rpm".to_string()).ok().unwrap();
    assert_eq!(spf.route(PackageType::Deb).ok(), Some(ConversionRoute::SpfToDeb));
    assert_eq!(spf.route(PackageType::Rpm).ok(), Some(ConversionRoute::SpfToRpm));
    assert_eq!(deb.route(PackageType::Spf).ok(), Some(ConversionRoute::DebToSpf));
    assert_eq!(rpm.route(PackageType::Spf).ok(), Some(ConversionRoute::RpmToSpf));
    assert!(matches!(spf.route(PackageType::Spf), Err(ConvertError::CannotConvert(PackageType::Spf, PackageType::Spf))));
    assert!(matches!(deb.route(PackageType::Rpm), Err(ConvertError::CannotConvert(PackageType::Deb, PackageType::Rpm))));
    assert!(matches!(rpm.route(PackageType::Deb), Err(ConvertError::CannotConvert(PackageType::Rpm, PackageType::Deb))));
}

#[test]
fn conversion_paths() {
    let spf = Package::from("dir/pkg.spf".to_string()).ok().unwrap();
    assert_eq!(spf.extracted_dir(), "pkg");
    assert_eq!(destination_in_package("dir/pkg.spf/usr/bin/x", "dir/pkg.spf"), "/usr/bin/x");
    assert_eq!(deb_package_dir("out/hello.v1.spf"), "hello");
    let (tgz, dir) = rpm_archive_paths("pkgs/hello.rpm");
    assert_eq!(tgz, "pkgs/hello.rpm.tgz");
    assert_eq!(dir, "./hello");
    assert_eq!(spf_build_dir("out/hello.spf"), "out/hello");
}

fn sample_categories(arch: &str) -> spf::metadata::Categories {
    spf::metadata::Categories {
        name: "tool".to_string(),
        version: "v1.0.0".to_string(),
        description: "A tool".to_string(),
        source: "https://example.org".to_string(),
        license: Some("MIT".to_string()),
        authors: "Me <me@example.org>".to_string(),
        arch: arch.to_string(),
    }
}

#[test]
fn debian_fields_of_an_spf_package() {
    let f = spf::convert::deb_fields(&sample_categories("x86_64")).ok().unwrap();
    assert_eq!(f.name, "tool");
    assert_eq!(f.version, "v1.0.0");
    assert_eq!(f.description, "A tool");
    assert_eq!(f.maintainer, "Me <me@example.org>");
    assert_eq!(f.homepage, "https://example.org");
    assert_eq!(f.architecture, spf::convert::DebArch::Amd64);
    assert!(matches!(
        spf::convert::deb_fields(&sample_categories("sparc")),
        Err(spf::convert::ConvertError::NoDebArch)
    ));
}

#[test]
fn rpm_fields_of_an_spf_package() {
    let f = spf::convert::rpm_fields(&sample_categories("universal"), "builder").ok().unwrap();
    assert_eq!(f.name, "tool");
    assert_eq!(f.version, "v1.0.0");
    assert_eq!(f.license, "MIT");
    assert_eq!(f.arch, "noarch");
    assert_eq!(f.description, "A tool");
    assert_eq!(f.build_host, "SPF package converter @ builder");
    assert!(matches!(
        spf::convert::rpm_fields(&sample_categories("weird"), "h"),
        Err(spf::convert::ConvertError::UnknownArch(a, spf::convert::PackageType::Rpm)) if a == "weird"
    ));
}
