use spf::convert::{converted_meta_contents, convert_arch, PackageType};
use spf::metadata::{installed_meta_path, Categories, Meta, PACKAGE_INSTALL_PATH};

const SAMPLE_META: &str = "PROJECT_NAME = package_name\nVERSION = v0.1.0\nDESCRIPTION = Sample package\nLICENSE = gplv3\nAUTHORS = User Name\nARCH = x86_64";

#[test]
fn load_value_reads_each_category() {
    let meta = Meta::from("/usr/share/spf/packages/package_name", SAMPLE_META.to_string());
    assert_eq!(meta.clone().load_value("PROJECT_NAME"), "package_name");
    assert_eq!(meta.clone().load_value("VERSION"), "v0.1.0");
    assert_eq!(meta.clone().load_value("DESCRIPTION"), "Sample package");
    assert_eq!(meta.clone().load_value("LICENSE"), "gplv3");
    assert_eq!(meta.clone().load_value("AUTHORS"), "User Name");
    assert_eq!(meta.load_value("ARCH"), "x86_64");
}

#[test]
fn meta_keeps_the_file_it_was_read_from() {
    let meta = Meta::from("/tmp/META", String::new());
    assert_eq!(meta.meta_file(), "/tmp/META");
}

#[test]
fn find_value_of_missing_category_is_none() {
    let meta = Meta::from("META", SAMPLE_META.to_string());
    assert_eq!(meta.find_value("REPOSITORY"), None);
}

#[test]
fn comments_and_other_categories_are_skipped() {
    let contents = "### PACKAGED WITH SPF v0.5.1 ###\n\n#VERSION = commented\nVERSIONS = wrong\nVERSION =   v2  \n:::PATH DEFINE START:::\n/usr/bin/binary";
    let meta = Meta::from("META", contents.to_string());
    assert_eq!(meta.find_value("VERSION"), Some("v2".to_string()));
    assert_eq!(meta.find_value("PROJECT_NAME"), None);
}

#[test]
fn first_line_of_a_category_wins() {
    let meta = Meta::from("META", "ARCH = x86\nARCH = arm".to_string());
    assert_eq!(meta.load_value("ARCH"), "x86");
}

#[test]
fn repeated_prefix_is_stripped() {
    let meta = Meta::from("META", "ARCH =ARCH = arm".to_string());
    assert_eq!(meta.load_value("ARCH"), "arm");
}

#[test]
fn value_without_space_after_equals() {
    let meta = Meta::from("META", "LICENSE =mit\r".to_string());
    assert_eq!(meta.load_value("LICENSE"), "mit");
}

#[test]
fn installed_meta_path_joins_install_dir() {
    assert_eq!(PACKAGE_INSTALL_PATH, "/usr/share/spf/packages/");
    assert_eq!(installed_meta_path("spf"), "/usr/share/spf/packages/spf");
}

#[test]
fn categories_from_spf_meta() {
    let contents = format!("{SAMPLE_META}\nREPOSITORY = https://example.org");
    let meta = Meta::from("META", contents);
    let c = Categories::from_meta(&meta).ok().unwrap();
    assert_eq!(c.name, "package_name");
    assert_eq!(c.version, "v0.1.0");
    assert_eq!(c.description, "Sample package");
    assert_eq!(c.source, "https://example.org");
    assert_eq!(c.license, Some("gplv3".to_string()));
    assert_eq!(c.authors, "User Name");
    assert_eq!(c.arch, "x86_64");
}

#[test]
fn categories_from_created_package_meta() {
    let created = format!("### PACKAGED WITH SPF v0.5.1 ###\n\n{SAMPLE_META}");
    let meta = Meta::from("META", created);
    let c = Categories::from_meta(&meta).ok().unwrap();
    assert_eq!(c.name, "package_name");
    assert_eq!(c.version, "v0.1.0");
    assert_eq!(c.description, "Sample package");
    assert_eq!(c.source, "Unknown (not given by the package)");
    assert_eq!(c.license, Some("gplv3".to_string()));
    assert_eq!(c.authors, "User Name");
    assert_eq!(c.arch, "x86_64");
}

#[test]
fn categories_from_spf_meta_names_first_missing() {
    let meta = Meta::from("META", "PROJECT_NAME = p\nVERSION = 1\nDESCRIPTION = d\nAUTHORS = a\nARCH = arm".to_string());
    let e = Categories::from_meta(&meta).err().unwrap();
    assert_eq!(e.category, "LICENSE");
    let meta = Meta::from("META", "VERSION = 1".to_string());
    let e = Categories::from_meta(&meta).err().unwrap();
    assert_eq!(e.category, "PROJECT_NAME");
}

#[test]
fn categories_from_deb_control() {
    let c = Categories::from_deb_control(
        "hello".to_string(),
        "1.0".to_string(),
        "greets #ignored part".to_string(),
        None,
        "Someone <s@example.org>".to_string(),
        "amd64".to_string(),
    );
    assert_eq!(c.name, "hello");
    assert_eq!(c.version, "1.0");
    assert_eq!(c.description, "greets");
    assert_eq!(c.source, "Unknown (converted from Debian package)");
    assert_eq!(c.license, None);
    assert_eq!(c.authors, "Someone <s@example.org>");
    assert_eq!(c.arch, "amd64");
    let c = Categories::from_deb_control(
        "a".to_string(),
        "b".to_string(),
        "no hash here".to_string(),
        Some("https://h".to_string()),
        "m".to_string(),
        "all".to_string(),
    );
    assert_eq!(c.description, "no hash here");
    assert_eq!(c.source, "https://h");
}

#[test]
fn categories_from_rpm_header() {
    let c = Categories::from_rpm_header(
        Some("n".to_string()),
        None,
        Some("d".to_string()),
        None,
        Some("MIT".to_string()),
        None,
        None,
    );
    assert_eq!(c.name, "n");
    assert_eq!(c.version, "Unknown (likely lost in conversion)");
    assert_eq!(c.description, "d");
    assert_eq!(c.source, "Unknown (likely lost in conversion)");
    assert_eq!(c.license, Some("MIT".to_string()));
    assert_eq!(c.authors, "Unknown (likely lost in conversion)");
    assert_eq!(c.arch, "noarch");
}

#[test]
fn converted_meta_reads_back() {
    let c = Categories {
        name: "hello".to_string(),
        version: "1.2.3".to_string(),
        description: "A greeter".to_string(),
        source: "https://example.org".to_string(),
        license: Some("GPL".to_string()),
        authors: "Me <me@example.org>".to_string(),
        arch: "amd64".to_string(),
    };
    let text = converted_meta_contents(&c).ok().unwrap();
    assert_eq!(
        text,
        "### CONVERTED & PACKAGED WITH SPF v0.5.1 ###\n\nPROJECT_NAME = hello\nVERSION = 1.2.3\nDESCRIPTION = A greeter\nREPOSITORY = https://example.org\nLICENSE = GPL\nAUTHORS = Me <me@example.org>\nARCH = x86_64"
    );
    let meta = Meta::from("META", text);
    assert_eq!(meta.clone().load_value("PROJECT_NAME"), c.name);
    assert_eq!(meta.clone().load_value("VERSION"), c.version);
    assert_eq!(meta.clone().load_value("DESCRIPTION"), c.description);
    assert_eq!(meta.clone().load_value("REPOSITORY"), c.source);
    assert_eq!(Some(meta.clone().load_value("LICENSE")), c.license);
    assert_eq!(meta.clone().load_value("AUTHORS"), c.authors);
    assert_eq!(meta.load_value("ARCH"), convert_arch(&c.arch, PackageType::Spf).ok().unwrap());
}

#[test]
fn converted_meta_with_unknown_arch_fails() {
    let c = Categories {
        name: "n".to_string(),
        version: "v".to_string(),
        description: "d".to_string(),
        source: "s".to_string(),
        license: Some("l".to_string()),
        authors: "a".to_string(),
        arch: "sparc".to_string(),
    };
    assert!(converted_meta_contents(&c).is_err());
}

#[test]
fn converted_debian_meta_has_no_license() {
    let c = Categories::from_deb_control(
        "p".to_string(),
        "v".to_string(),
        "d".to_string(),
        None,
        "m".to_string(),
        "amd64".to_string(),
    );
    let text = converted_meta_contents(&c).ok().unwrap();
    assert_eq!(
        text,
        "### CONVERTED & PACKAGED WITH SPF v0.5.1 ###\n\nPROJECT_NAME = p\nVERSION = v\nDESCRIPTION = d\nREPOSITORY = Unknown (converted from Debian package)\nAUTHORS = m\nARCH = x86_64"
    );
    let meta = Meta::from("META", text);
    assert_eq!(meta.find_value("LICENSE"), None);
}
