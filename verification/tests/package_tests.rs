use spf::package::{
    check_path_entry, collect_project_meta, get_dirs_to_create, plan_package, plan_package_paths,
    project_meta_text, PackageError,
};
use spf::template::{template_paths, TEMPLATE_CONTENTS};

#[test]
fn package_request_checks() {
    assert!(matches!(plan_package("config.txt", true, "out.spf"), Err(PackageError::ConfigHasExtension)));
    assert!(matches!(plan_package("", true, "out.spf"), Err(PackageError::ConfigHasExtension)));
    assert!(matches!(plan_package("config", false, "out.spf"), Err(PackageError::ConfigNotFound)));
    assert!(matches!(plan_package("config", true, "out.tar"), Err(PackageError::OutputNotSpf(o)) if o == "out.tar"));
    let plan = plan_package("config", true, "dist/pkg-v1.spf").ok().unwrap();
    assert_eq!(plan.output_dir, "dist/pkg-v1");
    assert_eq!(plan.meta_file, "dist/pkg-v1/META");
    assert_eq!(plan.archive_name, "dist/pkg-v1.spf");
    assert_eq!(plan.archive_dir_name, "pkg-v1");
}

#[test]
fn template_is_a_valid_config() {
    let entries = collect_project_meta(TEMPLATE_CONTENTS).ok().unwrap();
    assert_eq!(
        entries,
        vec![
            "PROJECT_NAME = name",
            "VERSION = v0.1.0",
            "DESCRIPTION = Sample config",
            "LICENSE = gplv3",
            "AUTHORS = spf",
            "ARCH = x86_64",
        ]
    );
    assert_eq!(
        project_meta_text(&entries),
        "### PACKAGED WITH SPF v0.5.1 ###\n\nPROJECT_NAME = name\nVERSION = v0.1.0\nDESCRIPTION = Sample config\nLICENSE = gplv3\nAUTHORS = spf\nARCH = x86_64"
    );
    let copies = plan_package_paths(TEMPLATE_CONTENTS, "pkg").ok().unwrap();
    assert_eq!(copies.len(), 1);
    assert_eq!(copies[0].original, "target/debug/spf");
    assert_eq!(copies[0].directories, "pkg/usr/bin");
    assert_eq!(copies[0].destination, "pkg/usr/bin/spf");
}

#[test]
fn destination_names_the_file() {
    let config = ":::PATH DEFINE START:::\na/prog:/usr/bin/tool\nb/lib.so:/usr/lib/\n:::PATH DEFINE END:::";
    let copies = plan_package_paths(config, "out").ok().unwrap();
    assert_eq!(copies.len(), 2);
    assert_eq!(copies[0].original, "a/prog");
    assert_eq!(copies[0].directories, "out/usr/bin");
    assert_eq!(copies[0].destination, "out/usr/bin/tool");
    assert_eq!(copies[1].directories, "out/usr/lib");
    assert_eq!(copies[1].destination, "out/usr/lib/lib.so");
}

#[test]
fn meta_entry_errors() {
    let bad_category = ":::META DEFINE START:::\nNAME = x\n:::META DEFINE END:::";
    assert!(matches!(collect_project_meta(bad_category), Err(PackageError::InvalidCategory(e)) if e == "NAME = x"));
    let bad_format = ":::META DEFINE START:::\nVERSION=1\n:::META DEFINE END:::";
    assert!(matches!(collect_project_meta(bad_format), Err(PackageError::InvalidEntryFormat(e)) if e == "VERSION=1"));
    let stops_at_end = ":::META DEFINE START:::\nARCH = arm\n:::META DEFINE END:::\nnot metadata";
    assert_eq!(collect_project_meta(stops_at_end).ok().unwrap(), vec!["ARCH = arm"]);
}

#[test]
fn meta_arch_must_be_listed() {
    let unlisted = ":::META DEFINE START:::\nVERSION = 1\nARCH = amd64\n:::META DEFINE END:::";
    assert!(matches!(collect_project_meta(unlisted), Err(PackageError::UnsupportedArch(e)) if e == "ARCH = amd64"));
    let empty = ":::META DEFINE START:::\nARCH = \n:::META DEFINE END:::";
    assert!(matches!(collect_project_meta(empty), Err(PackageError::UnsupportedArch(e)) if e == "ARCH = "));
    let listed = ":::META DEFINE START:::\nARCH =  loongarch64 \n:::META DEFINE END:::";
    assert_eq!(collect_project_meta(listed).ok().unwrap(), vec!["ARCH =  loongarch64 "]);
}

#[test]
fn empty_meta_text_is_the_header() {
    assert_eq!(project_meta_text(&Vec::new()), "### PACKAGED WITH SPF v0.5.1 ###\n\n");
}

#[test]
fn path_entries() {
    let config = "ignored:/before\n:::PATH DEFINE START:::\n# comment\n\n./target/release/binary:/usr/bin/binary\nLICENSE:/usr/share/licenses/package_name/LICENSE\n:::PATH DEFINE END:::\nafter:/ignored";
    let copies = plan_package_paths(config, "out/pkg").ok().unwrap();
    assert_eq!(copies.len(), 2);
    assert_eq!(copies[0].original, "./target/release/binary");
    assert_eq!(copies[0].directories, "out/pkg/usr/bin");
    assert_eq!(copies[0].destination, "out/pkg/usr/bin/binary");
    assert_eq!(copies[1].original, "LICENSE");
    assert_eq!(copies[1].directories, "out/pkg/usr/share/licenses/package_name");
    assert_eq!(copies[1].destination, "out/pkg/usr/share/licenses/package_name/LICENSE");
}

#[test]
fn path_entry_errors() {
    let not_rooted = ":::PATH DEFINE START:::\na:usr/bin/a\n";
    assert!(matches!(plan_package_paths(not_rooted, "p"), Err(PackageError::DestinationNotRooted(d)) if d == "usr/bin/a"));
    let two_colons = ":::PATH DEFINE START:::\na:b:/c\n";
    assert!(matches!(plan_package_paths(two_colons, "p"), Err(PackageError::InvalidPathEntry(e)) if e == "a:b:/c"));
    let no_section = "a:/b\n";
    assert_eq!(plan_package_paths(no_section, "p").ok().unwrap().len(), 0);
}

#[test]
fn path_entry_form() {
    assert!(check_path_entry("a:/b", "a", "/b").is_ok());
    assert!(check_path_entry("a:b:/c", "a", "/c").is_err());
    assert!(check_path_entry(":/c", "", "/c").is_err());
    assert!(check_path_entry("/c", "/c", "/c").is_err());
}

#[test]
fn dirs_to_create() {
    assert_eq!(
        get_dirs_to_create("out/pkg", "out/pkg/usr/share/app/app".to_string(), "app"),
        vec!["usr", "share"]
    );
    assert_eq!(
        get_dirs_to_create("pkg", "pkg/usr/bin/tool".to_string(), "tool"),
        vec!["usr", "bin"]
    );
    assert!(get_dirs_to_create("a/b/c/d", "a/b".to_string(), "b").is_empty());
}

#[test]
fn template_location() {
    let (path, shown) = template_paths("dir/");
    assert_eq!(path, "dir//spf_template");
    assert_eq!(shown, "dir/spf_template");
    let (path, shown) = template_paths("/tmp");
    assert_eq!(path, "/tmp/spf_template");
    assert_eq!(shown, "/tmp/spf_template");
}
