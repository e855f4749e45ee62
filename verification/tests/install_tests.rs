use spf::install::{
    arch_blocks_install, confirms, formatted_package_name, install_destination, install_files,
    marker_path_section, FoundPath, InstallStep,
    parse_installed_and_packaged_versions, plan_install, version_action, InstallError,
    VersionAction,
};

#[test]
fn versions_as_numbers() {
    assert_eq!(parse_installed_and_packaged_versions("v0.2.0", "v1.4.2"), (20, 142));
    assert_eq!(parse_installed_and_packaged_versions("(1.0)", "v"), (10, 0));
    assert_eq!(parse_installed_and_packaged_versions("v1-beta", "vv3v"), (0, 3));
    assert_eq!(parse_installed_and_packaged_versions("+7", "99999999999999999999999"), (7, 0));
}

#[test]
fn version_actions() {
    assert_eq!(version_action("v1.4.2", "v1.4.2"), VersionAction::AlreadyInstalled);
    assert_eq!(version_action("v1.4.2", "v0.2.0"), VersionAction::Update);
    assert_eq!(version_action("v0.2.0", "v1.4.2"), VersionAction::Downgrade);
    assert_eq!(version_action("v1.0", "1.0"), VersionAction::Downgrade);
    assert_eq!(version_action("beta", "v1"), VersionAction::Unparsable);
}

#[test]
fn install_plan() {
    let plan = plan_install("downloads/pkg-v1.spf", true).ok().unwrap();
    assert_eq!(plan.package_file, "pkg-v1.spf");
    assert_eq!(plan.metadata_file, "pkg-v1/META");
    assert_eq!(plan.extracted_dir, "pkg-v1");
    assert!(plan_install("PKG.SPF", true).is_ok());
    assert!(matches!(plan_install("pkg.deb", true), Err(InstallError::NotSpfPackage)));
    assert!(matches!(plan_install("", true), Err(InstallError::NotSpfPackage)));
    assert!(matches!(plan_install("pkg.spf", false), Err(InstallError::NotSpfPackage)));
}

#[test]
fn arch_check() {
    let none: Vec<String> = vec![];
    let ignore = vec!["install".to_string(), "--ignore-args".to_string()];
    let other = vec!["install".to_string(), "--ignore-arch".to_string()];
    assert!(!arch_blocks_install("x86_64", "x86_64", &none));
    assert!(arch_blocks_install("aarch64", "x86_64", &none));
    assert!(!arch_blocks_install("aarch64", "x86_64", &ignore));
    assert!(arch_blocks_install("aarch64", "x86_64", &other));
}

#[test]
fn names_and_answers() {
    assert_eq!(formatted_package_name("spf", "v0.1.0"), "spf-v0.1.0");
    assert!(confirms("y\n"));
    assert!(confirms("  Y  "));
    assert!(!confirms("yes"));
    assert!(!confirms("n"));
    assert!(!confirms(""));
}

#[test]
fn install_destinations() {
    assert_eq!(install_destination("./pkg/usr/bin/pkg", "pkg"), ".//usr/bin/pkg");
    assert_eq!(install_destination("pkg/usr/bin/x", "pkg"), "/usr/bin/x");
    assert_eq!(install_destination("other/x", "pkg"), "other/x");
}

#[test]
fn marker_lists_installed_paths() {
    assert_eq!(marker_path_section(&vec![]), "\n:::PATH DEFINE START:::\n");
    let paths = vec!["/usr/bin/binary".to_string(), "/usr/share/x".to_string()];
    assert_eq!(
        marker_path_section(&paths),
        "\n:::PATH DEFINE START:::\n/usr/bin/binary\n/usr/share/x\n"
    );
}

#[test]
fn installing_files_and_reading_them_back() {
    let found = vec![
        FoundPath { path: "pkg/usr".to_string(), is_dir: true },
        FoundPath { path: "pkg/usr/bin".to_string(), is_dir: true },
        FoundPath { path: "pkg/usr/bin/tool".to_string(), is_dir: false },
        FoundPath { path: "pkg/usr/bin/spf".to_string(), is_dir: false },
    ];
    let plan = install_files(&found, "pkg", "/usr/bin/spf");
    assert_eq!(plan.steps.len(), 4);
    assert!(matches!(&plan.steps[0], InstallStep::CreateDir(d) if d == "/usr"));
    assert!(matches!(&plan.steps[1], InstallStep::CreateDir(d) if d == "/usr/bin"));
    assert!(matches!(&plan.steps[2], InstallStep::CopyFile { from, to, replaces_self }
        if from == "pkg/usr/bin/tool" && to == "/usr/bin/tool" && !*replaces_self));
    assert!(matches!(&plan.steps[3], InstallStep::CopyFile { from, to, replaces_self }
        if from == "pkg/usr/bin/spf" && to == "/usr/bin/spf" && *replaces_self));
    assert_eq!(plan.marker, "\n:::PATH DEFINE START:::\n/usr/bin/tool\n/usr/bin/spf\n");
    let meta = "### PACKAGED WITH SPF v0.5.1 ###\n\nPROJECT_NAME = tool\nARCH = x86_64";
    let installed = format!("{meta}{}", plan.marker);
    assert_eq!(
        spf::remove::installed_paths(&installed),
        vec!["/usr/bin/tool".to_string(), "/usr/bin/spf".to_string()]
    );
}
