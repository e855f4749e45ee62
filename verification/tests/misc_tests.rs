use spf::cli::{parse_command, Command};
use spf::inspect::{inspect, InspectError, InspectTarget};
use spf::list::{list_packages, ListError, PackageSummary};
use spf::remove::{installed_paths, plan_removal, removal_listing, RemoveError};
use spf::sys::{args_contains, is_root, return_args, Env};

fn strings(v: &[&str]) -> Vec<String> {
    v.iter().map(|s| s.to_string()).collect()
}

#[test]
fn short_arguments_are_cut_apart() {
    assert_eq!(
        return_args(strings(&["-a", "--ard", "arg", "-bcd", "-"])),
        strings(&["-a", "--ard", "arg", "-b", "-c", "-d", "-"])
    );
    assert!(return_args(vec![]).is_empty());
}

#[test]
fn argument_lookup() {
    let args = strings(&["--arga", "argb", "-c"]);
    assert!(args_contains(&args, "argb"));
    assert!(!args_contains(&args, "abcd"));
}

#[test]
fn root_detection() {
    let env = |name: &str, home: &str| Env { name: name.to_string(), home: home.to_string() };
    assert!(is_root(&env("root", "/home/x")));
    assert!(is_root(&env("admin", "/root")));
    assert!(!is_root(&env("user", "/home/user")));
    assert!(is_root(&env("user", "/home/groot")));
}

#[test]
fn commands() {
    assert!(matches!(parse_command(strings(&["create", "config", "out.spf"])), Command::Create { package_config, output_location } if package_config == "config" && output_location == "out.spf"));
    assert!(matches!(parse_command(strings(&["-i", "p.spf"])), Command::Install(p) if p == "p.spf"));
    assert!(matches!(parse_command(strings(&["remove", "a", "-x", "b", "--ignore-args"])), Command::Remove(v) if v == strings(&["a", "b"])));
    assert!(matches!(parse_command(strings(&["--ignore-args", "list"])), Command::List(s) if s.is_empty()));
    assert!(matches!(parse_command(strings(&["-t", "dir"])), Command::Template(s) if s == "dir"));
    assert!(matches!(parse_command(strings(&["inspect", "x"])), Command::Inspect(s) if s == "x"));
    assert!(matches!(parse_command(strings(&["convert", "a.deb", "b.spf"])), Command::Convert { source_package_path, output_package_path } if source_package_path == "a.deb" && output_package_path == "b.spf"));
    assert!(matches!(parse_command(strings(&["-v"])), Command::Version));
    assert!(matches!(parse_command(vec![]), Command::Usage));
    assert!(matches!(parse_command(strings(&["frobnicate"])), Command::Invalid(s) if s == "frobnicate"));
}

#[test]
fn inspect_targets() {
    assert!(matches!(inspect(String::new()), Err(InspectError::NoPackage)));
    match inspect("downloads/pkg.spf".to_string()) {
        Ok(InspectTarget::SpfPackage { package_path, metadata_path, extracted_dir }) => {
            assert_eq!(package_path, "downloads/pkg.spf");
            assert_eq!(metadata_path, "pkg/META");
            assert_eq!(extracted_dir, "pkg");
        }
        _ => panic!("expected a package file"),
    }
    match inspect("spf".to_string()) {
        Ok(InspectTarget::Installed { package, meta_path }) => {
            assert_eq!(package, "spf");
            assert_eq!(meta_path, "/usr/share/spf/packages/spf");
        }
        _ => panic!("expected an installed package"),
    }
}

#[test]
fn removal_requests() {
    assert!(matches!(plan_removal(vec![]), Err(RemoveError::NoPackages)));
    assert_eq!(
        plan_removal(strings(&["b", "a", "b", "c", "a"])).ok().unwrap(),
        strings(&["b", "a", "c"])
    );
}

#[test]
fn removal_listings() {
    let few = strings(&["package1-v0.0.1", "package2-v0.0.2", "package3-v0.0.3"]);
    assert_eq!(removal_listing(&few), "package1-v0.0.1 package2-v0.0.2 package3-v0.0.3");
    let many = strings(&["p1", "p2", "p3", "p4", "p5", "p6"]);
    assert_eq!(removal_listing(&many), "p1\np2\np3\np4\np5\np6");
    let five = strings(&["p1", "p2", "p3", "p4", "p5"]);
    assert_eq!(removal_listing(&five), "p1 p2 p3 p4 p5");
}

#[test]
fn recorded_paths() {
    let marker = "### PACKAGED WITH SPF v0.5.1 ###\n\nPROJECT_NAME = package_name\nVERSION = v0.1.0\nARCH = x86_64\n:::PATH DEFINE START:::\n/usr/bin/binary\n/usr/share/licenses/package_name/LICENSE\n";
    assert_eq!(
        installed_paths(marker),
        strings(&["/usr/bin/binary", "/usr/share/licenses/package_name/LICENSE"])
    );
}

fn summary(name: &str, version: &str, description: &str) -> PackageSummary {
    PackageSummary {
        name: name.to_string(),
        version: version.to_string(),
        description: description.to_string(),
    }
}

#[test]
fn listings() {
    assert!(matches!(list_packages(&vec![], ""), Err(ListError::NoPackagesInstalled)));
    let installed = vec![summary("spf", "v0.5.1", "Simple package format"), summary("tool", "1", "A tool")];
    assert_eq!(
        list_packages(&installed, "").ok().unwrap(),
        strings(&["Installed packages:\n", "> spf-v0.5.1\n    Simple package format", "> tool-1\n    A tool"])
    );
    assert_eq!(
        list_packages(&installed, "sp").ok().unwrap(),
        strings(&["Matching installed packages:\n", "> spf-v0.5.1\n    Simple package format"])
    );
    assert!(matches!(list_packages(&installed, "zzz"), Err(ListError::NoMatch(s)) if s == "zzz"));
}
