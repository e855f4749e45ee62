use spf::paths::FileProperty;

fn ext(p: &str) -> String {
    FileProperty::extension(p).unwrap()
}

fn name(p: &str) -> String {
    FileProperty::name(p).unwrap()
}

fn whole_name(p: &str) -> String {
    FileProperty::file_name(p).unwrap()
}

#[test]
fn extension_examples() {
    assert_eq!(ext("file.extension"), "extension");
    assert_eq!(ext("archive.tar.gz"), "gz");
    assert_eq!(ext("dir.d/file"), "");
    assert_eq!(ext(".bashrc"), "");
    assert_eq!(ext("a."), "");
    assert_eq!(ext("a/b.spf/"), "spf");
    assert_eq!(ext(""), "");
    assert_eq!(ext(".."), "");
}

#[test]
fn name_examples() {
    assert_eq!(name("file.extension"), "file");
    assert_eq!(name("/usr/bin/spf"), "spf");
    assert_eq!(name("dir/sub/"), "sub");
    assert_eq!(name("dir/sub/."), "sub");
    assert_eq!(name("./pkg.spf"), "pkg");
    assert_eq!(name("archive.tar.gz"), "archive.tar");
    assert_eq!(name(".bashrc"), ".bashrc");
    assert_eq!(name("a//b"), "b");
}

#[test]
fn whole_name_examples() {
    assert_eq!(whole_name("file.extension"), "file.extension");
    assert_eq!(whole_name("./pkg.spf"), "pkg.spf");
    assert_eq!(whole_name("dir/sub/"), "sub");
}

#[test]
fn extensions_agree_with_std() {
    for p in ["a.b", "a", ".a", "a.b.c", "x/y.z/", "x/.", "x/..", "/", "", "..a", "a..", "/a/./b.c/."] {
        let expected = std::path::Path::new(p)
            .extension()
            .map(|e| e.to_str().unwrap().to_string())
            .unwrap_or_default();
        assert_eq!(ext(p), expected, "path {p:?}");
        if let Some(n) = std::path::Path::new(p).file_name() {
            assert_eq!(whole_name(p), n.to_str().unwrap(), "path {p:?}");
            let stem = std::path::Path::new(p).file_stem().unwrap();
            assert_eq!(name(p), stem.to_str().unwrap(), "path {p:?}");
        }
    }
}
