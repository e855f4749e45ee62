//! Inspecting the metadata of an spf package file or of an installed package.
use vstd::prelude::*;
use crate::metadata::{PACKAGE_INSTALL_PATH, installed_meta_path};
use crate::paths::{FileProperty, file_name, lemma_file_name_of_suffix};
use crate::text::{
    chars_of, ends_with, has_suffix, replace, replace_all, string_of, trim_end_matches,
    trim_suffixes,
};

verus! {

/// Inspecting fails where no package is named.
#[derive(Debug)]
pub enum InspectError {
    NoPackage,
}

/// What is inspected, and where its metadata is.
pub enum InspectTarget {
    /// An spf package file, extracted to `extracted_dir`.
    SpfPackage { package_path: String, metadata_path: String, extracted_dir: String },
    /// An installed package, whose metadata is kept at `meta_path`.
    Installed { package: String, meta_path: String },
}

/// What inspecting `package` looks at: a package file where the name ends
/// with `.spf`, an installed package otherwise.
pub fn inspect(package: String) -> (r: Result<InspectTarget, InspectError>)
    ensures
        if package@.len() == 0 {
            r matches Err(InspectError::NoPackage)
        } else if has_suffix(package@, ".spf"@) {
            &&& file_name(package@) is Some
            &&& r matches Ok(InspectTarget::SpfPackage { package_path, metadata_path, extracted_dir })
            &&& package_path@ == package@
            &&& metadata_path@ == replace_all(file_name(package@)->0, ".spf"@, "/META"@)
            &&& extracted_dir@ == trim_suffixes(metadata_path@, "/META"@)
        } else {
            &&& r matches Ok(InspectTarget::Installed { package: p, meta_path })
            &&& p@ == package@
            &&& meta_path@ == PACKAGE_INSTALL_PATH@ + package@
        },
{
    if package.as_str().is_empty() {
        return Err(InspectError::NoPackage);
    }
    let p = chars_of(package.as_str());
    let spf = chars_of(".spf");
    if ends_with(&p, &spf) {
        proof {
            reveal_strlit(".spf");
            lemma_file_name_of_suffix(package@, ".spf"@);
        }
        let name = match FileProperty::file_name(package.as_str()) {
            Ok(n) => n,
            Err(_) => String::new(),
        };
        let meta = chars_of("/META");
        let metadata_path = replace(&chars_of(name.as_str()), &spf, &meta);
        let extracted_dir = trim_end_matches(&metadata_path, &meta);
        Ok(
            InspectTarget::SpfPackage {
                package_path: package,
                metadata_path: string_of(&metadata_path),
                extracted_dir: string_of(&extracted_dir),
            },
        )
    } else {
        let meta_path = installed_meta_path(package.as_str());
        Ok(InspectTarget::Installed { package, meta_path })
    }
}

} // verus!
