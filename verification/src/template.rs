//! The sample package config that the `template` command writes.
use vstd::prelude::*;
use crate::text::{chars_of, concat, replace, replace_all, string_of};

verus! {

/// A sample package config that shows every feature of the format.
pub const TEMPLATE_CONTENTS: &'static str = "# Header for project meta\n# NOTE: META MUST BE DEFINED BEFORE PATHS\n:::META DEFINE START:::\nPROJECT_NAME = name\nVERSION = v0.1.0\nDESCRIPTION = Sample config\nLICENSE = gplv3\nAUTHORS = spf\nARCH = x86_64\n:::META DEFINE END:::\n\n# Paths to file\n# Key:\n# original/file/path:location/to/install\n:::PATH DEFINE START:::\ntarget/debug/spf:/usr/bin/spf\n:::PATH DEFINE END:::\n";

/// Where the template is written in the directory `output_location`, and
/// how that path is shown (without a doubled `/` before the file name).
pub fn template_paths(output_location: &str) -> (r: (String, String))
    ensures
        r.0@ == output_location@ + "/spf_template"@,
        r.1@ == replace_all(r.0@, "//spf_template"@, "/spf_template"@),
{
    let path = concat(output_location, "/spf_template");
    proof {
        reveal_strlit("//spf_template");
        assert("//spf_template"@.len() > 0);
    }
    let shown = replace(&chars_of(path.as_str()), &chars_of("//spf_template"), &chars_of("/spf_template"));
    (path, string_of(&shown))
}

} // verus!
