# spf

spf is a small package format (`.spf`, a tar archive holding a `META` file
and a file tree) and a package manager for it: it creates packages from a
package config, installs, lists, inspects and removes them, and converts
packages between spf and the Debian and RPM formats.

## Layout

- `src/` is the library, verified with Verus. Each module states its
  behaviour in `requires`/`ensures` over spec functions on `Seq<char>`:
  - `text`: the string operations the formats are read with (lines, split,
    trim, replace, join, decimal numbers), each proved against a spec.
  - `paths`: file names and extensions of paths.
  - `metadata`: `META` files and the categories of a package.
  - `package`: package configs (metadata section, path section) and where
    each path is copied to.
  - `install`, `remove`, `list`, `inspect`, `template`, `cli`, `sys`: the
    decisions of each command.
  - `convert`: conversion routes, architecture names, converted metadata.
- `app/` is the `spf` program: argument handling, the file system, archives
  and the Debian and RPM crates, around the library.
- `tests/` runs the library on concrete inputs.
