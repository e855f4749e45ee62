//! File names and extensions of paths, as the package formats use them.
use vstd::prelude::*;
use crate::text::{chars_of, has_suffix, slice_of, string_of};

verus! {

/// Index of the last `c` in `s` before `e`, or -1.
pub open spec fn rfind_char_to(s: Seq<char>, c: char, e: int) -> int
    decreases e,
{
    if e <= 0 || e > s.len() {
        -1
    } else if s[e - 1] == c {
        e - 1
    } else {
        rfind_char_to(s, c, e - 1)
    }
}

/// What `rfind_char_to` returns: the last `c` before `e`.
pub proof fn lemma_rfind_char_to(s: Seq<char>, c: char, e: int)
    requires
        0 <= e <= s.len(),
    ensures
        -1 <= rfind_char_to(s, c, e) < e,
        rfind_char_to(s, c, e) >= 0 ==> s[rfind_char_to(s, c, e)] == c,
        forall|k: int| rfind_char_to(s, c, e) < k < e ==> s[k] != c,
    decreases e,
{
    if e > 0 && s[e - 1] != c {
        lemma_rfind_char_to(s, c, e - 1);
    }
}

/// The final component of the path `s[0..e]`, as `Path::file_name` reads it
/// on Unix: separators are `/`, empty and `.` components are skipped, and a
/// path whose last component is `..` (or that has none) has no file name.
pub open spec fn file_name_to(s: Seq<char>, e: int) -> Option<Seq<char>>
    decreases e,
{
    if e <= 0 || e > s.len() {
        None
    } else if s[e - 1] == '/' {
        file_name_to(s, e - 1)
    } else {
        let b = rfind_char_to(s, '/', e);
        let piece = s.subrange(b + 1, e);
        if piece == seq!['.'] {
            proof {
                lemma_rfind_char_to(s, '/', e);
            }
            file_name_to(s, b + 1)
        } else if piece == seq!['.', '.'] {
            None
        } else {
            Some(piece)
        }
    }
}

/// `Path::file_name` of a path written as `s`.
pub open spec fn file_name(s: Seq<char>) -> Option<Seq<char>> {
    file_name_to(s, s.len() as int)
}

/// `Path::extension` of a path written as `s`: what follows the last `.` of
/// the file name, where that `.` is not its first character.
pub open spec fn extension(s: Seq<char>) -> Option<Seq<char>> {
    match file_name(s) {
        Some(f) => {
            let d = rfind_char_to(f, '.', f.len() as int);
            if d > 0 {
                Some(f.subrange(d + 1, f.len() as int))
            } else {
                None
            }
        },
        None => None,
    }
}

/// The extension of a path, or nothing where it has none.
pub open spec fn ext_or_empty(p: Seq<char>) -> Seq<char> {
    match extension(p) {
        Some(x) => x,
        None => Seq::<char>::empty(),
    }
}

/// `Path::file_stem` of a path written as `s`: its file name without the
/// extension.
pub open spec fn file_stem(s: Seq<char>) -> Option<Seq<char>> {
    match file_name(s) {
        Some(f) => {
            let d = rfind_char_to(f, '.', f.len() as int);
            if d > 0 {
                Some(f.subrange(0, d))
            } else {
                Some(f)
            }
        },
        None => None,
    }
}

/// The index of the last `c` in `s` before `e`.
pub fn rfind_char(s: &Vec<char>, c: char, e: usize) -> (r: Option<usize>)
    requires
        e <= s.len(),
    ensures
        match r {
            Some(k) => k as int == rfind_char_to(s@, c, e as int),
            None => rfind_char_to(s@, c, e as int) == -1,
        },
{
    let mut i = e;
    while i > 0
        invariant
            i <= e <= s.len(),
            rfind_char_to(s@, c, e as int) == rfind_char_to(s@, c, i as int),
        decreases i,
    {
        if s[i - 1] == c {
            return Some(i - 1);
        }
        i = i - 1;
    }
    None
}

/// The file name of the path `s`, as `Path::file_name` gives it.
pub fn file_name_of(s: &Vec<char>) -> (r: Option<Vec<char>>)
    ensures
        match r {
            Some(v) => file_name(s@) == Some(v@),
            None => file_name(s@) is None,
        },
{
    let mut e = s.len();
    loop
        invariant
            e <= s.len(),
            file_name(s@) == file_name_to(s@, e as int),
        decreases e,
    {
        if e == 0 {
            return None;
        }
        if s[e - 1] == '/' {
            e = e - 1;
        } else {
            let b = rfind_char(s, '/', e);
            proof {
                lemma_rfind_char_to(s@, '/', e as int);
            }
            let start: usize = match b {
                Some(k) => k + 1,
                None => 0,
            };
            let piece = slice_of(s, start, e);
            if piece.len() == 1 && piece[0] == '.' {
                assert(piece@ == seq!['.']);
                e = start;
            } else if piece.len() == 2 && piece[0] == '.' && piece[1] == '.' {
                assert(piece@ == seq!['.', '.']);
                return None;
            } else {
                assert(piece@ != seq!['.']);
                assert(piece@ != seq!['.', '.']);
                return Some(piece);
            }
        }
    }
}

/// The extension of the path `s`, as `Path::extension` gives it.
pub fn extension_of(s: &Vec<char>) -> (r: Option<Vec<char>>)
    ensures
        match r {
            Some(v) => extension(s@) == Some(v@),
            None => extension(s@) is None,
        },
{
    match file_name_of(s) {
        Some(f) => {
            proof {
                lemma_rfind_char_to(f@, '.', f@.len() as int);
            }
            match rfind_char(&f, '.', f.len()) {
                Some(d) => {
                    if d > 0 {
                        Some(slice_of(&f, d + 1, f.len()))
                    } else {
                        None
                    }
                },
                None => None,
            }
        },
        None => None,
    }
}

/// A path that ends with `suffix`, where the suffix holds no `/` and is
/// neither `.` nor `..`, has a file name, and that file name ends with the
/// suffix.
pub proof fn lemma_file_name_of_suffix(s: Seq<char>, suffix: Seq<char>)
    requires
        has_suffix(s, suffix),
        suffix.len() >= 3,
        forall|i: int| 0 <= i < suffix.len() ==> suffix[i] != '/',
    ensures
        file_name(s) is Some,
        has_suffix(file_name(s)->0, suffix),
{
    let n = s.len() as int;
    let m = suffix.len() as int;
    assert(s[n - 1] == suffix[m - 1]);
    lemma_rfind_char_to(s, '/', n);
    let b = rfind_char_to(s, '/', n);
    assert forall|k: int| n - m <= k < n implies s[k] != '/' by {
        assert(s[k] == s.subrange(n - m, n)[k - (n - m)]);
    }
    assert(b < n - m);
    let piece = s.subrange(b + 1, n);
    assert(piece.len() >= 3);
    assert(piece != seq!['.']);
    assert(piece != seq!['.', '.']);
    assert(piece.subrange(piece.len() - m, piece.len() as int) == suffix) by {
        assert forall|k: int| 0 <= k < m implies piece.subrange(
            piece.len() - m,
            piece.len() as int,
        )[k] == suffix[k] by {
            assert(s.subrange(n - m, n)[k] == suffix[k]);
        }
    }
}

/// Marks the properties of a path that spf reads: its extension and file
/// name.
pub struct FileProperty;

impl FileProperty {
    /// The extension of `path`, or an empty string where it has none.
    pub fn extension(path: &str) -> (r: Result<String, std::io::Error>)
        ensures
            r matches Ok(e) && e@ == ext_or_empty(path@),
    {
        let p = chars_of(path);
        match extension_of(&p) {
            Some(e) => Ok(string_of(&e)),
            None => Ok(String::new()),
        }
    }

    /// The name of the file at `path`, without its extension (the name of
    /// `file.extension` is `file`); `path` must have a file name.
    pub fn name(path: &str) -> (r: Result<String, std::io::Error>)
        requires
            file_name(path@) is Some,
        ensures
            r matches Ok(n) && n@ == file_stem(path@)->0,
    {
        let p = chars_of(path);
        match file_name_of(&p) {
            Some(f) => {
                proof {
                    lemma_rfind_char_to(f@, '.', f@.len() as int);
                }
                match rfind_char(&f, '.', f.len()) {
                    Some(d) => {
                        if d > 0 {
                            Ok(string_of(&slice_of(&f, 0, d)))
                        } else {
                            Ok(string_of(&f))
                        }
                    },
                    None => Ok(string_of(&f)),
                }
            },
            None => Ok(String::new()),
        }
    }

    /// The whole file name of `path`, extension included; `path` must have
    /// one.
    pub fn file_name(path: &str) -> (r: Result<String, std::io::Error>)
        requires
            file_name(path@) is Some,
        ensures
            r matches Ok(n) && n@ == file_name(path@)->0,
    {
        let p = chars_of(path);
        match file_name_of(&p) {
            Some(n) => Ok(string_of(&n)),
            None => Ok(String::new()),
        }
    }
}

} // verus!
