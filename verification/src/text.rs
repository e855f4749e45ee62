//! Character-sequence primitives that the package formats are parsed with.
//!
//! Text is handled as `Vec<char>`; each executable function is proved
//! against a spec function over `Seq<char>`.
use vstd::prelude::*;

verus! {

broadcast use vstd::string::group_string_axioms;

/// `s` begins with `p`.
pub open spec fn has_prefix(s: Seq<char>, p: Seq<char>) -> bool {
    p.len() <= s.len() && s.subrange(0, p.len() as int) == p
}

/// `s` ends with `p`.
pub open spec fn has_suffix(s: Seq<char>, p: Seq<char>) -> bool {
    p.len() <= s.len() && s.subrange(s.len() - p.len(), s.len() as int) == p
}

/// `p` occurs in `s` at position `i`.
pub open spec fn occurs_at(s: Seq<char>, p: Seq<char>, i: int) -> bool {
    0 <= i && i + p.len() <= s.len() && s.subrange(i, i + p.len()) == p
}

/// `p` occurs somewhere in `s`.
pub open spec fn contains_seq(s: Seq<char>, p: Seq<char>) -> bool {
    exists|i: int| occurs_at(s, p, i)
}

/// Appends a character to a string: std's `String::push`.
#[verifier::external_body]
pub(crate) fn push_char(s: &mut String, c: char)
    ensures
        final(s)@ == old(s)@.push(c),
{
    s.push(c)
}

/// The characters of a string slice, in order.
pub fn chars_of(s: &str) -> (v: Vec<char>)
    ensures
        v@ == s@,
{
    let mut v: Vec<char> = Vec::new();
    let n = s.unicode_len();
    let mut i: usize = 0;
    while i < n
        invariant
            n == s@.len(),
            i <= n,
            v@ == s@.subrange(0, i as int),
        decreases n - i,
    {
        v.push(s.get_char(i));
        i = i + 1;
    }
    v
}

/// A string made of the given characters.
pub fn string_of(v: &Vec<char>) -> (s: String)
    ensures
        s@ == v@,
{
    let mut s = String::new();
    let mut i: usize = 0;
    while i < v.len()
        invariant
            i <= v.len(),
            s@ == v@.subrange(0, i as int),
        decreases v.len() - i,
    {
        push_char(&mut s, v[i]);
        i = i + 1;
    }
    s
}

/// Whether two character sequences are equal.
pub fn seq_equal(a: &Vec<char>, b: &Vec<char>) -> (r: bool)
    ensures
        r == (a@ == b@),
{
    if a.len() != b.len() {
        return false;
    }
    let mut i: usize = 0;
    while i < a.len()
        invariant
            a.len() == b.len(),
            i <= a.len(),
            a@.subrange(0, i as int) == b@.subrange(0, i as int),
        decreases a.len() - i,
    {
        if a[i] != b[i] {
            assert(a@[i as int] != b@[i as int]);
            return false;
        }
        assert(a@.subrange(0, i + 1) == a@.subrange(0, i as int).push(a@[i as int]));
        assert(b@.subrange(0, i + 1) == b@.subrange(0, i as int).push(b@[i as int]));
        i = i + 1;
    }
    assert(a@ == a@.subrange(0, a.len() as int));
    assert(b@ == b@.subrange(0, b.len() as int));
    true
}

/// Whether `s` and `p` agree on the `p.len()` characters from `start`.
pub fn matches_at(s: &Vec<char>, p: &Vec<char>, start: usize) -> (r: bool)
    requires
        start <= s.len(),
    ensures
        r == occurs_at(s@, p@, start as int),
{
    if p.len() > s.len() - start {
        return false;
    }
    let mut i: usize = 0;
    while i < p.len()
        invariant
            start + p.len() <= s.len(),
            i <= p.len(),
            s@.subrange(start as int, start + i) == p@.subrange(0, i as int),
        decreases p.len() - i,
    {
        if s[start + i] != p[i] {
            assert(s@.subrange(start as int, start + p.len())[i as int] != p@[i as int]);
            return false;
        }
        assert(s@.subrange(start as int, start + i + 1) == s@.subrange(start as int, start + i).push(s@[start + i]));
        assert(p@.subrange(0, i + 1) == p@.subrange(0, i as int).push(p@[i as int]));
        i = i + 1;
    }
    assert(p@ == p@.subrange(0, p.len() as int));
    true
}

/// Whether `s` begins with `p`.
pub fn starts_with(s: &Vec<char>, p: &Vec<char>) -> (r: bool)
    ensures
        r == has_prefix(s@, p@),
{
    matches_at(s, p, 0)
}

/// Whether `s` ends with `p`.
pub fn ends_with(s: &Vec<char>, p: &Vec<char>) -> (r: bool)
    ensures
        r == has_suffix(s@, p@),
{
    if p.len() > s.len() {
        return false;
    }
    matches_at(s, p, s.len() - p.len())
}


/// Index of the first `c` in `s` at or after `i`, or -1.
pub open spec fn find_char_from(s: Seq<char>, c: char, i: int) -> int
    decreases s.len() - i,
{
    if i < 0 || i >= s.len() {
        -1
    } else if s[i] == c {
        i
    } else {
        find_char_from(s, c, i + 1)
    }
}

/// What `find_char_from` returns: the first `c` at or after `i`.
pub proof fn lemma_find_char_from(s: Seq<char>, c: char, i: int)
    requires
        0 <= i,
    ensures
        -1 <= find_char_from(s, c, i) < s.len(),
        find_char_from(s, c, i) >= 0 ==> i <= find_char_from(s, c, i) && s[find_char_from(s, c, i)]
            == c,
        forall|k: int|
            i <= k < s.len() && (find_char_from(s, c, i) < 0 || k < find_char_from(s, c, i))
                ==> s[k] != c,
    decreases s.len() - i,
{
    if i < s.len() && s[i] != c {
        lemma_find_char_from(s, c, i + 1);
    }
}

/// Index of the first occurrence of `p` in `s` at or after `i`, or -1.
pub open spec fn find_from(s: Seq<char>, p: Seq<char>, i: int) -> int
    decreases s.len() + 1 - i,
{
    if i < 0 || i + p.len() > s.len() {
        -1
    } else if occurs_at(s, p, i) {
        i
    } else {
        find_from(s, p, i + 1)
    }
}

/// What `find_from` returns: the first occurrence at or after `i`.
pub proof fn lemma_find_from(s: Seq<char>, p: Seq<char>, i: int)
    requires
        0 <= i,
    ensures
        -1 <= find_from(s, p, i),
        find_from(s, p, i) >= 0 ==> i <= find_from(s, p, i) && occurs_at(s, p, find_from(s, p, i)),
        forall|k: int|
            i <= k && (find_from(s, p, i) < 0 || k < find_from(s, p, i)) ==> !occurs_at(s, p, k),
    decreases s.len() + 1 - i,
{
    if i + p.len() <= s.len() && !occurs_at(s, p, i) {
        lemma_find_from(s, p, i + 1);
    }
}

/// The first index at or after `start` where `c` stands in `s`.
pub fn find_char(s: &Vec<char>, c: char, start: usize) -> (r: Option<usize>)
    ensures
        match r {
            Some(k) => k as int == find_char_from(s@, c, start as int),
            None => find_char_from(s@, c, start as int) == -1,
        },
{
    let mut i = start;
    while i < s.len()
        invariant
            start <= i,
            find_char_from(s@, c, start as int) == find_char_from(s@, c, i as int),
        decreases s.len() - i,
    {
        if s[i] == c {
            return Some(i);
        }
        i = i + 1;
    }
    None
}

/// The first index at or after `start` where `p` occurs in `s`.
pub fn find(s: &Vec<char>, p: &Vec<char>, start: usize) -> (r: Option<usize>)
    ensures
        match r {
            Some(k) => k as int == find_from(s@, p@, start as int),
            None => find_from(s@, p@, start as int) == -1,
        },
{
    if start > s.len() || p.len() > s.len() - start {
        return None;
    }
    if p.len() == 0 {
        assert(s@.subrange(start as int, start as int) == p@);
        return Some(start);
    }
    let mut i = start;
    while i <= s.len() - p.len()
        invariant
            start <= i <= s.len() - p.len() + 1,
            1 <= p.len() <= s.len(),
            find_from(s@, p@, start as int) == find_from(s@, p@, i as int),
        decreases s.len() - i,
    {
        if matches_at(s, p, i) {
            return Some(i);
        }
        i = i + 1;
    }
    None
}

/// The characters of `s` from `from` up to `to`.
pub fn slice_of(s: &Vec<char>, from: usize, to: usize) -> (r: Vec<char>)
    requires
        from <= to <= s.len(),
    ensures
        r@ == s@.subrange(from as int, to as int),
{
    let mut r: Vec<char> = Vec::new();
    let mut i = from;
    while i < to
        invariant
            from <= i <= to <= s.len(),
            r@ == s@.subrange(from as int, i as int),
        decreases to - i,
    {
        r.push(s[i]);
        i = i + 1;
    }
    r
}

/// Appends the characters of `t` to `r`.
pub fn append_chars(r: &mut Vec<char>, t: &Vec<char>)
    ensures
        final(r)@ == old(r)@ + t@,
{
    let mut i: usize = 0;
    while i < t.len()
        invariant
            i <= t.len(),
            r@ == old(r)@ + t@.subrange(0, i as int),
        decreases t.len() - i,
    {
        r.push(t[i]);
        i = i + 1;
    }
}

/// The views of a sequence of character vectors.
pub open spec fn views(v: Seq<Vec<char>>) -> Seq<Seq<char>> {
    v.map_values(|x: Vec<char>| x@)
}

/// The pieces of `s` from `i` on, cut at each `c` (as `str::split` with a
/// character pattern).
pub open spec fn split_from(s: Seq<char>, c: char, i: int) -> Seq<Seq<char>>
    decreases s.len() + 1 - i,
{
    if i < 0 || i > s.len() {
        seq![]
    } else {
        let j = find_char_from(s, c, i);
        if j < 0 {
            seq![s.subrange(i, s.len() as int)]
        } else {
            proof {
                lemma_find_char_from(s, c, i);
            }
            seq![s.subrange(i, j)] + split_from(s, c, j + 1)
        }
    }
}

/// The pieces of `s` between the occurrences of `c`; there is always at
/// least one piece.
pub open spec fn split_char(s: Seq<char>, c: char) -> Seq<Seq<char>> {
    split_from(s, c, 0)
}

/// Cuts `s` at each `c`, as `str::split` with a character pattern does.
pub fn split(s: &Vec<char>, c: char) -> (r: Vec<Vec<char>>)
    ensures
        views(r@) == split_char(s@, c),
{
    let mut r: Vec<Vec<char>> = Vec::new();
    let mut start: usize = 0;
    loop
        invariant
            start <= s.len(),
            split_char(s@, c) == views(r@) + split_from(s@, c, start as int),
        decreases s.len() - start,
    {
        proof {
            lemma_find_char_from(s@, c, start as int);
        }
        match find_char(s, c, start) {
            Some(j) => {
                let piece = slice_of(s, start, j);
                proof {
                    assert(views(r@.push(piece)) == views(r@).push(piece@));
                    assert(split_from(s@, c, start as int) == seq![piece@] + split_from(s@, c, j + 1));
                    assert(views(r@) + (seq![piece@] + split_from(s@, c, j + 1)) == views(r@).push(piece@) + split_from(s@, c, j + 1));
                }
                r.push(piece);
                start = j + 1;
            },
            None => {
                let piece = slice_of(s, start, s.len());
                proof {
                    assert(views(r@.push(piece)) == views(r@).push(piece@));
                    assert(views(r@) + seq![piece@] == views(r@).push(piece@));
                }
                r.push(piece);
                return r;
            },
        }
    }
}

/// A line without the carriage return that ended it, if any.
pub open spec fn strip_cr(l: Seq<char>) -> Seq<char> {
    if l.len() > 0 && l.last() == '\r' {
        l.drop_last()
    } else {
        l
    }
}

/// The lines of `s` from `i` on, as `str::lines` gives them: cut at each
/// `\n`, a `\r` before the `\n` dropped, and no empty line after a final `\n`.
pub open spec fn lines_from(s: Seq<char>, i: int) -> Seq<Seq<char>>
    decreases s.len() + 1 - i,
{
    if i < 0 || i >= s.len() {
        seq![]
    } else {
        let j = find_char_from(s, '\n', i);
        if j < 0 {
            seq![s.subrange(i, s.len() as int)]
        } else {
            proof {
                lemma_find_char_from(s, '\n', i);
            }
            seq![strip_cr(s.subrange(i, j))] + lines_from(s, j + 1)
        }
    }
}

/// The lines of `s`, as `str::lines` gives them.
pub open spec fn lines(s: Seq<char>) -> Seq<Seq<char>> {
    lines_from(s, 0)
}

/// Cuts `s` into lines, as `str::lines` does.
pub fn split_lines(s: &Vec<char>) -> (r: Vec<Vec<char>>)
    ensures
        views(r@) == lines(s@),
{
    let mut r: Vec<Vec<char>> = Vec::new();
    let mut start: usize = 0;
    while start < s.len()
        invariant
            start <= s.len(),
            lines(s@) == views(r@) + lines_from(s@, start as int),
        decreases s.len() - start,
    {
        proof {
            lemma_find_char_from(s@, '\n', start as int);
        }
        match find_char(s, '\n', start) {
            Some(j) => {
                let mut piece = slice_of(s, start, j);
                if piece.len() > 0 && piece[piece.len() - 1] == '\r' {
                    piece.pop();
                }
                proof {
                    assert(piece@ == strip_cr(s@.subrange(start as int, j as int)));
                    assert(views(r@.push(piece)) == views(r@).push(piece@));
                    assert(views(r@) + (seq![piece@] + lines_from(s@, j + 1)) == views(r@).push(piece@) + lines_from(s@, j + 1));
                }
                r.push(piece);
                start = j + 1;
            },
            None => {
                let piece = slice_of(s, start, s.len());
                proof {
                    assert(views(r@.push(piece)) == views(r@).push(piece@));
                    assert(views(r@) + seq![piece@] == views(r@).push(piece@));
                }
                r.push(piece);
                return r;
            },
        }
    }
    assert(views(r@) + lines_from(s@, start as int) == views(r@));
    r
}


/// `char::is_whitespace`: the Unicode `White_Space` property.
pub open spec fn is_whitespace(c: char) -> bool {
    ||| '\u{9}' <= c <= '\u{d}'
    ||| c == ' '
    ||| c == '\u{85}'
    ||| c == '\u{a0}'
    ||| c == '\u{1680}'
    ||| '\u{2000}' <= c <= '\u{200a}'
    ||| c == '\u{2028}'
    ||| c == '\u{2029}'
    ||| c == '\u{202f}'
    ||| c == '\u{205f}'
    ||| c == '\u{3000}'
}

/// Whether `c` is white space, as `char::is_whitespace` says.
pub fn char_is_whitespace(c: char) -> (r: bool)
    ensures
        r == is_whitespace(c),
{
    ('\u{9}' <= c && c <= '\u{d}') || c == ' ' || c == '\u{85}' || c == '\u{a0}' || c == '\u{1680}'
        || ('\u{2000}' <= c && c <= '\u{200a}') || c == '\u{2028}' || c == '\u{2029}' || c
        == '\u{202f}' || c == '\u{205f}' || c == '\u{3000}'
}

/// A class of characters that trimming removes.
pub enum CharClass {
    Whitespace,
    Exactly(char),
}

/// Whether `c` belongs to the class `k`.
pub open spec fn in_class(k: CharClass, c: char) -> bool {
    match k {
        CharClass::Whitespace => is_whitespace(c),
        CharClass::Exactly(x) => c == x,
    }
}

/// The first index at or after `i` whose character is not in `f`.
pub open spec fn skip_while(s: Seq<char>, f: CharClass, i: int) -> int
    decreases s.len() - i,
{
    if 0 <= i < s.len() && in_class(f, s[i]) {
        skip_while(s, f, i + 1)
    } else {
        i
    }
}

/// The end left when characters meeting `f` are dropped from before `e`.
pub open spec fn back_while(s: Seq<char>, f: CharClass, e: int) -> int
    decreases e,
{
    if 0 < e <= s.len() && in_class(f, s[e - 1]) {
        back_while(s, f, e - 1)
    } else {
        e
    }
}

/// What `skip_while` returns: the first index at or after `i` outside the class.
pub proof fn lemma_skip_while(s: Seq<char>, f: CharClass, i: int)
    requires
        0 <= i <= s.len(),
    ensures
        i <= skip_while(s, f, i) <= s.len(),
        skip_while(s, f, i) < s.len() ==> !in_class(f, s[skip_while(s, f, i)]),
        forall|k: int| i <= k < skip_while(s, f, i) ==> in_class(f, s[k]),
    decreases s.len() - i,
{
    if i < s.len() && in_class(f, s[i]) {
        lemma_skip_while(s, f, i + 1);
    }
}

/// `s` with the leading characters that meet `f` removed.
pub open spec fn trim_start_by(s: Seq<char>, f: CharClass) -> Seq<char> {
    s.subrange(skip_while(s, f, 0), s.len() as int)
}

/// `s` with the trailing characters that meet `f` removed.
pub open spec fn trim_end_by(s: Seq<char>, f: CharClass) -> Seq<char> {
    s.subrange(0, back_while(s, f, s.len() as int))
}

/// `s` with the characters that meet `f` removed from both ends.
pub open spec fn trim_by(s: Seq<char>, f: CharClass) -> Seq<char> {
    trim_end_by(trim_start_by(s, f), f)
}

/// `str::trim`: white space removed from both ends.
pub open spec fn trim(s: Seq<char>) -> Seq<char> {
    trim_by(s, CharClass::Whitespace)
}

/// `str::trim_matches` with a character: `c` removed from both ends.
pub open spec fn trim_char(s: Seq<char>, c: char) -> Seq<char> {
    trim_by(s, CharClass::Exactly(c))
}

/// Removes white space from both ends of `s`, as `str::trim` does.
pub fn trim_whitespace(s: &Vec<char>) -> (r: Vec<char>)
    ensures
        r@ == trim(s@),
{
    let ghost f = CharClass::Whitespace;
    let mut a: usize = 0;
    while a < s.len() && char_is_whitespace(s[a])
        invariant
            a <= s.len(),
            f == CharClass::Whitespace,
            skip_while(s@, f, 0) == skip_while(s@, f, a as int),
        decreases s.len() - a,
    {
        a = a + 1;
    }
    let t = slice_of(s, a, s.len());
    let mut e: usize = t.len();
    while e > 0 && char_is_whitespace(t[e - 1])
        invariant
            e <= t.len(),
            f == CharClass::Whitespace,
            back_while(t@, f, t@.len() as int) == back_while(t@, f, e as int),
        decreases e,
    {
        e = e - 1;
    }
    slice_of(&t, 0, e)
}

/// Removes `c` from both ends of `s`, as `str::trim_matches` with a
/// character does.
pub fn trim_matches_char(s: &Vec<char>, c: char) -> (r: Vec<char>)
    ensures
        r@ == trim_char(s@, c),
{
    let ghost f = CharClass::Exactly(c);
    let mut a: usize = 0;
    while a < s.len() && s[a] == c
        invariant
            a <= s.len(),
            f == CharClass::Exactly(c),
            skip_while(s@, f, 0) == skip_while(s@, f, a as int),
        decreases s.len() - a,
    {
        a = a + 1;
    }
    let t = slice_of(s, a, s.len());
    let mut e: usize = t.len();
    while e > 0 && t[e - 1] == c
        invariant
            e <= t.len(),
            f == CharClass::Exactly(c),
            back_while(t@, f, t@.len() as int) == back_while(t@, f, e as int),
        decreases e,
    {
        e = e - 1;
    }
    slice_of(&t, 0, e)
}

/// `s` from `i` on, with every leading copy of `p` removed
/// (`str::trim_start_matches` with a string pattern).
pub open spec fn trim_prefixes_from(s: Seq<char>, p: Seq<char>, i: int) -> Seq<char>
    decreases s.len() + 1 - i,
{
    if i < 0 || i > s.len() {
        seq![]
    } else if p.len() > 0 && occurs_at(s, p, i) {
        trim_prefixes_from(s, p, i + p.len())
    } else {
        s.subrange(i, s.len() as int)
    }
}

/// `str::trim_start_matches` with a string pattern.
pub open spec fn trim_prefixes(s: Seq<char>, p: Seq<char>) -> Seq<char> {
    trim_prefixes_from(s, p, 0)
}

/// `s` up to `e`, with every trailing copy of `p` removed
/// (`str::trim_end_matches` with a string pattern).
pub open spec fn trim_suffixes_to(s: Seq<char>, p: Seq<char>, e: int) -> Seq<char>
    decreases e,
{
    if e < 0 || e > s.len() {
        seq![]
    } else if p.len() > 0 && e >= p.len() && occurs_at(s, p, e - p.len()) {
        trim_suffixes_to(s, p, e - p.len())
    } else {
        s.subrange(0, e)
    }
}

/// `str::trim_end_matches` with a string pattern.
pub open spec fn trim_suffixes(s: Seq<char>, p: Seq<char>) -> Seq<char> {
    trim_suffixes_to(s, p, s.len() as int)
}

/// Removes every leading copy of `p`, as `str::trim_start_matches` does.
pub fn trim_start_matches(s: &Vec<char>, p: &Vec<char>) -> (r: Vec<char>)
    ensures
        r@ == trim_prefixes(s@, p@),
{
    let mut i: usize = 0;
    if p.len() == 0 {
        return slice_of(s, 0, s.len());
    }
    while matches_at(s, p, i)
        invariant
            i <= s.len(),
            p.len() > 0,
            trim_prefixes(s@, p@) == trim_prefixes_from(s@, p@, i as int),
        decreases s.len() - i,
    {
        i = i + p.len();
    }
    slice_of(s, i, s.len())
}

/// Removes every trailing copy of `p`, as `str::trim_end_matches` does.
pub fn trim_end_matches(s: &Vec<char>, p: &Vec<char>) -> (r: Vec<char>)
    ensures
        r@ == trim_suffixes(s@, p@),
{
    let mut e: usize = s.len();
    if p.len() == 0 {
        return slice_of(s, 0, s.len());
    }
    while e >= p.len() && matches_at(s, p, e - p.len())
        invariant
            e <= s.len(),
            p.len() > 0,
            trim_suffixes(s@, p@) == trim_suffixes_to(s@, p@, e as int),
        decreases e,
    {
        e = e - p.len();
    }
    slice_of(s, 0, e)
}

/// `s` from `i` on with each occurrence of `p` (leftmost first, not
/// overlapping) replaced by `t` (`str::replace` with a string pattern).
pub open spec fn replace_from(s: Seq<char>, p: Seq<char>, t: Seq<char>, i: int) -> Seq<char>
    decreases s.len() + 1 - i,
{
    if i < 0 || i > s.len() || p.len() == 0 {
        seq![]
    } else {
        let j = find_from(s, p, i);
        if j < 0 {
            s.subrange(i, s.len() as int)
        } else {
            proof {
                lemma_find_from(s, p, i);
            }
            s.subrange(i, j) + t + replace_from(s, p, t, j + p.len())
        }
    }
}

/// `str::replace` with a non-empty string pattern.
pub open spec fn replace_all(s: Seq<char>, p: Seq<char>, t: Seq<char>) -> Seq<char> {
    replace_from(s, p, t, 0)
}

/// `str::replacen(p, t, 1)`: the first occurrence of `p` replaced by `t`.
pub open spec fn replace_first(s: Seq<char>, p: Seq<char>, t: Seq<char>) -> Seq<char> {
    let j = find_from(s, p, 0);
    if j < 0 {
        s
    } else {
        s.subrange(0, j) + t + s.subrange(j + p.len(), s.len() as int)
    }
}

/// Replaces each occurrence of `p` by `t`, as `str::replace` does.
pub fn replace(s: &Vec<char>, p: &Vec<char>, t: &Vec<char>) -> (r: Vec<char>)
    requires
        p.len() > 0,
    ensures
        r@ == replace_all(s@, p@, t@),
{
    let mut r: Vec<char> = Vec::new();
    let mut i: usize = 0;
    loop
        invariant
            i <= s.len(),
            p.len() > 0,
            replace_all(s@, p@, t@) == r@ + replace_from(s@, p@, t@, i as int),
        decreases s.len() - i,
    {
        proof {
            lemma_find_from(s@, p@, i as int);
        }
        match find(s, p, i) {
            Some(j) => {
                let piece = slice_of(s, i, j);
                append_chars(&mut r, &piece);
                append_chars(&mut r, t);
                i = j + p.len();
            },
            None => {
                let piece = slice_of(s, i, s.len());
                append_chars(&mut r, &piece);
                return r;
            },
        }
    }
}

/// Replaces the first occurrence of `p` by `t`, as `str::replacen(p, t, 1)`
/// does.
pub fn replace_once(s: &Vec<char>, p: &Vec<char>, t: &Vec<char>) -> (r: Vec<char>)
    ensures
        r@ == replace_first(s@, p@, t@),
{
    proof {
        lemma_find_from(s@, p@, 0);
    }
    match find(s, p, 0) {
        Some(j) => {
            assert(occurs_at(s@, p@, j as int));
            assert(j + p@.len() <= s@.len());
            assert(p@.len() == p.len());
            assert(s@.len() == s.len());
            let end = j + p.len();
            let mut r = slice_of(s, 0, j);
            append_chars(&mut r, t);
            let rest = slice_of(s, end, s.len());
            append_chars(&mut r, &rest);
            r
        },
        None => slice_of(s, 0, s.len()),
    }
}


/// Whether `p` occurs in `s` (`str::contains` with a string pattern).
pub fn contains(s: &Vec<char>, p: &Vec<char>) -> (r: bool)
    ensures
        r == contains_seq(s@, p@),
{
    proof {
        lemma_find_from(s@, p@, 0);
    }
    match find(s, p, 0) {
        Some(_) => true,
        None => false,
    }
}

/// Whether `c` is one of the characters of `set`.
pub fn char_in(set: &Vec<char>, c: char) -> (r: bool)
    ensures
        r == set@.contains(c),
{
    let mut i: usize = 0;
    while i < set.len()
        invariant
            i <= set.len(),
            forall|k: int| 0 <= k < i ==> set@[k] != c,
        decreases set.len() - i,
    {
        if set[i] == c {
            assert(set@[i as int] == c);
            return true;
        }
        i = i + 1;
    }
    false
}

/// The parts joined, with `sep` between each two (`[T]::join`).
pub open spec fn join(parts: Seq<Seq<char>>, sep: Seq<char>) -> Seq<char>
    decreases parts.len(),
{
    if parts.len() == 0 {
        seq![]
    } else if parts.len() == 1 {
        parts[0]
    } else {
        join(parts.drop_last(), sep) + sep + parts.last()
    }
}

/// Joins the parts with `sep` between each two, as `[T]::join` does.
pub fn join_with(parts: &Vec<Vec<char>>, sep: &Vec<char>) -> (r: Vec<char>)
    ensures
        r@ == join(views(parts@), sep@),
{
    let mut r: Vec<char> = Vec::new();
    let mut i: usize = 0;
    while i < parts.len()
        invariant
            i <= parts.len(),
            r@ == join(views(parts@).take(i as int), sep@),
        decreases parts.len() - i,
    {
        proof {
            assert(views(parts@).take(i + 1).drop_last() == views(parts@).take(i as int));
        }
        if i > 0 {
            append_chars(&mut r, sep);
        }
        append_chars(&mut r, &parts[i]);
        i = i + 1;
    }
    assert(views(parts@).take(parts.len() as int) == views(parts@));
    r
}

/// `s` without the characters that stand in `set` (`str::replace` with a
/// character-slice pattern and an empty replacement).
pub open spec fn without_chars(s: Seq<char>, set: Seq<char>) -> Seq<char>
    decreases s.len(),
{
    if s.len() == 0 {
        seq![]
    } else if set.contains(s.last()) {
        without_chars(s.drop_last(), set)
    } else {
        without_chars(s.drop_last(), set).push(s.last())
    }
}

/// Removes every character of `set` from `s`.
pub fn remove_chars(s: &Vec<char>, set: &Vec<char>) -> (r: Vec<char>)
    ensures
        r@ == without_chars(s@, set@),
{
    let mut r: Vec<char> = Vec::new();
    let mut i: usize = 0;
    while i < s.len()
        invariant
            i <= s.len(),
            r@ == without_chars(s@.take(i as int), set@),
        decreases s.len() - i,
    {
        proof {
            assert(s@.take(i + 1).drop_last() == s@.take(i as int));
        }
        if !char_in(set, s[i]) {
            r.push(s[i]);
        }
        i = i + 1;
    }
    assert(s@.take(s.len() as int) == s@);
    r
}

/// A decimal digit.
pub open spec fn is_digit(c: char) -> bool {
    '0' <= c <= '9'
}

/// The value of a decimal digit.
pub open spec fn digit_value(c: char) -> nat {
    ((c as int) - ('0' as int)) as nat
}

/// The value of a string of decimal digits.
pub open spec fn decimal_value(s: Seq<char>) -> nat
    decreases s.len(),
{
    if s.len() == 0 {
        0
    } else {
        decimal_value(s.drop_last()) * 10 + digit_value(s.last())
    }
}

/// Every character of `s` is a decimal digit.
pub open spec fn all_digits(s: Seq<char>) -> bool {
    forall|i: int| 0 <= i < s.len() ==> is_digit(#[trigger] s[i])
}

/// `s` with one leading `+` removed, if it has one.
pub open spec fn unsigned_digits(s: Seq<char>) -> Seq<char> {
    if s.len() > 0 && s[0] == '+' {
        s.drop_first()
    } else {
        s
    }
}

/// `usize::from_str`: an optional `+` and then one or more decimal digits
/// whose value fits in a `usize`.
pub open spec fn parse_usize(s: Seq<char>) -> Option<usize> {
    let d = unsigned_digits(s);
    if d.len() > 0 && all_digits(d) && decimal_value(d) <= usize::MAX {
        Some(decimal_value(d) as usize)
    } else {
        None
    }
}

/// A prefix of a digit string is worth no more than the whole.
proof fn lemma_decimal_prefix(s: Seq<char>, k: int)
    requires
        0 <= k <= s.len(),
    ensures
        decimal_value(s.take(k)) <= decimal_value(s),
    decreases s.len() - k,
{
    if k < s.len() {
        assert(s.take(k + 1).drop_last() == s.take(k));
        lemma_decimal_prefix(s, k + 1);
    } else {
        assert(s.take(k) == s);
    }
}

/// Reads a `usize` written in decimal, as `usize::from_str` does.
pub fn parse_decimal(s: &Vec<char>) -> (r: Option<usize>)
    ensures
        r == parse_usize(s@),
{
    let start: usize = if s.len() > 0 && s[0] == '+' { 1 } else { 0 };
    let d = slice_of(s, start, s.len());
    assert(d@ == unsigned_digits(s@));
    if d.len() == 0 {
        return None;
    }
    let mut value: usize = 0;
    let mut i: usize = 0;
    while i < d.len()
        invariant
            i <= d.len(),
            d@ == unsigned_digits(s@),
            d.len() > 0,
            all_digits(d@.take(i as int)),
            value == decimal_value(d@.take(i as int)),
        decreases d.len() - i,
    {
        let c = d[i];
        proof {
            assert(d@.take(i + 1).drop_last() == d@.take(i as int));
        }
        if !('0' <= c && c <= '9') {
            assert(!is_digit(d@[i as int]));
            return None;
        }
        let digit: usize = (c as u32 - '0' as u32) as usize;
        proof {
            assert(d@.take(i + 1).last() == c);
            assert(decimal_value(d@.take(i + 1)) == value * 10 + digit);
        }
        let next = match value.checked_mul(10) {
            Some(v10) => v10.checked_add(digit),
            None => None,
        };
        match next {
            Some(v) => {
                value = v;
            },
            None => {
                proof {
                    lemma_decimal_prefix(d@, i + 1);
                }
                return None;
            },
        }
        proof {
            assert forall|k: int| 0 <= k < i + 1 implies is_digit(#[trigger] d@.take(i + 1)[k]) by {
                if k < i {
                    assert(d@.take(i + 1)[k] == d@.take(i as int)[k]);
                }
            }
        }
        i = i + 1;
    }
    assert(d@.take(d.len() as int) == d@);
    Some(value)
}

/// An ASCII letter made lower case; other characters unchanged.
pub open spec fn ascii_lower(c: char) -> int {
    if 'A' <= c <= 'Z' {
        (c as u32) as int + 32
    } else {
        (c as u32) as int
    }
}

/// Equality ignoring ASCII case (`eq_ignore_ascii_case`).
pub open spec fn eq_ignore_ascii_case(a: Seq<char>, b: Seq<char>) -> bool {
    a.len() == b.len() && forall|i: int| 0 <= i < a.len() ==> ascii_lower(a[i]) == ascii_lower(b[i])
}

/// Whether `a` and `b` are equal when ASCII letters are compared without case.
pub fn equal_ignore_ascii_case(a: &Vec<char>, b: &Vec<char>) -> (r: bool)
    ensures
        r == eq_ignore_ascii_case(a@, b@),
{
    if a.len() != b.len() {
        return false;
    }
    let mut i: usize = 0;
    while i < a.len()
        invariant
            a.len() == b.len(),
            i <= a.len(),
            forall|k: int| 0 <= k < i ==> ascii_lower(a@[k]) == ascii_lower(b@[k]),
        decreases a.len() - i,
    {
        let x = a[i];
        let y = b[i];
        let lx: u64 = if 'A' <= x && x <= 'Z' { x as u32 as u64 + 32 } else { x as u32 as u64 };
        let ly: u64 = if 'A' <= y && y <= 'Z' { y as u32 as u64 + 32 } else { y as u32 as u64 };
        if lx != ly {
            assert(ascii_lower(a@[i as int]) != ascii_lower(b@[i as int]));
            return false;
        }
        i = i + 1;
    }
    true
}


/// What `s.split(p).next()` gives: `s` up to the first `p`, or all of `s`.
pub open spec fn before_first(s: Seq<char>, p: Seq<char>) -> Seq<char> {
    let j = find_from(s, p, 0);
    if j < 0 {
        s
    } else {
        s.subrange(0, j)
    }
}

/// `s` up to the first occurrence of `p`, or all of `s` if there is none.
pub fn prefix_before(s: &Vec<char>, p: &Vec<char>) -> (r: Vec<char>)
    ensures
        r@ == before_first(s@, p@),
{
    proof {
        lemma_find_from(s@, p@, 0);
    }
    match find(s, p, 0) {
        Some(j) => {
            assert(occurs_at(s@, p@, j as int));
            slice_of(s, 0, j)
        },
        None => slice_of(s, 0, s.len()),
    }
}

/// The views of a sequence of strings.
pub open spec fn string_views(v: Seq<String>) -> Seq<Seq<char>> {
    v.map_values(|x: String| x@)
}

/// Whether two string slices hold the same characters.
pub fn str_equal(a: &str, b: &str) -> (r: bool)
    ensures
        r == (a@ == b@),
{
    let x = chars_of(a);
    let y = chars_of(b);
    seq_equal(&x, &y)
}

/// A string holding the characters of `a` and then those of `b`.
pub fn concat(a: &str, b: &str) -> (r: String)
    ensures
        r@ == a@ + b@,
{
    let mut x = chars_of(a);
    let y = chars_of(b);
    append_chars(&mut x, &y);
    string_of(&x)
}


/// Searching for `c` from `i + k` in `s` is searching from `k` in what
/// follows `i`.
pub proof fn lemma_find_char_shift(s: Seq<char>, c: char, i: int, k: int)
    requires
        0 <= i <= s.len(),
        0 <= k,
    ensures
        find_char_from(s, c, i + k) == ({
            let r = find_char_from(s.subrange(i, s.len() as int), c, k);
            if r < 0 {
                -1
            } else {
                r + i
            }
        }),
    decreases s.len() - i - k,
{
    let t = s.subrange(i, s.len() as int);
    if i + k < s.len() {
        assert(t[k] == s[i + k]);
        if s[i + k] != c {
            lemma_find_char_shift(s, c, i, k + 1);
        }
    }
}

/// The pieces of `s` from `i` on are the pieces of what follows `i`.
pub proof fn lemma_split_shift(s: Seq<char>, c: char, i: int)
    requires
        0 <= i <= s.len(),
    ensures
        split_from(s, c, i) == split_char(s.subrange(i, s.len() as int), c),
    decreases s.len() - i,
{
    let t = s.subrange(i, s.len() as int);
    lemma_find_char_shift(s, c, i, 0);
    lemma_find_char_from(s, c, i);
    let j = find_char_from(s, c, i);
    if j < 0 {
        assert(t.subrange(0, t.len() as int) == t);
    } else {
        let r = find_char_from(t, c, 0);
        assert(r == j - i);
        lemma_split_shift(s, c, j + 1);
        lemma_split_shift(t, c, r + 1);
        assert(s.subrange(j + 1, s.len() as int) == t.subrange(r + 1, t.len() as int));
        assert(t.subrange(0, r) == s.subrange(i, j));
    }
}

/// A sequence without `c` is one piece.
pub proof fn lemma_split_single(x: Seq<char>, c: char)
    requires
        !x.contains(c),
    ensures
        split_char(x, c) == seq![x],
{
    lemma_find_char_from(x, c, 0);
    if find_char_from(x, c, 0) >= 0 {
        assert(x.contains(c));
    }
    assert(x.subrange(0, x.len() as int) == x);
}

/// Cutting `x`, `c`, `y` at `c`, where `x` holds no `c`, gives `x` and then
/// the pieces of `y`.
pub proof fn lemma_split_cons(x: Seq<char>, c: char, y: Seq<char>)
    requires
        !x.contains(c),
    ensures
        split_char(x + seq![c] + y, c) == seq![x] + split_char(y, c),
{
    let s = x + seq![c] + y;
    lemma_find_char_from(s, c, 0);
    let j = find_char_from(s, c, 0);
    assert(s[x.len() as int] == c);
    if j < x.len() {
        assert(s[j] == x[j]);
        assert(x.contains(c));
    }
    assert(j == x.len());
    lemma_split_shift(s, c, j + 1);
    assert(s.subrange(j + 1, s.len() as int) == y);
    assert(s.subrange(0, j) == x);
}

/// Joining `a` and `b` is joining each and putting `sep` between.
pub proof fn lemma_join_append(a: Seq<Seq<char>>, b: Seq<Seq<char>>, sep: Seq<char>)
    requires
        a.len() > 0,
        b.len() > 0,
    ensures
        join(a + b, sep) == join(a, sep) + sep + join(b, sep),
    decreases b.len(),
{
    if b.len() == 1 {
        assert((a + b).drop_last() == a);
    } else {
        lemma_join_append(a, b.drop_last(), sep);
        assert((a + b).drop_last() == a + b.drop_last());
    }
}

/// Joining one-character-separated pieces that hold no separator and cutting
/// the result at the separator gives the pieces back.
pub proof fn lemma_split_join(parts: Seq<Seq<char>>, c: char)
    requires
        parts.len() > 0,
        forall|i: int| 0 <= i < parts.len() ==> !(#[trigger] parts[i]).contains(c),
    ensures
        split_char(join(parts, seq![c]), c) == parts,
    decreases parts.len(),
{
    if parts.len() == 1 {
        lemma_split_single(parts[0], c);
    } else {
        let rest = parts.drop_first();
        assert(parts == seq![parts[0]] + rest);
        lemma_join_append(seq![parts[0]], rest, seq![c]);
        assert(join(seq![parts[0]], seq![c]) == parts[0]);
        lemma_split_join(rest, c);
        assert(forall|i: int| 0 <= i < rest.len() ==> rest[i] == parts[i + 1]);
        lemma_split_cons(parts[0], c, join(rest, seq![c]));
    }
}

/// Skipping a class from `i + k` skips it from `k` in what follows `i`.
pub proof fn lemma_skip_while_shift(s: Seq<char>, f: CharClass, i: int, k: int)
    requires
        0 <= i <= s.len(),
        0 <= k <= s.len() - i,
    ensures
        skip_while(s, f, i + k) == skip_while(s.subrange(i, s.len() as int), f, k) + i,
    decreases s.len() - i - k,
{
    let t = s.subrange(i, s.len() as int);
    if i + k < s.len() {
        assert(t[k] == s[i + k]);
        if in_class(f, s[i + k]) {
            lemma_skip_while_shift(s, f, i, k + 1);
        }
    }
}

/// A leading space does not change what trimming white space gives.
pub proof fn lemma_trim_leading_space(v: Seq<char>)
    ensures
        trim(seq![' '] + v) == trim(v),
{
    let s = seq![' '] + v;
    let f = CharClass::Whitespace;
    assert(in_class(f, s[0]));
    lemma_skip_while_shift(s, f, 1, 0);
    assert(s.subrange(1, s.len() as int) == v);
    assert(skip_while(s, f, 0) == skip_while(s, f, 1));
    lemma_skip_while(v, f, 0);
    assert(trim_start_by(s, f) == trim_start_by(v, f));
}


/// A sequence that neither begins nor ends with white space is unchanged
/// by trimming white space.
pub proof fn lemma_trim_unchanged(v: Seq<char>)
    requires
        v.len() > 0 ==> !is_whitespace(v[0]) && !is_whitespace(v.last()),
    ensures
        trim(v) == v,
{
    assert(v.subrange(0, v.len() as int) == v);
}


/// What `s.split(c).next()` gives: `s` up to the first `c`, or all of `s`.
pub open spec fn before_char(s: Seq<char>, c: char) -> Seq<char> {
    let j = find_char_from(s, c, 0);
    if j < 0 {
        s
    } else {
        s.subrange(0, j)
    }
}

/// `s` up to its first `c`, or all of `s` if it has none.
pub fn prefix_before_char(s: &Vec<char>, c: char) -> (r: Vec<char>)
    ensures
        r@ == before_char(s@, c),
{
    proof {
        lemma_find_char_from(s@, c, 0);
    }
    match find_char(s, c, 0) {
        Some(j) => slice_of(s, 0, j),
        None => slice_of(s, 0, s.len()),
    }
}


/// No line that `str::lines` gives holds a `\n`.
pub proof fn lemma_lines_no_newline(s: Seq<char>, i: int)
    requires
        0 <= i,
    ensures
        forall|k: int| 0 <= k < lines_from(s, i).len() ==> !(#[trigger] lines_from(s, i)[k]).contains('\n'),
    decreases s.len() + 1 - i,
{
    if i < s.len() {
        lemma_find_char_from(s, '\n', i);
        let j = find_char_from(s, '\n', i);
        if j < 0 {
            let piece = s.subrange(i, s.len() as int);
            assert forall|k: int| 0 <= k < piece.len() implies piece[k] != '\n' by {
                assert(piece[k] == s[i + k]);
            }
        } else {
            let raw = s.subrange(i, j);
            let piece = strip_cr(raw);
            assert forall|k: int| 0 <= k < piece.len() implies piece[k] != '\n' by {
                assert(piece[k] == raw[k]);
                assert(raw[k] == s[i + k]);
            }
            lemma_lines_no_newline(s, j + 1);
            let rest = lines_from(s, j + 1);
            assert forall|k: int| 0 <= k < lines_from(s, i).len() implies !(#[trigger] lines_from(
                s,
                i,
            )[k]).contains('\n') by {
                if k == 0 {
                    assert(lines_from(s, i)[0] == piece);
                } else {
                    assert(lines_from(s, i)[k] == rest[k - 1]);
                }
            }
        }
    }
}

/// The lines of `s` from `i` on are the lines of what follows `i`.
pub proof fn lemma_lines_shift(s: Seq<char>, i: int)
    requires
        0 <= i <= s.len(),
    ensures
        lines_from(s, i) == lines(s.subrange(i, s.len() as int)),
    decreases s.len() - i,
{
    let t = s.subrange(i, s.len() as int);
    if i < s.len() {
        lemma_find_char_shift(s, '\n', i, 0);
        lemma_find_char_from(s, '\n', i);
        let j = find_char_from(s, '\n', i);
        if j < 0 {
            assert(t.subrange(0, t.len() as int) == t);
        } else {
            let r = find_char_from(t, '\n', 0);
            assert(r == j - i);
            lemma_lines_shift(s, j + 1);
            lemma_lines_shift(t, r + 1);
            assert(s.subrange(j + 1, s.len() as int) == t.subrange(r + 1, t.len() as int));
            assert(t.subrange(0, r) == s.subrange(i, j));
        }
    }
}

/// The lines of `x`, `\n`, `y`, where `x` holds no `\n`: `x` (without a
/// final carriage return), then the lines of `y`.
pub proof fn lemma_lines_cons(x: Seq<char>, y: Seq<char>)
    requires
        !x.contains('\n'),
    ensures
        lines(x + seq!['\n'] + y) == seq![strip_cr(x)] + lines(y),
{
    let s = x + seq!['\n'] + y;
    lemma_find_char_from(s, '\n', 0);
    let j = find_char_from(s, '\n', 0);
    assert(s[x.len() as int] == '\n');
    if j < x.len() {
        assert(s[j] == x[j]);
        assert(x.contains('\n'));
    }
    assert(j == x.len());
    lemma_lines_shift(s, j + 1);
    assert(s.subrange(j + 1, s.len() as int) == y);
    assert(s.subrange(0, j) == x);
}

/// Each piece without its final carriage return.
pub open spec fn strip_all(ps: Seq<Seq<char>>) -> Seq<Seq<char>> {
    ps.map_values(|p: Seq<char>| strip_cr(p))
}

/// The lines of `a`, `\n`, `b`: each piece of `a` cut at `\n` (without a
/// final carriage return), then the lines of `b`.
pub proof fn lemma_lines_after(a: Seq<char>, b: Seq<char>)
    ensures
        lines(a + seq!['\n'] + b) == strip_all(split_char(a, '\n')) + lines(b),
    decreases a.len(),
{
    lemma_find_char_from(a, '\n', 0);
    let j = find_char_from(a, '\n', 0);
    if j < 0 {
        assert(!a.contains('\n'));
        lemma_lines_cons(a, b);
        lemma_split_single(a, '\n');
        assert(strip_all(seq![a]) =~= seq![strip_cr(a)]);
    } else {
        let a1 = a.subrange(0, j);
        let a2 = a.subrange(j + 1, a.len() as int);
        assert(a =~= a1 + seq!['\n'] + a2);
        assert(!a1.contains('\n')) by {
            assert forall|k: int| 0 <= k < a1.len() implies a1[k] != '\n' by {
                assert(a1[k] == a[k]);
            }
        }
        lemma_split_cons(a1, '\n', a2);
        lemma_lines_after(a2, b);
        lemma_lines_cons(a1, a2 + seq!['\n'] + b);
        assert(a + seq!['\n'] + b =~= a1 + seq!['\n'] + (a2 + seq!['\n'] + b));
        assert(strip_all(seq![a1] + split_char(a2, '\n')) =~= seq![strip_cr(a1)] + strip_all(
            split_char(a2, '\n'),
        ));
        assert(seq![strip_cr(a1)] + (strip_all(split_char(a2, '\n')) + lines(b)) =~= seq![
            strip_cr(a1),
        ] + strip_all(split_char(a2, '\n')) + lines(b));
    }
}

} // verus!
