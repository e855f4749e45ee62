//! The user that runs spf, and the arguments it is given.
use vstd::prelude::*;
use crate::text::{
    chars_of, contains, contains_seq, has_prefix, seq_equal, starts_with, str_equal, string_of,
    string_views,
};

verus! {

/// What spf reads of its environment: the user's name (`USER`) and home
/// directory (`HOME`).
pub struct Env {
    pub name: String,
    pub home: String,
}

/// Whether the user is the superuser: named `root`, or with a home
/// directory whose path holds `root`.
pub fn is_root(env: &Env) -> (r: bool)
    ensures
        r == (env.name@ == "root"@ || contains_seq(env.home@, "root"@)),
{
    if str_equal(env.name.as_str(), "root") || contains(
        &chars_of(env.home.as_str()),
        &chars_of("root"),
    ) {
        return true;
    }
    false
}

/// Whether `arg` is one of the arguments `args`.
pub fn args_contains(args: &Vec<String>, arg: &str) -> (r: bool)
    ensures
        r == string_views(args@).contains(arg@),
{
    let mut i: usize = 0;
    while i < args.len()
        invariant
            i <= args.len(),
            forall|k: int| 0 <= k < i ==> args@[k]@ != arg@,
        decreases args.len() - i,
    {
        if str_equal(args[i].as_str(), arg) {
            assert(string_views(args@)[i as int] == arg@);
            return true;
        }
        i = i + 1;
    }
    assert forall|k: int| 0 <= k < string_views(args@).len() implies string_views(args@)[k]
        != arg@ by {
        assert(string_views(args@)[k] == args@[k]@);
    }
    false
}

/// The arguments that one given argument stands for: a long argument
/// (`--arg`) and a plain one stand for themselves, and a group of short
/// ones (`-abc`) for each letter with a `-` before it (`-a`, `-b`, `-c`).
pub open spec fn expand_arg(a: Seq<char>) -> Seq<Seq<char>> {
    if has_prefix(a, seq!['-', '-']) {
        seq![a]
    } else if has_prefix(a, seq!['-']) && a != seq!['-'] {
        Seq::new((a.len() - 1) as nat, |i: int| seq!['-', a[i + 1]])
    } else {
        seq![a]
    }
}

/// The arguments that the given arguments stand for, in order.
pub open spec fn expand_args(args: Seq<Seq<char>>) -> Seq<Seq<char>>
    decreases args.len(),
{
    if args.len() == 0 {
        seq![]
    } else {
        expand_args(args.drop_last()) + expand_arg(args.last())
    }
}

/// The arguments spf works with, from those it was given (without the
/// program's name): each group of short arguments is cut into its letters.
pub fn return_args(given_args: Vec<String>) -> (r: Vec<String>)
    ensures
        string_views(r@) == expand_args(string_views(given_args@)),
{
    let mut collected_args: Vec<String> = Vec::new();
    let long: Vec<char> = vec!['-', '-'];
    let short: Vec<char> = vec!['-'];
    let mut i: usize = 0;
    while i < given_args.len()
        invariant
            i <= given_args.len(),
            long@ == seq!['-', '-'],
            short@ == seq!['-'],
            string_views(collected_args@) == expand_args(string_views(given_args@).take(i as int)),
        decreases given_args.len() - i,
    {
        let given_arg = chars_of(given_args[i].as_str());
        let ghost before = string_views(collected_args@);
        proof {
            assert(string_views(given_args@).take(i + 1).drop_last() == string_views(given_args@).take(
                i as int,
            ));
            assert(string_views(given_args@).take(i + 1).last() == given_arg@);
        }
        if starts_with(&given_arg, &long) {
            collected_args.push(string_of(&given_arg));
            assert(string_views(collected_args@) == before + expand_arg(given_arg@));
        } else if starts_with(&given_arg, &short) && !seq_equal(&given_arg, &short) {
            let mut k: usize = 1;
            while k < given_arg.len()
                invariant
                    1 <= k <= given_arg.len(),
                    given_arg@.len() > 0,
                    string_views(collected_args@) == before + Seq::new(
                        (k - 1) as nat,
                        |j: int| seq!['-', given_arg@[j + 1]],
                    ),
                decreases given_arg.len() - k,
            {
                let mut piece: Vec<char> = Vec::new();
                piece.push('-');
                piece.push(given_arg[k]);
                assert(piece@ == seq!['-', given_arg@[k as int]]);
                let ghost prev = collected_args@;
                collected_args.push(string_of(&piece));
                assert(string_views(collected_args@) == string_views(prev).push(piece@));
                assert(Seq::new(k as nat, |j: int| seq!['-', given_arg@[j + 1]]) =~= Seq::new(
                    (k - 1) as nat,
                    |j: int| seq!['-', given_arg@[j + 1]],
                ).push(piece@));
                assert(string_views(collected_args@) == before + Seq::new(
                    k as nat,
                    |j: int| seq!['-', given_arg@[j + 1]],
                ));
                k = k + 1;
            }
            assert(string_views(collected_args@) == before + expand_arg(given_arg@));
        } else {
            collected_args.push(string_of(&given_arg));
            assert(string_views(collected_args@) == before + expand_arg(given_arg@));
        }
        i = i + 1;
    }
    assert(string_views(given_args@).take(given_args.len() as int) == string_views(given_args@));
    collected_args
}

/// The architectures a package may be made for.
pub open spec fn is_listed_arch(a: Seq<char>) -> bool {
    a == "x86"@
        || a == "x86_64"@
        || a == "arm"@
        || a == "aarch64"@
        || a == "m68k"@
        || a == "mips"@
        || a == "mips32r6"@
        || a == "mips64"@
        || a == "mips64r6"@
        || a == "csky"@
        || a == "powerpc"@
        || a == "powerpc64"@
        || a == "riscv32"@
        || a == "riscv64"@
        || a == "s390x"@
        || a == "sparc"@
        || a == "sparc64"@
        || a == "hexagon"@
        || a == "loongarch32"@
        || a == "loongarch64"@
}

/// Whether `a` is one of the architectures a package may be made for.
pub fn arch_is_listed(a: &str) -> (r: bool)
    ensures
        r == is_listed_arch(a@),
{
    str_equal(a, "x86")
        || str_equal(a, "x86_64")
        || str_equal(a, "arm")
        || str_equal(a, "aarch64")
        || str_equal(a, "m68k")
        || str_equal(a, "mips")
        || str_equal(a, "mips32r6")
        || str_equal(a, "mips64")
        || str_equal(a, "mips64r6")
        || str_equal(a, "csky")
        || str_equal(a, "powerpc")
        || str_equal(a, "powerpc64")
        || str_equal(a, "riscv32")
        || str_equal(a, "riscv64")
        || str_equal(a, "s390x")
        || str_equal(a, "sparc")
        || str_equal(a, "sparc64")
        || str_equal(a, "hexagon")
        || str_equal(a, "loongarch32")
        || str_equal(a, "loongarch64")
}

/// The architectures that exist, in the order spf lists them.
pub open spec fn supported_archs() -> Seq<Seq<char>> {
    seq![
        "x86"@,
        "x86_64"@,
        "arm"@,
        "aarch64"@,
        "m68k"@,
        "mips"@,
        "mips32r6"@,
        "mips64"@,
        "mips64r6"@,
        "csky"@,
        "powerpc"@,
        "powerpc64"@,
        "riscv32"@,
        "riscv64"@,
        "s390x"@,
        "sparc"@,
        "sparc64"@,
        "hexagon"@,
        "loongarch32"@,
        "loongarch64"@,
    ]
}

/// A package may be made for an architecture exactly when it is one of the
/// architectures that exist.
pub proof fn lemma_listed_archs_are_the_supported(a: Seq<char>)
    ensures
        is_listed_arch(a) == supported_archs().contains(a),
{
    let l = supported_archs();
    if is_listed_arch(a) {
        assert(exists|i: int| 0 <= i < 20 && l[i] == a) by {
            if a == l[0] {} else if a == l[1] {} else if a == l[2] {} else if a == l[3] {}
            else if a == l[4] {} else if a == l[5] {} else if a == l[6] {} else if a == l[7] {}
            else if a == l[8] {} else if a == l[9] {} else if a == l[10] {} else if a == l[11] {}
            else if a == l[12] {} else if a == l[13] {} else if a == l[14] {} else if a == l[15] {}
            else if a == l[16] {} else if a == l[17] {} else if a == l[18] {} else { assert(a == l[19]); }
        }
    }
    if l.contains(a) {
        let i = choose|i: int| 0 <= i < l.len() && l[i] == a;
        assert(0 <= i < 20);
    }
}

/// Every architecture that converting a package to spf names, but for
/// `universal`, is one a package may be made for.
pub proof fn lemma_converted_archs_are_listed(a: Seq<char>)
    ensures
        crate::convert::arch_in(a, crate::convert::PackageType::Spf) matches Some(x) ==> (x
            != "universal"@ ==> is_listed_arch(x)),
{
    reveal_strlit("universal");
    reveal_strlit("x86_64");
    reveal_strlit("x86");
    reveal_strlit("aarch64");
    reveal_strlit("arm");
}

/// Every architecture that has a Debian name, but for `universal`, is one a
/// package may be made for.
pub proof fn lemma_debian_archs_are_listed(a: Seq<char>)
    ensures
        crate::convert::deb_arch_of(a) matches Some(d) ==> (d != crate::convert::DebArch::All
            ==> is_listed_arch(a)),
{
}

/// An argument that does not begin with `-`, a lone `-` and a long
/// argument (`--arg`) each stand for themselves; an argument of one `-`
/// and letters stands for each letter with a `-` before it.
pub proof fn lemma_only_short_groups_are_cut(a: Seq<char>)
    ensures
        !has_prefix(a, seq!['-']) ==> expand_arg(a) == seq![a],
        a == seq!['-'] ==> expand_arg(a) == seq![a],
        has_prefix(a, seq!['-', '-']) ==> expand_arg(a) == seq![a],
        has_prefix(a, seq!['-']) && !has_prefix(a, seq!['-', '-']) && a.len() > 1 ==> {
            &&& expand_arg(a).len() == a.len() - 1
            &&& forall|i: int|
                0 <= i < a.len() - 1 ==> #[trigger] expand_arg(a)[i] == seq!['-', a[i + 1]]
        },
{
    if has_prefix(a, seq!['-', '-']) {
        assert(a.subrange(0, 2)[0] == '-');
        assert(a.subrange(0, 1) =~= seq!['-']);
    }
}

/// The arguments of two lists stand for what each list stands for, one
/// after the other.
pub proof fn lemma_expand_args_append(x: Seq<Seq<char>>, y: Seq<Seq<char>>)
    ensures
        expand_args(x + y) == expand_args(x) + expand_args(y),
    decreases y.len(),
{
    if y.len() == 0 {
        assert(x + y =~= x);
        assert(expand_args(x) + seq![] =~= expand_args(x));
    } else {
        lemma_expand_args_append(x, y.drop_last());
        assert((x + y).drop_last() =~= x + y.drop_last());
        assert((x + y).last() == y.last());
        assert(expand_args(x) + (expand_args(y.drop_last()) + expand_arg(y.last())) =~= (
        expand_args(x) + expand_args(y.drop_last())) + expand_arg(y.last()));
    }
}

/// Arguments none of which begins with `-` are kept as they are.
pub proof fn lemma_plain_arguments_pass_through(args: Seq<Seq<char>>)
    requires
        forall|i: int| 0 <= i < args.len() ==> !has_prefix(#[trigger] args[i], seq!['-']),
    ensures
        expand_args(args) == args,
    decreases args.len(),
{
    if args.len() > 0 {
        assert(args.last() == args[args.len() - 1]);
        lemma_plain_arguments_pass_through(args.drop_last());
        lemma_only_short_groups_are_cut(args.last());
        assert(args.drop_last() + seq![args.last()] =~= args);
    }
}

} // verus!
