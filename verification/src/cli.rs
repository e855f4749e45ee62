//! The commands of the `spf` program, read from its arguments.
use vstd::prelude::*;
use crate::text::{chars_of, has_prefix, starts_with, str_equal, string_of, string_views};

verus! {

/// A command of the `spf` program.
pub enum Command {
    /// Create a package from a package config.
    Create { package_config: String, output_location: String },
    /// Install a package file.
    Install(String),
    /// Remove installed packages.
    Remove(Vec<String>),
    /// List the installed packages whose names hold a string.
    List(String),
    /// Write a package config template to a directory.
    Template(String),
    /// Show the metadata of a package file or of an installed package.
    Inspect(String),
    /// Convert a package to another format.
    Convert { source_package_path: String, output_package_path: String },
    /// Show who wrote spf and under which license.
    Version,
    /// Show the commands.
    Usage,
    /// An unknown command.
    Invalid(String),
}

/// `args` without the arguments equal to `word`.
pub open spec fn without_word(args: Seq<Seq<char>>, word: Seq<char>) -> Seq<Seq<char>>
    decreases args.len(),
{
    if args.len() == 0 {
        seq![]
    } else if args.last() == word {
        without_word(args.drop_last(), word)
    } else {
        without_word(args.drop_last(), word).push(args.last())
    }
}

/// The arguments among `args` that are not options (do not begin with `-`).
pub open spec fn operands(args: Seq<Seq<char>>) -> Seq<Seq<char>>
    decreases args.len(),
{
    if args.len() == 0 {
        seq![]
    } else if has_prefix(args.last(), seq!['-']) {
        operands(args.drop_last())
    } else {
        operands(args.drop_last()).push(args.last())
    }
}

/// Argument `i`, or nothing where there are fewer arguments.
pub open spec fn arg_or_empty(args: Seq<Seq<char>>, i: int) -> Seq<char> {
    if 0 <= i < args.len() {
        args[i]
    } else {
        Seq::<char>::empty()
    }
}

fn copy_string(s: &String) -> (r: String)
    ensures
        r@ == s@,
{
    string_of(&chars_of(s.as_str()))
}

fn arg_at(args: &Vec<String>, i: usize) -> (r: String)
    ensures
        r@ == arg_or_empty(string_views(args@), i as int),
{
    if i < args.len() {
        copy_string(&args[i])
    } else {
        String::new()
    }
}

/// The command that the arguments (after the program's name, short options
/// already cut apart) ask for. `--ignore-args` is dropped first; the first
/// argument names the command, and those after it are its operands.
pub fn parse_command(collected_args: Vec<String>) -> (r: Command)
    ensures
        ({
            let a = without_word(string_views(collected_args@), "--ignore-args"@);
            let root = arg_or_empty(a, 0);
            let second = arg_or_empty(a, 1);
            let third = arg_or_empty(a, 2);
            if root == "create"@ || root == "-c"@ {
                r matches Command::Create { package_config, output_location }
                    && package_config@ == second && output_location@ == third
            } else if root == "install"@ || root == "-i"@ {
                r matches Command::Install(x) && x@ == second
            } else if root == "remove"@ || root == "-r"@ {
                r matches Command::Remove(v) && string_views(v@) == operands(a.drop_first())
            } else if root == "list"@ || root == "-l"@ {
                r matches Command::List(x) && x@ == second
            } else if root == "template"@ || root == "-t"@ {
                r matches Command::Template(x) && x@ == second
            } else if root == "inspect"@ || root == "-is"@ {
                r matches Command::Inspect(x) && x@ == second
            } else if root == "convert"@ {
                r matches Command::Convert { source_package_path, output_package_path }
                    && source_package_path@ == second && output_package_path@ == third
            } else if root == "--version"@ || root == "-v"@ {
                r matches Command::Version
            } else if root.len() == 0 {
                r matches Command::Usage
            } else {
                r matches Command::Invalid(x) && x@ == root
            }
        }),
{
    let ghost given = string_views(collected_args@);
    let mut args: Vec<String> = Vec::new();
    let mut i: usize = 0;
    while i < collected_args.len()
        invariant
            i <= collected_args.len(),
            given == string_views(collected_args@),
            string_views(args@) == without_word(given.take(i as int), "--ignore-args"@),
        decreases collected_args.len() - i,
    {
        proof {
            assert(given.take(i + 1).drop_last() == given.take(i as int));
            assert(given.take(i + 1).last() == collected_args@[i as int]@);
        }
        if !str_equal(collected_args[i].as_str(), "--ignore-args") {
            let ghost prev = args@;
            args.push(copy_string(&collected_args[i]));
            assert(string_views(args@) == string_views(prev).push(collected_args@[i as int]@));
        }
        i = i + 1;
    }
    assert(given.take(collected_args.len() as int) == given);
    let root_arg = arg_at(&args, 0);
    let secondary_arg = arg_at(&args, 1);
    let tertiary_arg = arg_at(&args, 2);
    let root = root_arg.as_str();
    if str_equal(root, "create") || str_equal(root, "-c") {
        Command::Create { package_config: secondary_arg, output_location: tertiary_arg }
    } else if str_equal(root, "install") || str_equal(root, "-i") {
        Command::Install(secondary_arg)
    } else if str_equal(root, "remove") || str_equal(root, "-r") {
        proof {
            reveal_strlit("remove");
            reveal_strlit("-r");
            assert("remove"@.len() == 6);
            assert("-r"@.len() == 2);
        }
        assert(args.len() > 0);
        let ghost rest = string_views(args@).drop_first();
        let dash: Vec<char> = vec!['-'];
        assert(dash@ == seq!['-']);
        let mut packages: Vec<String> = Vec::new();
        let mut k: usize = 1;
        while k < args.len()
            invariant
                1 <= k <= args.len(),
                rest == string_views(args@).drop_first(),
                dash@ == seq!['-'],
                string_views(packages@) == operands(rest.take(k - 1)),
            decreases args.len() - k,
        {
            proof {
                assert(rest.take(k as int).drop_last() == rest.take(k - 1));
                assert(rest.take(k as int).last() == args@[k as int]@);
            }
            if !starts_with(&chars_of(args[k].as_str()), &dash) {
                let ghost prev = packages@;
                packages.push(copy_string(&args[k]));
                assert(string_views(packages@) == string_views(prev).push(args@[k as int]@));
            }
            k = k + 1;
        }
        assert(rest.take(args.len() - 1) == rest);
        Command::Remove(packages)
    } else if str_equal(root, "list") || str_equal(root, "-l") {
        Command::List(secondary_arg)
    } else if str_equal(root, "template") || str_equal(root, "-t") {
        Command::Template(secondary_arg)
    } else if str_equal(root, "inspect") || str_equal(root, "-is") {
        Command::Inspect(secondary_arg)
    } else if str_equal(root, "convert") {
        Command::Convert { source_package_path: secondary_arg, output_package_path: tertiary_arg }
    } else if str_equal(root, "--version") || str_equal(root, "-v") {
        Command::Version
    } else if root.is_empty() {
        Command::Usage
    } else {
        Command::Invalid(root_arg)
    }
}

/// The operands are the arguments that do not begin with `-`, all of them
/// and in the order given.
pub proof fn lemma_operands_are_the_non_options(args: Seq<Seq<char>>)
    ensures
        operands(args) == args.filter(|a: Seq<char>| !has_prefix(a, seq!['-'])),
    decreases args.len(),
{
    reveal(Seq::filter);
    if args.len() > 0 {
        lemma_operands_are_the_non_options(args.drop_last());
    }
}

/// An argument that does not begin with `-` (such as a package name that
/// holds a `-`) is an operand, and every operand is one of the arguments
/// and does not begin with `-`.
pub proof fn lemma_operand_iff_not_option(args: Seq<Seq<char>>)
    ensures
        forall|i: int|
            0 <= i < args.len() && !has_prefix(args[i], seq!['-']) ==> operands(args).contains(
                #[trigger] args[i],
            ),
        forall|k: int|
            0 <= k < operands(args).len() ==> !has_prefix(#[trigger] operands(args)[k], seq!['-'])
                && args.contains(operands(args)[k]),
    decreases args.len(),
{
    if args.len() > 0 {
        let q = args.drop_last();
        lemma_operand_iff_not_option(q);
        let o = operands(args);
        let oq = operands(q);
        assert forall|i: int|
            0 <= i < args.len() && !has_prefix(args[i], seq!['-']) implies o.contains(
            #[trigger] args[i],
        ) by {
            if i < args.len() - 1 {
                assert(args[i] == q[i]);
                let k = choose|k: int| 0 <= k < oq.len() && oq[k] == q[i];
                assert(o[k] == oq[k]);
            } else {
                assert(args[i] == args.last());
                assert(o[oq.len() as int] == args.last());
            }
        }
        assert forall|k: int| 0 <= k < o.len() implies !has_prefix(#[trigger] o[k], seq!['-'])
            && args.contains(o[k]) by {
            if k < oq.len() {
                assert(o[k] == oq[k]);
                let j = choose|j: int| 0 <= j < q.len() && q[j] == oq[k];
                assert(args[j] == q[j]);
            } else {
                assert(o[k] == args.last());
                assert(args[args.len() - 1] == args.last());
            }
        }
    }
}

} // verus!
