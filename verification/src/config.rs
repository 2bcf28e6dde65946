//! Command-line configuration.
//!
//! The program takes file paths to load at start, `--help`, and
//! `--no-prompt`.  Arguments are read in order: a path is collected;
//! `--help` stops the scan at once, keeping what was collected so
//! far; an unknown `--` flag is ignored.  Whether each collected path
//! actually exists is the caller's concern — the check belongs with
//! the file handling, before parsing begins.

use vstd::prelude::*;

verus! {

/// The program configuration read from the command line.
pub struct Config {
    /// The file paths to load, in the order given.
    pub filenames: Vec<String>,
    /// Print the usage text and do nothing else.
    pub help: bool,
    /// Skip the interactive prompt.
    pub no_prompt: bool,
}

/// Whether an argument is a flag: it starts with `--`.
pub open spec fn is_flag(a: Seq<char>) -> bool {
    a.len() >= 2 && a[0] == '-' && a[1] == '-'
}

/// The scan of the arguments from index `i`: collected paths, the
/// help flag, and the no-prompt flag.
pub open spec fn spec_config_from(
    args: Seq<Seq<char>>,
    i: int,
    files: Seq<Seq<char>>,
    np: bool,
) -> (Seq<Seq<char>>, bool, bool)
    decreases args.len() - i,
{
    if i < 0 || i >= args.len() {
        (files, false, np)
    } else {
        let a = args[i];
        if !is_flag(a) {
            spec_config_from(args, i + 1, files.push(a), np)
        } else if a == "--help"@ {
            (files, true, np)
        } else if a == "--no-prompt"@ {
            spec_config_from(args, i + 1, files, true)
        } else {
            spec_config_from(args, i + 1, files, np)
        }
    }
}

/// The configuration the argument list denotes; the first argument is
/// the program name and is skipped.
pub open spec fn spec_config(args: Seq<Seq<char>>) -> (Seq<Seq<char>>, bool, bool) {
    spec_config_from(args, 1, Seq::empty(), false)
}

impl Config {
    /// Reads the command line, per [`spec_config`].
    pub fn new(args: &Vec<String>) -> (r: Config)
        ensures
            r.filenames.deep_view() == spec_config(args.deep_view()).0,
            r.help == spec_config(args.deep_view()).1,
            r.no_prompt == spec_config(args.deep_view()).2,
    {
        let ghost av = args.deep_view();
        let mut filenames: Vec<String> = Vec::new();
        let mut no_prompt: bool = false;
        let mut i: usize = 1;
        proof {
            assert(filenames.deep_view() =~= Seq::<Seq<char>>::empty());
        }
        while i < args.len()
            invariant
                1 <= i,
                av == args.deep_view(),
                av.len() == args@.len(),
                spec_config(av) == spec_config_from(av, i as int, filenames.deep_view(), no_prompt),
            decreases args@.len() - i,
        {
            proof {
                assert(av[i as int] == args@[i as int]@);
            }
            let a = args[i].as_str();
            let n = a.unicode_len();
            let flag = n >= 2 && a.get_char(0) == '-' && a.get_char(1) == '-';
            if !flag {
                let ghost fv = filenames.deep_view();
                filenames.push(args[i].clone());
                proof {
                    assert(filenames.deep_view() =~= fv.push(av[i as int]));
                }
            } else if crate::text::str_eq(a, "--help") {
                return Config { filenames, help: true, no_prompt };
            } else if crate::text::str_eq(a, "--no-prompt") {
                no_prompt = true;
            }
            i = i + 1;
        }
        Config { filenames, help: false, no_prompt }
    }
}

} // verus!
