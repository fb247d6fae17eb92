//! Configuration for one search invocation, and the parsing of an argument
//! vector into it: positional query and file path, case-sensitivity flags
//! (with an environment-supplied default handed in by the caller), a
//! line-number flag, `--` to end flag parsing, and `-h` for the usage text.

use vstd::prelude::*;

use crate::text::str_eq;

verus! {

/// Runtime configuration for one search: what to look for, in which file,
/// and how to match and print.
#[derive(Debug)]
pub struct Config {
    pub query: String,
    pub file_path: String,
    pub ignore_case: bool,
    pub show_line_numbers: bool,
}

/// The mathematical image of a [`Config`].
pub struct SpecConfig {
    pub query: Seq<char>,
    pub file_path: Seq<char>,
    pub ignore_case: bool,
    pub show_line_numbers: bool,
}

impl View for Config {
    type V = SpecConfig;

    open spec fn view(&self) -> SpecConfig {
        SpecConfig {
            query: self.query@,
            file_path: self.file_path@,
            ignore_case: self.ignore_case,
            show_line_numbers: self.show_line_numbers,
        }
    }
}

/// The usage text.
pub open spec fn spec_usage() -> Seq<char> {
    "Usage: minigrep [OPTIONS] <query> <file_path>\n\nOPTIONS:\n    -i, --ignore-case       Search without case sensitivity or when IGNORE_CASE is set.\n    -I, --no-ignore-case    Force case-sensitive search even if IGNORE_CASE is set.\n    -n, --line-number       Prefix matches with their line number.\n"@
}

/// The error text for a positional argument beyond query and file path.
pub open spec fn extra_arg_msg(arg: Seq<char>) -> Seq<char> {
    "Unexpected extra argument '"@ + arg + "'.\n\n"@ + spec_usage()
}

/// The error text for an argument vector with no query.
pub open spec fn missing_query_msg() -> Seq<char> {
    "Missing search query.\n\n"@ + spec_usage()
}

/// The error text for an argument vector with a query but no file path.
pub open spec fn missing_path_msg() -> Seq<char> {
    "Missing file path.\n\n"@ + spec_usage()
}

/// What parsing yields once every argument has been read: an error for a
/// missing query or file path, else the finished configuration.
pub open spec fn finish_parse(
    ic: bool,
    sln: bool,
    q: Option<Seq<char>>,
    fp: Option<Seq<char>>,
) -> Result<SpecConfig, Seq<char>> {
    match q {
        None => Err(missing_query_msg()),
        Some(qv) => match fp {
            None => Err(missing_path_msg()),
            Some(f) => Ok(
                SpecConfig { query: qv, file_path: f, ignore_case: ic, show_line_numbers: sln },
            ),
        },
    }
}

/// Parsing after `--`: every remaining argument is positional.
pub open spec fn parse_positionals(
    args: Seq<Seq<char>>,
    i: int,
    ic: bool,
    sln: bool,
    q: Option<Seq<char>>,
    fp: Option<Seq<char>>,
) -> Result<SpecConfig, Seq<char>>
    decreases args.len() - i,
{
    if !(0 <= i < args.len()) {
        finish_parse(ic, sln, q, fp)
    } else if q is None {
        parse_positionals(args, i + 1, ic, sln, Some(args[i]), fp)
    } else if fp is None {
        parse_positionals(args, i + 1, ic, sln, q, Some(args[i]))
    } else {
        Err(extra_arg_msg(args[i]))
    }
}

/// Parsing from argument `i` on, with the flags and positionals read so far:
/// flags may still toggle the case mode and line numbers, `--` ends flag
/// parsing, `-h` yields the usage text, and anything else is positional.
pub open spec fn parse_args(
    args: Seq<Seq<char>>,
    i: int,
    ic: bool,
    sln: bool,
    q: Option<Seq<char>>,
    fp: Option<Seq<char>>,
) -> Result<SpecConfig, Seq<char>>
    decreases args.len() - i,
{
    if !(0 <= i < args.len()) {
        finish_parse(ic, sln, q, fp)
    } else {
        let a = args[i];
        if a == "--"@ {
            parse_positionals(args, i + 1, ic, sln, q, fp)
        } else if a == "-i"@ || a == "--ignore-case"@ {
            parse_args(args, i + 1, true, sln, q, fp)
        } else if a == "-I"@ || a == "--no-ignore-case"@ {
            parse_args(args, i + 1, false, sln, q, fp)
        } else if a == "-n"@ || a == "--line-number"@ || a == "--line-numbers"@ {
            parse_args(args, i + 1, ic, true, q, fp)
        } else if a == "-h"@ || a == "--help"@ {
            Err(spec_usage())
        } else if q is None {
            parse_args(args, i + 1, ic, sln, Some(a), fp)
        } else if fp is None {
            parse_args(args, i + 1, ic, sln, q, Some(a))
        } else {
            Err(extra_arg_msg(a))
        }
    }
}

/// The meaning of a whole argument vector: the first element is the program
/// name and is skipped, and `env_ignore_case` is the case-mode default that
/// the flags may override.
pub open spec fn spec_parse(args: Seq<Seq<char>>, env_ignore_case: bool) -> Result<
    SpecConfig,
    Seq<char>,
> {
    parse_args(args, 1, env_ignore_case, false, None, None)
}

/// The view of an optional owned string.
pub open spec fn opt_view(o: Option<String>) -> Option<Seq<char>> {
    match o {
        Some(s) => Some(s@),
        None => None,
    }
}

/// The error text for a positional argument beyond query and file path.
fn extra_arg_message(arg: &String) -> (r: String)
    ensures
        r@ == extra_arg_msg(arg@),
{
    let mut m = String::from_str("Unexpected extra argument '");
    m.append(arg.as_str());
    m.append("'.\n\n");
    let usage = Config::usage();
    m.append(usage.as_str());
    m
}

impl Config {
    /// The usage text shown for `-h`/`--help` and before argument errors.
    pub fn usage() -> (r: String)
        ensures
            r@ == spec_usage(),
    {
        "Usage: minigrep [OPTIONS] <query> <file_path>\n\nOPTIONS:\n    -i, --ignore-case       Search without case sensitivity or when IGNORE_CASE is set.\n    -I, --no-ignore-case    Force case-sensitive search even if IGNORE_CASE is set.\n    -n, --line-number       Prefix matches with their line number.\n".to_owned()
    }

    /// Parse an argument vector (whose first element is the program name)
    /// into a configuration; `ignore_case` holds the environment-supplied
    /// default for the case mode, which explicit flags may override.
    pub fn build_with_env(args: Vec<String>, ignore_case: bool) -> (r: Result<Config, String>)
        ensures
            (match r {
                Ok(c) => spec_parse(args.deep_view(), ignore_case) == Ok::<SpecConfig, Seq<char>>(
                    c@,
                ),
                Err(e) => spec_parse(args.deep_view(), ignore_case) == Err::<
                    SpecConfig,
                    Seq<char>,
                >(e@),
            }),
    {
        let ghost sargs = args.deep_view();
        let mut ic = ignore_case;
        let mut sln = false;
        let mut query: Option<String> = None;
        let mut file_path: Option<String> = None;
        let n = args.len();
        let mut i: usize = 1;
        while i < n
            invariant
                n == args@.len(),
                sargs == args.deep_view(),
                i >= 1,
                parse_args(sargs, i as int, ic, sln, opt_view(query), opt_view(file_path))
                    == spec_parse(sargs, ignore_case),
            decreases n - i,
        {
            let arg = &args[i];
            proof {
                assert(sargs[i as int] == args@[i as int]@);
            }
            if str_eq(arg.as_str(), "--") {
                i += 1;
                while i < n
                    invariant
                        n == args@.len(),
                        sargs == args.deep_view(),
                        i >= 1,
                        parse_positionals(
                            sargs,
                            i as int,
                            ic,
                            sln,
                            opt_view(query),
                            opt_view(file_path),
                        ) == spec_parse(sargs, ignore_case),
                    decreases n - i,
                {
                    let positional = &args[i];
                    proof {
                        assert(sargs[i as int] == args@[i as int]@);
                    }
                    if query.is_none() {
                        query = Some(positional.clone());
                    } else if file_path.is_none() {
                        file_path = Some(positional.clone());
                    } else {
                        return Err(extra_arg_message(positional));
                    }
                    i += 1;
                }
                return Self::finish(ic, sln, query, file_path);
            } else if str_eq(arg.as_str(), "-i") || str_eq(arg.as_str(), "--ignore-case") {
                ic = true;
            } else if str_eq(arg.as_str(), "-I") || str_eq(arg.as_str(), "--no-ignore-case") {
                ic = false;
            } else if str_eq(arg.as_str(), "-n") || str_eq(arg.as_str(), "--line-number") || str_eq(
                arg.as_str(),
                "--line-numbers",
            ) {
                sln = true;
            } else if str_eq(arg.as_str(), "-h") || str_eq(arg.as_str(), "--help") {
                return Err(Config::usage());
            } else if query.is_none() {
                query = Some(arg.clone());
            } else if file_path.is_none() {
                file_path = Some(arg.clone());
            } else {
                return Err(extra_arg_message(arg));
            }
            i += 1;
        }
        Self::finish(ic, sln, query, file_path)
    }

    /// Turn the parsed pieces into a configuration, or the error owed for a
    /// missing query or file path.
    fn finish(ic: bool, sln: bool, query: Option<String>, file_path: Option<String>) -> (r: Result<
        Config,
        String,
    >)
        ensures
            (match r {
                Ok(c) => finish_parse(ic, sln, opt_view(query), opt_view(file_path)) == Ok::<
                    SpecConfig,
                    Seq<char>,
                >(c@),
                Err(e) => finish_parse(ic, sln, opt_view(query), opt_view(file_path)) == Err::<
                    SpecConfig,
                    Seq<char>,
                >(e@),
            }),
    {
        match query {
            None => {
                let mut m = String::from_str("Missing search query.\n\n");
                let usage = Config::usage();
                m.append(usage.as_str());
                Err(m)
            },
            Some(q) => match file_path {
                None => {
                    let mut m = String::from_str("Missing file path.\n\n");
                    let usage = Config::usage();
                    m.append(usage.as_str());
                    Err(m)
                },
                Some(f) => Ok(
                    Config { query: q, file_path: f, ignore_case: ic, show_line_numbers: sln },
                ),
            },
        }
    }
}

} // verus!
