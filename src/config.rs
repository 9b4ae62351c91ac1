//! Resolving the search settings from command-line arguments and the value
//! of the `CASE_SENSITIVE` environment variable.

use crate::line_filter::string_views;
use vstd::prelude::*;

verus! {

/// The settings of one search: what to look for, where, and whether case
/// counts.
#[derive(Debug)]
pub struct Config<'a> {
    query: &'a str,
    filename: &'a str,
    case_sensitive: bool,
}

/// The abstract value of a `Config`.
pub struct ConfigView {
    pub query: Seq<char>,
    pub filename: Seq<char>,
    pub case_sensitive: bool,
}

impl<'a> View for Config<'a> {
    type V = ConfigView;

    closed spec fn view(&self) -> ConfigView {
        ConfigView {
            query: self.query@,
            filename: self.filename@,
            case_sensitive: self.case_sensitive,
        }
    }
}

/// The flag that turns case sensitivity off.
pub open spec fn case_insensitive_flag() -> Seq<char> {
    "--case-insensitive"@
}

/// The message given when the query or the file name is missing.
pub open spec fn not_enough_arguments() -> Seq<char> {
    "Not enough arguments"@
}

/// What `str::parse::<i32>` makes of a text: the number, or `None` where
/// the text is no decimal `i32`.
pub uninterp spec fn i32_parse_of(s: Seq<char>) -> Option<i32>;

/// Case sensitivity from the parsed setting: off for `0`, on for any other
/// number, and on where there is no number.
pub open spec fn sensitivity_of(parsed: Option<i32>) -> bool {
    match parsed {
        Some(n) => n != 0,
        None => true,
    }
}

/// Case sensitivity from the environment value, before any flag: on where
/// the variable is unset or holds no integer.
pub open spec fn env_case_sensitive(env: Option<Seq<char>>) -> bool {
    match env {
        Some(v) => sensitivity_of(i32_parse_of(v)),
        None => true,
    }
}

/// The characters of an optional string slice.
pub open spec fn opt_view(v: Option<&str>) -> Option<Seq<char>> {
    match v {
        Some(s) => Some(s@),
        None => None,
    }
}

/// The settings that `args` (the program name first) and the environment
/// value give, or `None` where the arguments are too few. The query and the
/// file name are the last two arguments; the flag counts only as the second
/// of at least four.
pub open spec fn resolve(args: Seq<Seq<char>>, env: Option<Seq<char>>) -> Option<ConfigView> {
    if args.len() < 3 {
        None
    } else {
        Some(
            ConfigView {
                query: args[args.len() - 2],
                filename: args[args.len() - 1],
                case_sensitive: if args.len() > 3 && args[1] == case_insensitive_flag() {
                    false
                } else {
                    env_case_sensitive(env)
                },
            },
        )
    }
}

/// Relies on `str::parse::<i32>`: the result depends on the text alone, and
/// `"0"` is the number 0.
#[verifier::external_body]
fn parse_i32(s: &str) -> (r: Option<i32>)
    ensures
        r == i32_parse_of(s@),
        s@ == seq!['0'] ==> r == Some(0i32),
{
    s.parse::<i32>().ok()
}

/// Case sensitivity from an already parsed setting: off for `0`, on
/// otherwise.
pub fn case_sensitive_from(parsed: Option<i32>) -> (r: bool)
    ensures
        r == sensitivity_of(parsed),
{
    match parsed {
        Some(n) => n != 0,
        None => true,
    }
}

/// Case sensitivity from the value of `CASE_SENSITIVE`, if it is set. A
/// value that is no integer leaves case sensitivity on.
pub fn default_case_sensitive(env: Option<&str>) -> (r: bool)
    ensures
        r == env_case_sensitive(opt_view(env)),
{
    match env {
        Some(v) => case_sensitive_from(parse_i32(v)),
        None => true,
    }
}

impl<'a> Config<'a> {
    /// Resolves the settings from `args`, the program name first, and the
    /// value of `CASE_SENSITIVE` if it is set.
    pub fn new(args: &'a [String], env: Option<&str>) -> (r: Result<Config<'a>, &'static str>)
        ensures
            r is Ok <==> args@.len() >= 3,
            r matches Ok(c) ==> resolve(string_views(args@), opt_view(env)) == Some(c@),
            r matches Err(e) ==> e@ == not_enough_arguments(),
    {
        let mut case_sensitive = default_case_sensitive(env);
        if args.len() < 3 {
            proof {
                reveal_strlit("Not enough arguments");
            }
            Err("Not enough arguments")
        } else {
            let n = args.len();
            if n > 3 {
                let flag = "--case-insensitive".to_string();
                proof {
                    reveal_strlit("--case-insensitive");
                }
                if args[1] == flag {
                    case_sensitive = false;
                }
            }
            let c = Config {
                query: args[n - 2].as_str(),
                filename: args[n - 1].as_str(),
                case_sensitive,
            };
            Ok(c)
        }
    }

    /// The text to look for.
    pub fn query(&self) -> (r: &'a str)
        ensures
            r@ == self@.query,
    {
        self.query
    }

    /// The path of the file to search.
    pub fn filename(&self) -> (r: &'a str)
        ensures
            r@ == self@.filename,
    {
        self.filename
    }

    /// Whether case counts in the search.
    pub fn case_sensitive(&self) -> (r: bool)
        ensures
            r == self@.case_sensitive,
    {
        self.case_sensitive
    }
}

} // verus!
