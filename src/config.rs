use vstd::prelude::*;

use crate::search::{
    matching_lines, matching_lines_ignoring_case, search, search_case_insensitive, views_of,
};

verus! {

/// Why a configuration could not be built from the arguments.
#[derive(Clone, Copy, Debug, PartialEq, Eq, Structural)]
pub enum ConfigError {
    /// Fewer than a program name, a query and a file name were given.
    NotEnoughArguments,
}

impl ConfigError {
    /// The message that tells a user what went wrong.
    pub fn as_str(&self) -> (r: &'static str)
        ensures
            r@ == "not enough arguments"@,
    {
        match self {
            ConfigError::NotEnoughArguments => "not enough arguments",
        }
    }
}

/// What to search for, where, and whether case matters.
pub struct Config {
    /// The text that a line must contain.
    pub query: String,
    /// The file whose lines are searched.
    pub filename: String,
    /// Whether a match must agree in case with the query.
    pub case_sensitive: bool,
}

impl Config {
    /// Builds the configuration from the invocation arguments (program name
    /// first, then query, then file name) and from whether the
    /// `CASE_INSENSITIVE` flag is set.
    pub fn new(args: &[String], case_insensitive: bool) -> (r: Result<Config, ConfigError>)
        ensures
            r is Err <==> args@.len() < 3,
            r is Err ==> r->Err_0 == ConfigError::NotEnoughArguments,
            r is Ok ==> {
                &&& r->Ok_0.query@ == args@[1]@
                &&& r->Ok_0.filename@ == args@[2]@
                &&& r->Ok_0.case_sensitive == !case_insensitive
            },
    {
        if args.len() < 3 {
            return Err(ConfigError::NotEnoughArguments);
        }
        let query = args[1].clone();
        let filename = args[2].clone();
        Ok(Config { query, filename, case_sensitive: !case_insensitive })
    }

    /// The lines of `contents` that this configuration selects: those that
    /// contain the query, ignoring case unless the search is case-sensitive.
    pub fn find_matches<'a>(&self, contents: &'a str) -> (r: Vec<&'a str>)
        ensures
            self.case_sensitive ==> views_of(r@) == matching_lines(self.query@, contents@),
            !self.case_sensitive ==> views_of(r@) == matching_lines_ignoring_case(
                self.query@,
                contents@,
            ),
    {
        if self.case_sensitive {
            search(self.query.as_str(), contents)
        } else {
            search_case_insensitive(self.query.as_str(), contents)
        }
    }
}

} // verus!
