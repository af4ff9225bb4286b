//! The search configuration, built from the raw argument list.

use vstd::prelude::*;

verus! {

/// A positional parameter of the command line.
#[derive(Clone, Copy, Debug, PartialEq, Eq, Structural)]
pub enum Param {
    Needle,
    Haystack,
}

/// Why an argument list was rejected.
#[derive(Clone, Copy, Debug, PartialEq, Eq, Structural)]
pub enum ConfigError {
    /// Fewer than two arguments were supplied; the named one comes first.
    MissingArgument(Param),
    /// More than two arguments were supplied.
    TooManyArguments,
}

impl ConfigError {
    /// The diagnostic text for this error, naming the missing parameter
    /// where one is missing.
    pub fn message(&self) -> (r: &'static str)
        ensures
            *self == ConfigError::MissingArgument(Param::Needle) ==> r@
                == "missing required parameter `needle`"@,
            *self == ConfigError::MissingArgument(Param::Haystack) ==> r@
                == "missing required parameter `haystack`"@,
            *self == ConfigError::TooManyArguments ==> r@ == "too many arguments"@,
    {
        match self {
            ConfigError::MissingArgument(Param::Needle) => "missing required parameter `needle`",
            ConfigError::MissingArgument(Param::Haystack) => "missing required parameter `haystack`",
            ConfigError::TooManyArguments => "too many arguments",
        }
    }
}

/// What to search for, in which file, and under which case mode.
#[derive(Debug)]
pub struct Config {
    pub needle: String,
    pub haystack: String,
    pub case_sensitive: bool,
}

impl Config {
    /// Builds a configuration from the argument list, the program name
    /// already stripped: the needle first, then the haystack path, and
    /// nothing else. Matching is case-sensitive unless `case_insensitive`
    /// is set.
    pub fn new(args: Vec<String>, case_insensitive: bool) -> (r: Result<Config, ConfigError>)
        ensures
            args@.len() == 0 ==> r == Err::<Config, ConfigError>(
                ConfigError::MissingArgument(Param::Needle),
            ),
            args@.len() == 1 ==> r == Err::<Config, ConfigError>(
                ConfigError::MissingArgument(Param::Haystack),
            ),
            args@.len() > 2 ==> r == Err::<Config, ConfigError>(ConfigError::TooManyArguments),
            args@.len() == 2 ==> (r matches Ok(c) && c.needle@ == args@[0]@ && c.haystack@
                == args@[1]@ && c.case_sensitive == !case_insensitive),
    {
        if args.len() == 0 {
            return Err(ConfigError::MissingArgument(Param::Needle));
        }
        if args.len() == 1 {
            return Err(ConfigError::MissingArgument(Param::Haystack));
        }
        if args.len() > 2 {
            return Err(ConfigError::TooManyArguments);
        }
        let needle = args[0].clone();
        let haystack = args[1].clone();
        Ok(Config { needle, haystack, case_sensitive: !case_insensitive })
    }
}

} // verus!
