//! The search configuration and the parsing of command-line arguments into it.
use vstd::prelude::*;

verus! {

/// What to search for, where, and whether letter case is ignored.
#[derive(Debug)]
pub struct Config {
    pub pattern: String,
    pub filename: String,
    pub ignore_case: bool,
}

/// Why a list of arguments does not describe a search.
#[derive(Debug, PartialEq, Eq)]
pub enum ArgError {
    /// No pattern was given.
    MissingPattern,
    /// A pattern was given but no file path.
    MissingFilePath,
    /// An argument after the file path that is not a case flag; it is carried along.
    UnknownArgument(String),
}

/// The short form of the case flag.
pub open spec fn short_flag() -> Seq<char> {
    seq!['-', 'i']
}

/// The long form of the case flag.
pub open spec fn long_flag() -> Seq<char> {
    seq!['-', '-', 'i', 'g', 'n', 'o', 'r', 'e', '-', 'c', 'a', 's', 'e']
}

/// `a` asks for letter case to be ignored.
pub open spec fn is_case_flag(a: Seq<char>) -> bool {
    a == short_flag() || a == long_flag()
}

/// Every argument at a position in `lo..hi` is a case flag.
pub open spec fn all_case_flags(args: Seq<String>, lo: int, hi: int) -> bool {
    forall|k: int| lo <= k < hi ==> is_case_flag(#[trigger] args[k]@)
}

/// The argument at `k` is the first one after the file path that is not a case flag.
pub open spec fn first_unknown_at(args: Seq<String>, k: int) -> bool {
    &&& 2 <= k < args.len()
    &&& all_case_flags(args, 2, k)
    &&& !is_case_flag(args[k]@)
}

/// The text that describes an argument error.
pub open spec fn message_of(e: ArgError) -> Seq<char> {
    match e {
        ArgError::MissingPattern => "Pattern not found"@,
        ArgError::MissingFilePath => "File path not found"@,
        ArgError::UnknownArgument(t) => "Unknown argument: "@ + t@,
    }
}

/// Whether `a` is `-i` or `--ignore-case`.
fn is_case_flag_exec(a: &String) -> (r: bool)
    ensures
        r == is_case_flag(a@),
{
    let short = String::from_str("-i");
    let long = String::from_str("--ignore-case");
    proof {
        reveal_strlit("-i");
        reveal_strlit("--ignore-case");
        assert(short@ =~= short_flag());
        assert(long@ =~= long_flag());
    }
    *a == short || *a == long
}

impl ArgError {
    /// A description of the error for the user.
    pub fn message(&self) -> (r: String)
        ensures
            r@ == message_of(*self),
    {
        match self {
            ArgError::MissingPattern => String::from_str("Pattern not found"),
            ArgError::MissingFilePath => String::from_str("File path not found"),
            ArgError::UnknownArgument(t) => {
                let mut m = String::from_str("Unknown argument: ");
                m.append(t.as_str());
                m
            },
        }
    }
}

impl Config {
    /// Reads a configuration from the arguments, the program name left out:
    /// the pattern, then the file path, then any number of case flags
    /// (`-i` or `--ignore-case`), which may repeat.
    pub fn new(args: &Vec<String>) -> (r: Result<Config, ArgError>)
        ensures
            args@.len() == 0 ==> r == Err::<Config, ArgError>(ArgError::MissingPattern),
            args@.len() == 1 ==> r == Err::<Config, ArgError>(ArgError::MissingFilePath),
            args@.len() >= 2 ==> (r is Ok <==> all_case_flags(args@, 2, args@.len() as int)),
            r matches Ok(c) ==> {
                &&& c.pattern@ == args@[0]@
                &&& c.filename@ == args@[1]@
                &&& c.ignore_case == (args@.len() > 2)
            },
            args@.len() >= 2 ==> match r {
                Err(ArgError::UnknownArgument(t)) => exists|k: int|
                    first_unknown_at(args@, k) && t@ == args@[k]@,
                Err(_) => false,
                Ok(_) => true,
            },
    {
        if args.len() == 0 {
            return Err(ArgError::MissingPattern);
        }
        if args.len() == 1 {
            return Err(ArgError::MissingFilePath);
        }
        let mut k: usize = 2;
        while k < args.len()
            invariant
                2 <= k <= args@.len(),
                all_case_flags(args@, 2, k as int),
            decreases args@.len() - k,
        {
            if !is_case_flag_exec(&args[k]) {
                assert(first_unknown_at(args@, k as int));
                return Err(ArgError::UnknownArgument(args[k].clone()));
            }
            k = k + 1;
        }
        Ok(Config {
            pattern: args[0].clone(),
            filename: args[1].clone(),
            ignore_case: args.len() > 2,
        })
    }
}

/// How the program is invoked.
pub fn usage() -> (r: &'static str)
    ensures
        r@ == "Usage: mygrep <pattern> <file_path> [-i | --ignore-case]"@,
{
    "Usage: mygrep <pattern> <file_path> [-i | --ignore-case]"
}

} // verus!
