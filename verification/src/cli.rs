//! What a command line asks for.

use vstd::prelude::*;
use vstd::string::*;

verus! {

/// What the program is asked to do.
#[derive(Debug, Clone, PartialEq, Eq)]
pub enum Command {
    /// Rebuild the index from the dataset.
    Build,
    /// Look up the book with this identifier.
    Lookup(String),
    /// No identifier was given.
    MissingBookId,
    /// More than one identifier was given.
    TooManyArguments,
}

/// Whether one of the arguments is the build flag.
pub open spec fn asks_build(args: Seq<Seq<char>>) -> bool {
    exists|i: int| 0 <= i < args.len() && #[trigger] args[i] == "--build"@
}

/// Reads the argument list of the process, program name first.
///
/// The build flag anywhere in the list wins over everything else. Otherwise
/// the list must hold exactly one argument behind the program name, which is
/// the identifier to look up.
pub fn parse_args(args: &Vec<String>) -> (command: Command)
    ensures
        match command {
            Command::Build => asks_build(args.deep_view()),
            Command::Lookup(id) => !asks_build(args.deep_view()) && args.len() == 2 && id@
                == args[1]@,
            Command::MissingBookId => !asks_build(args.deep_view()) && args.len() < 2,
            Command::TooManyArguments => !asks_build(args.deep_view()) && args.len() > 2,
        },
{
    let flag = String::from_str("--build");
    let mut i: usize = 0;
    while i < args.len()
        invariant
            i <= args.len(),
            flag@ == "--build"@,
            forall|j: int| 0 <= j < i ==> #[trigger] args.deep_view()[j] != "--build"@,
        decreases args.len() - i,
    {
        assert(args.deep_view()[i as int] == args[i as int]@);
        if args[i] == flag {
            return Command::Build;
        }
        i += 1;
    }
    if args.len() < 2 {
        Command::MissingBookId
    } else if args.len() > 2 {
        Command::TooManyArguments
    } else {
        Command::Lookup(args[1].clone())
    }
}

impl Command {
    /// The complaint to print when the command line asks for nothing that
    /// can be done; `None` for a build or a lookup.
    pub fn complaint(&self) -> (text: Option<&'static str>)
        ensures
            match self {
                Command::MissingBookId => text.is_some() && text.unwrap()@
                    == "book id as argument is required!"@,
                Command::TooManyArguments => text.is_some() && text.unwrap()@
                    == "Too much arguments! Needs only one"@,
                _ => text.is_none(),
            },
    {
        match self {
            Command::MissingBookId => Some("book id as argument is required!"),
            Command::TooManyArguments => Some("Too much arguments! Needs only one"),
            _ => None,
        }
    }
}

} // verus!
