//! Flags of the command line, read without a parser of arguments.
use vstd::prelude::*;
use crate::text::{count_of, parse_count, same_text};

verus! {

/// What the flags of the command line ask for.
#[derive(Debug, Clone, Copy, PartialEq, Eq, Structural)]
pub struct Flags {
    pub k: usize,
    pub no_shiny: bool,
    pub no_female: bool,
    pub no_mega: bool,
    pub no_regional_variant: bool,
    pub verbose: bool,
}

/// What the flag before an argument asks of it.
#[derive(Debug, Clone, Copy, PartialEq, Eq, Structural)]
pub enum FlagEnum {
    /// The next argument that is no flag is the number of results.
    K,
    /// Nothing.
    Default,
}

/// Why arguments give no flags.
#[derive(Debug, Clone, Copy, PartialEq, Eq, Structural)]
pub enum FlagError {
    /// What follows `-k` is no count.
    InvalidK,
}

/// The flags where no argument is given.
pub open spec fn initial() -> (Flags, FlagEnum) {
    (
        Flags {
            k: 5,
            no_shiny: false,
            no_female: false,
            no_mega: false,
            no_regional_variant: false,
            verbose: false,
        },
        FlagEnum::Default,
    )
}

/// The flags after one more argument, or `None` where the argument is to be
/// a count and is none.
pub open spec fn step(state: (Flags, FlagEnum), arg: Seq<char>) -> Option<(Flags, FlagEnum)> {
    let (flags, prev) = state;
    if arg == "--no-shiny"@ {
        Some((Flags { no_shiny: true, ..flags }, prev))
    } else if arg == "--no-female"@ {
        Some((Flags { no_female: true, ..flags }, prev))
    } else if arg == "--no-mega"@ {
        Some((Flags { no_mega: true, ..flags }, prev))
    } else if arg == "--no-regional"@ {
        Some((Flags { no_regional_variant: true, ..flags }, prev))
    } else if arg == "-k"@ {
        Some((flags, FlagEnum::K))
    } else if arg == "--verbose"@ {
        Some((Flags { verbose: true, ..flags }, prev))
    } else if prev == FlagEnum::K {
        match count_of(arg) {
            Some(k) => Some((Flags { k, ..flags }, FlagEnum::Default)),
            None => None,
        }
    } else {
        Some(state)
    }
}

/// The flags after the first `n` arguments, or `None` where one of them is to
/// be a count and is none.
pub open spec fn read(args: Seq<String>, n: nat) -> Option<(Flags, FlagEnum)>
    decreases n,
{
    if n == 0 {
        Some(initial())
    } else {
        match read(args, (n - 1) as nat) {
            Some(state) => step(state, args[n - 1]@),
            None => None,
        }
    }
}

/// The flags that the arguments give, or `None` where one of them is to be a
/// count and is none.
pub open spec fn flags_of(args: Seq<String>) -> Option<Flags> {
    match read(args, args.len()) {
        Some(state) => Some(state.0),
        None => None,
    }
}

impl Flags {
    /// The flags that the arguments give.
    ///
    /// Fails where an argument that follows `-k`, and is no flag itself, is
    /// no count.
    pub fn new(args: &Vec<String>) -> (out: Result<Flags, FlagError>)
        ensures
            match out {
                Ok(flags) => flags_of(args@) == Some(flags),
                Err(e) => e == FlagError::InvalidK && flags_of(args@) is None,
            },
    {
        let mut flags = Flags {
            k: 5,
            no_shiny: false,
            no_female: false,
            no_mega: false,
            no_regional_variant: false,
            verbose: false,
        };
        let mut prev = FlagEnum::Default;
        let mut i: usize = 0;
        while i < args.len()
            invariant
                i <= args.len(),
                read(args@, i as nat) == Some((flags, prev)),
            decreases args.len() - i,
        {
            let arg = args[i].as_str();
            if same_text(arg, "--no-shiny") {
                flags.no_shiny = true;
            } else if same_text(arg, "--no-female") {
                flags.no_female = true;
            } else if same_text(arg, "--no-mega") {
                flags.no_mega = true;
            } else if same_text(arg, "--no-regional") {
                flags.no_regional_variant = true;
            } else if same_text(arg, "-k") {
                prev = FlagEnum::K;
            } else if same_text(arg, "--verbose") {
                flags.verbose = true;
            } else {
                match prev {
                    FlagEnum::K => {
                        match parse_count(arg) {
                            Some(k) => {
                                flags.k = k;
                                prev = FlagEnum::Default;
                            },
                            None => {
                                proof {
                                    lemma_read_fails(args@, (i + 1) as nat, args@.len());
                                }
                                return Err(FlagError::InvalidK);
                            },
                        }
                    },
                    FlagEnum::Default => {},
                }
            }
            i = i + 1;
        }
        Ok(flags)
    }

    /// A sprite that is shiny, female, mega or regional as given passes the flags.
    pub fn admits(&self, shiny: bool, female: bool, mega: bool, regional: bool) -> (out: bool)
        ensures
            out == ((!self.no_shiny || !shiny) && (!self.no_female || !female) && (!self.no_mega
                || !mega) && (!self.no_regional_variant || !regional)),
    {
        (!self.no_shiny || !shiny) && (!self.no_female || !female) && (!self.no_mega || !mega) && (
        !self.no_regional_variant || !regional)
    }
}

/// Once the reading has failed it stays failed.
proof fn lemma_read_fails(args: Seq<String>, n: nat, m: nat)
    requires
        n <= m,
        read(args, n) is None,
    ensures
        read(args, m) is None,
    decreases m,
{
    if n < m {
        lemma_read_fails(args, n, (m - 1) as nat);
    }
}

} // verus!
