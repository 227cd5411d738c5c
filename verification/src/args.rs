//! Command-line arguments: the listening address, given as
//! `--address host:port` (or `-a`), defaulting to `0.0.0.0:8080`.

use vstd::prelude::*;
use vstd::string::*;

use crate::text::str_eq;

verus! {

/// The hub's command-line arguments.
#[derive(Debug, Clone)]
pub struct Args {
    pub address: String,
}

/// Walk the arguments after the program name, carrying the address seen so
/// far; a later `--address` overrides an earlier one.  Anything that is
/// not a recognized flag, or a flag without its value, refuses the whole
/// line.
pub open spec fn parse_args_from(args: Seq<Seq<char>>, i: int, acc: Seq<char>) -> Option<Seq<char>>
    decreases args.len() - i,
{
    if i >= args.len() {
        Some(acc)
    } else if args[i] == "--address"@ || args[i] == "-a"@ {
        if i + 1 < args.len() {
            parse_args_from(args, i + 2, args[i + 1])
        } else {
            None
        }
    } else if args[i].len() >= 10 && args[i].take(10) == "--address="@ {
        parse_args_from(args, i + 1, args[i].skip(10))
    } else {
        None
    }
}

/// What a whole command line parses to: the address, or nothing on a
/// parse error.  The leading element is the program name.
pub open spec fn parse_args_spec(args: Seq<Seq<char>>) -> Option<Seq<char>> {
    if args.len() == 0 {
        Some("0.0.0.0:8080"@)
    } else {
        parse_args_from(args, 1, "0.0.0.0:8080"@)
    }
}

impl Args {
    /// Parse a command line; `None` is a parse error, on which the caller
    /// exits nonzero.
    pub fn parse_from(args: Vec<String>) -> (r: Option<Args>)
        ensures
            match r {
                Some(a) => parse_args_spec(args.deep_view()) == Some(a.address@),
                None => parse_args_spec(args.deep_view()) is None,
            },
    {
        let ghost av = args.deep_view();
        let mut address = String::from_str("0.0.0.0:8080");
        let mut i: usize = 1;
        if args.len() == 0 {
            return Some(Args { address });
        }
        while i < args.len()
            invariant
                1 <= i,
                args.deep_view() == av,
                parse_args_from(av, 1, "0.0.0.0:8080"@) == parse_args_from(
                    av,
                    i as int,
                    address@,
                ),
            decreases args@.len() + 1 - i,
        {
            let a = &args[i];
            proof {
                assert(av[i as int] == args@[i as int]@);
            }
            if str_eq(a.as_str(), "--address") || str_eq(a.as_str(), "-a") {
                if i + 1 < args.len() {
                    proof {
                        assert(av[i + 1] == args@[i + 1 as int]@);
                    }
                    address = args[i + 1].clone();
                    i = i + 2;
                } else {
                    return None;
                }
            } else {
                let n = a.as_str().unicode_len();
                if n >= 10 {
                    let head = a.as_str().substring_char(0, 10);
                    if str_eq(head, "--address=") {
                        proof {
                            assert(av[i as int].take(10) == a@.subrange(0, 10));
                        }
                        let rest = a.as_str().substring_char(10, n);
                        proof {
                            assert(a@.subrange(10, a@.len() as int) =~= av[i as int].skip(10));
                        }
                        address = String::from_str(rest);
                        i = i + 1;
                    } else {
                        return None;
                    }
                } else {
                    return None;
                }
            }
        }
        Some(Args { address })
    }
}

} // verus!
