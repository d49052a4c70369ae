//! Pass-through detection: argument lists that only ask for trivial
//! behaviour (version or help display), for which full supervision is
//! unnecessary overhead.

use vstd::prelude::*;

verus! {

/// Whether a single argument is one of the version/help flags.
pub open spec fn is_passthrough_flag(arg: Seq<char>) -> bool {
    ||| arg == "--version"@
    ||| arg == "-v"@
    ||| arg == "--help"@
    ||| arg == "-h"@
}

/// Whether an argument list requests pass-through mode: some argument is a
/// version or help flag.
pub open spec fn passthrough_spec(args: Seq<Seq<char>>) -> bool {
    exists|i: int| 0 <= i < args.len() && is_passthrough_flag(args[i])
}

/// True exactly when some argument is `--version`, `-v`, `--help` or `-h`.
pub fn is_passthrough_mode(args: &Vec<String>) -> (r: bool)
    ensures
        r == passthrough_spec(args.deep_view()),
{
    let version_long = "--version".to_owned();
    let version_short = "-v".to_owned();
    let help_long = "--help".to_owned();
    let help_short = "-h".to_owned();
    let n = args.len();
    let mut i: usize = 0;
    while i < n
        invariant
            n == args@.len(),
            0 <= i <= n,
            args.deep_view().len() == args@.len(),
            forall|j: int| 0 <= j < args@.len()
                ==> #[trigger] args.deep_view()[j] == args@[j]@,
            version_long@ == "--version"@,
            version_short@ == "-v"@,
            help_long@ == "--help"@,
            help_short@ == "-h"@,
            forall|j: int| 0 <= j < i ==> !is_passthrough_flag(args.deep_view()[j]),
        decreases n - i,
    {
        let arg = &args[i];
        if *arg == version_long || *arg == version_short || *arg == help_long
            || *arg == help_short {
            proof {
                assert(is_passthrough_flag(args.deep_view()[i as int]));
            }
            return true;
        }
        i += 1;
    }
    false
}

} // verus!
