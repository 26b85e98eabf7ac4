use vstd::prelude::*;

use crate::repl::same;

verus! {

/// What the command line asks for.
pub struct Options {
    /// Path of the program image.
    pub input: String,
    /// Start in the debugger instead of running to the end.
    pub dbg: bool,
}

/// Why a command line is refused; the index is that of the offending argument.
#[derive(Clone, Copy, Debug, PartialEq, Eq, Structural)]
pub enum ArgError {
    /// `-m` names a machine that does not exist.
    UnknownMachine(usize),
    /// A second input path.
    UnexpectedArgument(usize),
    /// No input path.
    MissingInput,
}

/// `-m<machine>`.
pub open spec fn is_machine_flag(a: Seq<char>) -> bool {
    a.len() >= 2 && a[0] == '-' && a[1] == 'm'
}

/// The simple machine is the one there is: `-ms` or `-msimple`.
pub open spec fn known_machine(a: Seq<char>) -> bool {
    a.skip(2) == "s"@ || a.skip(2) == "simple"@
}

/// The input path and the debugger flag after the first `k` arguments.
pub open spec fn scan_args(args: Seq<Seq<char>>, k: int) -> Result<(Option<Seq<char>>, bool), ArgError>
    decreases k,
{
    if k <= 0 {
        Ok((None, false))
    } else {
        match scan_args(args, k - 1) {
            Err(e) => Err(e),
            Ok((input, dbg)) => {
                let a = args[k - 1];
                if a == "-dbg"@ {
                    Ok((input, true))
                } else if is_machine_flag(a) {
                    if known_machine(a) {
                        Ok((input, dbg))
                    } else {
                        Err(ArgError::UnknownMachine((k - 1) as usize))
                    }
                } else if input is None {
                    Ok((Some(a), dbg))
                } else {
                    Err(ArgError::UnexpectedArgument((k - 1) as usize))
                }
            },
        }
    }
}

/// The options that the arguments give: the input path and the debugger flag.
pub open spec fn options_of(args: Seq<Seq<char>>) -> Result<(Seq<char>, bool), ArgError> {
    match scan_args(args, args.len() as int) {
        Err(e) => Err(e),
        Ok((None, _)) => Err(ArgError::MissingInput),
        Ok((Some(input), dbg)) => Ok((input, dbg)),
    }
}

proof fn lemma_scan_stops(args: Seq<Seq<char>>, k: int, n: int)
    requires
        0 < k <= n,
        scan_args(args, k) is Err,
    ensures
        scan_args(args, n) == scan_args(args, k),
    decreases n - k,
{
    if k < n {
        lemma_scan_stops(args, k + 1, n);
    }
}

/// Reads the arguments that follow the program name.
pub fn parse_args(args: &Vec<String>) -> (r: Result<Options, ArgError>)
    ensures
        match r {
            Ok(o) => options_of(args@.map_values(|s: String| s@)) == Ok::<(Seq<char>, bool), ArgError>(
                (o.input@, o.dbg),
            ),
            Err(e) => options_of(args@.map_values(|s: String| s@)) == Err::<(Seq<char>, bool), ArgError>(e),
        },
{
    let ghost views = args@.map_values(|s: String| s@);
    let mut input: Option<String> = None;
    let mut dbg = false;
    let mut k: usize = 0;
    while k < args.len()
        invariant
            views == args@.map_values(|s: String| s@),
            k <= args@.len(),
            scan_args(views, k as int) == Ok::<(Option<Seq<char>>, bool), ArgError>(
                (
                    match input {
                        Some(s) => Some(s@),
                        None => None,
                    },
                    dbg,
                ),
            ),
        decreases args@.len() - k,
    {
        let a = args[k].as_str();
        assert(a@ == views[k as int]);
        if same(a, "-dbg") {
            dbg = true;
        } else if a.unicode_len() >= 2 && a.get_char(0) == '-' && a.get_char(1) == 'm' {
            let machine = a.substring_char(2, a.unicode_len());
            assert(machine@ =~= a@.skip(2));
            if !(same(machine, "s") || same(machine, "simple")) {
                proof {
                    lemma_scan_stops(views, k as int + 1, views.len() as int);
                }
                return Err(ArgError::UnknownMachine(k));
            }
        } else if input.is_none() {
            input = Some(args[k].clone());
        } else {
            proof {
                lemma_scan_stops(views, k as int + 1, views.len() as int);
            }
            return Err(ArgError::UnexpectedArgument(k));
        }
        k = k + 1;
    }
    match input {
        Some(s) => Ok(Options { input: s, dbg }),
        None => Err(ArgError::MissingInput),
    }
}

} // verus!
