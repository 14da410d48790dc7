//! The command line: the engine root, the platforms to keep and the switches.
use vstd::prelude::*;
use crate::text::{str_eq, views, eq_ignore_case, eq_ignore_ascii_case, trim, trim_str};

verus! {

/// What the command line asks for.
pub struct Options {
    /// The engine root: the first argument after the program name.
    pub ue_root: String,
    /// Remove for real (`--execute`); without it only a preview is shown.
    pub execute: bool,
    /// Keep `.git` (`--keep-git`).
    pub keep_git: bool,
    /// Keep `Engine/Intermediate` (`--keep-intermediate`).
    pub keep_intermediate: bool,
    /// Remove test binaries (`--remove-tests`).
    pub remove_tests: bool,
    /// Remove debug symbols (`--strip-pdb`).
    pub strip_pdb: bool,
    /// The value that follows `--platforms`.
    pub platforms: String,
}

/// Why the command line was refused.
pub enum ArgError {
    /// No engine root was given.
    Usage,
    /// `--platforms` is missing or has no value after it.
    MissingPlatforms,
}

/// Some argument equals `flag` (the program name included).
pub open spec fn has_flag(args: Seq<Seq<char>>, flag: Seq<char>) -> bool {
    exists|i: int| 0 <= i < args.len() && #[trigger] args[i] == flag
}

/// The position of the first `--platforms` that has an argument after it.
pub open spec fn platforms_flag_at(args: Seq<Seq<char>>) -> Option<int> {
    if exists|i: int| 0 <= i < args.len() - 1 && #[trigger] args[i] == "--platforms"@ {
        Some(choose|i: int| {
            &&& 0 <= i < args.len() - 1
            &&& #[trigger] args[i] == "--platforms"@
            &&& forall|j: int| 0 <= j < i ==> #[trigger] args[j] != "--platforms"@
        })
    } else {
        None
    }
}

/// Whether some argument equals `flag`.
fn flag_given(args: &Vec<String>, flag: &str) -> (r: bool)
    ensures
        r == has_flag(views(args@), flag@),
{
    let mut i: usize = 0;
    while i < args.len()
        invariant
            i <= args@.len(),
            forall|j: int| 0 <= j < i ==> #[trigger] views(args@)[j] != flag@,
        decreases args.len() - i,
    {
        if str_eq(args[i].as_str(), flag) {
            assert(views(args@)[i as int] == flag@);
            return true;
        }
        i = i + 1;
    }
    false
}

/// Reads the command line (`args[0]` is the program name). The engine root is
/// `args[1]`; the platforms are the argument after the first `--platforms`;
/// each switch counts wherever it stands.
pub fn parse_args(args: &Vec<String>) -> (r: Result<Options, ArgError>)
    ensures
        args@.len() < 2 ==> r matches Err(ArgError::Usage),
        args@.len() >= 2 && platforms_flag_at(views(args@)) is None ==> r matches Err(ArgError::MissingPlatforms),
        args@.len() >= 2 && platforms_flag_at(views(args@)) is Some ==> r is Ok,
        r matches Ok(o) ==> {
            &&& o.ue_root@ == args@[1]@
            &&& o.execute == has_flag(views(args@), "--execute"@)
            &&& o.keep_git == has_flag(views(args@), "--keep-git"@)
            &&& o.keep_intermediate == has_flag(views(args@), "--keep-intermediate"@)
            &&& o.remove_tests == has_flag(views(args@), "--remove-tests"@)
            &&& o.strip_pdb == has_flag(views(args@), "--strip-pdb"@)
            &&& o.platforms@ == args@[platforms_flag_at(views(args@))->0 + 1]@
        },
{
    if args.len() < 2 {
        return Err(ArgError::Usage);
    }
    let ue_root = args[1].clone();
    let execute = flag_given(args, "--execute");
    let keep_git = flag_given(args, "--keep-git");
    let keep_intermediate = flag_given(args, "--keep-intermediate");
    let remove_tests = flag_given(args, "--remove-tests");
    let strip_pdb = flag_given(args, "--strip-pdb");
    let ghost a = views(args@);
    assert(ue_root@ == args@[1]@);
    let mut i: usize = 0;
    while i + 1 < args.len()
        invariant
            a == views(args@),
            args@.len() >= 2,
            i + 1 <= args@.len(),
            ue_root@ == args@[1]@,
            execute == has_flag(a, "--execute"@),
            keep_git == has_flag(a, "--keep-git"@),
            keep_intermediate == has_flag(a, "--keep-intermediate"@),
            remove_tests == has_flag(a, "--remove-tests"@),
            strip_pdb == has_flag(a, "--strip-pdb"@),
            forall|j: int| 0 <= j < i ==> #[trigger] a[j] != "--platforms"@,
        decreases args.len() - i,
    {
        if str_eq(args[i].as_str(), "--platforms") {
            let platforms = args[i + 1].clone();
            proof {
                let ii = i as int;
                assert(a[ii] == "--platforms"@);
                assert({
                    &&& 0 <= ii < a.len() - 1
                    &&& a[ii] == "--platforms"@
                    &&& forall|j: int| 0 <= j < ii ==> #[trigger] a[j] != "--platforms"@
                });
                let k = platforms_flag_at(a)->0;
                if k < ii {
                    assert(a[k] != "--platforms"@);
                } else if k > ii {
                    assert(a[ii] != "--platforms"@);
                }
                assert(k == ii);
            }
            assert(platforms@ == args@[i + 1]@);
            assert(ue_root@ == args@[1]@);
            return Ok(Options {
                ue_root,
                execute,
                keep_git,
                keep_intermediate,
                remove_tests,
                strip_pdb,
                platforms,
            });
        }
        i = i + 1;
    }
    Err(ArgError::MissingPlatforms)
}


/// Whether the answer to the confirmation prompt agrees to remove: `y` or
/// `Y`, white space around it allowed.
pub fn is_confirmation(answer: &str) -> (r: bool)
    ensures
        r == eq_ignore_case(trim(answer@), "y"@),
{
    eq_ignore_ascii_case(trim_str(answer), "y")
}

} // verus!
