//! What the dispatcher decides for an argument list: a built-in, a program
//! named by its absolute path, or a name to look up along the search path.

use vstd::prelude::*;

verus! {

/// What to do with an argument list.
#[derive(Clone, Debug, PartialEq, Eq)]
pub enum Action {
    /// `cd` without exactly one path: report the usage, change nothing.
    CdUsage,
    /// `cd` with one path: change the working directory to it.
    ChangeDir(String),
    /// `exit`: end the process with status 0.
    Exit,
    /// Run the program at this absolute path.
    Run(String),
    /// Look this name up along the search path, then run what is found.
    Search(String),
}

/// A path is absolute when it starts at the root.
pub open spec fn is_absolute(p: Seq<char>) -> bool {
    p.len() > 0 && p[0] == '/'
}

/// Decides what an argument list asks for. `cd` is checked first, then
/// `exit`, whose trailing arguments are ignored; any other first argument
/// names a program, run directly when its path is absolute and looked up
/// otherwise.
pub fn plan(args: &Vec<String>) -> (r: Action)
    requires
        args.len() > 0,
    ensures
        args[0]@ == "cd"@ && args.len() == 2 ==> r is ChangeDir && r->ChangeDir_0@ == args[1]@,
        args[0]@ == "cd"@ && args.len() != 2 ==> r is CdUsage,
        args[0]@ == "exit"@ ==> r is Exit,
        args[0]@ != "cd"@ && args[0]@ != "exit"@ && is_absolute(args[0]@) ==> r is Run
            && r->Run_0@ == args[0]@,
        args[0]@ != "cd"@ && args[0]@ != "exit"@ && !is_absolute(args[0]@) ==> r is Search
            && r->Search_0@ == args[0]@,
{
    proof {
        reveal_strlit("cd");
        reveal_strlit("exit");
        assert("cd"@.len() != "exit"@.len());
    }
    let cd = String::from_str("cd");
    let exit = String::from_str("exit");
    let name = &args[0];
    if *name == cd {
        if args.len() == 2 {
            Action::ChangeDir(args[1].clone())
        } else {
            Action::CdUsage
        }
    } else if *name == exit {
        Action::Exit
    } else if name.as_str().unicode_len() > 0 && name.as_str().get_char(0) == '/' {
        Action::Run(name.clone())
    } else {
        Action::Search(name.clone())
    }
}

/// The code to report for a child that ran: `None` when it succeeded,
/// otherwise its exit code, or -1 when it has none (ended by a signal).
pub fn failure_code(success: bool, code: Option<i32>) -> (r: Option<i32>)
    ensures
        success ==> r is None,
        !success && code is Some ==> r == code,
        !success && code is None ==> r == Some(-1i32),
{
    if success {
        None
    } else {
        match code {
            Some(c) => Some(c),
            None => Some(-1),
        }
    }
}

} // verus!
