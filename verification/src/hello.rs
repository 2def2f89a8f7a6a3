//! What `hello-rust` answers for its command line.
use vstd::prelude::*;

verus! {

/// Either the greeting to print, or the usage line to report.
pub enum HelloOutcome {
    Greeting(String),
    Usage(String),
}

/// The answer for the command line `args` (program name first): a greeting
/// for the first argument, or the usage line when there is none.
pub fn hello_outcome(args: &Vec<String>) -> (o: HelloOutcome)
    requires
        args@.len() >= 1,
    ensures
        args@.len() < 2 ==> (o matches HelloOutcome::Usage(u) && u@ == "用法: "@ + args@[0]@
            + " <name>"@),
        args@.len() >= 2 ==> (o matches HelloOutcome::Greeting(g) && g@ == "Hello, "@
            + args@[1]@ + "!"@),
{
    if args.len() < 2 {
        let mut u = "用法: ".to_owned();
        u.append(args[0].as_str());
        u.append(" <name>");
        HelloOutcome::Usage(u)
    } else {
        let mut g = "Hello, ".to_owned();
        g.append(args[1].as_str());
        g.append("!");
        HelloOutcome::Greeting(g)
    }
}

} // verus!
