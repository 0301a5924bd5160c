//! What the system's command-line tools answered.

use vstd::prelude::*;

use crate::text;
use crate::{quote_path, EngineError, EngineResult, ErrorView};

verus! {

/// A tool to run, its arguments and what it is run for.
#[derive(Debug, PartialEq, Eq)]
pub struct ToolCommand {
    pub program: String,
    pub args: Vec<String>,
    pub what: String,
}

#[verifier::ext_equal]
pub ghost struct CommandView {
    pub program: Seq<char>,
    pub args: Seq<Seq<char>>,
    pub what: Seq<char>,
}

impl View for ToolCommand {
    type V = CommandView;

    open spec fn view(&self) -> CommandView {
        CommandView {
            program: self.program@,
            args: text::views(self.args@),
            what: self.what@,
        }
    }
}

pub open spec fn command_views(v: Seq<ToolCommand>) -> Seq<CommandView> {
    v.map_values(|c: ToolCommand| c@)
}

pub broadcast proof fn command_views_push(v: Seq<ToolCommand>, c: ToolCommand)
    ensures
        #[trigger] command_views(v.push(c)) == command_views(v).push(c@),
{
    assert(command_views(v.push(c)) =~= command_views(v).push(c@));
}

/// A command with the given arguments.
pub fn tool(program: &str, args: &[&str], what: &str) -> (c: ToolCommand)
    ensures
        c@ == (CommandView { program: program@, args: text::literals(args@), what: what@ }),
{
    let mut list: Vec<String> = Vec::new();
    let mut i: usize = 0;
    while i < args.len()
        invariant
            i <= args@.len(),
            text::views(list@) == text::literals(args@).take(i as int),
        decreases args@.len() - i,
    {
        let ghost before = list@;
        let arg = args[i].to_owned();
        list.push(arg);
        i = i + 1;
        proof {
            text::views_push(before, arg);
            assert(text::views(list@) =~= text::literals(args@).take(i as int));
        }
    }
    let c = ToolCommand { program: program.to_owned(), args: list, what: what.to_owned() };
    proof {
        assert(c@.args =~= text::literals(args@));
    }
    c
}

/// How running a tool ended.
#[derive(Debug, PartialEq, Eq)]
pub enum ToolOutcome {
    /// It could not be started.
    NotStarted { not_found: bool, message: String },
    Exited { success: bool, stdout: Vec<u8>, stderr: Vec<u8> },
}

/// What a tool printed, without white space around it.
pub open spec fn printed(bytes: Seq<u8>) -> Seq<char> {
    text::trimmed(text::lossy_text(bytes))
}

fn printed_text(bytes: &Vec<u8>) -> (r: String)
    ensures
        r@ == printed(bytes@),
{
    text::trim(text::lossy(bytes.as_slice()).as_str())
}

/// The output of a tool that lists drives.
pub fn capture_result(program: &str, outcome: ToolOutcome) -> (r: EngineResult<String>)
    ensures
        match outcome {
            ToolOutcome::NotStarted { message, .. } => r is Err && r->Err_0@ == ErrorView::Other(
                "couldn't run "@ + crate::quoted_path(program@) + ": "@ + message@,
            ),
            ToolOutcome::Exited { success, stdout, stderr } => if success {
                r is Ok && r->Ok_0@ == text::lossy_text(stdout@)
            } else {
                r is Err && r->Err_0@ == ErrorView::Other(
                    crate::quoted_path(program@) + " failed: "@ + printed(stderr@),
                )
            },
        },
{
    match outcome {
        ToolOutcome::NotStarted { message, .. } => {
            let mut m = "couldn't run ".to_owned();
            m.append(quote_path(program).as_str());
            m.append(": ");
            m.append(message.as_str());
            Err(EngineError::Other(m))
        },
        ToolOutcome::Exited { success, stdout, stderr } => {
            if success {
                Ok(text::lossy(stdout.as_slice()))
            } else {
                let mut m = quote_path(program);
                m.append(" failed: ");
                m.append(printed_text(&stderr).as_str());
                Err(EngineError::Other(m))
            }
        },
    }
}

/// Whether a tool did what it was run for.
pub fn command_result(what: &str, outcome: ToolOutcome) -> (r: EngineResult<()>)
    ensures
        match outcome {
            ToolOutcome::NotStarted { message, .. } => r is Err && r->Err_0@ == ErrorView::Other(
                what@ + ": "@ + message@,
            ),
            ToolOutcome::Exited { success, stdout, stderr } => if success {
                r is Ok
            } else {
                r is Err && r->Err_0@ == ErrorView::Other(
                    what@ + " failed: "@ + printed(stdout@) + printed(stderr@),
                )
            },
        },
{
    match outcome {
        ToolOutcome::NotStarted { message, .. } => {
            let mut m = what.to_owned();
            m.append(": ");
            m.append(message.as_str());
            Err(EngineError::Other(m))
        },
        ToolOutcome::Exited { success, stdout, stderr } => {
            if success {
                Ok(())
            } else {
                let mut m = what.to_owned();
                m.append(" failed: ");
                m.append(printed_text(&stdout).as_str());
                m.append(printed_text(&stderr).as_str());
                Err(EngineError::Other(m))
            }
        },
    }
}

/// The output of a tool that prepares a drive; a tool that is missing is
/// named.
pub fn run_result(program: &str, what: &str, outcome: ToolOutcome) -> (r: EngineResult<String>)
    ensures
        match outcome {
            ToolOutcome::NotStarted { not_found, message } => r is Err && r->Err_0@
                == ErrorView::Other(
                if not_found {
                    what@ + ": required tool "@ + crate::quoted_path(program@)
                        + " isn't installed"@
                } else {
                    what@ + ": "@ + message@
                },
            ),
            ToolOutcome::Exited { success, stdout, stderr } => if success {
                r is Ok && r->Ok_0@ == text::lossy_text(stdout@)
            } else {
                r is Err && r->Err_0@ == ErrorView::Other(
                    what@ + " failed: "@ + printed(stdout@) + " "@ + printed(stderr@),
                )
            },
        },
{
    match outcome {
        ToolOutcome::NotStarted { not_found, message } => {
            let mut m = what.to_owned();
            if not_found {
                m.append(": required tool ");
                m.append(quote_path(program).as_str());
                m.append(" isn't installed");
            } else {
                m.append(": ");
                m.append(message.as_str());
            }
            Err(EngineError::Other(m))
        },
        ToolOutcome::Exited { success, stdout, stderr } => {
            if success {
                Ok(text::lossy(stdout.as_slice()))
            } else {
                let mut m = what.to_owned();
                m.append(" failed: ");
                m.append(printed_text(&stdout).as_str());
                m.append(" ");
                m.append(printed_text(&stderr).as_str());
                Err(EngineError::Other(m))
            }
        },
    }
}

/// A tool that failed, or could not be started, is never taken for one that
/// did its work; one that succeeded gives what it printed.
pub proof fn law_failures_are_errors(
    program: &str,
    what: &str,
    outcome: ToolOutcome,
    captured: EngineResult<String>,
    done: EngineResult<()>,
    ran: EngineResult<String>,
)
    requires
        call_ensures(capture_result, (program, outcome), captured),
        call_ensures(command_result, (what, outcome), done),
        call_ensures(run_result, (program, what, outcome), ran),
    ensures
        ({
            let ok = outcome matches ToolOutcome::Exited { success, .. } && success;
            &&& captured is Ok == ok
            &&& done is Ok == ok
            &&& ran is Ok == ok
        }),
        captured is Ok ==> captured->Ok_0@ == text::lossy_text(outcome->stdout@) && ran->Ok_0@
            == captured->Ok_0@,
{
}

/// A command runs the program with the arguments it was given, in order.
pub proof fn law_arguments_keep_their_order(program: &str, args: &[&str], what: &str, c: ToolCommand)
    requires
        call_ensures(tool, (program, args, what), c),
    ensures
        c.program@ == program@,
        c.what@ == what@,
        c.args@.len() == args@.len(),
        forall|i: int| 0 <= i < args@.len() ==> (#[trigger] c.args@[i])@ == args@[i]@,
{
    let v = text::views(c.args@);
    assert(v == text::literals(args@));
    assert(v.len() == c.args@.len());
    assert forall|i: int| 0 <= i < args@.len() implies (#[trigger] c.args@[i])@ == args@[i]@ by {
        assert(v[i] == c.args@[i]@);
    }
}

} // verus!
