//! How a job goes through its steps, and what is said of commands that fail.

use crate::client::{carried, debug_of, releases, response_debug, SessionAction};
use crate::commands::{cmd_with, failure};
use crate::execute::JobModel;
use crate::flash::Step;
use crate::helper::ReplyModel;
use crate::protocol::Request;
use crate::text::law_trim;
use vstd::prelude::*;
use vstd::string::*;

verus! {

/// A job that has done `n` of its steps is at the one behind them, and over when
/// none is left.
pub proof fn law_steps_in_order(steps: Seq<Step>, n: int)
    requires
        0 <= n <= steps.len(),
    ensures
        n < steps.len() ==> (JobModel { steps, at: n, failed: false }).current() == Some(steps[n]),
        n == steps.len() ==> (JobModel { steps, at: n, failed: false }).current() is None,
{
}

/// A job that has failed has no step, wherever it stands.
pub proof fn law_failure_ends_a_job(j: JobModel)
    ensures
        (JobModel { failed: true, ..j }).current() is None,
        j.current() is Some ==> !j.failed,
{
}

/// A step that turns out to be several is replaced by them: the job goes on with
/// the first of them, and behind the last with what followed the step.
pub proof fn law_expansion(steps: Seq<Step>, n: int, more: Seq<Step>, i: int)
    requires
        0 <= n < steps.len(),
        0 <= i,
        i < more.len() + (steps.len() - n - 1),
    ensures
        ({
            let j = JobModel {
                steps: steps.take(n) + more + steps.skip(n + 1),
                at: n + i,
                failed: false,
            };
            &&& i < more.len() ==> j.current() == Some(more[i])
            &&& i >= more.len() ==> j.current() == Some(steps[n + 1 + (i - more.len())])
        }),
{
}

/// What is said of a command that failed: its name, its status and the end of
/// what it wrote, without the white space around it.
pub proof fn law_words_of_a_failure(
    program: Seq<char>,
    status: Seq<char>,
    before: Seq<char>,
    text: Seq<char>,
    behind: Seq<char>,
)
    requires
        forall|i: int| 0 <= i < before.len() ==> crate::text::is_space(#[trigger] before[i]),
        forall|i: int| 0 <= i < behind.len() ==> crate::text::is_space(#[trigger] behind[i]),
        text.len() > 0,
        !crate::text::is_space(text[0]),
        !crate::text::is_space(text.last()),
    ensures
        text.len() <= 400 ==> failure(program, status, before + text + behind) == program
            + " failed ("@ + status + "): "@ + text,
        text.len() > 400 ==> failure(program, status, before + text + behind) == program
            + " failed ("@ + status + "): "@ + text.skip(text.len() - 400),
{
    law_trim(before, text, behind);
}

/// A command with input has its program and arguments, and reads that input.
pub proof fn law_command_with_input(program: Seq<char>, args: Seq<Seq<char>>, input: Seq<char>)
    ensures
        cmd_with(program, args, input).program == program,
        cmd_with(program, args, input).args == args,
        cmd_with(program, args, input).stdin == Some(input),
{
}

/// A response for a developer's eyes quotes the text that it carries.
pub proof fn law_responses_quote_their_text(text: Seq<char>)
    ensures
        response_debug(ReplyModel::Error(text)) == "Error("@ + debug_of(text) + ")"@,
        response_debug(ReplyModel::Done(Some(text))) == "Ok(Some("@ + debug_of(text) + "))"@,
        response_debug(ReplyModel::Done(None)) == "Ok(None)"@,
        response_debug(ReplyModel::Accepted) == "Accepted"@,
        response_debug(ReplyModel::Cancelled) == "Cancelled"@,
        carried(ReplyModel::Error(text)) == text,
        carried(ReplyModel::Done(Some(text))) == text,
{
}

/// A session that ends releases its device and hands the result on: a success as
/// one, a failure as one.
pub proof fn law_session_end(a: SessionAction, device: Seq<char>, ok: bool, text: Seq<char>)
    requires
        releases(a, device, ok, text),
    ensures
        a matches SessionAction::SendAndFinish(req, r) && (req matches Request::ReleaseDevice {
            device: d,
        } && d@ == device) && (r is Ok <==> ok) && (r matches Ok(t) ==> t@ == text) && (
        r matches Err(e) ==> e@ == text),
{
}

} // verus!
