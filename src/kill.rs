use vstd::prelude::*;
use crate::protect::{is_protected_process, is_protected_spec, lower_of};
use crate::text::{contains_str, decimal, decimal_of, has_infix, trim_str, trimmed_of};

verus! {

/// The outcome of one termination request.
pub struct KillResult {
    pub success: bool,
    pub message: String,
    /// The port of the request, echoed for correlation.
    pub port: u16,
}

/// The ways of terminating a process, in the order they are tried: a direct
/// request to the operating system, then a forced-kill command.
#[derive(Clone, Copy, Debug, PartialEq, Eq, Structural)]
pub enum Strategy {
    DirectApi,
    ForcedCommand,
}

/// What the caller of the termination engine does next.
pub enum KillStep {
    /// Run this strategy against the pid and report what came of it.
    Attempt(Strategy),
    /// The request is settled.
    Done(KillResult),
}

/// What came of one attempt.
pub enum AttemptOutcome {
    /// The strategy reports the process terminated.
    Terminated,
    /// The strategy ran and failed; for the command, with its error output.
    Failed { detail: String },
    /// The command could not be started.
    NotStarted { error: String },
}

pub open spec fn protected_message(name: Seq<char>) -> Seq<char> {
    "Cannot kill protected system process: "@ + name
}

pub open spec fn freed_message(port: u16, name: Seq<char>) -> Seq<char> {
    "Port "@ + decimal_of(port as nat) + " freed (killed "@ + name + ")"@
}

pub open spec fn access_message() -> Seq<char> {
    "Access denied. Restart as Administrator."@
}

pub open spec fn failure_message(detail: Seq<char>) -> Seq<char> {
    "Failed to kill process: "@ + trimmed_of(detail)
}

pub open spec fn launch_message(error: Seq<char>) -> Seq<char> {
    "Failed to execute taskkill: "@ + error
}

/// Whether a forced-kill error output tells of missing rights or of a
/// process that is gone.
pub open spec fn access_or_lookup_failure(detail: Seq<char>) -> bool {
    has_infix(detail, "Access is denied"@) || has_infix(detail, "not found"@)
}

/// The strategy tried after `s` fails, if any.
pub open spec fn next_strategy(s: Strategy) -> Option<Strategy> {
    match s {
        Strategy::DirectApi => Some(Strategy::ForcedCommand),
        Strategy::ForcedCommand => None,
    }
}

/// The first step of a termination request. A protected process is refused
/// before anything is attempted; otherwise the direct request comes first.
pub fn start_kill(pid: u32, port: u16, process_name: &str) -> (r: KillStep)
    ensures
        r is Done <==> is_protected_spec(pid, lower_of(process_name@)),
        r matches KillStep::Done(k) ==> !k.success && k.port == port
            && k.message@ == protected_message(process_name@),
        r matches KillStep::Attempt(s) ==> s == Strategy::DirectApi,
{
    if is_protected_process(pid, process_name) {
        let mut message = String::from_str("Cannot kill protected system process: ");
        message.append(process_name);
        KillStep::Done(KillResult { success: false, message, port })
    } else {
        KillStep::Attempt(Strategy::DirectApi)
    }
}

fn freed(port: u16, process_name: &str) -> (r: KillResult)
    ensures
        r.success && r.port == port && r.message@ == freed_message(port, process_name@),
{
    let mut message = String::from_str("Port ");
    let digits = decimal(port as u64);
    message.append(digits.as_str());
    message.append(" freed (killed ");
    message.append(process_name);
    message.append(")");
    KillResult { success: true, message, port }
}

/// The step after an attempt: success as soon as a strategy terminates the
/// process, the next strategy after a failure, and after the last one a
/// failure whose message tells why.
pub fn after_attempt(port: u16, process_name: &str, strategy: Strategy, outcome: &AttemptOutcome) -> (r: KillStep)
    ensures
        outcome is Terminated ==> (r matches KillStep::Done(k) && k.success && k.port == port
            && k.message@ == freed_message(port, process_name@)),
        !(outcome is Terminated) && next_strategy(strategy) is Some ==> (r matches KillStep::Attempt(s)
            && next_strategy(strategy) == Some(s)),
        !(outcome is Terminated) && next_strategy(strategy) is None ==> (r matches KillStep::Done(k) && !k.success
            && k.port == port && match outcome {
                AttemptOutcome::Failed { detail } => if access_or_lookup_failure(detail@) {
                    k.message@ == access_message()
                } else {
                    k.message@ == failure_message(detail@)
                },
                AttemptOutcome::NotStarted { error } => k.message@ == launch_message(error@),
                AttemptOutcome::Terminated => true,
            }),
{
    match outcome {
        AttemptOutcome::Terminated => KillStep::Done(freed(port, process_name)),
        AttemptOutcome::Failed { detail } => {
            if strategy == Strategy::DirectApi {
                return KillStep::Attempt(Strategy::ForcedCommand);
            }
            if contains_str(detail.as_str(), "Access is denied") || contains_str(detail.as_str(), "not found") {
                KillStep::Done(KillResult {
                    success: false,
                    message: String::from_str("Access denied. Restart as Administrator."),
                    port,
                })
            } else {
                let mut message = String::from_str("Failed to kill process: ");
                let trimmed = trim_str(detail.as_str());
                message.append(trimmed.as_str());
                KillStep::Done(KillResult { success: false, message, port })
            }
        },
        AttemptOutcome::NotStarted { error } => {
            if strategy == Strategy::DirectApi {
                return KillStep::Attempt(Strategy::ForcedCommand);
            }
            let mut message = String::from_str("Failed to execute taskkill: ");
            message.append(error.as_str());
            KillStep::Done(KillResult { success: false, message, port })
        },
    }
}

} // verus!
