use port_killer::kill::{after_attempt, start_kill, AttemptOutcome, KillResult, KillStep, Strategy};

/// Drives the termination steps against recorded outcomes, counting the
/// attempts made.
fn run(pid: u32, port: u16, name: &str, outcomes: Vec<AttemptOutcome>) -> (KillResult, Vec<Strategy>) {
    let mut attempts = Vec::new();
    let mut outcomes = outcomes.into_iter();
    let mut step = start_kill(pid, port, name);
    loop {
        match step {
            KillStep::Done(r) => return (r, attempts),
            KillStep::Attempt(s) => {
                attempts.push(s);
                let outcome = outcomes.next().unwrap();
                step = after_attempt(port, name, s, &outcome);
            }
        }
    }
}

fn failed(detail: &str) -> AttemptOutcome {
    AttemptOutcome::Failed { detail: detail.to_string() }
}

#[test]
fn protected_process_is_refused_without_attempt() {
    let (r, attempts) = run(4, 53, "System", vec![]);
    assert!(!r.success);
    assert_eq!(r.port, 53);
    assert_eq!(r.message, "Cannot kill protected system process: System");
    assert!(attempts.is_empty());
}

#[test]
fn protected_name_is_refused_whatever_its_pid() {
    let (r, attempts) = run(700, 445, "LSASS.EXE", vec![]);
    assert!(!r.success);
    assert!(attempts.is_empty());
}

#[test]
fn direct_termination_frees_port() {
    let (r, attempts) = run(1234, 8080, "node.exe", vec![AttemptOutcome::Terminated]);
    assert!(r.success);
    assert_eq!(r.port, 8080);
    assert_eq!(r.message, "Port 8080 freed (killed node.exe)");
    assert_eq!(attempts, vec![Strategy::DirectApi]);
}

#[test]
fn forced_command_after_direct_failure() {
    let (r, attempts) = run(1234, 3000, "svc.exe", vec![failed(""), AttemptOutcome::Terminated]);
    assert!(r.success);
    assert_eq!(r.message, "Port 3000 freed (killed svc.exe)");
    assert_eq!(attempts, vec![Strategy::DirectApi, Strategy::ForcedCommand]);
}

#[test]
fn absent_pid_ends_in_access_failure() {
    let (r, attempts) = run(
        99999,
        8080,
        "ghost.exe",
        vec![failed(""), failed("ERROR: The process \"99999\" not found.\r\n")],
    );
    assert!(!r.success);
    assert_eq!(r.message, "Access denied. Restart as Administrator.");
    assert_eq!(attempts.len(), 2);
}

#[test]
fn access_denied_advises_elevation() {
    let (r, _) = run(500, 80, "httpd.exe", vec![failed(""), failed("ERROR: Access is denied.")]);
    assert!(!r.success);
    assert_eq!(r.message, "Access denied. Restart as Administrator.");
}

#[test]
fn other_failure_echoes_trimmed_error() {
    let (r, _) = run(500, 80, "httpd.exe", vec![failed(""), failed("  ERROR: something broke \r\n")]);
    assert!(!r.success);
    assert_eq!(r.message, "Failed to kill process: ERROR: something broke");
}

#[test]
fn command_that_cannot_start_is_reported() {
    let (r, _) = run(
        500,
        80,
        "httpd.exe",
        vec![failed(""), AttemptOutcome::NotStarted { error: "program not found".to_string() }],
    );
    assert!(!r.success);
    assert_eq!(r.message, "Failed to execute taskkill: program not found");
}

#[test]
fn direct_strategy_that_cannot_start_moves_on() {
    let step = after_attempt(1, "a.exe", Strategy::DirectApi, &AttemptOutcome::NotStarted { error: String::new() });
    assert!(matches!(step, KillStep::Attempt(Strategy::ForcedCommand)));
}
