use port_killer::elevate::{after_relaunch, elevation_command, RelaunchStep, RELAUNCH_GRACE_MS};
use port_killer::text::decimal;

#[test]
fn decimal_forms() {
    assert_eq!(decimal(0), "0");
    assert_eq!(decimal(7), "7");
    assert_eq!(decimal(8080), "8080");
    assert_eq!(decimal(65535), "65535");
    assert_eq!(decimal(u64::MAX), "18446744073709551615");
}

#[test]
fn elevation_command_quotes_path() {
    assert_eq!(
        elevation_command("C:\\Program Files\\app.exe"),
        "Start-Process -FilePath 'C:\\Program Files\\app.exe' -Verb RunAs"
    );
    assert_eq!(
        elevation_command("C:\\O'Brien\\a.exe"),
        "Start-Process -FilePath 'C:\\O''Brien\\a.exe' -Verb RunAs"
    );
    assert_eq!(elevation_command(""), "Start-Process -FilePath '' -Verb RunAs");
}

#[test]
fn relaunch_retires_only_after_grace_delay() {
    match after_relaunch(&Ok(())) {
        RelaunchStep::RetireAfter { delay_ms } => {
            assert_eq!(delay_ms, 500);
            assert_eq!(delay_ms, RELAUNCH_GRACE_MS);
        }
        RelaunchStep::KeepRunning { .. } => panic!("launch succeeded"),
    }
}

#[test]
fn failed_relaunch_keeps_instance_running() {
    match after_relaunch(&Err("The operation was canceled by the user.".to_string())) {
        RelaunchStep::KeepRunning { error } => {
            assert_eq!(error, "Failed to restart as admin: The operation was canceled by the user.");
        }
        RelaunchStep::RetireAfter { .. } => panic!("launch failed"),
    }
}
