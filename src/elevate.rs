use vstd::prelude::*;
use crate::text::quote_doubled;

verus! {

/// Milliseconds the current instance waits, once an elevated instance was
/// launched, before it exits.
pub const RELAUNCH_GRACE_MS: u64 = 500;

/// The shell command that relaunches an executable with elevated rights.
pub open spec fn elevation_command_of(exe_path: Seq<char>) -> Seq<char> {
    "Start-Process -FilePath '"@ + quote_doubled(exe_path) + "' -Verb RunAs"@
}

/// Builds the elevation command for an executable path, quoting it.
pub fn elevation_command(exe_path: &str) -> (r: String)
    ensures
        r@ == elevation_command_of(exe_path@),
{
    let mut quoted = String::new();
    let n = exe_path.unicode_len();
    let mut i: usize = 0;
    while i < n
        invariant
            n == exe_path@.len(),
            0 <= i <= n,
            quoted@ == quote_doubled(exe_path@.take(i as int)),
        decreases n - i,
    {
        let c = exe_path.get_char(i);
        let ghost t = exe_path@.take(i + 1);
        assert(t.drop_last() =~= exe_path@.take(i as int));
        assert(t.last() == c);
        if c == '\'' {
            let q: &str = "''";
            proof {
                reveal_strlit("''");
            }
            assert(q@ =~= seq!['\'', '\'']);
            quoted.append(q);
            assert(quoted@ =~= quote_doubled(t));
        } else {
            let one = exe_path.substring_char(i, i + 1);
            assert(one@ =~= seq![c]);
            quoted.append(one);
            assert(quoted@ =~= quote_doubled(t));
        }
        i = i + 1;
    }
    assert(exe_path@.take(n as int) =~= exe_path@);
    let mut r = String::from_str("Start-Process -FilePath '");
    r.append(quoted.as_str());
    r.append("' -Verb RunAs");
    r
}

/// What the current instance does once it has asked for an elevated copy
/// of itself.
pub enum RelaunchStep {
    /// The launch was accepted: exit after this many milliseconds.
    RetireAfter { delay_ms: u64 },
    /// The launch could not be started: keep running and report this.
    KeepRunning { error: String },
}

pub open spec fn relaunch_error_message(error: Seq<char>) -> Seq<char> {
    "Failed to restart as admin: "@ + error
}

/// Decides on the launch of the elevated instance: the current instance
/// retires after the grace delay only when the launch started.
pub fn after_relaunch(launch: &Result<(), String>) -> (r: RelaunchStep)
    ensures
        launch is Ok <==> r is RetireAfter,
        r matches RelaunchStep::RetireAfter { delay_ms } ==> delay_ms == RELAUNCH_GRACE_MS,
        launch matches Err(e) ==> (r matches RelaunchStep::KeepRunning { error } && error@ == relaunch_error_message(e@)),
{
    match launch {
        Ok(()) => RelaunchStep::RetireAfter { delay_ms: RELAUNCH_GRACE_MS },
        Err(e) => {
            let mut error = String::from_str("Failed to restart as admin: ");
            error.append(e.as_str());
            RelaunchStep::KeepRunning { error }
        },
    }
}

} // verus!
