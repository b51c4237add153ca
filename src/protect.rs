use vstd::prelude::*;

verus! {

/// Process identifiers that denote the kernel or the idle process.
pub open spec fn protected_pid_list() -> Seq<u32> {
    seq![0u32, 4u32]
}

/// Lowercase names of core operating-system processes: the kernel, service
/// hosts, the session manager, the login subsystem, the service control
/// manager, the window compositor, the shell and the task manager.
pub open spec fn protected_name_list() -> Seq<Seq<char>> {
    seq![
        "system"@,
        "svchost.exe"@,
        "csrss.exe"@,
        "explorer.exe"@,
        "wininit.exe"@,
        "winlogon.exe"@,
        "services.exe"@,
        "lsass.exe"@,
        "smss.exe"@,
        "dwm.exe"@,
        "taskmgr.exe"@,
    ]
}

/// A process is protected when its pid is a well-known kernel pid or its
/// lowercased name is on the protected list.
pub open spec fn is_protected_spec(pid: u32, lowered: Seq<char>) -> bool {
    protected_pid_list().contains(pid) || protected_name_list().contains(lowered)
}

/// What `str::to_lowercase` returns for a string: it depends on the
/// characters alone.
pub uninterp spec fn lower_of(s: Seq<char>) -> Seq<char>;

/// Relies on `str::to_lowercase`: the lowercase mapping of every character.
#[verifier::external_body]
fn lowercase(s: &str) -> (r: String)
    ensures
        r@ == lower_of(s@),
{
    s.to_lowercase()
}

/// The protected pids, as data.
pub fn protected_pids() -> (r: Vec<u32>)
    ensures
        r@ == protected_pid_list(),
{
    let r: Vec<u32> = vec![0u32, 4u32];
    assert(r@ =~= protected_pid_list());
    r
}

/// The protected process names, lowercase, as data.
pub fn protected_names() -> (r: Vec<String>)
    ensures
        r@.len() == protected_name_list().len(),
        forall|i: int| 0 <= i < r@.len() ==> (#[trigger] r@[i])@ == protected_name_list()[i],
{
    let mut r: Vec<String> = Vec::new();
    r.push(String::from_str("system"));
    r.push(String::from_str("svchost.exe"));
    r.push(String::from_str("csrss.exe"));
    r.push(String::from_str("explorer.exe"));
    r.push(String::from_str("wininit.exe"));
    r.push(String::from_str("winlogon.exe"));
    r.push(String::from_str("services.exe"));
    r.push(String::from_str("lsass.exe"));
    r.push(String::from_str("smss.exe"));
    r.push(String::from_str("dwm.exe"));
    r.push(String::from_str("taskmgr.exe"));
    r
}

/// Classifies an already lowercased name together with its pid.
pub fn is_protected_lowered(pid: u32, lowered: &str) -> (r: bool)
    ensures
        r == is_protected_spec(pid, lowered@),
{
    let pids = protected_pids();
    let mut i: usize = 0;
    while i < pids.len()
        invariant
            pids@ == protected_pid_list(),
            0 <= i <= pids@.len(),
            forall|j: int| 0 <= j < i ==> pids@[j] != pid,
        decreases pids@.len() - i,
    {
        if pids[i] == pid {
            assert(protected_pid_list()[i as int] == pid);
            return true;
        }
        i = i + 1;
    }
    let names = protected_names();
    let target = String::from_str(lowered);
    let mut k: usize = 0;
    while k < names.len()
        invariant
            names@.len() == protected_name_list().len(),
            forall|j: int| 0 <= j < names@.len() ==> (#[trigger] names@[j])@ == protected_name_list()[j],
            target@ == lowered@,
            0 <= k <= names@.len(),
            forall|j: int| 0 <= j < k ==> protected_name_list()[j] != lowered@,
        decreases names@.len() - k,
    {
        if names[k] == target {
            assert(protected_name_list()[k as int] == lowered@);
            return true;
        }
        k = k + 1;
    }
    assert(!protected_pid_list().contains(pid));
    assert(!protected_name_list().contains(lowered@));
    false
}

/// Whether a process must never be terminated: its pid is a kernel pid, or
/// its name, compared without regard to case, is on the protected list.
pub fn is_protected_process(pid: u32, name: &str) -> (r: bool)
    ensures
        r == is_protected_spec(pid, lower_of(name@)),
{
    let lowered = lowercase(name);
    is_protected_lowered(pid, lowered.as_str())
}

} // verus!
