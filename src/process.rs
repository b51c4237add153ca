use vstd::prelude::*;
use crate::text::{decimal, decimal_of};

verus! {

/// One row of a process table read from the operating system.
pub struct ProcessEntry {
    pub pid: u32,
    /// The parent's pid, where the operating system reports one.
    pub parent: Option<u32>,
    pub name: String,
    pub path: String,
    pub memory_bytes: u64,
}

/// The first entry of the table that has the given pid.
pub open spec fn lookup(t: Seq<ProcessEntry>, pid: u32) -> Option<ProcessEntry>
    decreases t.len(),
{
    if t.len() == 0 {
        None
    } else if t[0].pid == pid {
        Some(t[0])
    } else {
        lookup(t.drop_first(), pid)
    }
}

/// The name a pid resolves to: "Unknown" when it is not in the table.
pub open spec fn resolved_name(t: Seq<ProcessEntry>, pid: u32) -> Seq<char> {
    match lookup(t, pid) {
        Some(e) => e.name@,
        None => "Unknown"@,
    }
}

/// The executable path a pid resolves to: empty when it is not in the table.
pub open spec fn resolved_path(t: Seq<ProcessEntry>, pid: u32) -> Seq<char> {
    match lookup(t, pid) {
        Some(e) => e.path@,
        None => Seq::empty(),
    }
}

/// The pids, in table order, of the entries whose parent is `pid`.
pub open spec fn children_of(t: Seq<ProcessEntry>, pid: u32) -> Seq<u32>
    decreases t.len(),
{
    if t.len() == 0 {
        Seq::empty()
    } else {
        let c = children_of(t.drop_last(), pid);
        if t.last().parent == Some(pid) {
            c.push(t.last().pid)
        } else {
            c
        }
    }
}

/// Finds the entry of a pid, scanning the table from the front.
pub fn find_process(table: &Vec<ProcessEntry>, pid: u32) -> (r: Option<usize>)
    ensures
        r matches Some(i) ==> i < table@.len() && lookup(table@, pid) == Some(table@[i as int]),
        r is None ==> lookup(table@, pid) is None,
{
    let mut i: usize = 0;
    assert(table@.skip(0) =~= table@);
    while i < table.len()
        invariant
            0 <= i <= table@.len(),
            lookup(table@, pid) == lookup(table@.skip(i as int), pid),
        decreases table@.len() - i,
    {
        assert(table@.skip(i as int)[0] == table@[i as int]);
        if table[i].pid == pid {
            return Some(i);
        }
        assert(table@.skip(i as int).drop_first() =~= table@.skip(i + 1));
        i = i + 1;
    }
    assert(table@.skip(i as int) =~= Seq::<ProcessEntry>::empty());
    None
}

/// The name and executable path of a pid, or ("Unknown", "") when the pid
/// is not in the table (it exited, or could not be inspected).
pub fn process_info(table: &Vec<ProcessEntry>, pid: u32) -> (r: (String, String))
    ensures
        r.0@ == resolved_name(table@, pid),
        r.1@ == resolved_path(table@, pid),
{
    match find_process(table, pid) {
        Some(i) => (table[i].name.clone(), table[i].path.clone()),
        None => (String::from_str("Unknown"), String::new()),
    }
}

/// A view of one process: its identity, resident memory in bytes, and the
/// pids of its direct children.
pub struct ProcessDetail {
    pub pid: u32,
    pub name: String,
    pub path: String,
    pub memory_bytes: u64,
    pub children: Vec<u32>,
}

/// The pids whose recorded parent is `pid`, found by a scan of the whole
/// table.
pub fn child_pids(table: &Vec<ProcessEntry>, pid: u32) -> (r: Vec<u32>)
    ensures
        r@ == children_of(table@, pid),
{
    let mut r: Vec<u32> = Vec::new();
    let mut i: usize = 0;
    while i < table.len()
        invariant
            0 <= i <= table@.len(),
            r@ == children_of(table@.take(i as int), pid),
        decreases table@.len() - i,
    {
        assert(table@.take(i + 1).drop_last() =~= table@.take(i as int));
        if table[i].parent == Some(pid) {
            r.push(table[i].pid);
        }
        i = i + 1;
    }
    assert(table@.take(i as int) =~= table@);
    r
}

/// The message for a pid that is not in the table.
pub open spec fn not_found_message(pid: u32) -> Seq<char> {
    "Process "@ + decimal_of(pid as nat) + " not found"@
}

/// Details of one process from a table read just before: fails when the pid
/// is not in it.
pub fn process_details(table: &Vec<ProcessEntry>, pid: u32) -> (r: Result<ProcessDetail, String>)
    ensures
        lookup(table@, pid) is None <==> r is Err,
        r matches Err(m) ==> m@ == not_found_message(pid),
        r matches Ok(d) ==> {
            let e = lookup(table@, pid)->Some_0;
            &&& d.pid == pid
            &&& d.name@ == e.name@
            &&& d.path@ == e.path@
            &&& d.memory_bytes == e.memory_bytes
            &&& d.children@ == children_of(table@, pid)
        },
{
    match find_process(table, pid) {
        Some(i) => {
            let e = &table[i];
            Ok(ProcessDetail {
                pid,
                name: e.name.clone(),
                path: e.path.clone(),
                memory_bytes: e.memory_bytes,
                children: child_pids(table, pid),
            })
        },
        None => {
            let mut m = String::from_str("Process ");
            let digits = decimal(pid as u64);
            m.append(digits.as_str());
            m.append(" not found");
            Err(m)
        },
    }
}

/// A pid listed by `process_details` as a child is exactly a pid of the
/// table whose recorded parent is the inspected pid.
pub proof fn lemma_children_exact(t: Seq<ProcessEntry>, pid: u32, c: u32)
    ensures
        children_of(t, pid).contains(c) <==> exists|i: int|
            0 <= i < t.len() && #[trigger] t[i].pid == c && t[i].parent == Some(pid),
    decreases t.len(),
{
    if t.len() > 0 {
        let s = t.drop_last();
        lemma_children_exact(s, pid, c);
        let prev = children_of(s, pid);
        if children_of(t, pid).contains(c) {
            if t.last().parent == Some(pid) && t.last().pid == c {
                assert(t[t.len() - 1].pid == c);
            } else {
                if t.last().parent == Some(pid) {
                    let k = choose|k: int| 0 <= k < prev.push(t.last().pid).len() && prev.push(t.last().pid)[k] == c;
                    assert(prev[k] == c);
                }
                assert(prev.contains(c));
                let i = choose|i: int| 0 <= i < s.len() && #[trigger] s[i].pid == c && s[i].parent == Some(pid);
                assert(t[i] == s[i]);
            }
        }
        if exists|i: int| 0 <= i < t.len() && #[trigger] t[i].pid == c && t[i].parent == Some(pid) {
            let i = choose|i: int| 0 <= i < t.len() && #[trigger] t[i].pid == c && t[i].parent == Some(pid);
            if i == t.len() - 1 {
                assert(children_of(t, pid) == prev.push(c));
                assert(prev.push(c)[prev.len() as int] == c);
            } else {
                assert(s[i] == t[i]);
                assert(prev.contains(c));
                let k = choose|k: int| 0 <= k < prev.len() && prev[k] == c;
                if t.last().parent == Some(pid) {
                    assert(prev.push(t.last().pid)[k] == c);
                }
            }
        }
    }
}

} // verus!
