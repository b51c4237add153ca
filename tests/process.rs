use port_killer::process::{child_pids, find_process, process_details, process_info, ProcessEntry};

fn entry(pid: u32, parent: Option<u32>, name: &str, path: &str, memory_bytes: u64) -> ProcessEntry {
    ProcessEntry { pid, parent, name: name.to_string(), path: path.to_string(), memory_bytes }
}

fn table() -> Vec<ProcessEntry> {
    vec![
        entry(4, Some(0), "System", "", 100),
        entry(1234, Some(900), "node.exe", "C:\\nodejs\\node.exe", 52_000_000),
        entry(1300, Some(1234), "cmd.exe", "C:\\Windows\\cmd.exe", 4_000),
        entry(1400, None, "idle.exe", "", 0),
        entry(1500, Some(1234), "conhost.exe", "C:\\Windows\\conhost.exe", 8_000),
    ]
}

#[test]
fn info_of_known_pid() {
    let (name, path) = process_info(&table(), 1234);
    assert_eq!(name, "node.exe");
    assert_eq!(path, "C:\\nodejs\\node.exe");
}

#[test]
fn info_of_absent_pid_is_unknown() {
    let (name, path) = process_info(&table(), 4242);
    assert_eq!(name, "Unknown");
    assert_eq!(path, "");
    assert_eq!(process_info(&Vec::new(), 1), ("Unknown".to_string(), String::new()));
}

#[test]
fn find_takes_first_entry() {
    let mut t = table();
    t.push(entry(1234, None, "other.exe", "", 1));
    assert_eq!(find_process(&t, 1234), Some(1));
    assert_eq!(find_process(&t, 9), None);
}

#[test]
fn children_are_exactly_the_recorded_ones() {
    assert_eq!(child_pids(&table(), 1234), vec![1300, 1500]);
    assert_eq!(child_pids(&table(), 1300), Vec::<u32>::new());
    assert_eq!(child_pids(&table(), 0), vec![4]);
}

#[test]
fn details_of_present_pid() {
    let d = process_details(&table(), 1234).ok().unwrap();
    assert_eq!(d.pid, 1234);
    assert_eq!(d.name, "node.exe");
    assert_eq!(d.path, "C:\\nodejs\\node.exe");
    assert_eq!(d.memory_bytes, 52_000_000);
    assert_eq!(d.children, vec![1300, 1500]);
}

#[test]
fn details_of_absent_pid_is_not_found() {
    match process_details(&table(), 77) {
        Err(m) => assert_eq!(m, "Process 77 not found"),
        Ok(_) => panic!("pid 77 is absent"),
    }
}
