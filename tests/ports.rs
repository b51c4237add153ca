use port_killer::ports::{resolve_ports, PortInfo, Protocol, SocketEntry};
use port_killer::process::ProcessEntry;

fn socket(protocol: Protocol, listening: bool, port: u16, address: &str, pids: Vec<u32>) -> SocketEntry {
    SocketEntry { protocol, listening, local_port: port, local_address: address.to_string(), pids }
}

fn entry(pid: u32, name: &str, path: &str) -> ProcessEntry {
    ProcessEntry { pid, parent: None, name: name.to_string(), path: path.to_string(), memory_bytes: 0 }
}

fn keys(ports: &[PortInfo]) -> Vec<(u16, u32)> {
    ports.iter().map(|p| (p.port, p.pid)).collect()
}

#[test]
fn listening_tcp_socket_resolves_to_its_process() {
    let sockets = vec![socket(Protocol::Tcp, true, 8080, "0.0.0.0", vec![1234])];
    let table = vec![entry(1234, "node.exe", "C:\\nodejs\\node.exe")];
    let state = resolve_ports(&sockets, &table, 1_700_000_000, false);
    assert_eq!(state.ports.len(), 1);
    let p = &state.ports[0];
    assert_eq!(p.pid, 1234);
    assert_eq!(p.port, 8080);
    assert_eq!(p.protocol, "TCP");
    assert_eq!(p.process_name, "node.exe");
    assert_eq!(p.process_path, "C:\\nodejs\\node.exe");
    assert!(!p.is_protected);
    assert_eq!(p.local_address, "0.0.0.0");
    assert_eq!(state.last_updated, 1_700_000_000);
    assert!(!state.is_admin);
}

#[test]
fn udp_socket_of_kernel_pid_is_protected() {
    let sockets = vec![socket(Protocol::Udp, false, 53, "0.0.0.0", vec![4])];
    let table = vec![entry(4, "System", "")];
    let state = resolve_ports(&sockets, &table, 5, true);
    assert_eq!(state.ports.len(), 1);
    assert_eq!(state.ports[0].protocol, "UDP");
    assert_eq!(state.ports[0].process_name, "System");
    assert!(state.ports[0].is_protected);
    assert!(state.is_admin);
}

#[test]
fn tcp_socket_not_listening_is_left_out() {
    let sockets = vec![
        socket(Protocol::Tcp, false, 50000, "10.0.0.2", vec![1234]),
        socket(Protocol::Tcp, true, 3000, "127.0.0.1", vec![1234]),
    ];
    let state = resolve_ports(&sockets, &vec![entry(1234, "node.exe", "")], 0, false);
    assert_eq!(keys(&state.ports), vec![(3000, 1234)]);
}

#[test]
fn repeated_port_and_pid_keeps_first_record() {
    let sockets = vec![
        socket(Protocol::Tcp, true, 8080, "0.0.0.0", vec![1234]),
        socket(Protocol::Tcp, true, 8080, "::", vec![1234]),
        socket(Protocol::Udp, false, 8080, "0.0.0.0", vec![1234, 1234]),
    ];
    let state = resolve_ports(&sockets, &vec![entry(1234, "node.exe", "")], 0, false);
    assert_eq!(state.ports.len(), 1);
    assert_eq!(state.ports[0].local_address, "0.0.0.0");
    assert_eq!(state.ports[0].protocol, "TCP");
}

#[test]
fn shared_socket_yields_one_record_per_pid() {
    let sockets = vec![socket(Protocol::Tcp, true, 443, "0.0.0.0", vec![10, 11])];
    let state = resolve_ports(&sockets, &Vec::new(), 0, false);
    assert_eq!(keys(&state.ports), vec![(443, 10), (443, 11)]);
}

#[test]
fn absent_process_resolves_to_unknown() {
    let sockets = vec![socket(Protocol::Udp, false, 5353, "0.0.0.0", vec![777])];
    let state = resolve_ports(&sockets, &vec![entry(1, "init", "/sbin/init")], 0, false);
    assert_eq!(state.ports[0].process_name, "Unknown");
    assert_eq!(state.ports[0].process_path, "");
    assert!(!state.ports[0].is_protected);
}

#[test]
fn records_come_sorted_by_port_and_stable() {
    let sockets = vec![
        socket(Protocol::Tcp, true, 9000, "0.0.0.0", vec![3]),
        socket(Protocol::Udp, false, 53, "0.0.0.0", vec![4]),
        socket(Protocol::Tcp, true, 9000, "::", vec![1]),
        socket(Protocol::Tcp, true, 80, "0.0.0.0", vec![2]),
        socket(Protocol::Udp, false, 9000, "0.0.0.0", vec![2]),
    ];
    let state = resolve_ports(&sockets, &Vec::new(), 0, false);
    assert_eq!(keys(&state.ports), vec![(53, 4), (80, 2), (9000, 3), (9000, 1), (9000, 2)]);
    let ks = keys(&state.ports);
    for i in 0..ks.len() {
        for j in (i + 1)..ks.len() {
            assert!(ks[i].0 <= ks[j].0);
            assert_ne!(ks[i], ks[j]);
        }
    }
}

#[test]
fn empty_socket_table_gives_no_records() {
    let state = resolve_ports(&Vec::new(), &Vec::new(), 42, false);
    assert!(state.ports.is_empty());
    assert_eq!(state.last_updated, 42);
}

#[test]
fn protected_name_is_classified_in_records() {
    let sockets = vec![socket(Protocol::Tcp, true, 135, "0.0.0.0", vec![900])];
    let state = resolve_ports(&sockets, &vec![entry(900, "svchost.exe", "C:\\Windows\\System32\\svchost.exe")], 0, false);
    assert!(state.ports[0].is_protected);
}
