use vstd::prelude::*;
use crate::process::{ProcessEntry, process_info, resolved_name, resolved_path};
use crate::protect::{is_protected_process, is_protected_spec, lower_of};

verus! {

/// The transport protocol of a socket.
#[derive(Clone, Copy, Debug, PartialEq, Eq, Structural)]
pub enum Protocol {
    Tcp,
    Udp,
}

/// One socket of the operating system's connection table.
pub struct SocketEntry {
    pub protocol: Protocol,
    /// Whether a TCP socket is in the LISTEN state (unused for UDP).
    pub listening: bool,
    pub local_port: u16,
    pub local_address: String,
    /// The processes that own the socket; more than one where it is shared.
    pub pids: Vec<u32>,
}

/// One observed binding of a port to an owning process.
pub struct PortInfo {
    pub pid: u32,
    pub port: u16,
    pub protocol: String,
    pub process_name: String,
    pub process_path: String,
    pub is_protected: bool,
    pub local_address: String,
}

/// The mathematical value of a `PortInfo`.
pub struct PortView {
    pub pid: u32,
    pub port: u16,
    pub protocol: Seq<char>,
    pub process_name: Seq<char>,
    pub process_path: Seq<char>,
    pub is_protected: bool,
    pub local_address: Seq<char>,
}

impl View for PortInfo {
    type V = PortView;

    open spec fn view(&self) -> PortView {
        PortView {
            pid: self.pid,
            port: self.port,
            protocol: self.protocol@,
            process_name: self.process_name@,
            process_path: self.process_path@,
            is_protected: self.is_protected,
            local_address: self.local_address@,
        }
    }
}

/// The result of one resolution pass.
pub struct AppState {
    /// Ascending by port; equal ports keep the order of enumeration.
    pub ports: Vec<PortInfo>,
    /// Seconds since the epoch at capture.
    pub last_updated: u64,
    /// Whether the caller ran elevated at capture.
    pub is_admin: bool,
}

pub open spec fn views(s: Seq<PortInfo>) -> Seq<PortView> {
    s.map_values(|r: PortInfo| r@)
}

pub open spec fn protocol_text(p: Protocol) -> Seq<char> {
    match p {
        Protocol::Tcp => "TCP"@,
        Protocol::Udp => "UDP"@,
    }
}

/// TCP sockets count only while listening; every bound UDP socket counts.
pub open spec fn admitted(s: SocketEntry) -> bool {
    s.protocol == Protocol::Udp || s.listening
}

/// The record of one (socket, pid) candidate, resolved against a table.
pub open spec fn record_of(s: SocketEntry, pid: u32, t: Seq<ProcessEntry>) -> PortView {
    PortView {
        pid,
        port: s.local_port,
        protocol: protocol_text(s.protocol),
        process_name: resolved_name(t, pid),
        process_path: resolved_path(t, pid),
        is_protected: is_protected_spec(pid, lower_of(resolved_name(t, pid))),
        local_address: s.local_address@,
    }
}

/// The candidate records of one socket, one per owning pid.
pub open spec fn socket_records(s: SocketEntry, t: Seq<ProcessEntry>) -> Seq<PortView> {
    if admitted(s) {
        s.pids@.map_values(|pid: u32| record_of(s, pid, t))
    } else {
        Seq::empty()
    }
}

/// The candidate records of all sockets, in enumeration order.
pub open spec fn candidate_records(sockets: Seq<SocketEntry>, t: Seq<ProcessEntry>) -> Seq<PortView>
    decreases sockets.len(),
{
    if sockets.len() == 0 {
        Seq::empty()
    } else {
        candidate_records(sockets.drop_last(), t) + socket_records(sockets.last(), t)
    }
}

/// Whether some record binds `port` to `pid`.
pub open spec fn has_key(s: Seq<PortView>, port: u16, pid: u32) -> bool {
    exists|i: int| 0 <= i < s.len() && #[trigger] s[i].port == port && s[i].pid == pid
}

/// No two records bind the same port to the same pid.
pub open spec fn keys_distinct(s: Seq<PortView>) -> bool {
    forall|i: int, j: int|
        0 <= i < j < s.len() ==> !(#[trigger] s[i].port == #[trigger] s[j].port && s[i].pid == s[j].pid)
}

/// Ports never decrease along the sequence.
pub open spec fn sorted_by_port(s: Seq<PortView>) -> bool {
    forall|i: int, j: int| 0 <= i < j < s.len() ==> #[trigger] s[i].port <= #[trigger] s[j].port
}

/// Keeps the first record of each (port, pid) pair.
pub open spec fn dedup_by_key(s: Seq<PortView>) -> Seq<PortView>
    decreases s.len(),
{
    if s.len() == 0 {
        Seq::empty()
    } else {
        let prev = dedup_by_key(s.drop_last());
        if has_key(prev, s.last().port, s.last().pid) {
            prev
        } else {
            prev.push(s.last())
        }
    }
}

/// Inserts a record after every record whose port is not greater.
pub open spec fn insert_by_port(s: Seq<PortView>, x: PortView) -> Seq<PortView>
    decreases s.len(),
{
    if s.len() == 0 {
        seq![x]
    } else if x.port < s.last().port {
        insert_by_port(s.drop_last(), x).push(s.last())
    } else {
        s.push(x)
    }
}

/// The stable sort by port.
pub open spec fn sort_by_port(s: Seq<PortView>) -> Seq<PortView>
    decreases s.len(),
{
    if s.len() == 0 {
        s
    } else {
        insert_by_port(sort_by_port(s.drop_last()), s.last())
    }
}

/// The records of a resolution pass over a socket table and a process table.
pub open spec fn resolution(sockets: Seq<SocketEntry>, t: Seq<ProcessEntry>) -> Seq<PortView> {
    sort_by_port(dedup_by_key(candidate_records(sockets, t)))
}

proof fn lemma_insert_bound(s: Seq<PortView>, x: PortView, b: u16)
    requires
        forall|i: int| 0 <= i < s.len() ==> #[trigger] s[i].port <= b,
        x.port <= b,
    ensures
        forall|i: int| 0 <= i < insert_by_port(s, x).len() ==> #[trigger] insert_by_port(s, x)[i].port <= b,
    decreases s.len(),
{
    let r = insert_by_port(s, x);
    if s.len() == 0 {
        assert(r[0] == x);
    } else if x.port < s.last().port {
        let s1 = s.drop_last();
        assert forall|i: int| 0 <= i < s1.len() implies #[trigger] s1[i].port <= b by {
            assert(s1[i] == s[i]);
        }
        lemma_insert_bound(s1, x, b);
        let r1 = insert_by_port(s1, x);
        assert forall|i: int| 0 <= i < r.len() implies #[trigger] r[i].port <= b by {
            if i < r1.len() {
                assert(r[i] == r1[i]);
            } else {
                assert(r[i] == s[s.len() - 1]);
            }
        }
    } else {
        assert forall|i: int| 0 <= i < r.len() implies #[trigger] r[i].port <= b by {
            if i < s.len() {
                assert(r[i] == s[i]);
            }
        }
    }
}

proof fn lemma_insert(s: Seq<PortView>, x: PortView)
    ensures
        insert_by_port(s, x).len() == s.len() + 1,
        forall|port: u16, pid: u32| #[trigger] has_key(insert_by_port(s, x), port, pid)
            <==> has_key(s, port, pid) || (x.port == port && x.pid == pid),
        keys_distinct(s) && !has_key(s, x.port, x.pid) ==> keys_distinct(insert_by_port(s, x)),
        sorted_by_port(s) ==> sorted_by_port(insert_by_port(s, x)),
    decreases s.len(),
{
    let r = insert_by_port(s, x);
    if s.len() == 0 {
        assert forall|port: u16, pid: u32| #[trigger] has_key(r, port, pid)
            <==> has_key(s, port, pid) || (x.port == port && x.pid == pid) by {
            if x.port == port && x.pid == pid {
                assert(r[0].port == port);
            }
        }
    } else if x.port < s.last().port {
        let s1 = s.drop_last();
        let l = s.last();
        let r1 = insert_by_port(s1, x);
        lemma_insert(s1, x);
        assert(r == r1.push(l));
        assert forall|port: u16, pid: u32| #[trigger] has_key(r, port, pid)
            <==> has_key(s, port, pid) || (x.port == port && x.pid == pid) by {
            if has_key(r, port, pid) {
                let i = choose|i: int| 0 <= i < r.len() && #[trigger] r[i].port == port && r[i].pid == pid;
                if i == r.len() - 1 {
                    assert(s[s.len() - 1].port == port);
                } else {
                    assert(r1[i].port == port);
                    assert(has_key(r1, port, pid));
                    if has_key(s1, port, pid) {
                        let k = choose|k: int| 0 <= k < s1.len() && #[trigger] s1[k].port == port && s1[k].pid == pid;
                        assert(s[k].port == port);
                    }
                }
            }
            if has_key(s, port, pid) {
                let k = choose|k: int| 0 <= k < s.len() && #[trigger] s[k].port == port && s[k].pid == pid;
                if k == s.len() - 1 {
                    assert(r[r.len() - 1].port == port);
                } else {
                    assert(s1[k].port == port);
                    assert(has_key(s1, port, pid));
                    assert(has_key(r1, port, pid));
                    let i = choose|i: int| 0 <= i < r1.len() && #[trigger] r1[i].port == port && r1[i].pid == pid;
                    assert(r[i].port == port);
                }
            }
            if x.port == port && x.pid == pid {
                assert(has_key(r1, port, pid));
                let i = choose|i: int| 0 <= i < r1.len() && #[trigger] r1[i].port == port && r1[i].pid == pid;
                assert(r[i].port == port);
            }
        }
        if keys_distinct(s) && !has_key(s, x.port, x.pid) {
            assert(keys_distinct(s1)) by {
                assert forall|i: int, j: int| 0 <= i < j < s1.len() implies
                    !(#[trigger] s1[i].port == #[trigger] s1[j].port && s1[i].pid == s1[j].pid) by {
                    assert(s1[i] == s[i] && s1[j] == s[j]);
                }
            }
            assert(!has_key(s1, x.port, x.pid)) by {
                if has_key(s1, x.port, x.pid) {
                    let k = choose|k: int| 0 <= k < s1.len() && #[trigger] s1[k].port == x.port && s1[k].pid == x.pid;
                    assert(s[k].port == x.port);
                }
            }
            assert(!has_key(r1, l.port, l.pid)) by {
                if has_key(r1, l.port, l.pid) {
                    if has_key(s1, l.port, l.pid) {
                        let k = choose|k: int| 0 <= k < s1.len() && #[trigger] s1[k].port == l.port && s1[k].pid == l.pid;
                        assert(s[k].port == s[s.len() - 1].port);
                    }
                }
            }
            assert forall|i: int, j: int| 0 <= i < j < r.len() implies
                !(#[trigger] r[i].port == #[trigger] r[j].port && r[i].pid == r[j].pid) by {
                if j == r.len() - 1 {
                    assert(r[i] == r1[i]);
                    if r[i].port == r[j].port && r[i].pid == r[j].pid {
                        assert(has_key(r1, l.port, l.pid));
                    }
                } else {
                    assert(r[i] == r1[i] && r[j] == r1[j]);
                }
            }
        }
        if sorted_by_port(s) {
            assert(sorted_by_port(s1)) by {
                assert forall|i: int, j: int| 0 <= i < j < s1.len() implies
                    #[trigger] s1[i].port <= #[trigger] s1[j].port by {
                    assert(s1[i] == s[i] && s1[j] == s[j]);
                }
            }
            assert forall|i: int| 0 <= i < s1.len() implies #[trigger] s1[i].port <= l.port by {
                assert(s1[i] == s[i]);
                assert(s[i].port <= s[s.len() - 1].port);
            }
            lemma_insert_bound(s1, x, l.port);
            assert forall|i: int, j: int| 0 <= i < j < r.len() implies
                #[trigger] r[i].port <= #[trigger] r[j].port by {
                if j == r.len() - 1 {
                    assert(r[i] == r1[i]);
                } else {
                    assert(r[i] == r1[i] && r[j] == r1[j]);
                }
            }
        }
    } else {
        assert(r == s.push(x));
        assert forall|port: u16, pid: u32| #[trigger] has_key(r, port, pid)
            <==> has_key(s, port, pid) || (x.port == port && x.pid == pid) by {
            if has_key(r, port, pid) {
                let i = choose|i: int| 0 <= i < r.len() && #[trigger] r[i].port == port && r[i].pid == pid;
                if i < s.len() {
                    assert(s[i].port == port);
                }
            }
            if has_key(s, port, pid) {
                let k = choose|k: int| 0 <= k < s.len() && #[trigger] s[k].port == port && s[k].pid == pid;
                assert(r[k].port == port);
            }
            if x.port == port && x.pid == pid {
                assert(r[s.len() as int].port == port);
            }
        }
        if keys_distinct(s) && !has_key(s, x.port, x.pid) {
            assert forall|i: int, j: int| 0 <= i < j < r.len() implies
                !(#[trigger] r[i].port == #[trigger] r[j].port && r[i].pid == r[j].pid) by {
                if j == s.len() {
                    assert(r[i] == s[i]);
                    if r[i].port == r[j].port && r[i].pid == r[j].pid {
                        assert(has_key(s, x.port, x.pid));
                    }
                } else {
                    assert(r[i] == s[i] && r[j] == s[j]);
                }
            }
        }
        if sorted_by_port(s) {
            assert forall|i: int, j: int| 0 <= i < j < r.len() implies
                #[trigger] r[i].port <= #[trigger] r[j].port by {
                if j == s.len() {
                    assert(r[i] == s[i]);
                    assert(s[i].port <= s[s.len() - 1].port);
                } else {
                    assert(r[i] == s[i] && r[j] == s[j]);
                }
            }
        }
    }
}

proof fn lemma_push_keys(s: Seq<PortView>, x: PortView)
    ensures
        forall|port: u16, pid: u32| #[trigger] has_key(s.push(x), port, pid)
            <==> has_key(s, port, pid) || (x.port == port && x.pid == pid),
        keys_distinct(s) && !has_key(s, x.port, x.pid) ==> keys_distinct(s.push(x)),
        keys_distinct(s.push(x)) ==> keys_distinct(s) && !has_key(s, x.port, x.pid),
{
    let r = s.push(x);
    assert forall|port: u16, pid: u32| #[trigger] has_key(r, port, pid)
        <==> has_key(s, port, pid) || (x.port == port && x.pid == pid) by {
        if has_key(r, port, pid) {
            let i = choose|i: int| 0 <= i < r.len() && #[trigger] r[i].port == port && r[i].pid == pid;
            if i < s.len() {
                assert(s[i].port == port);
            }
        }
        if has_key(s, port, pid) {
            let k = choose|k: int| 0 <= k < s.len() && #[trigger] s[k].port == port && s[k].pid == pid;
            assert(r[k].port == port);
        }
        if x.port == port && x.pid == pid {
            assert(r[s.len() as int].port == port);
        }
    }
    if keys_distinct(s) && !has_key(s, x.port, x.pid) {
        assert forall|i: int, j: int| 0 <= i < j < r.len() implies
            !(#[trigger] r[i].port == #[trigger] r[j].port && r[i].pid == r[j].pid) by {
            if j == s.len() {
                assert(r[i] == s[i]);
                if r[i].port == r[j].port && r[i].pid == r[j].pid {
                    assert(has_key(s, x.port, x.pid));
                }
            } else {
                assert(r[i] == s[i] && r[j] == s[j]);
            }
        }
    }
    if keys_distinct(r) {
        assert forall|i: int, j: int| 0 <= i < j < s.len() implies
            !(#[trigger] s[i].port == #[trigger] s[j].port && s[i].pid == s[j].pid) by {
            assert(r[i] == s[i] && r[j] == s[j]);
        }
        if has_key(s, x.port, x.pid) {
            let k = choose|k: int| 0 <= k < s.len() && #[trigger] s[k].port == x.port && s[k].pid == x.pid;
            assert(r[k].port == r[s.len() as int].port);
        }
    }
}

proof fn lemma_sort(s: Seq<PortView>)
    ensures
        sort_by_port(s).len() == s.len(),
        forall|port: u16, pid: u32| #[trigger] has_key(sort_by_port(s), port, pid) <==> has_key(s, port, pid),
        keys_distinct(s) ==> keys_distinct(sort_by_port(s)),
        sorted_by_port(sort_by_port(s)),
    decreases s.len(),
{
    if s.len() > 0 {
        let s1 = s.drop_last();
        let l = s.last();
        assert(s == s1.push(l));
        lemma_sort(s1);
        lemma_insert(sort_by_port(s1), l);
        lemma_push_keys(s1, l);
    }
}

proof fn lemma_dedup(s: Seq<PortView>)
    ensures
        keys_distinct(dedup_by_key(s)),
        forall|port: u16, pid: u32| #[trigger] has_key(dedup_by_key(s), port, pid) <==> has_key(s, port, pid),
    decreases s.len(),
{
    if s.len() > 0 {
        let s1 = s.drop_last();
        let l = s.last();
        assert(s == s1.push(l));
        lemma_dedup(s1);
        lemma_push_keys(s1, l);
        lemma_push_keys(dedup_by_key(s1), l);
    }
}

/// Pairs of port and pid are pairwise distinct in a resolution pass.
pub proof fn lemma_resolution_keys_distinct(sockets: Seq<SocketEntry>, t: Seq<ProcessEntry>)
    ensures
        keys_distinct(resolution(sockets, t)),
{
    lemma_dedup(candidate_records(sockets, t));
    lemma_sort(dedup_by_key(candidate_records(sockets, t)));
}

/// A resolution pass lists its records by ascending port.
pub proof fn lemma_resolution_sorted(sockets: Seq<SocketEntry>, t: Seq<ProcessEntry>)
    ensures
        sorted_by_port(resolution(sockets, t)),
{
    lemma_sort(dedup_by_key(candidate_records(sockets, t)));
}

/// Whether some admitted socket binds `port` and lists `pid` among its
/// owners.
pub open spec fn bound_by(sockets: Seq<SocketEntry>, port: u16, pid: u32) -> bool {
    exists|i: int, j: int|
        0 <= i < sockets.len() && admitted(sockets[i]) && sockets[i].local_port == port
            && 0 <= j < sockets[i].pids@.len() && #[trigger] sockets[i].pids@[j] == pid
}

proof fn lemma_concat_keys(a: Seq<PortView>, b: Seq<PortView>, port: u16, pid: u32)
    ensures
        has_key(a + b, port, pid) <==> has_key(a, port, pid) || has_key(b, port, pid),
{
    let c = a + b;
    if has_key(c, port, pid) {
        let i = choose|i: int| 0 <= i < c.len() && #[trigger] c[i].port == port && c[i].pid == pid;
        if i < a.len() {
            assert(a[i].port == port);
        } else {
            assert(b[i - a.len()].port == port);
        }
    }
    if has_key(a, port, pid) {
        let i = choose|i: int| 0 <= i < a.len() && #[trigger] a[i].port == port && a[i].pid == pid;
        assert(c[i].port == port);
    }
    if has_key(b, port, pid) {
        let i = choose|i: int| 0 <= i < b.len() && #[trigger] b[i].port == port && b[i].pid == pid;
        assert(c[i + a.len()].port == port);
    }
}

proof fn lemma_candidate_keys(sockets: Seq<SocketEntry>, t: Seq<ProcessEntry>, port: u16, pid: u32)
    ensures
        has_key(candidate_records(sockets, t), port, pid) <==> bound_by(sockets, port, pid),
    decreases sockets.len(),
{
    if sockets.len() > 0 {
        let s1 = sockets.drop_last();
        let l = sockets.last();
        let n = sockets.len() - 1;
        let sr = socket_records(l, t);
        lemma_candidate_keys(s1, t, port, pid);
        lemma_concat_keys(candidate_records(s1, t), sr, port, pid);
        if has_key(sr, port, pid) {
            let j = choose|j: int| 0 <= j < sr.len() && #[trigger] sr[j].port == port && sr[j].pid == pid;
            assert(sockets[n].pids@[j] == pid);
        }
        if bound_by(s1, port, pid) {
            let (i, j) = choose|i: int, j: int|
                0 <= i < s1.len() && admitted(s1[i]) && s1[i].local_port == port
                    && 0 <= j < s1[i].pids@.len() && #[trigger] s1[i].pids@[j] == pid;
            assert(sockets[i] == s1[i]);
            assert(sockets[i].pids@[j] == pid);
        }
        if bound_by(sockets, port, pid) {
            let (i, j) = choose|i: int, j: int|
                0 <= i < sockets.len() && admitted(sockets[i]) && sockets[i].local_port == port
                    && 0 <= j < sockets[i].pids@.len() && #[trigger] sockets[i].pids@[j] == pid;
            if i == n {
                assert(sr[j].port == port && sr[j].pid == pid);
            } else {
                assert(sockets[i] == s1[i]);
                assert(s1[i].pids@[j] == pid);
            }
        }
    }
}

/// A resolution pass keeps a (port, pid) pair exactly when some admitted
/// socket binds that port and lists that pid among its owners.
pub proof fn lemma_resolution_covers(sockets: Seq<SocketEntry>, t: Seq<ProcessEntry>, port: u16, pid: u32)
    ensures
        has_key(resolution(sockets, t), port, pid) <==> bound_by(sockets, port, pid),
{
    lemma_dedup(candidate_records(sockets, t));
    lemma_sort(dedup_by_key(candidate_records(sockets, t)));
    lemma_candidate_keys(sockets, t, port, pid);
}

/// Inserts a record after every record whose port is not greater.
fn insert_sorted(v: &mut Vec<PortInfo>, x: PortInfo)
    ensures
        views(final(v)@) == insert_by_port(views(old(v)@), x@),
{
    let ghost vs = views(v@);
    let ghost xv = x@;
    let mut j: usize = v.len();
    assert(vs.take(vs.len() as int) =~= vs);
    assert(vs.skip(vs.len() as int) =~= Seq::<PortView>::empty());
    while j > 0 && x.port < v[j - 1].port
        invariant
            vs == views(v@),
            xv == x@,
            0 <= j <= v@.len(),
            insert_by_port(vs, xv) == insert_by_port(vs.take(j as int), xv) + vs.skip(j as int),
        decreases j,
    {
        let ghost t = vs.take(j as int);
        assert(t.drop_last() =~= vs.take(j - 1));
        assert(t.last() == vs[j - 1]);
        assert(insert_by_port(t, xv) == insert_by_port(vs.take(j - 1), xv).push(vs[j - 1]));
        assert(insert_by_port(vs.take(j - 1), xv).push(vs[j - 1]) + vs.skip(j as int)
            =~= insert_by_port(vs.take(j - 1), xv) + vs.skip(j - 1));
        j = j - 1;
    }
    assert(insert_by_port(vs.take(j as int), xv) =~= vs.take(j as int).push(xv));
    v.insert(j, x);
    assert(views(v@) =~= vs.take(j as int).push(xv) + vs.skip(j as int));
}

/// Whether some record binds `port` to `pid`.
fn has_binding(ports: &Vec<PortInfo>, port: u16, pid: u32) -> (r: bool)
    ensures
        r == has_key(views(ports@), port, pid),
{
    let mut i: usize = 0;
    while i < ports.len()
        invariant
            0 <= i <= ports@.len(),
            forall|k: int| 0 <= k < i ==> !(#[trigger] ports@[k].port == port && ports@[k].pid == pid),
        decreases ports@.len() - i,
    {
        if ports[i].port == port && ports[i].pid == pid {
            assert(views(ports@)[i as int].port == port);
            return true;
        }
        i = i + 1;
    }
    assert(!has_key(views(ports@), port, pid)) by {
        if has_key(views(ports@), port, pid) {
            let k = choose|k: int| 0 <= k < views(ports@).len() && #[trigger] views(ports@)[k].port == port
                && views(ports@)[k].pid == pid;
            assert(ports@[k].port == port);
        }
    }
    false
}

/// Joins a socket table to a process table read close to it: one record per
/// (port, pid) pair of an admitted socket, the first one kept, each resolved
/// to its process and classified, in ascending port order.
pub fn resolve_ports(
    sockets: &Vec<SocketEntry>,
    table: &Vec<ProcessEntry>,
    last_updated: u64,
    is_admin: bool,
) -> (r: AppState)
    ensures
        views(r.ports@) == resolution(sockets@, table@),
        r.last_updated == last_updated,
        r.is_admin == is_admin,
{
    let mut ports: Vec<PortInfo> = Vec::new();
    let mut i: usize = 0;
    assert(views(ports@) =~= sort_by_port(dedup_by_key(candidate_records(sockets@.take(0), table@))));
    while i < sockets.len()
        invariant
            0 <= i <= sockets@.len(),
            views(ports@) == sort_by_port(dedup_by_key(candidate_records(sockets@.take(i as int), table@))),
        decreases sockets@.len() - i,
    {
        let s = &sockets[i];
        let ghost before = candidate_records(sockets@.take(i as int), table@);
        let ghost sr = socket_records(*s, table@);
        assert(sockets@.take(i + 1).drop_last() =~= sockets@.take(i as int));
        assert(candidate_records(sockets@.take(i + 1), table@) == before + sr);
        if s.protocol == Protocol::Udp || s.listening {
            let mut j: usize = 0;
            assert(before + sr.take(0) =~= before);
            while j < s.pids.len()
                invariant
                    s == &sockets@[i as int],
                    admitted(*s),
                    sr == socket_records(*s, table@),
                    0 <= j <= s.pids@.len(),
                    views(ports@) == sort_by_port(dedup_by_key(before + sr.take(j as int))),
                decreases s.pids@.len() - j,
            {
                let pid = s.pids[j];
                let ghost prev = before + sr.take(j as int);
                let ghost rec = record_of(*s, pid, table@);
                assert(sr[j as int] == rec);
                assert(before + sr.take(j + 1) =~= prev.push(rec));
                assert(prev.push(rec).drop_last() =~= prev);
                let ghost d = dedup_by_key(prev);
                proof { lemma_sort(d); }
                if !has_binding(&ports, s.local_port, pid) {
                    let (process_name, process_path) = process_info(table, pid);
                    let is_protected = is_protected_process(pid, process_name.as_str());
                    let protocol = if s.protocol == Protocol::Tcp {
                        String::from_str("TCP")
                    } else {
                        String::from_str("UDP")
                    };
                    let info = PortInfo {
                        pid,
                        port: s.local_port,
                        protocol,
                        process_name,
                        process_path,
                        is_protected,
                        local_address: s.local_address.clone(),
                    };
                    assert(info@ == rec);
                    assert(d.push(rec).drop_last() =~= d);
                    insert_sorted(&mut ports, info);
                }
                j = j + 1;
            }
            assert(sr.take(j as int) =~= sr);
        } else {
            assert(sr =~= Seq::<PortView>::empty());
            assert(before + sr =~= before);
        }
        i = i + 1;
    }
    assert(sockets@.take(i as int) =~= sockets@);
    AppState { ports, last_updated, is_admin }
}

} // verus!
