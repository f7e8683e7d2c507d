use etherparse::PacketBuilder;
use pqcdump::ssh::{
    negotiate, process_ssh, update_host_caps, HostCapabilities, HostTable, SshSessions,
};
use pqcdump::kexinit::parse_ssh_kexinit;
use pqcdump::table::Table;

const CLIENT: [u8; 4] = [192, 0, 2, 1];
const SERVER: [u8; 4] = [198, 51, 100, 7];

fn announcement(kex: &str) -> Vec<u8> {
    let mut bytes = vec![0, 0, 0, 0, 0, 20];
    bytes.extend_from_slice(&[0; 16]);
    bytes.extend_from_slice(&(kex.len() as u32).to_be_bytes());
    bytes.extend_from_slice(kex.as_bytes());
    for _ in 0..9 {
        bytes.extend_from_slice(&[0, 0, 0, 0]);
    }
    bytes
}

fn tcp_v4(src: [u8; 4], src_port: u16, dst: [u8; 4], dst_port: u16, payload: &[u8]) -> Vec<u8> {
    let builder = PacketBuilder::ethernet2([1; 6], [2; 6])
        .ipv4(src, dst, 64)
        .tcp(src_port, dst_port, 1000, 4096);
    let mut packet = Vec::new();
    builder.write(&mut packet, payload).unwrap();
    packet
}

fn names(list: &[&str]) -> Vec<String> {
    list.iter().map(|s| s.to_string()).collect()
}

fn send(
    from: ([u8; 4], u16),
    to: ([u8; 4], u16),
    kex: &str,
    sessions: &mut SshSessions,
    hosts: &mut HostTable,
) {
    let payload = announcement(kex);
    let packet = tcp_v4(from.0, from.1, to.0, to.1, &payload);
    process_ssh(&packet, &payload, sessions, hosts);
}

fn known(hosts: &HostTable, host: &str) -> Vec<String> {
    match hosts.get(&host.to_string()) {
        Some(caps) => caps.supported_names(),
        None => vec![],
    }
}

#[test]
fn first_method_of_the_client_wins() {
    let client = names(&["a", "b", "c"]);
    let server = names(&["c", "b"]);
    assert_eq!(negotiate(&client, &server), Some("b".to_string()));
    assert_eq!(negotiate(&server, &client), Some("c".to_string()));
}

#[test]
fn order_of_the_server_does_not_matter() {
    let client = names(&["a", "b", "c"]);
    assert_eq!(
        negotiate(&client, &names(&["b", "c"])),
        negotiate(&client, &names(&["c", "b", "c"]))
    );
}

#[test]
fn nothing_in_common_is_no_agreement() {
    assert_eq!(negotiate(&names(&["a"]), &names(&["b"])), None);
    assert_eq!(negotiate(&names(&[]), &names(&["b"])), None);
    assert_eq!(negotiate(&names(&["a"]), &names(&[])), None);
}

#[test]
fn handshake_is_recorded() {
    let mut sessions: SshSessions = Table::new();
    let mut hosts: HostTable = Table::new();
    send((CLIENT, 50000), (SERVER, 22), "mlkem,curve", &mut sessions, &mut hosts);
    assert_eq!(sessions.len(), 1);
    assert!(sessions.value_at(0).negotiated().is_none());
    send((SERVER, 22), (CLIENT, 50000), "curve,dh", &mut sessions, &mut hosts);
    assert_eq!(sessions.len(), 1);
    let flow = sessions.key_at(0);
    assert_eq!(flow.src(), "192.0.2.1:50000");
    assert_eq!(flow.dst(), "198.51.100.7:22");
    assert_eq!(sessions.value_at(0).negotiated().unwrap().kex(), "curve");
    assert_eq!(hosts.len(), 2);
    assert_eq!(known(&hosts, "192.0.2.1"), names(&["mlkem", "curve"]));
    assert_eq!(known(&hosts, "198.51.100.7"), names(&["curve", "dh"]));
}

#[test]
fn end_that_is_heard_first_is_the_client() {
    let mut sessions: SshSessions = Table::new();
    let mut hosts: HostTable = Table::new();
    send((SERVER, 22), (CLIENT, 50000), "b,a", &mut sessions, &mut hosts);
    send((CLIENT, 50000), (SERVER, 22), "a,b", &mut sessions, &mut hosts);
    assert_eq!(sessions.len(), 1);
    assert_eq!(sessions.key_at(0).src(), "198.51.100.7:22");
    assert_eq!(sessions.value_at(0).negotiated().unwrap().kex(), "b");
}

#[test]
fn repeated_announcement_changes_nothing() {
    let mut sessions: SshSessions = Table::new();
    let mut hosts: HostTable = Table::new();
    send((CLIENT, 50000), (SERVER, 22), "a", &mut sessions, &mut hosts);
    send((CLIENT, 50000), (SERVER, 22), "b", &mut sessions, &mut hosts);
    send((SERVER, 22), (CLIENT, 50000), "b,a", &mut sessions, &mut hosts);
    send((SERVER, 22), (CLIENT, 50000), "c", &mut sessions, &mut hosts);
    assert_eq!(sessions.len(), 1);
    assert_eq!(sessions.value_at(0).negotiated().unwrap().kex(), "a");
    assert_eq!(known(&hosts, "192.0.2.1"), names(&["a"]));
    assert_eq!(known(&hosts, "198.51.100.7"), names(&["b", "a"]));
}

#[test]
fn handshake_without_common_method_stays_open() {
    let mut sessions: SshSessions = Table::new();
    let mut hosts: HostTable = Table::new();
    send((CLIENT, 50000), (SERVER, 22), "a", &mut sessions, &mut hosts);
    send((SERVER, 22), (CLIENT, 50000), "b", &mut sessions, &mut hosts);
    assert!(sessions.value_at(0).negotiated().is_none());
}

#[test]
fn empty_lists_agree_on_the_empty_name() {
    let mut sessions: SshSessions = Table::new();
    let mut hosts: HostTable = Table::new();
    send((CLIENT, 50000), (SERVER, 22), "", &mut sessions, &mut hosts);
    send((SERVER, 22), (CLIENT, 50000), "", &mut sessions, &mut hosts);
    assert_eq!(sessions.value_at(0).negotiated().unwrap().kex(), "");
}

#[test]
fn connections_are_told_apart() {
    let mut sessions: SshSessions = Table::new();
    let mut hosts: HostTable = Table::new();
    send((CLIENT, 50000), (SERVER, 22), "a", &mut sessions, &mut hosts);
    send((CLIENT, 50001), (SERVER, 22), "b", &mut sessions, &mut hosts);
    assert_eq!(sessions.len(), 2);
    assert_eq!(known(&hosts, "192.0.2.1"), names(&["a", "b"]));
}

#[test]
fn announced_method_moves_to_the_end() {
    let mut hosts: HostTable = Table::new();
    let first = parse_ssh_kexinit(&announcement("a,b,c")).unwrap();
    let second = parse_ssh_kexinit(&announcement("d,a")).unwrap();
    update_host_caps(&mut hosts, "192.0.2.1", &first);
    assert_eq!(known(&hosts, "192.0.2.1"), names(&["a", "b", "c"]));
    update_host_caps(&mut hosts, "192.0.2.1", &second);
    assert_eq!(known(&hosts, "192.0.2.1"), names(&["b", "c", "d", "a"]));
    update_host_caps(&mut hosts, "192.0.2.2", &second);
    assert_eq!(known(&hosts, "192.0.2.1"), names(&["b", "c", "d", "a"]));
    assert_eq!(hosts.len(), 2);
}

#[test]
fn new_host_supports_nothing() {
    let caps = HostCapabilities::default();
    assert!(caps.supported_kex().is_empty());
    assert!(caps.supported_names().is_empty());
}

#[test]
fn set_and_list_of_methods_agree() {
    let mut hosts: HostTable = Table::new();
    let kex = parse_ssh_kexinit(&announcement("x,y,x")).unwrap();
    update_host_caps(&mut hosts, "h", &kex);
    let caps = hosts.value_at(0);
    let from_set: Vec<String> = caps.supported_kex().iter().cloned().collect();
    assert_eq!(from_set, names(&["y", "x"]));
    assert_eq!(caps.supported_names(), from_set);
}

#[test]
fn ipv6_session_is_recorded() {
    let payload = announcement("a");
    let mut src = [0; 16];
    src[15] = 1;
    let mut dst = [0; 16];
    dst[0] = 0x20;
    dst[1] = 0x01;
    dst[2] = 0x0d;
    dst[3] = 0xb8;
    let builder = PacketBuilder::ethernet2([1; 6], [2; 6])
        .ipv6(src, dst, 64)
        .tcp(50000, 22, 1, 4096);
    let mut packet = Vec::new();
    builder.write(&mut packet, &payload).unwrap();
    let mut sessions: SshSessions = Table::new();
    let mut hosts: HostTable = Table::new();
    process_ssh(&packet, &payload, &mut sessions, &mut hosts);
    assert_eq!(sessions.key_at(0).src(), "::1:50000");
    assert_eq!(sessions.key_at(0).dst(), "2001:db8:::22");
    assert_eq!(hosts.key_at(0), "::1");
}

#[test]
fn packet_without_tcp_is_passed_over() {
    let payload = announcement("a");
    let builder = PacketBuilder::ethernet2([1; 6], [2; 6])
        .ipv4(CLIENT, SERVER, 64)
        .udp(50000, 22);
    let mut packet = Vec::new();
    builder.write(&mut packet, &payload).unwrap();
    let mut sessions: SshSessions = Table::new();
    let mut hosts: HostTable = Table::new();
    process_ssh(&packet, &payload, &mut sessions, &mut hosts);
    assert_eq!(sessions.len(), 0);
    assert_eq!(hosts.len(), 0);
}

#[test]
fn unreadable_packet_is_passed_over() {
    let payload = announcement("a");
    let mut sessions: SshSessions = Table::new();
    let mut hosts: HostTable = Table::new();
    process_ssh(&[1, 2, 3], &payload, &mut sessions, &mut hosts);
    assert_eq!(sessions.len(), 0);
    assert_eq!(hosts.len(), 0);
}

#[test]
fn payload_that_is_no_announcement_is_passed_over() {
    let payload = [0; 64];
    let packet = tcp_v4(CLIENT, 50000, SERVER, 22, &payload);
    let mut sessions: SshSessions = Table::new();
    let mut hosts: HostTable = Table::new();
    process_ssh(&packet, &payload, &mut sessions, &mut hosts);
    assert_eq!(sessions.len(), 0);
    assert_eq!(hosts.len(), 0);
}

#[test]
fn copy_of_an_announcement_names_the_same_methods() {
    let kex = parse_ssh_kexinit(&announcement("a,b")).unwrap().clone();
    let mut hosts: HostTable = Table::new();
    update_host_caps(&mut hosts, "h", &kex);
    assert_eq!(known(&hosts, "h"), names(&["a", "b"]));
}

#[test]
fn hosts_know_what_their_sessions_show_and_no_more() {
    let mut sessions: SshSessions = Table::new();
    let mut hosts: HostTable = Table::new();
    send((CLIENT, 1), (SERVER, 22), "a", &mut sessions, &mut hosts);
    assert_eq!(hosts.len(), 1);
    assert_eq!(known(&hosts, "192.0.2.1"), names(&["a"]));
    send((CLIENT, 1), (SERVER, 22), "b", &mut sessions, &mut hosts);
    assert_eq!(known(&hosts, "192.0.2.1"), names(&["a"]));
    send((CLIENT, 2), (SERVER, 22), "c", &mut sessions, &mut hosts);
    assert_eq!(known(&hosts, "192.0.2.1"), names(&["a", "c"]));
    assert_eq!(hosts.len(), 1);
    assert_eq!(sessions.len(), 2);
}
