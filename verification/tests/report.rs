use pqcdump::catalog::KexAlgo;
use pqcdump::kexinit::parse_ssh_kexinit;
use pqcdump::layers::{IpAddresses, PacketLayers, TcpSegment};
use pqcdump::report::{
    negotiated_flows, ssh_host_report, ssh_session_report, KexCatalog, SshSessionEntry,
    SshSessionResult, TlsSessionResult,
};
use pqcdump::ssh::{record_kexinit, update_host_caps, HostTable, SshSessions};
use pqcdump::table::{DistinctSet, Key, Table};

fn announcement(kex: &str) -> Vec<u8> {
    let mut bytes = vec![0, 0, 0, 0, 0, 20];
    bytes.extend_from_slice(&[0; 16]);
    bytes.extend_from_slice(&(kex.len() as u32).to_be_bytes());
    bytes.extend_from_slice(kex.as_bytes());
    for _ in 0..9 {
        bytes.extend_from_slice(&[0, 0, 0, 0]);
    }
    bytes
}

fn catalog() -> KexCatalog {
    let mut algos: KexCatalog = Table::new();
    for (name, pqc) in [("mlkem", true), ("curve", false)] {
        algos.insert(
            name.to_string(),
            KexAlgo { pqc, broken: false, hybrid: None, desc: None, href: None },
        );
    }
    algos
}

fn entry(source: &str, port: u16, kex: &str) -> SshSessionEntry {
    SshSessionEntry {
        source_ip: source.to_string(),
        source_port: port,
        destination_ip: "10.0.0.9".to_string(),
        destination_port: 22,
        kex: kex.to_string(),
    }
}

fn strings(list: &[&str]) -> Vec<String> {
    list.iter().map(|s| s.to_string()).collect()
}

#[test]
fn hosts_are_graded_by_their_methods() {
    let mut caps: HostTable = Table::new();
    for (host, kex) in [("h1", "curve,mlkem"), ("h2", "curve"), ("h3", "unheard-of")] {
        update_host_caps(&mut caps, host, &parse_ssh_kexinit(&announcement(kex)).unwrap());
    }
    let mut hosts: DistinctSet<String> = DistinctSet::new();
    hosts.insert("h0".to_string());
    let mut pqc_hosts: DistinctSet<String> = DistinctSet::new();
    let found = ssh_host_report(&caps, &catalog(), &mut hosts, &mut pqc_hosts);
    assert_eq!(found.hosts.items(), &strings(&["h1", "h2", "h3"]));
    assert_eq!(hosts.items(), &strings(&["h0", "h1", "h2", "h3"]));
    assert_eq!(pqc_hosts.items(), &strings(&["h1"]));
    assert_eq!(found.statuses.get(&"h1".to_string()), Some(&"PQC Supported".to_string()));
    assert_eq!(found.statuses.get(&"h2".to_string()), Some(&"No Support".to_string()));
    assert_eq!(found.statuses.get(&"h3".to_string()), Some(&"No Support".to_string()));
    assert_eq!(found.statuses.len(), 3);
}

#[test]
fn sessions_are_graded_by_their_method() {
    let entries = vec![entry("10.0.0.1", 1, "mlkem"), entry("10.0.0.2", 2, "curve")];
    let found = ssh_session_report(&entries, &catalog());
    assert_eq!(found.pqc_count, 1);
    let lines = found.results.get(&"10.0.0.1".to_string()).unwrap();
    assert_eq!(lines.len(), 1);
    let line = &lines.items()[0];
    assert_eq!(line.source, "10.0.0.1");
    assert_eq!(line.source_port, 1);
    assert_eq!(line.destination, "10.0.0.9");
    assert_eq!(line.destination_port, 22);
    assert_eq!(line.pqc_status, "PQC Supported");
    let lines = found.results.get(&"10.0.0.2".to_string()).unwrap();
    assert_eq!(lines.items()[0].pqc_status, "PQC NOT Supported");
}

#[test]
fn all_ssh_sessions_of_a_source_are_shown() {
    let entries = vec![
        entry("10.0.0.1", 1, "mlkem"),
        entry("10.0.0.1", 2, "mlkem"),
        entry("10.0.0.1", 3, "curve"),
    ];
    let found = ssh_session_report(&entries, &catalog());
    assert_eq!(found.pqc_count, 2);
    let lines = found.results.get(&"10.0.0.1".to_string()).unwrap();
    let shown: Vec<(u16, &str)> =
        lines.items().iter().map(|l| (l.source_port, l.pqc_status.as_str())).collect();
    assert_eq!(
        shown,
        vec![(1, "PQC Supported"), (2, "PQC Supported"), (3, "PQC NOT Supported")]
    );
}

#[test]
fn order_of_ssh_sessions_does_not_matter() {
    let forth = vec![entry("10.0.0.1", 1, "mlkem"), entry("10.0.0.1", 2, "curve")];
    let back = vec![entry("10.0.0.1", 2, "curve"), entry("10.0.0.1", 1, "mlkem")];
    let a = ssh_session_report(&forth, &catalog());
    let b = ssh_session_report(&back, &catalog());
    assert_eq!(a.pqc_count, b.pqc_count);
    assert_eq!(a.results.value_at(0).len(), 2);
    assert_eq!(b.results.value_at(0).len(), 2);
    for line in a.results.value_at(0).items() {
        assert!(b.results.value_at(0).contains(line));
    }
}

#[test]
fn session_with_unknown_method_shows_no_line() {
    let entries = vec![entry("10.0.0.1", 1, "mlkem"), entry("10.0.0.1", 2, "unheard-of")];
    let found = ssh_session_report(&entries, &catalog());
    assert_eq!(found.pqc_count, 1);
    assert_eq!(found.results.len(), 1);
    assert_eq!(found.results.value_at(0).len(), 1);
    assert_eq!(found.results.value_at(0).items()[0].source_port, 1);
    let found = ssh_session_report(&vec![entry("10.0.0.1", 2, "unheard-of")], &catalog());
    assert_eq!(found.pqc_count, 0);
    assert_eq!(found.results.value_at(0).len(), 0);
}

#[test]
fn only_negotiated_sessions_are_listed() {
    let mut sessions: SshSessions = Table::new();
    let mut hosts: HostTable = Table::new();
    let sent = [
        ("10.0.0.1", 1, "10.0.0.9", 22, "a,b"),
        ("10.0.0.2", 2, "10.0.0.9", 22, "a"),
        ("10.0.0.9", 22, "10.0.0.1", 1, "b"),
    ];
    for (src, src_port, dst, dst_port, kex) in sent {
        let layers = PacketLayers {
            addresses: Some(IpAddresses {
                source: src.to_string(),
                destination: dst.to_string(),
            }),
            segment: Some(TcpSegment {
                source_port: src_port,
                destination_port: dst_port,
                sequence_number: 0,
                payload: vec![],
            }),
        };
        let kex = parse_ssh_kexinit(&announcement(kex)).unwrap();
        record_kexinit(&layers, kex, &mut sessions, &mut hosts);
    }
    assert_eq!(sessions.len(), 2);
    let flows = negotiated_flows(&sessions);
    assert_eq!(flows.len(), 1);
    assert_eq!(flows[0].src, "10.0.0.1:1");
    assert_eq!(flows[0].dst, "10.0.0.9:22");
    assert_eq!(flows[0].kex, "b");
}

#[test]
fn sessions_and_hosts_are_listed_as_first_seen() {
    let mut sessions: SshSessions = Table::new();
    let mut hosts: HostTable = Table::new();
    let sent = [
        ("10.0.0.2", 2, "10.0.0.9", 22),
        ("10.0.0.1", 1, "10.0.0.9", 22),
        ("10.0.0.9", 22, "10.0.0.1", 1),
        ("10.0.0.9", 22, "10.0.0.2", 2),
        ("10.0.0.2", 2, "10.0.0.9", 22),
    ];
    for (src, src_port, dst, dst_port) in sent {
        let layers = PacketLayers {
            addresses: Some(IpAddresses {
                source: src.to_string(),
                destination: dst.to_string(),
            }),
            segment: Some(TcpSegment {
                source_port: src_port,
                destination_port: dst_port,
                sequence_number: 0,
                payload: vec![],
            }),
        };
        let kex = parse_ssh_kexinit(&announcement("mlkem")).unwrap();
        record_kexinit(&layers, kex, &mut sessions, &mut hosts);
    }
    let flows = negotiated_flows(&sessions);
    let sources: Vec<&str> = flows.iter().map(|f| f.src.as_str()).collect();
    assert_eq!(sources, vec!["10.0.0.2:2", "10.0.0.1:1"]);
    let listed: Vec<&str> = (0..hosts.len()).map(|i| hosts.key_at(i).as_str()).collect();
    assert_eq!(listed, vec!["10.0.0.2", "10.0.0.1", "10.0.0.9"]);
}

#[test]
fn lines_hold_what_they_are_made_of() {
    let ssh = SshSessionResult::new("a".to_string(), 1, "b".to_string(), 2, "s".to_string());
    assert_eq!((ssh.source.as_str(), ssh.source_port), ("a", 1));
    assert_eq!((ssh.destination.as_str(), ssh.destination_port), ("b", 2));
    assert_eq!(ssh.pqc_status, "s");
    let tls = TlsSessionResult::new("a".to_string(), 1, "b".to_string(), 2, "s".to_string());
    assert_eq!((tls.source.as_str(), tls.source_port), ("a", 1));
    assert_eq!((tls.destination.as_str(), tls.destination_port), ("b", 2));
    assert_eq!(tls.pqc_status, "s");
}

#[test]
fn lines_are_the_same_when_all_fields_are() {
    let make = |port: u16| {
        SshSessionResult::new("a".to_string(), port, "b".to_string(), 2, "s".to_string())
    };
    assert!(make(1).same(&make(1)));
    assert!(!make(1).same(&make(3)));
}
