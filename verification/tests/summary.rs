use std::collections::HashMap;

use pqcdump::capture::{packet_time, Capture};
use pqcdump::catalog::{groups_by_id, suites_by_id, KexAlgo, TlsCipherSuite, TlsGroup};
use pqcdump::kexinit::parse_ssh_kexinit;
use pqcdump::layers::{IpAddresses, PacketLayers, TcpSegment};
use pqcdump::report::{negotiated_flows, KexCatalog, SshSessionEntry};
use pqcdump::ssh::{record_kexinit, update_host_caps, HostTable, SshSessions};
use pqcdump::summary::build_report;
use pqcdump::table::{DistinctSet, Table};
use pqcdump::tls_report::{
    tls_cipher_report, tls_group_report, tls_session_report, TlsOffer, TlsSessionEntry,
};

fn group(group_id: u16, pqc: bool, hybrid: bool) -> TlsGroup {
    TlsGroup {
        name: String::new(),
        group_id,
        pqc,
        hybrid,
        obsolete: false,
        insecure: false,
        desc: String::new(),
        href: String::new(),
    }
}

fn groups() -> HashMap<u16, TlsGroup> {
    groups_by_id(vec![
        ("X25519MLKEM768".to_string(), group(4588, true, true)),
        ("MLKEM768".to_string(), group(513, true, false)),
        ("x25519".to_string(), group(29, false, false)),
    ])
}

fn suites() -> HashMap<u16, TlsCipherSuite> {
    suites_by_id(vec![(
        "TLS_AES_128_GCM_SHA256".to_string(),
        TlsCipherSuite {
            name: String::new(),
            cipher_suite_id: 4865,
            obsolete: false,
            insecure: false,
            desc: String::new(),
            href: String::new(),
        },
    )])
}

fn offer(ip: &str, port: u16, ids: &[u16]) -> TlsOffer {
    TlsOffer { key: format!("{}:{}", ip, port), source_ip: ip.to_string(), ids: ids.to_vec() }
}

fn session(ip: &str, port: u16, group: u16) -> TlsSessionEntry {
    TlsSessionEntry {
        source_ip: ip.to_string(),
        source_port: port,
        destination_ip: "10.0.0.9".to_string(),
        destination_port: 443,
        group,
    }
}

fn strings(list: &[&str]) -> Vec<String> {
    list.iter().map(|s| s.to_string()).collect()
}

#[test]
fn suites_are_named_or_numbered() {
    let found = tls_cipher_report(&vec![offer("10.0.0.1", 1, &[4865, 60000, 4865])], &suites());
    assert_eq!(found.hosts.items(), &strings(&["10.0.0.1"]));
    let names = found.suites.get(&"10.0.0.1".to_string()).unwrap();
    assert_eq!(names.items(), &strings(&["TLS_AES_128_GCM_SHA256", "60000"]));
}

#[test]
fn last_suites_of_an_address_count() {
    let offers = vec![
        offer("10.0.0.1", 1, &[4865]),
        offer("10.0.0.2", 1, &[]),
        offer("10.0.0.1", 2, &[7]),
    ];
    let found = tls_cipher_report(&offers, &suites());
    assert_eq!(found.hosts.items(), &strings(&["10.0.0.1", "10.0.0.2"]));
    assert_eq!(found.suites.len(), 2);
    assert_eq!(found.suites.get(&"10.0.0.1".to_string()).unwrap().items(), &strings(&["7"]));
    assert_eq!(found.suites.get(&"10.0.0.2".to_string()).unwrap().len(), 0);
}

#[test]
fn groups_are_described() {
    let mut hosts: DistinctSet<String> = DistinctSet::new();
    let mut pqc_hosts: DistinctSet<String> = DistinctSet::new();
    let offers = vec![
        offer("10.0.0.1", 1, &[4588, 513, 29, 9999]),
        offer("10.0.0.2", 2, &[29]),
        offer("10.0.0.3", 3, &[9999]),
    ];
    let found = tls_group_report(&offers, &groups(), &mut hosts, &mut pqc_hosts);
    assert_eq!(
        found.get(&"10.0.0.1".to_string()).unwrap().items(),
        &strings(&[
            "10.0.0.1:1 supports X25519MLKEM768 a hybrid algorithm",
            "10.0.0.1:1 supports MLKEM768 which is pure PQC",
            "10.0.0.1:1 supports x25519 which is not PQC safe",
        ])
    );
    assert_eq!(found.get(&"10.0.0.3".to_string()).unwrap().len(), 0);
    assert_eq!(hosts.items(), &strings(&["10.0.0.1", "10.0.0.2", "10.0.0.3"]));
    assert_eq!(pqc_hosts.items(), &strings(&["10.0.0.1"]));
}

#[test]
fn address_stays_post_quantum_when_a_later_offer_is_not() {
    let mut hosts: DistinctSet<String> = DistinctSet::new();
    let mut pqc_hosts: DistinctSet<String> = DistinctSet::new();
    let offers = vec![offer("10.0.0.1", 1, &[513]), offer("10.0.0.1", 2, &[29])];
    let found = tls_group_report(&offers, &groups(), &mut hosts, &mut pqc_hosts);
    assert_eq!(
        found.get(&"10.0.0.1".to_string()).unwrap().items(),
        &strings(&[
            "10.0.0.1:1 supports MLKEM768 which is pure PQC",
            "10.0.0.1:2 supports x25519 which is not PQC safe",
        ])
    );
    assert_eq!(hosts.len(), 1);
    assert_eq!(pqc_hosts.items(), &strings(&["10.0.0.1"]));
}

#[test]
fn all_offers_of_an_address_are_shown() {
    let mut hosts: DistinctSet<String> = DistinctSet::new();
    let mut pqc_hosts: DistinctSet<String> = DistinctSet::new();
    let offers = vec![
        offer("10.0.0.1", 1, &[513]),
        offer("10.0.0.2", 1, &[29]),
        offer("10.0.0.1", 2, &[9999]),
        offer("10.0.0.1", 1, &[513, 4588]),
    ];
    let found = tls_group_report(&offers, &groups(), &mut hosts, &mut pqc_hosts);
    assert_eq!(found.len(), 2);
    assert_eq!(
        found.get(&"10.0.0.1".to_string()).unwrap().items(),
        &strings(&[
            "10.0.0.1:1 supports MLKEM768 which is pure PQC",
            "10.0.0.1:1 supports X25519MLKEM768 a hybrid algorithm",
        ])
    );
    assert_eq!(
        found.get(&"10.0.0.2".to_string()).unwrap().items(),
        &strings(&["10.0.0.2:1 supports x25519 which is not PQC safe"])
    );
}

#[test]
fn all_sessions_of_a_source_are_shown() {
    let sessions = vec![
        session("10.0.0.1", 1, 4588),
        session("10.0.0.1", 2, 513),
        session("10.0.0.1", 3, 29),
        session("10.0.0.1", 4, 9999),
        session("10.0.0.2", 5, 9999),
    ];
    let found = tls_session_report(&sessions, &groups());
    assert_eq!(found.pqc_count, 2);
    let lines = found.results.get(&"10.0.0.1".to_string()).unwrap();
    let shown: Vec<(u16, &str)> =
        lines.items().iter().map(|l| (l.source_port, l.pqc_status.as_str())).collect();
    assert_eq!(shown, vec![(1, "hybrid"), (2, "full"), (3, "none")]);
    assert_eq!(lines.items()[0].destination, "10.0.0.9");
    assert_eq!(lines.items()[0].destination_port, 443);
    assert_eq!(found.results.get(&"10.0.0.2".to_string()).unwrap().len(), 0);
}

#[test]
fn order_of_tls_sessions_does_not_matter() {
    let forth = vec![session("10.0.0.1", 1, 4588), session("10.0.0.1", 2, 29)];
    let back = vec![session("10.0.0.1", 2, 29), session("10.0.0.1", 1, 4588)];
    let a = tls_session_report(&forth, &groups());
    let b = tls_session_report(&back, &groups());
    assert_eq!(a.pqc_count, b.pqc_count);
    for line in a.results.value_at(0).items() {
        assert!(b.results.value_at(0).contains(line));
    }
    assert_eq!(a.results.value_at(0).len(), b.results.value_at(0).len());
}

#[test]
fn negotiated_sessions_are_shown_and_counted() {
    let announcement = |kex: &str| {
        let mut bytes = vec![0, 0, 0, 0, 0, 20];
        bytes.extend_from_slice(&[0; 16]);
        bytes.extend_from_slice(&(kex.len() as u32).to_be_bytes());
        bytes.extend_from_slice(kex.as_bytes());
        bytes.extend_from_slice(&[0; 36]);
        parse_ssh_kexinit(&bytes).unwrap()
    };
    let mut sessions: SshSessions = Table::new();
    let mut caps: HostTable = Table::new();
    let sent = [
        ("10.0.0.1", 1, "10.0.0.9", 22, "mlkem,curve"),
        ("10.0.0.9", 22, "10.0.0.1", 1, "mlkem,curve"),
        ("10.0.0.2", 2, "10.0.0.9", 22, "curve"),
        ("10.0.0.9", 22, "10.0.0.2", 2, "mlkem,curve"),
        ("10.0.0.3", 3, "10.0.0.9", 22, "mlkem"),
    ];
    for (src, src_port, dst, dst_port, kex) in sent {
        let layers = PacketLayers {
            addresses: Some(IpAddresses {
                source: src.to_string(),
                destination: dst.to_string(),
            }),
            segment: Some(TcpSegment {
                source_port: src_port,
                destination_port: dst_port,
                sequence_number: 0,
                payload: vec![],
            }),
        };
        record_kexinit(&layers, announcement(kex), &mut sessions, &mut caps);
    }
    let ssh_entries: Vec<SshSessionEntry> = negotiated_flows(&sessions)
        .into_iter()
        .map(|flow| {
            let (source_ip, source_port) = flow.src.split_once(':').unwrap();
            let (destination_ip, destination_port) = flow.dst.split_once(':').unwrap();
            SshSessionEntry {
                source_ip: source_ip.to_string(),
                source_port: source_port.parse().unwrap(),
                destination_ip: destination_ip.to_string(),
                destination_port: destination_port.parse().unwrap(),
                kex: flow.kex.clone(),
            }
        })
        .collect();
    let mut algos: KexCatalog = Table::new();
    for (name, pqc) in [("mlkem", true), ("curve", false)] {
        algos.insert(
            name.to_string(),
            KexAlgo { pqc, broken: false, hybrid: None, desc: None, href: None },
        );
    }
    let results = build_report(
        caps,
        &sessions,
        &ssh_entries,
        &vec![],
        &vec![],
        &vec![],
        &algos,
        &groups(),
        &suites(),
        &Capture::new(),
    );
    assert_eq!(results.ssh_total_count, 3);
    assert_eq!(results.ssh_pqc_supported_count, 1);
    assert_eq!(results.ssh_sessions_results.len(), 2);
    let shown = |source: &str| {
        let lines = results.ssh_sessions_results.get(&source.to_string()).unwrap().items();
        assert_eq!(lines.len(), 1);
        let line = &lines[0];
        assert_eq!(line.source, source);
        assert_eq!((line.destination.as_str(), line.destination_port), ("10.0.0.9", 22));
        (line.source_port, line.pqc_status.clone())
    };
    assert_eq!(shown("10.0.0.1"), (1, "PQC Supported".to_string()));
    assert_eq!(shown("10.0.0.2"), (2, "PQC NOT Supported".to_string()));
    assert_eq!(results.total_count, 4);
    assert_eq!(results.pqc_count, 3);
}

#[test]
fn whole_survey_is_summed_up() {
    let mut kexinit = vec![0, 0, 0, 0, 0, 20];
    kexinit.extend_from_slice(&[0; 16]);
    kexinit.extend_from_slice(&[0, 0, 0, 5]);
    kexinit.extend_from_slice(b"mlkem");
    kexinit.extend_from_slice(&[0; 36]);
    let mut caps: HostTable = Table::new();
    update_host_caps(&mut caps, "10.0.0.1", &parse_ssh_kexinit(&kexinit).unwrap());
    let sessions: SshSessions = Table::new();
    let mut algos: KexCatalog = Table::new();
    algos.insert(
        "mlkem".to_string(),
        KexAlgo { pqc: true, broken: false, hybrid: Some(true), desc: None, href: None },
    );
    let ssh_entries = vec![SshSessionEntry {
        source_ip: "10.0.0.1".to_string(),
        source_port: 5,
        destination_ip: "10.0.0.2".to_string(),
        destination_port: 22,
        kex: "mlkem".to_string(),
    }];
    let mut capture = Capture::new();
    capture.record(packet_time(100, 1).unwrap());
    capture.record(packet_time(200, 2).unwrap());
    let results = build_report(
        caps,
        &sessions,
        &ssh_entries,
        &vec![offer("10.0.0.3", 1, &[4865])],
        &vec![offer("10.0.0.1", 1, &[29]), offer("10.0.0.4", 1, &[29])],
        &vec![session("10.0.0.4", 1, 29), session("10.0.0.1", 2, 4588)],
        &algos,
        &groups(),
        &suites(),
        &capture,
    );
    assert_eq!(results.total_count, 2);
    assert_eq!(results.pqc_count, 1);
    assert_eq!(results.ssh_total_count, 0);
    assert_eq!(results.ssh_pqc_supported_count, 1);
    assert_eq!(results.tls_total_count, 2);
    assert_eq!(results.tls_pqc_supported_count, 1);
    assert_eq!(results.packet_count, 3);
    assert_eq!(results.start_time, packet_time(100, 1));
    assert_eq!(results.end_time, packet_time(200, 2));
    assert_eq!(results.ssh_host_capabilities.key_at(0), "10.0.0.1");
    assert_eq!(results.ssh_hosts.items(), &strings(&["10.0.0.1"]));
    assert_eq!(results.ssh_hosts_pqc.value_at(0), "PQC Supported");
    assert_eq!(results.ssh_sessions_results.len(), 1);
    assert_eq!(results.tls_hosts.items(), &strings(&["10.0.0.3"]));
    assert_eq!(results.tls_hosts_pqc.len(), 2);
    assert_eq!(results.tls_sessions_results.len(), 2);
}
