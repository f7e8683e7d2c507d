use etherparse::PacketBuilder;
use pqcdump::kexinit::parse_ssh_kexinit;
use pqcdump::layers::{packet_layers, IpAddresses, PacketLayers, TcpSegment};
use pqcdump::packet::{
    process_layers, process_packet, process_packet_helper, process_reassembled, TcpFlowKey,
};
use pqcdump::ssh::{record_kexinit, HostTable, SshSessions};
use pqcdump::table::Table;

fn announcement(kex: &str) -> Vec<u8> {
    let mut bytes = vec![0, 0, 0, 0, 0, 20];
    bytes.extend_from_slice(&[0; 16]);
    bytes.extend_from_slice(&(kex.len() as u32).to_be_bytes());
    bytes.extend_from_slice(kex.as_bytes());
    for _ in 0..9 {
        bytes.extend_from_slice(&[0, 0, 0, 0]);
    }
    bytes
}

fn tcp_packet(payload: &[u8]) -> Vec<u8> {
    let builder = PacketBuilder::ethernet2([1; 6], [2; 6])
        .ipv4([10, 0, 0, 1], [10, 0, 0, 2], 64)
        .tcp(40000, 22, 77, 4096);
    let mut packet = Vec::new();
    builder.write(&mut packet, payload).unwrap();
    packet
}

fn layers(payload: &[u8]) -> PacketLayers {
    PacketLayers {
        addresses: Some(IpAddresses {
            source: "10.0.0.1".to_string(),
            destination: "10.0.0.2".to_string(),
        }),
        segment: Some(TcpSegment {
            source_port: 40000,
            destination_port: 22,
            sequence_number: 77,
            payload: payload.to_vec(),
        }),
    }
}

fn tables() -> (SshSessions, HostTable) {
    (Table::new(), Table::new())
}

#[test]
fn layers_of_a_tcp_packet_are_read() {
    let found = packet_layers(&tcp_packet(&[1, 2, 3])).unwrap();
    let addresses = found.addresses.unwrap();
    assert_eq!(addresses.source, "10.0.0.1");
    assert_eq!(addresses.destination, "10.0.0.2");
    let segment = found.segment.unwrap();
    assert_eq!(segment.source_port, 40000);
    assert_eq!(segment.destination_port, 22);
    assert_eq!(segment.sequence_number, 77);
    assert_eq!(segment.payload, vec![1, 2, 3]);
}

#[test]
fn layers_of_a_udp_packet_have_no_segment() {
    let builder = PacketBuilder::ethernet2([1; 6], [2; 6])
        .ipv4([10, 0, 0, 1], [10, 0, 0, 2], 64)
        .udp(1, 2);
    let mut packet = Vec::new();
    builder.write(&mut packet, &[1, 2, 3]).unwrap();
    let found = packet_layers(&packet).unwrap();
    assert!(found.addresses.is_some());
    assert!(found.segment.is_none());
}

#[test]
fn layers_of_an_unknown_protocol_are_empty() {
    let mut packet = vec![0; 60];
    packet[12] = 0x88;
    packet[13] = 0xcc;
    let found = packet_layers(&packet).unwrap();
    assert!(found.addresses.is_none());
    assert!(found.segment.is_none());
}

#[test]
fn layers_of_a_broken_packet_cannot_be_read() {
    assert!(packet_layers(&[]).is_none());
    let packet = tcp_packet(&[1, 2, 3]);
    assert!(packet_layers(&packet[..30]).is_none());
}

#[test]
fn announcement_in_a_packet_is_taken_in() {
    let (mut sessions, mut hosts) = tables();
    let payload = announcement("mlkem768x25519-sha256");
    let fragment = process_packet(&tcp_packet(&payload), &mut sessions, &mut hosts).unwrap();
    assert_eq!(sessions.len(), 1);
    assert_eq!(sessions.key_at(0).src(), "10.0.0.1:40000");
    assert_eq!(hosts.value_at(0).supported_names(), vec!["mlkem768x25519-sha256"]);
    let key = TcpFlowKey::new("10.0.0.1".to_string(), "10.0.0.2".to_string(), 40000, 22);
    assert_eq!(fragment.key, key);
    assert_eq!(fragment.sequence_number, 77);
    assert_eq!(fragment.payload, payload);
    assert!(!fragment.tls_hello);
}

#[test]
fn packet_and_layers_are_looked_at_alike() {
    let payload = announcement("a,b");
    let (mut sessions, mut hosts) = tables();
    let fragment = process_layers(&layers(&payload), &mut sessions, &mut hosts).unwrap();
    assert_eq!(fragment.payload, payload);
    assert_eq!(sessions.key_at(0).dst(), "10.0.0.2:22");
    assert_eq!(hosts.key_at(0), "10.0.0.1");
}

#[test]
fn short_payload_is_not_looked_at() {
    let (mut sessions, mut hosts) = tables();
    assert!(process_packet(&tcp_packet(&[0x16, 3, 1, 0, 1]), &mut sessions, &mut hosts).is_none());
    assert!(process_packet(&tcp_packet(&[0x16, 3, 1, 0, 1, 1]), &mut sessions, &mut hosts).is_some());
    assert_eq!(sessions.len(), 0);
}

#[test]
fn packet_without_addresses_or_segment_is_not_looked_at() {
    let (mut sessions, mut hosts) = tables();
    let payload = announcement("a");
    let mut no_addresses = layers(&payload);
    no_addresses.addresses = None;
    assert!(process_layers(&no_addresses, &mut sessions, &mut hosts).is_none());
    let mut no_segment = layers(&payload);
    no_segment.segment = None;
    assert!(process_layers(&no_segment, &mut sessions, &mut hosts).is_none());
    assert!(process_packet(&[0; 3], &mut sessions, &mut hosts).is_none());
    assert_eq!(sessions.len(), 0);
    assert_eq!(hosts.len(), 0);
}

#[test]
fn tls_hello_is_told_by_its_first_bytes() {
    let (mut sessions, mut hosts) = tables();
    let l = layers(&[]);
    for version in 0..=4u8 {
        let payload = [0x16, 0x03, version, 0, 0, 0];
        assert!(process_packet_helper(&l, &payload, &mut sessions, &mut hosts));
    }
    assert!(!process_packet_helper(&l, &[0x16, 0x03, 5, 0, 0, 0], &mut sessions, &mut hosts));
    assert!(!process_packet_helper(&l, &[0x17, 0x03, 3, 0, 0, 0], &mut sessions, &mut hosts));
    assert!(!process_packet_helper(&l, &[0x16, 0x02, 3, 0, 0, 0], &mut sessions, &mut hosts));
}

#[test]
fn payload_can_be_announcement_and_hello_at_once() {
    let (mut sessions, mut hosts) = tables();
    let mut payload = announcement("a");
    payload[0] = 0x16;
    payload[1] = 0x03;
    payload[2] = 0x01;
    assert!(process_packet_helper(&layers(&[]), &payload, &mut sessions, &mut hosts));
    assert_eq!(sessions.len(), 1);
}

#[test]
fn reassembled_message_is_looked_at() {
    let (mut sessions, mut hosts) = tables();
    let message = announcement("a");
    let packet = tcp_packet(&message[40..]);
    assert!(!process_reassembled(&packet, &message, &mut sessions, &mut hosts));
    assert_eq!(sessions.key_at(0).src(), "10.0.0.1:40000");
    assert!(process_reassembled(&packet, &[0x16, 3, 3, 0, 0, 1], &mut sessions, &mut hosts));
    assert!(!process_reassembled(&[0], &[0x16, 3, 3, 0, 0, 1], &mut sessions, &mut hosts));
}

#[test]
fn announcement_is_recorded_under_the_flow_of_its_packet() {
    let (mut sessions, mut hosts) = tables();
    let kex = parse_ssh_kexinit(&announcement("a")).unwrap();
    record_kexinit(&layers(&[]), kex, &mut sessions, &mut hosts);
    assert_eq!(sessions.key_at(0).src(), "10.0.0.1:40000");
    assert_eq!(sessions.key_at(0).dst(), "10.0.0.2:22");
    assert!(sessions.value_at(0).negotiated().is_none());
}
