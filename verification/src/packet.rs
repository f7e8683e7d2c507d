//! Captured packets, and what is looked for in them.

use vstd::prelude::*;
use vstd::slice::slice_to_vec;
use crate::kexinit::{parse_ssh_kexinit, MESSAGE_NUMBER_AT, SSH_MSG_KEXINIT};
use crate::layers::{
    ethernet_layers, ethernet_slices, packet_layers, AddressesView, LayersView, PacketLayers, TcpSegment, TcpView,
};
use crate::ssh_laws::{law_state_stays_sound, sound};
use crate::ssh::{record_kexinit, state_of, HostTable, SshSessions, SshState};

verus! {

/// The least length of a payload that is looked at.
pub const MIN_PAYLOAD: usize = 6;

/// The two ends of a TCP connection, the sender first.
#[derive(Hash, Eq, PartialEq, Debug)]
pub struct TcpFlowKey {
    pub src_ip: String,
    pub dst_ip: String,
    pub src_port: u16,
    pub dst_port: u16,
}

impl TcpFlowKey {
    /// The flow from one address and port to another.
    pub fn new(src_ip: String, dst_ip: String, src_port: u16, dst_port: u16) -> (key: Self)
        ensures
            key == (TcpFlowKey { src_ip, dst_ip, src_port, dst_port }),
    {
        TcpFlowKey { src_ip, dst_ip, src_port, dst_port }
    }
}

/// A segment that may be part of a longer message.
pub struct Fragment {
    /// The flow of the segment.
    pub key: TcpFlowKey,
    pub sequence_number: u32,
    pub payload: Vec<u8>,
    /// Whether the payload by itself starts like a TLS hello.
    pub tls_hello: bool,
}

/// Whether a payload starts with a handshake record of SSL 3.0 or any TLS version.
pub open spec fn is_tls_hello(payload: Seq<u8>) -> bool {
    payload.len() > 5 && payload[0] == 0x16 && payload[1] == 0x03 && payload[2] <= 0x04
}

/// Looks into a payload that a packet with the given layers carried, whole or put together
/// from several segments: takes in an SSH announcement, and says whether it starts like a
/// TLS hello.
pub fn process_packet_helper(
    layers: &PacketLayers,
    payload: &[u8],
    sessions: &mut SshSessions,
    host_caps: &mut HostTable,
) -> (tls_hello: bool)
    requires
        payload@.len() >= MIN_PAYLOAD,
        old(sessions).wf(),
        old(host_caps).wf(),
    ensures
        final(sessions).wf(),
        final(host_caps).wf(),
        state_of(*final(sessions), *final(host_caps)) == state_of(
            *old(sessions),
            *old(host_caps),
        ).seen(Some(layers@), payload@),
        tls_hello == is_tls_hello(payload@),
        tls_hello == (payload@.len() > 5 && payload@[0] == 0x16 && payload@[1] == 0x03 && payload@[2]
            <= 0x04),
{
    if payload[MESSAGE_NUMBER_AT] == SSH_MSG_KEXINIT {
        if let Some(kex) = parse_ssh_kexinit(payload) {
            record_kexinit(layers, kex, sessions, host_caps);
        }
    }
    payload.len() > 5 && payload[0] == 0x16 && payload[1] == 0x03 && payload[2] <= 0x04
}

/// The payload of a packet that is looked at: that of a TCP segment over IP, unless it is
/// too short.
pub open spec fn looked_at(layers: LayersView) -> Option<Seq<u8>> {
    match (layers.addresses, layers.segment) {
        (Some(_), Some(segment)) => if segment.payload.len() < MIN_PAYLOAD {
            None
        } else {
            Some(segment.payload)
        },
        _ => None,
    }
}

/// The state once a packet with the given layers was looked at.
pub open spec fn after_layers(state: SshState, layers: LayersView) -> SshState {
    match looked_at(layers) {
        Some(payload) => state.seen(Some(layers), payload),
        None => state,
    }
}

/// Whether a fragment is what is to be kept of a packet with the given layers.
pub open spec fn fragment_of(layers: LayersView, fragment: Fragment) -> bool {
    match (layers.addresses, layers.segment) {
        (Some(addresses), Some(segment)) => {
            &&& fragment.key.src_ip@ == addresses.source
            &&& fragment.key.dst_ip@ == addresses.destination
            &&& fragment.key.src_port == segment.source_port
            &&& fragment.key.dst_port == segment.destination_port
            &&& fragment.sequence_number == segment.sequence_number
            &&& fragment.payload@ == segment.payload
            &&& fragment.tls_hello == is_tls_hello(segment.payload)
        },
        _ => false,
    }
}

/// Looks into a packet with the given layers. A packet that is looked at gives the fragment
/// that may belong to a longer message.
pub fn process_layers(
    layers: &PacketLayers,
    sessions: &mut SshSessions,
    host_caps: &mut HostTable,
) -> (fragment: Option<Fragment>)
    requires
        old(sessions).wf(),
        old(host_caps).wf(),
    ensures
        final(sessions).wf(),
        final(host_caps).wf(),
        state_of(*final(sessions), *final(host_caps)) == after_layers(
            state_of(*old(sessions), *old(host_caps)),
            layers@,
        ),
        fragment is Some <==> looked_at(layers@) is Some,
        fragment matches Some(f) ==> fragment_of(layers@, f),
        fragment is Some <==> layers.addresses is Some && layers.segment is Some
            && layers.segment->Some_0.payload@.len() >= 6,
        fragment matches Some(f) ==> {
            let addresses = layers.addresses->Some_0;
            let segment = layers.segment->Some_0;
            &&& f.key.src_ip@ == addresses.source@
            &&& f.key.dst_ip@ == addresses.destination@
            &&& f.key.src_port == segment.source_port
            &&& f.key.dst_port == segment.destination_port
            &&& f.sequence_number == segment.sequence_number
            &&& f.payload@ == segment.payload@
            &&& f.tls_hello == (f.payload@[0] == 0x16 && f.payload@[1] == 0x03 && f.payload@[2] <= 0x04)
        },
{
    let addresses = match &layers.addresses {
        Some(addresses) => addresses,
        None => {
            return None;
        },
    };
    let segment: &TcpSegment = match &layers.segment {
        Some(segment) => segment,
        None => {
            return None;
        },
    };
    let key = TcpFlowKey::new(
        addresses.source.clone(),
        addresses.destination.clone(),
        segment.source_port,
        segment.destination_port,
    );
    let payload: &[u8] = segment.payload.as_slice();
    if payload.len() < MIN_PAYLOAD {
        return None;
    }
    let tls_hello = process_packet_helper(layers, payload, sessions, host_caps);
    Some(
        Fragment {
            key,
            sequence_number: segment.sequence_number,
            payload: slice_to_vec(payload),
            tls_hello,
        },
    )
}

/// The state once a packet was looked at; one whose layers cannot be read changes nothing.
pub open spec fn after_packet(state: SshState, packet: Seq<u8>) -> SshState {
    match ethernet_layers(packet) {
        Some(layers) => after_layers(state, layers),
        None => state,
    }
}

/// Looks into a packet, which starts with an Ethernet II header: takes in an SSH
/// announcement. A packet that is looked at gives the fragment that may belong to a longer
/// message.
pub fn process_packet(
    packet: &[u8],
    sessions: &mut SshSessions,
    host_caps: &mut HostTable,
) -> (fragment: Option<Fragment>)
    requires
        old(sessions).wf(),
        old(host_caps).wf(),
    ensures
        final(sessions).wf(),
        final(host_caps).wf(),
        state_of(*final(sessions), *final(host_caps)) == after_packet(
            state_of(*old(sessions), *old(host_caps)),
            packet@,
        ),
        fragment is Some <==> ethernet_layers(packet@) is Some && looked_at(
            ethernet_layers(packet@)->Some_0,
        ) is Some,
        fragment matches Some(f) ==> fragment_of(ethernet_layers(packet@)->Some_0, f),
        fragment is Some <==> (ethernet_slices(packet@) matches Some((ip, tcp)) && ip is Some && tcp is Some
            && tcp->Some_0.3.len() >= 6),
        fragment matches Some(f) ==> {
            &&& ethernet_slices(packet@) == Some(
                (
                    Some((f.key.src_ip@, f.key.dst_ip@)),
                    Some((f.key.src_port, f.key.dst_port, f.sequence_number, f.payload@)),
                ),
            )
            &&& f.tls_hello == (f.payload@[0] == 0x16 && f.payload@[1] == 0x03 && f.payload@[2] <= 0x04)
        },
{
    match packet_layers(packet) {
        Some(layers) => process_layers(&layers, sessions, host_caps),
        None => None,
    }
}

/// Looks into a message that was put together from several segments, of which `packet`
/// carried the last; says whether it starts like a TLS hello of a packet whose layers can
/// be read.
pub fn process_reassembled(
    packet: &[u8],
    message: &[u8],
    sessions: &mut SshSessions,
    host_caps: &mut HostTable,
) -> (tls_hello: bool)
    requires
        message@.len() >= MIN_PAYLOAD,
        old(sessions).wf(),
        old(host_caps).wf(),
    ensures
        final(sessions).wf(),
        final(host_caps).wf(),
        state_of(*final(sessions), *final(host_caps)) == state_of(
            *old(sessions),
            *old(host_caps),
        ).seen(ethernet_layers(packet@), message@),
        tls_hello == (ethernet_layers(packet@) is Some && is_tls_hello(message@)),
        tls_hello == (ethernet_slices(packet@) is Some && message@[0] == 0x16 && message@[1] == 0x03
            && message@[2] <= 0x04),
{
    match packet_layers(packet) {
        Some(layers) => process_packet_helper(&layers, message, sessions, host_caps),
        None => false,
    }
}

/// That short payloads are not looked at loses no announcement: every payload of TCP over
/// IP has the effect that it would have if it were looked at.
pub proof fn law_no_announcement_overlooked(state: SshState, layers: LayersView)
    ensures
        layers.addresses is Some && layers.segment is Some ==> after_layers(state, layers)
            == state.seen(Some(layers), layers.segment->Some_0.payload),
        layers.addresses is None || layers.segment is None ==> after_layers(state, layers) == state,
{
}

/// A packet that is looked at has the effect that its payload has on its own.
pub proof fn law_packet_seen_as_its_payload(state: SshState, packet: Seq<u8>)
    requires
        ethernet_layers(packet) is Some,
        looked_at(ethernet_layers(packet)->Some_0) is Some,
    ensures
        after_packet(state, packet) == state.seen(
            ethernet_layers(packet),
            looked_at(ethernet_layers(packet)->Some_0)->Some_0,
        ),
{
}

/// No packet makes a sound state unsound, whatever its bytes.
pub proof fn law_packet_keeps_state_sound(state: SshState, packet: Seq<u8>)
    requires
        sound(state),
    ensures
        sound(after_packet(state, packet)),
{
    if let Some(layers) = ethernet_layers(packet) {
        if let Some(payload) = looked_at(layers) {
            law_state_stays_sound(state, Some(layers), payload);
        }
    }
}

/// Every segment of TCP over IP with at least six bytes is looked at and handed on, whatever
/// its bytes are, and no other.
pub proof fn law_every_segment_handed_on(layers: LayersView)
    ensures
        looked_at(layers) is Some <==> layers.addresses is Some && layers.segment is Some
            && layers.segment->Some_0.payload.len() >= 6,
        looked_at(layers) matches Some(payload) ==> payload == layers.segment->Some_0.payload,
{
}

/// What is handed on of a packet is its flow, its sequence number and its payload, as they are.
pub proof fn law_fragment_is_the_segment(layers: LayersView, fragment: Fragment)
    requires
        fragment_of(layers, fragment),
    ensures
        layers.addresses is Some,
        layers.segment is Some,
        fragment.key.src_ip@ == layers.addresses->Some_0.source,
        fragment.key.dst_ip@ == layers.addresses->Some_0.destination,
        fragment.key.src_port == layers.segment->Some_0.source_port,
        fragment.key.dst_port == layers.segment->Some_0.destination_port,
        fragment.sequence_number == layers.segment->Some_0.sequence_number,
        fragment.payload@ == layers.segment->Some_0.payload,
        fragment.tls_hello <==> fragment.payload@.len() >= 6 && fragment.payload@[0] == 0x16
            && fragment.payload@[1] == 0x03 && fragment.payload@[2] <= 0x04,
{
}

/// Of payloads with more than five bytes the first three alone tell whether they start like a
/// TLS hello: neither the length nor anything that follows matters.
pub proof fn law_hello_told_by_three_bytes(a: Seq<u8>, b: Seq<u8>)
    requires
        a.len() > 5,
        b.len() > 5,
        a[0] == b[0],
        a[1] == b[1],
        a[2] == b[2],
    ensures
        is_tls_hello(a) == is_tls_hello(b),
{
}

/// A handshake record of major version three and a minor version up to four starts a hello,
/// with any three or more bytes behind it; no other start does, and no shorter payload.
pub proof fn law_hello_starts(kind: u8, major: u8, minor: u8, behind: Seq<u8>)
    ensures
        is_tls_hello(seq![kind, major, minor] + behind) <==> kind == 22 && major == 3 && minor <= 4
            && behind.len() >= 3,
        behind.len() <= 5 ==> !is_tls_hello(behind),
{
    let payload = seq![kind, major, minor] + behind;
    assert(payload[0] == kind && payload[1] == major && payload[2] == minor);
}

/// A frame whose slices hold addresses and a TCP segment has the effect of the segment's
/// payload, sent from the one address and port to the other; any other frame has none.
pub proof fn law_frame_has_effect_of_its_segment(
    state: SshState,
    packet: Seq<u8>,
    source: Seq<char>,
    destination: Seq<char>,
    from: u16,
    to: u16,
    number: u32,
    payload: Seq<u8>,
)
    ensures
        ethernet_slices(packet) == Some(
            (Some((source, destination)), Some((from, to, number, payload))),
        ) ==> after_packet(state, packet) == state.seen(
            Some(
                LayersView {
                    addresses: Some(AddressesView { source, destination }),
                    segment: Some(
                        TcpView {
                            source_port: from,
                            destination_port: to,
                            sequence_number: number,
                            payload,
                        },
                    ),
                },
            ),
            payload,
        ),
        ethernet_slices(packet) is None || ethernet_slices(packet)->Some_0.0 is None || ethernet_slices(
            packet,
        )->Some_0.1 is None ==> after_packet(state, packet) == state,
{
}

} // verus!
