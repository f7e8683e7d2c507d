//! The layers of a captured packet that the survey looks at.

use vstd::prelude::*;
use etherparse::{NetSlice, SlicedPacket, TransportSlice};
use crate::text::Text;

verus! {

/// A TCP segment.
pub struct TcpSegment {
    pub source_port: u16,
    pub destination_port: u16,
    pub sequence_number: u32,
    pub payload: Vec<u8>,
}

/// The addresses of an IP packet, in their usual notation.
pub struct IpAddresses {
    pub source: String,
    pub destination: String,
}

/// The addresses of a packet, if it is IP, and its segment, if it is TCP.
pub struct PacketLayers {
    pub addresses: Option<IpAddresses>,
    pub segment: Option<TcpSegment>,
}

/// What a [`TcpSegment`] holds.
pub struct TcpView {
    pub source_port: u16,
    pub destination_port: u16,
    pub sequence_number: u32,
    pub payload: Seq<u8>,
}

/// What [`IpAddresses`] hold.
pub struct AddressesView {
    pub source: Text,
    pub destination: Text,
}

/// What [`PacketLayers`] hold.
pub struct LayersView {
    pub addresses: Option<AddressesView>,
    pub segment: Option<TcpView>,
}

impl View for TcpSegment {
    type V = TcpView;

    open spec fn view(&self) -> TcpView {
        TcpView {
            source_port: self.source_port,
            destination_port: self.destination_port,
            sequence_number: self.sequence_number,
            payload: self.payload@,
        }
    }
}

impl View for IpAddresses {
    type V = AddressesView;

    open spec fn view(&self) -> AddressesView {
        AddressesView { source: self.source@, destination: self.destination@ }
    }
}

impl View for PacketLayers {
    type V = LayersView;

    open spec fn view(&self) -> LayersView {
        LayersView {
            addresses: match self.addresses {
                Some(addresses) => Some(addresses@),
                None => None,
            },
            segment: match self.segment {
                Some(segment) => Some(segment@),
                None => None,
            },
        }
    }
}

/// What `etherparse` finds in the bytes of an Ethernet II frame; nothing where it reports
/// an error. First the source and the destination address, if the network layer is IPv4 or
/// IPv6; then the source port, the destination port, the sequence number and the payload,
/// if the transport layer is TCP.
pub uninterp spec fn ethernet_slices(packet: Seq<u8>) -> Option<
    (Option<(Seq<char>, Seq<char>)>, Option<(u16, u16, u32, Seq<u8>)>),
>;

/// The layers that are found in the bytes of an Ethernet II frame.
pub open spec fn ethernet_layers(packet: Seq<u8>) -> Option<LayersView> {
    match ethernet_slices(packet) {
        Some((ip, tcp)) => Some(
            LayersView {
                addresses: match ip {
                    Some((source, destination)) => Some(AddressesView { source, destination }),
                    None => None,
                },
                segment: match tcp {
                    Some((source_port, destination_port, sequence_number, payload)) => Some(
                        TcpView { source_port, destination_port, sequence_number, payload },
                    ),
                    None => None,
                },
            },
        ),
        None => None,
    }
}

/// Calls `etherparse::SlicedPacket::from_ethernet`. What it finds depends on the bytes of
/// the packet alone. An address is handed out in the notation that its type displays, a
/// TCP segment by its ports, its sequence number and its payload.
#[verifier::external_body]
fn slice_ethernet(packet: &[u8]) -> (found: Option<
    (Option<(String, String)>, Option<(u16, u16, u32, Vec<u8>)>),
>)
    ensures
        match found {
            None => ethernet_slices(packet@) is None,
            Some((ip, tcp)) => ethernet_slices(packet@) == Some(
                (
                    match ip {
                        Some((source, destination)) => Some((source@, destination@)),
                        None => None,
                    },
                    match tcp {
                        Some((from, to, number, payload)) => Some((from, to, number, payload@)),
                        None => None,
                    },
                ),
            ),
        },
{
    let sliced = SlicedPacket::from_ethernet(packet).ok()?;
    let ip = match sliced.net {
        Some(NetSlice::Ipv4(ip)) => Some(
            (ip.header().source_addr().to_string(), ip.header().destination_addr().to_string())),
        Some(NetSlice::Ipv6(ip)) => Some(
            (ip.header().source_addr().to_string(), ip.header().destination_addr().to_string())),
        _ => None,
    };
    let tcp = match sliced.transport {
        Some(TransportSlice::Tcp(tcp)) => Some(
            (tcp.source_port(), tcp.destination_port(), tcp.sequence_number(), tcp.payload().to_vec())),
        _ => None,
    };
    Some((ip, tcp))
}

/// The layers of a packet that starts with an Ethernet II header, if they can be read.
pub fn packet_layers(packet: &[u8]) -> (layers: Option<PacketLayers>)
    ensures
        layers is Some <==> ethernet_layers(packet@) is Some,
        layers matches Some(l) ==> ethernet_layers(packet@) == Some(l@),
        layers is Some <==> ethernet_slices(packet@) is Some,
        layers matches Some(l) ==> {
            let (ip, tcp) = ethernet_slices(packet@)->Some_0;
            &&& l.addresses is Some <==> ip is Some
            &&& l.segment is Some <==> tcp is Some
            &&& l.addresses matches Some(a) ==> ip == Some((a.source@, a.destination@))
            &&& l.segment matches Some(s) ==> tcp == Some(
                (s.source_port, s.destination_port, s.sequence_number, s.payload@),
            )
        },
{
    match slice_ethernet(packet) {
        None => None,
        Some((ip, tcp)) => {
            let addresses = match ip {
                Some((source, destination)) => Some(IpAddresses { source, destination }),
                None => None,
            };
            let segment = match tcp {
                Some((source_port, destination_port, sequence_number, payload)) => Some(
                    TcpSegment { source_port, destination_port, sequence_number, payload },
                ),
                None => None,
            };
            Some(PacketLayers { addresses, segment })
        },
    }
}

/// The layers of a frame are what the slices of its bytes hold, all of it and nothing else.
pub proof fn law_layers_are_the_slices(packet: Seq<u8>)
    ensures
        ethernet_layers(packet) is Some <==> ethernet_slices(packet) is Some,
        ethernet_slices(packet) matches Some((ip, tcp)) ==> {
            let layers = ethernet_layers(packet)->Some_0;
            &&& layers.addresses is Some <==> ip is Some
            &&& layers.segment is Some <==> tcp is Some
            &&& ip matches Some((source, destination)) ==> layers.addresses->Some_0.source == source
                && layers.addresses->Some_0.destination == destination
            &&& tcp matches Some((from, to, number, payload)) ==> {
                &&& layers.segment->Some_0.source_port == from
                &&& layers.segment->Some_0.destination_port == to
                &&& layers.segment->Some_0.sequence_number == number
                &&& layers.segment->Some_0.payload == payload
            }
        },
{
}

/// Layers stand for the texts, numbers and bytes of their fields.
pub proof fn law_layers_stand_for_their_fields(layers: PacketLayers)
    ensures
        layers@.addresses is Some <==> layers.addresses is Some,
        layers@.segment is Some <==> layers.segment is Some,
        layers.addresses matches Some(a) ==> layers@.addresses->Some_0.source == a.source@
            && layers@.addresses->Some_0.destination == a.destination@,
        layers.segment matches Some(s) ==> {
            &&& layers@.segment->Some_0.source_port == s.source_port
            &&& layers@.segment->Some_0.destination_port == s.destination_port
            &&& layers@.segment->Some_0.sequence_number == s.sequence_number
            &&& layers@.segment->Some_0.payload == s.payload@
        },
{
}

} // verus!
