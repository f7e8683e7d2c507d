//! SSH sessions and what their hosts can do.

use vstd::prelude::*;
use linked_hash_set::LinkedHashSet;
use crate::kexinit::{kexinit, parse_ssh_kexinit, KexInit};
use crate::layers::{ethernet_layers, packet_layers, LayersView, PacketLayers};
use crate::ssh_laws::{agrees, law_names_are_gathered};
use crate::table::{listed, Key, Table, Value};
use crate::text::{endpoint, endpoint_text, texts, Text};

verus! {

// ---------------------------------------------------------------------------------------
// Negotiation
// ---------------------------------------------------------------------------------------

/// The method that two announcements agree on: the first one of the client that the server
/// announced too.
pub open spec fn first_common(client: Seq<Text>, server: Seq<Text>) -> Option<Text>
    decreases client.len(),
{
    if client.len() == 0 {
        None
    } else if server.contains(client[0]) {
        Some(client[0])
    } else {
        first_common(client.drop_first(), server)
    }
}

/// Whether `name` is in the list.
fn has_name(list: &[String], name: &String) -> (found: bool)
    ensures
        found == texts(list@).contains(name@),
{
    let mut i: usize = 0;
    while i < list.len()
        invariant
            i <= list.len(),
            forall|j: int| 0 <= j < i ==> list[j]@ != name@,
        decreases list.len() - i,
    {
        if list[i] == *name {
            assert(texts(list@)[i as int] == name@);
            return true;
        }
        i = i + 1;
    }
    assert forall|j: int| 0 <= j < texts(list@).len() implies texts(list@)[j] != name@ by {
        assert(texts(list@)[j] == list[j]@);
    }
    false
}

/// Finds the method that client and server agree on.
pub fn negotiate(client: &[String], server: &[String]) -> (agreed: Option<String>)
    ensures
        match agreed {
            Some(name) => first_common(texts(client@), texts(server@)) == Some(name@),
            None => first_common(texts(client@), texts(server@)) is None,
        },
{
    let ghost all = texts(client@);
    let mut i: usize = 0;
    assert(all.skip(0) =~= all);
    while i < client.len()
        invariant
            i <= client.len(),
            all == texts(client@),
            first_common(all, texts(server@)) == first_common(all.skip(i as int), texts(server@)),
        decreases client.len() - i,
    {
        assert(all.skip(i as int)[0] == client[i as int]@);
        if has_name(server, &client[i]) {
            return Some(client[i].clone());
        }
        assert(all.skip(i as int).drop_first() =~= all.skip(i + 1));
        i = i + 1;
    }
    None
}

// ---------------------------------------------------------------------------------------
// Sessions
// ---------------------------------------------------------------------------------------

/// The two ends of a flow, the sender first, each as `address:port`.
#[derive(Hash, Eq, PartialEq, Debug)]
pub struct FlowKey {
    src: String,
    dst: String,
}

/// What a [`FlowKey`] stands for.
pub struct FlowView {
    pub src: Text,
    pub dst: Text,
}

impl FlowView {
    /// The same flow in the other direction.
    pub open spec fn reversed(self) -> FlowView {
        FlowView { src: self.dst, dst: self.src }
    }
}

impl View for FlowKey {
    type V = FlowView;

    closed spec fn view(&self) -> FlowView {
        FlowView { src: self.src@, dst: self.dst@ }
    }
}

impl Key for FlowKey {
    fn same(&self, other: &Self) -> (same: bool) {
        self.src == other.src && self.dst == other.dst
    }
}

impl Clone for FlowKey {
    fn clone(&self) -> (copy: Self)
        ensures
            copy@ == self@,
    {
        FlowKey { src: self.src.clone(), dst: self.dst.clone() }
    }
}

impl FlowKey {
    /// The sending end.
    pub fn src(&self) -> (s: &str)
        ensures
            s@ == self@.src,
    {
        &self.src
    }

    /// The receiving end.
    pub fn dst(&self) -> (s: &str)
        ensures
            s@ == self@.dst,
    {
        &self.dst
    }

    /// The same flow in the other direction.
    fn reversed(&self) -> (r: FlowKey)
        ensures
            r@ == self@.reversed(),
    {
        FlowKey { src: self.dst.clone(), dst: self.src.clone() }
    }
}

/// What a session agreed on.
#[derive(Debug)]
pub struct NegotiatedAlgorithms {
    kex: String,
}

impl View for NegotiatedAlgorithms {
    type V = Text;

    closed spec fn view(&self) -> Text {
        self.kex@
    }
}

impl NegotiatedAlgorithms {
    /// The key-exchange method.
    pub fn kex(&self) -> (name: &str)
        ensures
            name@ == self@,
    {
        &self.kex
    }
}

/// A session: the announcements of both ends, and what they agree on.
#[derive(Debug)]
pub struct SshSession {
    client_kexinit: Option<KexInit>,
    server_kexinit: Option<KexInit>,
    negotiated: Option<NegotiatedAlgorithms>,
}

/// What an [`SshSession`] holds.
#[verifier::ext_equal]
pub struct SessionView {
    pub client: Option<Seq<Text>>,
    pub server: Option<Seq<Text>>,
    pub negotiated: Option<Text>,
}

impl SessionView {
    /// A session of which nothing is known.
    pub open spec fn unknown() -> SessionView {
        SessionView { client: None, server: None, negotiated: None }
    }

    /// Whether the announcement of one end, the client's when `forward`, is still missing.
    pub open spec fn awaits(self, forward: bool) -> bool {
        if forward {
            self.client is None
        } else {
            self.server is None
        }
    }

    /// The session once an announcement of one end was seen. The first one of each end
    /// counts; the session agrees on a method as soon as both ends are known.
    pub open spec fn observed(self, forward: bool, kex: Seq<Text>) -> SessionView {
        let known = if forward && self.client is None {
            SessionView { client: Some(kex), ..self }
        } else if !forward && self.server is None {
            SessionView { server: Some(kex), ..self }
        } else {
            self
        };
        match (known.client, known.server, known.negotiated) {
            (Some(client), Some(server), None) => SessionView {
                negotiated: first_common(client, server),
                ..known
            },
            _ => known,
        }
    }
}

impl View for SshSession {
    type V = SessionView;

    closed spec fn view(&self) -> SessionView {
        SessionView {
            client: match self.client_kexinit {
                Some(kex) => Some(kex@),
                None => None,
            },
            server: match self.server_kexinit {
                Some(kex) => Some(kex@),
                None => None,
            },
            negotiated: match self.negotiated {
                Some(agreed) => Some(agreed@),
                None => None,
            },
        }
    }
}

impl Value for SshSession {
    /// The session agrees on what its announcements say.
    open spec fn valid(&self) -> bool {
        agrees(self@)
    }
}

impl SshSession {
    /// What the session agreed on, once it did.
    pub fn negotiated(&self) -> (agreed: Option<&NegotiatedAlgorithms>)
        ensures
            match agreed {
                Some(a) => self@.negotiated == Some(a@),
                None => self@.negotiated is None,
            },
    {
        self.negotiated.as_ref()
    }

    fn unknown() -> (s: SshSession)
        ensures
            s@ == SessionView::unknown(),
    {
        SshSession { client_kexinit: None, server_kexinit: None, negotiated: None }
    }

    fn awaits(&self, forward: bool) -> (b: bool)
        ensures
            b == self@.awaits(forward),
    {
        if forward {
            self.client_kexinit.is_none()
        } else {
            self.server_kexinit.is_none()
        }
    }

    fn observe(&mut self, forward: bool, kex: KexInit)
        ensures
            final(self)@ == old(self)@.observed(forward, kex@),
            old(self).valid() ==> final(self).valid(),
    {
        if forward {
            if self.client_kexinit.is_none() {
                self.client_kexinit = Some(kex);
            }
        } else {
            if self.server_kexinit.is_none() {
                self.server_kexinit = Some(kex);
            }
        }
        if self.negotiated.is_none() {
            let agreed = match (&self.client_kexinit, &self.server_kexinit) {
                (Some(client), Some(server)) => negotiate(
                    client.kex_algorithms(),
                    server.kex_algorithms(),
                ),
                _ => None,
            };
            if let Some(kex) = agreed {
                self.negotiated = Some(NegotiatedAlgorithms { kex });
            }
        }
    }
}

// ---------------------------------------------------------------------------------------
// Hosts
// ---------------------------------------------------------------------------------------

/// The set type of the `linked_hash_set` crate: it keeps its elements in a line.
#[verifier::external_type_specification]
#[verifier::external_body]
#[verifier::reject_recursive_types(T)]
#[verifier::reject_recursive_types(S)]
pub struct ExLinkedHashSet<T, S>(LinkedHashSet<T, S>);

/// The names that a linked set holds, in its order.
pub uninterp spec fn linked_names(set: LinkedHashSet<String>) -> Seq<Seq<char>>;

/// The names once one more came in: it goes to the end, and leaves the place where it may
/// have been before.
pub open spec fn with_name(names: Seq<Text>, name: Text) -> Seq<Text> {
    if names.contains(name) {
        names.remove(names.index_of(name)).push(name)
    } else {
        names.push(name)
    }
}

/// The names once those of a list came in, one after the other.
pub open spec fn with_names(names: Seq<Text>, list: Seq<Text>) -> Seq<Text>
    decreases list.len(),
{
    if list.len() == 0 {
        names
    } else {
        with_name(with_names(names, list.drop_last()), list.last())
    }
}

/// Calls `LinkedHashSet::default`, which makes a set without elements.
#[verifier::external_body]
fn empty_linked_set() -> (set: LinkedHashSet<String>)
    ensures
        linked_names(set) == Seq::<Text>::empty(),
{
    LinkedHashSet::default()
}

/// Calls `LinkedHashSet::insert`, which puts the value at the end of the order, whether the
/// set had it or not, and says whether it is new.
#[verifier::external_body]
fn insert_linked(set: &mut LinkedHashSet<String>, name: String) -> (new: bool)
    ensures
        linked_names(*final(set)) == with_name(linked_names(*old(set)), name@),
        new == !linked_names(*old(set)).contains(name@),
{
    set.insert(name)
}

/// Calls `LinkedHashSet::iter`, which visits the elements in their order, and copies each.
#[verifier::external_body]
fn linked_items(set: &LinkedHashSet<String>) -> (items: Vec<String>)
    ensures
        texts(items@) == linked_names(*set),
{
    set.iter().cloned().collect()
}

/// What a host can do.
pub struct HostCapabilities {
    supported_kex: LinkedHashSet<String>,
}

impl View for HostCapabilities {
    type V = Seq<Text>;

    closed spec fn view(&self) -> Seq<Text> {
        linked_names(self.supported_kex)
    }
}

impl Value for HostCapabilities {
    /// No method is listed twice.
    open spec fn valid(&self) -> bool {
        self@.no_duplicates()
    }
}

impl Default for HostCapabilities {
    fn default() -> (caps: Self)
        ensures
            caps.valid(),
            caps@ == Seq::<Text>::empty(),
    {
        HostCapabilities { supported_kex: empty_linked_set() }
    }
}

impl HostCapabilities {
    /// The key-exchange methods that the host announced, the latest last.
    pub fn supported_kex(&self) -> (set: &LinkedHashSet<String>)
        ensures
            linked_names(*set) == self@,
    {
        &self.supported_kex
    }

    /// The key-exchange methods that the host announced, the latest last, as a list.
    pub fn supported_names(&self) -> (names: Vec<String>)
        ensures
            texts(names@) == self@,
    {
        linked_items(self.supported_kex())
    }

    fn add(&mut self, list: &Vec<String>)
        ensures
            final(self)@ == with_names(old(self)@, texts(list@)),
            old(self).valid() ==> final(self).valid(),
    {
        let ghost all = texts(list@);
        let mut i: usize = 0;
        assert(all.take(0).len() == 0);
        while i < list.len()
            invariant
                i <= list.len(),
                all == texts(list@),
                self@ == with_names(old(self)@, all.take(i as int)),
            decreases list.len() - i,
        {
            insert_linked(&mut self.supported_kex, list[i].clone());
            assert(all.take(i + 1).drop_last() =~= all.take(i as int));
            assert(all.take(i + 1).last() == list[i as int]@);
            i = i + 1;
        }
        assert(all.take(list.len() as int) =~= all);
        proof {
            law_names_are_gathered(old(self)@, all);
        }
    }
}

/// The sessions seen so far, by the flow of their first announcement.
pub type SshSessions = Table<FlowKey, SshSession>;

/// What each host announced so far, by its address.
pub type HostTable = Table<String, HostCapabilities>;

/// What is known of a host; nothing of a host that is not in the table.
pub open spec fn known_names(hosts: Map<Text, Seq<Text>>, host: Text) -> Seq<Text> {
    if hosts.contains_key(host) {
        hosts[host]
    } else {
        Seq::empty()
    }
}

/// The hosts once the announcement of one of them was noted.
pub open spec fn noted(hosts: Map<Text, Seq<Text>>, host: Text, kex: Seq<Text>) -> Map<
    Text,
    Seq<Text>,
> {
    hosts.insert(host, with_names(known_names(hosts, host), kex))
}

/// Notes what a host announced.
pub fn update_host_caps(host_caps: &mut HostTable, host: &str, kex: &KexInit)
    requires
        old(host_caps).wf(),
    ensures
        final(host_caps).wf(),
        final(host_caps)@ == noted(old(host_caps)@, host@, kex@),
        final(host_caps).order() == listed(old(host_caps).order(), host@),
{
    let host: String = host.to_owned();
    proof {
        host_caps.lemma_order();
        assert(host_caps.order().contains(host@) == host_caps.order().to_set().contains(host@));
    }
    if !host_caps.contains_key(&host) {
        host_caps.insert(host.clone(), HostCapabilities::default());
    }
    if let Some(caps) = host_caps.get_mut(&host) {
        caps.add(kex.kex_algorithms());
    }
    assert(host_caps@ =~= noted(old(host_caps)@, host@, kex@));
}

// ---------------------------------------------------------------------------------------
// Packets
// ---------------------------------------------------------------------------------------

/// Everything that is known of SSH: the sessions and the hosts, and for both the order in
/// which they were first seen.
#[verifier::ext_equal]
pub struct SshState {
    pub sessions: Map<FlowView, SessionView>,
    pub session_order: Seq<FlowView>,
    pub hosts: Map<Text, Seq<Text>>,
    pub host_order: Seq<Text>,
}

/// The flow of a packet, if it is TCP over IP.
pub open spec fn flow_of(layers: LayersView) -> Option<FlowView> {
    match (layers.addresses, layers.segment) {
        (Some(addresses), Some(segment)) => Some(
            FlowView {
                src: endpoint(addresses.source, segment.source_port),
                dst: endpoint(addresses.destination, segment.destination_port),
            },
        ),
        _ => None,
    }
}

/// Whether a flow is that of a session's client: it is, unless only the reversed flow is
/// known.
pub open spec fn is_forward(sessions: Map<FlowView, SessionView>, flow: FlowView) -> bool {
    sessions.contains_key(flow) || !sessions.contains_key(flow.reversed())
}

/// The flow under which the session of a flow stands.
pub open spec fn session_key(sessions: Map<FlowView, SessionView>, flow: FlowView) -> FlowView {
    if is_forward(sessions, flow) {
        flow
    } else {
        flow.reversed()
    }
}

/// The session of a flow; an unknown one, if there is none yet.
pub open spec fn session_of(sessions: Map<FlowView, SessionView>, flow: FlowView) -> SessionView {
    let key = session_key(sessions, flow);
    if sessions.contains_key(key) {
        sessions[key]
    } else {
        SessionView::unknown()
    }
}

impl SshState {
    /// The state before anything was seen.
    pub open spec fn nothing() -> SshState {
        SshState {
            sessions: Map::empty(),
            session_order: Seq::empty(),
            hosts: Map::empty(),
            host_order: Seq::empty(),
        }
    }

    /// The state once a host has sent an announcement along a flow. The first announcement
    /// of each end of a session is noted for its host too.
    pub open spec fn announced(self, host: Text, flow: FlowView, kex: Seq<Text>) -> SshState {
        let forward = is_forward(self.sessions, flow);
        let session = session_of(self.sessions, flow);
        SshState {
            sessions: self.sessions.insert(
                session_key(self.sessions, flow),
                session.observed(forward, kex),
            ),
            session_order: listed(self.session_order, session_key(self.sessions, flow)),
            hosts: if session.awaits(forward) {
                noted(self.hosts, host, kex)
            } else {
                self.hosts
            },
            host_order: if session.awaits(forward) {
                listed(self.host_order, host)
            } else {
                self.host_order
            },
        }
    }

    /// The state once an announcement was found in a packet with the given layers; a packet
    /// that is not TCP over IP changes nothing.
    pub open spec fn received(self, layers: LayersView, kex: Seq<Text>) -> SshState {
        match flow_of(layers) {
            Some(flow) => self.announced(layers.addresses->Some_0.source, flow, kex),
            None => self,
        }
    }

    /// The state once a payload was seen in a packet with the given layers. Only an
    /// announcement counts, and only where the layers could be read.
    pub open spec fn seen(self, layers: Option<LayersView>, payload: Seq<u8>) -> SshState {
        match (kexinit(payload), layers) {
            (Some(kex), Some(layers)) => self.received(layers, kex),
            _ => self,
        }
    }
}

/// The state that two tables hold.
pub open spec fn state_of(sessions: SshSessions, host_caps: HostTable) -> SshState {
    SshState {
        sessions: sessions@,
        session_order: sessions.order(),
        hosts: host_caps@,
        host_order: host_caps.order(),
    }
}

/// Takes in an announcement that a packet with the given layers carried.
pub fn record_kexinit(
    layers: &PacketLayers,
    kex: KexInit,
    sessions: &mut SshSessions,
    host_caps: &mut HostTable,
)
    requires
        old(sessions).wf(),
        old(host_caps).wf(),
    ensures
        final(sessions).wf(),
        final(host_caps).wf(),
        state_of(*final(sessions), *final(host_caps)) == state_of(
            *old(sessions),
            *old(host_caps),
        ).received(layers@, kex@),
{
    let segment = match &layers.segment {
        Some(segment) => segment,
        None => {
            return ;
        },
    };
    let addresses = match &layers.addresses {
        Some(addresses) => addresses,
        None => {
            return ;
        },
    };
    let flow = FlowKey {
        src: endpoint_text(&addresses.source, segment.source_port),
        dst: endpoint_text(&addresses.destination, segment.destination_port),
    };
    let reverse_flow = flow.reversed();
    proof {
        sessions.lemma_order();
        assert forall|f: FlowView| sessions.order().contains(f) == sessions@.contains_key(f) by {
            assert(sessions.order().to_set().contains(f) == sessions@.dom().contains(f));
        }
    }
    let forward = sessions.contains_key(&flow) || !sessions.contains_key(&reverse_flow);
    let key = if forward {
        flow
    } else {
        reverse_flow
    };
    if !sessions.contains_key(&key) {
        sessions.insert(key.clone(), SshSession::unknown());
    }
    if let Some(session) = sessions.get_mut(&key) {
        if session.awaits(forward) {
            update_host_caps(host_caps, &addresses.source, &kex);
        }
        session.observe(forward, kex);
    }
    assert(sessions@ =~= state_of(*old(sessions), *old(host_caps)).received(
        layers@,
        kex@,
    ).sessions);
}

/// Looks for an SSH announcement in the payload of a packet, which starts with an Ethernet
/// II header, and takes it in.
pub fn process_ssh(
    packet: &[u8],
    payload: &[u8],
    sessions: &mut SshSessions,
    host_caps: &mut HostTable,
)
    requires
        old(sessions).wf(),
        old(host_caps).wf(),
    ensures
        final(sessions).wf(),
        final(host_caps).wf(),
        state_of(*final(sessions), *final(host_caps)) == state_of(
            *old(sessions),
            *old(host_caps),
        ).seen(ethernet_layers(packet@), payload@),
{
    let kex = match parse_ssh_kexinit(payload) {
        Some(kex) => kex,
        None => {
            return ;
        },
    };
    let layers = match packet_layers(packet) {
        Some(layers) => layers,
        None => {
            return ;
        },
    };
    record_kexinit(&layers, kex, sessions, host_caps);
}

} // verus!
