//! What holds of SSH sessions and hosts, whatever packets come in.

use vstd::prelude::*;
use crate::kexinit::kexinit;
use crate::layers::LayersView;
use crate::ssh::{
    first_common, flow_of, is_forward, known_names, noted, session_key, session_of, with_name, with_names,
    state_of, FlowView, HostTable, SessionView, SshSessions, SshState,
};
use crate::table::listed;
use crate::text::{endpoint, law_endpoint_injective, Text};

verus! {

// ---------------------------------------------------------------------------------------
// Negotiation
// ---------------------------------------------------------------------------------------

/// What is agreed on is the client's first method that the server announced; nothing is
/// agreed on exactly when the two have no method in common.
pub proof fn law_agreed_is_first_common(client: Seq<Text>, server: Seq<Text>)
    ensures
        first_common(client, server) matches Some(name) ==> server.contains(name) && exists|i: int|
            0 <= i < client.len() && #[trigger] client[i] == name && forall|j: int|
                0 <= j < i ==> !server.contains(#[trigger] client[j]),
        first_common(client, server) is None <==> forall|i: int|
            0 <= i < client.len() ==> !server.contains(#[trigger] client[i]),
    decreases client.len(),
{
    if client.len() > 0 && !server.contains(client[0]) {
        let rest = client.drop_first();
        law_agreed_is_first_common(rest, server);
        if let Some(name) = first_common(rest, server) {
            let i = choose|i: int|
                0 <= i < rest.len() && #[trigger] rest[i] == name && forall|j: int|
                    0 <= j < i ==> !server.contains(#[trigger] rest[j]);
            assert(client[i + 1] == name);
            assert forall|j: int| 0 <= j < i + 1 implies !server.contains(#[trigger] client[j]) by {
                if j > 0 {
                    assert(rest[j - 1] == client[j]);
                }
            }
        } else {
            assert forall|i: int| 0 <= i < client.len() implies !server.contains(#[trigger] client[i]) by {
                if i > 0 {
                    assert(rest[i - 1] == client[i]);
                }
            }
        }
    } else if client.len() > 0 {
        assert(client[0] == first_common(client, server)->Some_0);
    }
}

/// The order in which the server announces its methods does not matter, nor how often it
/// names one.
pub proof fn law_server_order_does_not_matter(client: Seq<Text>, a: Seq<Text>, b: Seq<Text>)
    requires
        forall|name: Text| a.contains(name) <==> b.contains(name),
    ensures
        first_common(client, a) == first_common(client, b),
    decreases client.len(),
{
    if client.len() > 0 {
        law_server_order_does_not_matter(client.drop_first(), a, b);
    }
}

// ---------------------------------------------------------------------------------------
// Sessions
// ---------------------------------------------------------------------------------------

/// A session has agreed on exactly what its two announcements have in common first, and on
/// nothing while one of them is missing.
pub open spec fn agrees(session: SessionView) -> bool {
    session.negotiated == match (session.client, session.server) {
        (Some(client), Some(server)) => first_common(client, server),
        _ => None,
    }
}

/// A session always agrees on what its announcements say.
pub proof fn law_session_agrees(session: SessionView, forward: bool, kex: Seq<Text>)
    requires
        agrees(session),
    ensures
        agrees(SessionView::unknown()),
        agrees(session.observed(forward, kex)),
{
}

/// What is known of a session is never changed: the first announcement of each end stays,
/// and so does what the two agreed on.
pub proof fn law_known_stays(session: SessionView, forward: bool, kex: Seq<Text>)
    ensures
        session.client is Some ==> session.observed(forward, kex).client == session.client,
        session.server is Some ==> session.observed(forward, kex).server == session.server,
        session.negotiated is Some ==> session.observed(forward, kex).negotiated
            == session.negotiated,
{
}

/// An announcement only ever fills in the end that sent it.
pub proof fn law_other_end_untouched(session: SessionView, kex: Seq<Text>)
    ensures
        session.observed(true, kex).server == session.server,
        session.observed(false, kex).client == session.client,
{
}

// ---------------------------------------------------------------------------------------
// Hosts
// ---------------------------------------------------------------------------------------

proof fn lemma_with_name(names: Seq<Text>, name: Text)
    ensures
        forall|x: Text| with_name(names, name).contains(x) <==> names.contains(x) || x == name,
        names.no_duplicates() ==> with_name(names, name).no_duplicates(),
{
    let new = with_name(names, name);
    assert(new[new.len() - 1] == name);
    if names.contains(name) {
        let at = names.index_of(name);
        let rest = names.remove(at);
        assert(names[at] == name);
        assert forall|x: Text| names.contains(x) implies new.contains(x) by {
            let i = names.index_of(x);
            assert(names[i] == x);
            if i < at {
                assert(new[i] == x);
            } else if i > at {
                assert(new[i - 1] == x);
            }
        }
        assert forall|x: Text| new.contains(x) implies names.contains(x) || x == name by {
            let i = new.index_of(x);
            assert(new[i] == x);
            if i < at {
                assert(names[i] == x);
            } else if i < rest.len() {
                assert(names[i + 1] == x);
            }
        }
        if names.no_duplicates() {
            assert forall|i: int, j: int| 0 <= i < new.len() && 0 <= j < new.len() && i != j implies new[i]
                != new[j] by {
                let oi = if i == rest.len() { at } else if i < at { i } else { i + 1 };
                let oj = if j == rest.len() { at } else if j < at { j } else { j + 1 };
                assert(new[i] == names[oi]);
                assert(new[j] == names[oj]);
            }
        }
    } else {
        assert forall|x: Text| names.contains(x) implies new.contains(x) by {
            let i = names.index_of(x);
            assert(new[i] == x);
        }
        assert forall|x: Text| new.contains(x) implies names.contains(x) || x == name by {
            let i = new.index_of(x);
            if i < names.len() {
                assert(names[i] == x);
            }
        }
    }
}

/// A host is known to support what it announced and what it was known to support before,
/// and nothing else; no method is listed twice.
pub proof fn law_names_are_gathered(names: Seq<Text>, list: Seq<Text>)
    ensures
        forall|x: Text| with_names(names, list).contains(x) <==> names.contains(x) || list.contains(x),
        names.no_duplicates() ==> with_names(names, list).no_duplicates(),
    decreases list.len(),
{
    if list.len() > 0 {
        let shorter = list.drop_last();
        law_names_are_gathered(names, shorter);
        lemma_with_name(with_names(names, shorter), list.last());
        assert forall|x: Text| list.contains(x) <==> shorter.contains(x) || x == list.last() by {
            if list.contains(x) {
                let i = list.index_of(x);
                if i < shorter.len() {
                    assert(shorter[i] == x);
                }
            }
            if shorter.contains(x) {
                let i = shorter.index_of(x);
                assert(list[i] == x);
            }
            assert(list[list.len() - 1] == list.last());
        }
    }
}

/// Noting an announcement concerns its host alone, and forgets nothing of it.
pub proof fn law_noting_forgets_nothing(
    hosts: Map<Text, Seq<Text>>,
    host: Text,
    kex: Seq<Text>,
    other: Text,
    name: Text,
)
    ensures
        known_names(hosts, other).contains(name) ==> known_names(noted(hosts, host, kex), other).contains(
            name,
        ),
        kex.contains(name) ==> known_names(noted(hosts, host, kex), host).contains(name),
        other != host ==> known_names(noted(hosts, host, kex), other) == known_names(hosts, other),
{
    law_names_are_gathered(known_names(hosts, host), kex);
}

// ---------------------------------------------------------------------------------------
// States
// ---------------------------------------------------------------------------------------

/// What holds of every state: each session has its client's announcement and agrees on what
/// its announcements say, no session stands under both directions of its flow, no host has a
/// method listed twice, and the two orders list each session and each host once.
pub open spec fn sound(state: SshState) -> bool {
    &&& forall|f: FlowView| #[trigger]
        state.sessions.contains_key(f) ==> state.sessions[f].client is Some && agrees(
            state.sessions[f],
        )
    &&& forall|f: FlowView| #[trigger]
        state.sessions.contains_key(f) && state.sessions.contains_key(f.reversed()) ==> f
            == f.reversed()
    &&& forall|h: Text| #[trigger] state.hosts.contains_key(h) ==> state.hosts[h].no_duplicates()
    &&& state.session_order.no_duplicates()
    &&& state.session_order.to_set() == state.sessions.dom()
    &&& state.host_order.no_duplicates()
    &&& state.host_order.to_set() == state.hosts.dom()
}

proof fn lemma_listed<A>(order: Seq<A>, key: A)
    ensures
        listed(order, key).to_set() == order.to_set().insert(key),
        order.no_duplicates() ==> listed(order, key).no_duplicates(),
        order.is_prefix_of(listed(order, key)),
{
    let longer = listed(order, key);
    if !order.contains(key) {
        assert(longer[order.len() as int] == key);
        assert forall|x: A| order.contains(x) implies longer.contains(x) by {
            assert(longer[order.index_of(x)] == x);
        }
    }
    assert(longer.to_set() =~= order.to_set().insert(key));
}

proof fn lemma_announced_stays_sound(state: SshState, host: Text, flow: FlowView, kex: Seq<Text>)
    requires
        sound(state),
    ensures
        sound(state.announced(host, flow, kex)),
{
    let next = state.announced(host, flow, kex);
    let key = session_key(state.sessions, flow);
    assert(flow.reversed().reversed() == flow);
    law_names_are_gathered(known_names(state.hosts, host), kex);
    lemma_listed(state.session_order, key);
    lemma_listed(state.host_order, host);
    assert(next.session_order.to_set() =~= next.sessions.dom());
    assert(next.host_order.to_set() =~= next.hosts.dom());
    assert forall|f: FlowView| #[trigger]
        next.sessions.contains_key(f) && next.sessions.contains_key(f.reversed()) implies f
        == f.reversed() by {
        assert(f.reversed().reversed() == f);
        if f != key {
            assert(state.sessions.contains_key(f));
        }
        if f.reversed() != key {
            assert(state.sessions.contains_key(f.reversed()));
        }
    }
}

/// Before any packet the state is sound, and every packet leaves it sound.
pub proof fn law_state_stays_sound(state: SshState, layers: Option<LayersView>, payload: Seq<u8>)
    ensures
        sound(SshState::nothing()),
        sound(state) ==> sound(state.seen(layers, payload)),
{
    let nothing = SshState::nothing();
    assert(nothing.session_order.to_set() =~= nothing.sessions.dom());
    assert(nothing.host_order.to_set() =~= nothing.hosts.dom());
    if sound(state) {
        if let Some(kex) = kexinit(payload) {
            if let Some(l) = layers {
                if let Some(flow) = flow_of(l) {
                    lemma_announced_stays_sound(state, l.addresses->Some_0.source, flow, kex);
                }
            }
        }
    }
}

/// The state after a number of payloads, each with the layers of its packet, starting with
/// none.
pub open spec fn after_all(seen: Seq<(Option<LayersView>, Seq<u8>)>) -> SshState
    decreases seen.len(),
{
    if seen.len() == 0 {
        SshState::nothing()
    } else {
        after_all(seen.drop_last()).seen(seen.last().0, seen.last().1)
    }
}

/// Whatever was captured, the state is sound.
pub proof fn law_every_capture_sound(seen: Seq<(Option<LayersView>, Seq<u8>)>)
    ensures
        sound(after_all(seen)),
    decreases seen.len(),
{
    if seen.len() > 0 {
        law_every_capture_sound(seen.drop_last());
        law_state_stays_sound(after_all(seen.drop_last()), seen.last().0, seen.last().1);
    } else {
        law_state_stays_sound(SshState::nothing(), None, Seq::empty());
    }
}

/// Sessions and hosts stay in the order in which they were first seen: what is seen later
/// only ever adds to the end of either order.
pub proof fn law_order_of_first_sight_stays(
    state: SshState,
    layers: Option<LayersView>,
    payload: Seq<u8>,
)
    ensures
        state.session_order.is_prefix_of(state.seen(layers, payload).session_order),
        state.host_order.is_prefix_of(state.seen(layers, payload).host_order),
        state.seen(layers, payload).session_order.len() <= state.session_order.len() + 1,
        state.seen(layers, payload).host_order.len() <= state.host_order.len() + 1,
{
    if let Some(l) = layers {
        if let Some(flow) = flow_of(l) {
            lemma_listed(state.session_order, session_key(state.sessions, flow));
            lemma_listed(state.host_order, l.addresses->Some_0.source);
        }
    }
}

/// Whether the host at an end of a flow is known to support all methods of a list.
pub open spec fn knows(hosts: Map<Text, Seq<Text>>, end: Text, list: Seq<Text>) -> bool {
    exists|host: Text, port: u16| #[trigger]
        endpoint(host, port) == end && forall|name: Text|
            list.contains(name) ==> known_names(hosts, host).contains(name)
}

/// Whether the hosts are known to support whatever their sessions show.
pub open spec fn hosts_know(state: SshState) -> bool {
    forall|f: FlowView| #[trigger]
        state.sessions.contains_key(f) ==> {
            &&& state.sessions[f].client matches Some(kex) ==> knows(state.hosts, f.src, kex)
            &&& state.sessions[f].server matches Some(kex) ==> knows(state.hosts, f.dst, kex)
        }
}

proof fn lemma_noting_keeps_known(
    hosts: Map<Text, Seq<Text>>,
    host: Text,
    kex: Seq<Text>,
    end: Text,
    list: Seq<Text>,
)
    requires
        knows(hosts, end, list),
    ensures
        knows(noted(hosts, host, kex), end, list),
{
    let (h, p) = choose|h: Text, p: u16| #[trigger]
        endpoint(h, p) == end && forall|name: Text|
            list.contains(name) ==> known_names(hosts, h).contains(name);
    assert forall|name: Text| list.contains(name) implies known_names(
        noted(hosts, host, kex),
        h,
    ).contains(name) by {
        law_noting_forgets_nothing(hosts, host, kex, h, name);
    }
    assert(endpoint(h, p) == end);
}

proof fn lemma_seen_keeps_known(state: SshState, layers: LayersView, kex: Seq<Text>)
    requires
        hosts_know(state),
        flow_of(layers) is Some,
    ensures
        hosts_know(state.received(layers, kex)),
{
    let host = layers.addresses->Some_0.source;
    let port = layers.segment->Some_0.source_port;
    let flow = flow_of(layers)->Some_0;
    let next = state.announced(host, flow, kex);
    let key = session_key(state.sessions, flow);
    let session = session_of(state.sessions, flow);
    let forward = is_forward(state.sessions, flow);
    if session.awaits(forward) {
        assert(knows(next.hosts, flow.src, kex)) by {
            assert forall|name: Text| kex.contains(name) implies known_names(next.hosts, host).contains(
                name,
            ) by {
                law_noting_forgets_nothing(state.hosts, host, kex, host, name);
            }
            assert(endpoint(host, port) == flow.src);
        }
    }
    assert forall|f: FlowView| #[trigger] next.sessions.contains_key(f) implies {
        &&& next.sessions[f].client matches Some(k) ==> knows(next.hosts, f.src, k)
        &&& next.sessions[f].server matches Some(k) ==> knows(next.hosts, f.dst, k)
    } by {
        let old_session = if f == key { session } else { state.sessions[f] };
        if f != key {
            assert(state.sessions.contains_key(f));
        }
        if session.awaits(forward) {
            if let Some(k) = old_session.client {
                lemma_noting_keeps_known(state.hosts, host, kex, f.src, k);
            }
            if let Some(k) = old_session.server {
                lemma_noting_keeps_known(state.hosts, host, kex, f.dst, k);
            }
        }
    }
}

/// Whatever was captured, a host is known to support all that its sessions show.
pub proof fn law_hosts_know_what_sessions_show(seen: Seq<(Option<LayersView>, Seq<u8>)>)
    ensures
        hosts_know(after_all(seen)),
    decreases seen.len(),
{
    if seen.len() > 0 {
        law_hosts_know_what_sessions_show(seen.drop_last());
        if let Some(kex) = kexinit(seen.last().1) {
            if let Some(layers) = seen.last().0 {
                if flow_of(layers) is Some {
                    lemma_seen_keeps_known(after_all(seen.drop_last()), layers, kex);
                }
            }
        }
    }
}

/// Whether the session of a flow holds an announcement of the end that is `host` at `port`.
pub open spec fn holds(
    sessions: Map<FlowView, SessionView>,
    flow: FlowView,
    host: Text,
    port: u16,
    kex: Seq<Text>,
) -> bool {
    &&& sessions.contains_key(flow)
    &&& (flow.src == endpoint(host, port) && sessions[flow].client == Some(kex)) || (flow.dst
        == endpoint(host, port) && sessions[flow].server == Some(kex))
}

/// Whether some session holds an announcement of a host.
pub open spec fn shown(sessions: Map<FlowView, SessionView>, host: Text, kex: Seq<Text>) -> bool {
    exists|flow: FlowView, port: u16| #[trigger] holds(sessions, flow, host, port, kex)
}

/// Whether the hosts are those that sessions show, each with the methods that they show.
pub open spec fn hosts_as_shown(state: SshState) -> bool {
    &&& forall|host: Text| #[trigger]
        state.hosts.contains_key(host) <==> exists|kex: Seq<Text>| #[trigger]
            shown(state.sessions, host, kex)
    &&& forall|host: Text, name: Text| #[trigger]
        known_names(state.hosts, host).contains(name) <==> exists|kex: Seq<Text>| #[trigger]
            shown(state.sessions, host, kex) && kex.contains(name)
}

proof fn lemma_announced_is_shown(
    state: SshState,
    host: Text,
    port: u16,
    flow: FlowView,
    kex: Seq<Text>,
    other: Text,
    list: Seq<Text>,
)
    requires
        flow.src == endpoint(host, port),
    ensures
        shown(state.announced(host, flow, kex).sessions, other, list) <==> shown(
            state.sessions,
            other,
            list,
        ) || (session_of(state.sessions, flow).awaits(is_forward(state.sessions, flow)) && other == host
            && list == kex),
{
    let next = state.announced(host, flow, kex);
    let key = session_key(state.sessions, flow);
    let session = session_of(state.sessions, flow);
    let forward = is_forward(state.sessions, flow);
    if shown(next.sessions, other, list) {
        let (f, p) = choose|f: FlowView, p: u16| #[trigger] holds(next.sessions, f, other, p, list);
        if !holds(state.sessions, f, other, p, list) {
            assert(f == key);
            assert(endpoint(other, p) == endpoint(host, port));
            law_endpoint_injective(other, p, host, port);
        }
    }
    if shown(state.sessions, other, list) {
        let (f, p) = choose|f: FlowView, p: u16| #[trigger] holds(state.sessions, f, other, p, list);
        assert(holds(next.sessions, f, other, p, list));
    }
    if session.awaits(forward) {
        assert(holds(next.sessions, key, host, port, kex));
    }
}

proof fn lemma_announced_keeps_hosts_as_shown(
    state: SshState,
    host: Text,
    port: u16,
    flow: FlowView,
    kex: Seq<Text>,
)
    requires
        hosts_as_shown(state),
        flow.src == endpoint(host, port),
    ensures
        hosts_as_shown(state.announced(host, flow, kex)),
{
    let next = state.announced(host, flow, kex);
    let awaited = session_of(state.sessions, flow).awaits(is_forward(state.sessions, flow));
    assert forall|h: Text, k: Seq<Text>| #[trigger]
        shown(next.sessions, h, k) <==> shown(state.sessions, h, k) || (awaited && h == host && k
            == kex) by {
        lemma_announced_is_shown(state, host, port, flow, kex, h, k);
    }
    if awaited {
        law_names_are_gathered(known_names(state.hosts, host), kex);
        assert(shown(next.sessions, host, kex));
    }
    assert forall|h: Text| #[trigger]
        next.hosts.contains_key(h) <==> exists|k: Seq<Text>| #[trigger]
            shown(next.sessions, h, k) by {
        if exists|k: Seq<Text>| #[trigger] shown(state.sessions, h, k) {
            let k = choose|k: Seq<Text>| #[trigger] shown(state.sessions, h, k);
            assert(shown(next.sessions, h, k));
        }
        assert(state.hosts.contains_key(h) <==> exists|k: Seq<Text>| #[trigger]
            shown(state.sessions, h, k));
    }
    assert forall|h: Text, name: Text| #[trigger]
        known_names(next.hosts, h).contains(name) <==> exists|k: Seq<Text>| #[trigger]
            shown(next.sessions, h, k) && k.contains(name) by {
        if exists|k: Seq<Text>| #[trigger] shown(state.sessions, h, k) && k.contains(name) {
            let k = choose|k: Seq<Text>| #[trigger]
                shown(state.sessions, h, k) && k.contains(name);
            assert(shown(next.sessions, h, k));
        }
        assert(known_names(state.hosts, h).contains(name) <==> exists|k: Seq<Text>| #[trigger]
            shown(state.sessions, h, k) && k.contains(name));
    }
}

/// Whatever was captured, a host is in the table exactly when some session holds an
/// announcement of it, and it is known to support a method exactly when such an announcement
/// names it.
pub proof fn law_hosts_are_as_sessions_show(seen: Seq<(Option<LayersView>, Seq<u8>)>)
    ensures
        hosts_as_shown(after_all(seen)),
    decreases seen.len(),
{
    if seen.len() > 0 {
        law_hosts_are_as_sessions_show(seen.drop_last());
        if let Some(kex) = kexinit(seen.last().1) {
            if let Some(layers) = seen.last().0 {
                if let Some(flow) = flow_of(layers) {
                    lemma_announced_keeps_hosts_as_shown(
                        after_all(seen.drop_last()),
                        layers.addresses->Some_0.source,
                        layers.segment->Some_0.source_port,
                        flow,
                        kex,
                    );
                }
            }
        }
    }
}

/// A further announcement along a flow changes nothing, whatever it says.
pub proof fn law_repeated_announcement_changes_nothing(
    state: SshState,
    host: Text,
    flow: FlowView,
    first: Seq<Text>,
    again: Seq<Text>,
)
    ensures
        state.announced(host, flow, first).announced(host, flow, again) == state.announced(
            host,
            flow,
            first,
        ),
{
    let once = state.announced(host, flow, first);
    let twice = once.announced(host, flow, again);
    assert(flow.reversed().reversed() == flow);
    assert(session_key(once.sessions, flow) == session_key(state.sessions, flow));
    assert(is_forward(once.sessions, flow) == is_forward(state.sessions, flow));
    assert(session_of(once.sessions, flow).observed(is_forward(once.sessions, flow), again)
        == session_of(once.sessions, flow));
    assert(twice.sessions =~= once.sessions);
    assert(twice.hosts == once.hosts);
    assert(once.session_order.contains(session_key(state.sessions, flow))) by {
        lemma_listed(state.session_order, session_key(state.sessions, flow));
        assert(once.session_order.to_set().contains(session_key(state.sessions, flow)));
    }
}

proof fn lemma_handshake(
    state: SshState,
    flow: FlowView,
    client_host: Text,
    server_host: Text,
    client: Seq<Text>,
    server: Seq<Text>,
)
    requires
        flow != flow.reversed(),
        !state.sessions.contains_key(flow),
        !state.sessions.contains_key(flow.reversed()),
    ensures
        state.announced(client_host, flow, client).announced(server_host, flow.reversed(), server)
            == (SshState {
            sessions: state.sessions.insert(
                flow,
                SessionView {
                    client: Some(client),
                    server: Some(server),
                    negotiated: first_common(client, server),
                },
            ),
            session_order: listed(state.session_order, flow),
            hosts: noted(noted(state.hosts, client_host, client), server_host, server),
            host_order: listed(listed(state.host_order, client_host), server_host),
        }),
{
    let half = state.announced(client_host, flow, client);
    let full = half.announced(server_host, flow.reversed(), server);
    assert(flow.reversed().reversed() == flow);
    assert(half.sessions =~= state.sessions.insert(
        flow,
        SessionView { client: Some(client), server: None, negotiated: None },
    ));
    assert(full.sessions =~= state.sessions.insert(
        flow,
        SessionView {
            client: Some(client),
            server: Some(server),
            negotiated: first_common(client, server),
        },
    ));
    assert(half.session_order.contains(flow)) by {
        lemma_listed(state.session_order, flow);
        assert(half.session_order.to_set().contains(flow));
    }
}

/// Whether one packet goes back along the way that another one came.
pub open spec fn answers(back: LayersView, there: LayersView) -> bool {
    &&& there.addresses is Some && there.segment is Some
    &&& back.addresses is Some && back.segment is Some
    &&& back.addresses->Some_0.source == there.addresses->Some_0.destination
    &&& back.addresses->Some_0.destination == there.addresses->Some_0.source
    &&& back.segment->Some_0.source_port == there.segment->Some_0.destination_port
    &&& back.segment->Some_0.destination_port == there.segment->Some_0.source_port
}

/// An answer has the reversed flow of what it answers.
pub proof fn law_answer_reverses_flow(back: LayersView, there: LayersView)
    requires
        answers(back, there),
    ensures
        flow_of(there) is Some,
        flow_of(back) == Some(flow_of(there)->Some_0.reversed()),
{
}

/// Packets share a flow only when they share addresses and ports: no two connections are
/// taken for one.
pub proof fn law_flow_tells_connections_apart(a: LayersView, b: LayersView)
    requires
        flow_of(a) is Some,
        flow_of(a) == flow_of(b),
    ensures
        a.addresses->Some_0 == b.addresses->Some_0,
        a.segment->Some_0.source_port == b.segment->Some_0.source_port,
        a.segment->Some_0.destination_port == b.segment->Some_0.destination_port,
{
    let (x, y) = (a.addresses->Some_0, b.addresses->Some_0);
    let (s, t) = (a.segment->Some_0, b.segment->Some_0);
    law_endpoint_injective(x.source, s.source_port, y.source, t.source_port);
    law_endpoint_injective(x.destination, s.destination_port, y.destination, t.destination_port);
}

/// The end that is heard first is the client. Once the other end has answered, the session
/// stands under the client's flow with both announcements and with what they agree on, and
/// each host is known to support what it announced.
pub proof fn law_handshake(
    state: SshState,
    there: LayersView,
    client_payload: Seq<u8>,
    back: LayersView,
    server_payload: Seq<u8>,
)
    requires
        answers(back, there),
        flow_of(there) != flow_of(back),
        !state.sessions.contains_key(flow_of(there)->Some_0),
        !state.sessions.contains_key(flow_of(back)->Some_0),
        kexinit(client_payload) is Some,
        kexinit(server_payload) is Some,
    ensures
        state.seen(Some(there), client_payload).seen(Some(back), server_payload) == ({
            let client = kexinit(client_payload)->Some_0;
            let server = kexinit(server_payload)->Some_0;
            SshState {
                sessions: state.sessions.insert(
                    flow_of(there)->Some_0,
                    SessionView {
                        client: Some(client),
                        server: Some(server),
                        negotiated: first_common(client, server),
                    },
                ),
                session_order: listed(state.session_order, flow_of(there)->Some_0),
                hosts: noted(
                    noted(state.hosts, there.addresses->Some_0.source, client),
                    back.addresses->Some_0.source,
                    server,
                ),
                host_order: listed(
                    listed(state.host_order, there.addresses->Some_0.source),
                    back.addresses->Some_0.source,
                ),
            }
        }),
{
    law_answer_reverses_flow(back, there);
    lemma_handshake(
        state,
        flow_of(there)->Some_0,
        there.addresses->Some_0.source,
        back.addresses->Some_0.source,
        kexinit(client_payload)->Some_0,
        kexinit(server_payload)->Some_0,
    );
}

/// An announcement concerns the session of its flow and its own host: all others stay as
/// they are, and no session or host is lost.
pub proof fn law_others_untouched(
    state: SshState,
    host: Text,
    flow: FlowView,
    kex: Seq<Text>,
    other_flow: FlowView,
    other_host: Text,
)
    ensures
        other_flow != flow && other_flow != flow.reversed() ==> {
            let next = state.announced(host, flow, kex).sessions;
            &&& next.contains_key(other_flow) == state.sessions.contains_key(other_flow)
            &&& next[other_flow] == state.sessions[other_flow]
        },
        other_host != host ==> {
            let next = state.announced(host, flow, kex).hosts;
            &&& next.contains_key(other_host) == state.hosts.contains_key(other_host)
            &&& next[other_host] == state.hosts[other_host]
        },
        state.sessions.contains_key(other_flow) ==> state.announced(host, flow, kex).sessions.contains_key(
            other_flow,
        ),
        state.hosts.contains_key(other_host) ==> state.announced(host, flow, kex).hosts.contains_key(
            other_host,
        ),
{
}

// ---------------------------------------------------------------------------------------
// Single announcements
// ---------------------------------------------------------------------------------------

/// A state says of sessions and hosts what their tables hold, all of it and nothing else.
pub proof fn law_state_is_the_tables(sessions: SshSessions, host_caps: HostTable)
    ensures
        state_of(sessions, host_caps).sessions == sessions@,
        state_of(sessions, host_caps).session_order == sessions.order(),
        state_of(sessions, host_caps).hosts == host_caps@,
        state_of(sessions, host_caps).host_order == host_caps.order(),
{
}

/// Every announcement in a packet of TCP over IP counts, and nothing else does: not another
/// payload, nor a packet whose layers cannot be read or are others.
pub proof fn law_every_announcement_counts(
    state: SshState,
    layers: LayersView,
    payload: Seq<u8>,
    kex: Seq<Text>,
)
    ensures
        kexinit(payload) == Some(kex) ==> state.seen(Some(layers), payload) == state.received(
            layers,
            kex,
        ),
        kexinit(payload) is None ==> state.seen(Some(layers), payload) == state,
        state.seen(None, payload) == state,
        layers.addresses is None || layers.segment is None ==> state.received(layers, kex) == state,
{
}

/// Whether a flow goes from the source of a packet to its destination, each end written as
/// address, colon and port.
pub open spec fn goes_along(flow: FlowView, layers: LayersView) -> bool {
    &&& layers.addresses is Some
    &&& layers.segment is Some
    &&& flow.src == endpoint(layers.addresses->Some_0.source, layers.segment->Some_0.source_port)
    &&& flow.dst == endpoint(
        layers.addresses->Some_0.destination,
        layers.segment->Some_0.destination_port,
    )
}

/// The first announcement between two ends opens a session under its flow, with the sender as
/// the client, and is noted for the sender's host.
pub proof fn law_new_flow_opens_session(
    state: SshState,
    layers: LayersView,
    kex: Seq<Text>,
    there: FlowView,
    back: FlowView,
)
    requires
        goes_along(there, layers),
        back.src == there.dst,
        back.dst == there.src,
        !state.sessions.contains_key(there),
        !state.sessions.contains_key(back),
    ensures
        state.received(layers, kex).sessions == state.sessions.insert(
            there,
            SessionView { client: Some(kex), server: None, negotiated: None },
        ),
        state.received(layers, kex).hosts == noted(
            state.hosts,
            layers.addresses->Some_0.source,
            kex,
        ),
{
    assert(back == there.reversed());
}

/// A further announcement along the flow of a session is one of its client: it stays as it is
/// known, or becomes known; the server's end is left alone. It is noted for the sender's host
/// exactly when the client's end was not known.
pub proof fn law_same_flow_is_client(
    state: SshState,
    layers: LayersView,
    kex: Seq<Text>,
    there: FlowView,
)
    requires
        goes_along(there, layers),
        state.sessions.contains_key(there),
    ensures
        ({
            let known = state.sessions[there];
            let next = state.received(layers, kex);
            &&& next.sessions == state.sessions.insert(there, next.sessions[there])
            &&& next.sessions[there].client == (if known.client is Some {
                known.client
            } else {
                Some(kex)
            })
            &&& next.sessions[there].server == known.server
            &&& known.client is Some ==> next.hosts == state.hosts
            &&& known.client is None ==> next.hosts == noted(
                state.hosts,
                layers.addresses->Some_0.source,
                kex,
            )
        }),
{
}

/// An announcement against the flow of a session is one of its server: it stays as it is
/// known, or becomes known; the client's end is left alone. It is noted for the sender's host
/// exactly when the server's end was not known.
pub proof fn law_reversed_flow_is_server(
    state: SshState,
    layers: LayersView,
    kex: Seq<Text>,
    there: FlowView,
    back: FlowView,
)
    requires
        goes_along(back, layers),
        back.src == there.dst,
        back.dst == there.src,
        state.sessions.contains_key(there),
        !state.sessions.contains_key(back),
    ensures
        ({
            let known = state.sessions[there];
            let next = state.received(layers, kex);
            &&& next.sessions == state.sessions.insert(there, next.sessions[there])
            &&& next.sessions[there].server == (if known.server is Some {
                known.server
            } else {
                Some(kex)
            })
            &&& next.sessions[there].client == known.client
            &&& known.server is Some ==> next.hosts == state.hosts
            &&& known.server is None ==> next.hosts == noted(
                state.hosts,
                layers.addresses->Some_0.source,
                kex,
            )
        }),
{
    assert(there == back.reversed());
}

/// A session that an announcement reaches has agreed as soon as both ends are known, on the
/// client's first method that the server announced, and never before; what was agreed stays.
pub proof fn law_agreement_follows_announcements(
    session: SessionView,
    forward: bool,
    kex: Seq<Text>,
    name: Text,
)
    requires
        session.negotiated is None,
    ensures
        ({
            let next = session.observed(forward, kex);
            &&& next.client is None || next.server is None ==> next.negotiated is None
            &&& next.client is Some && next.server is Some ==> {
                let client = next.client->Some_0;
                let server = next.server->Some_0;
                &&& next.negotiated == Some(name) ==> server.contains(name) && exists|i: int|
                    0 <= i < client.len() && #[trigger] client[i] == name && forall|j: int|
                        0 <= j < i ==> !server.contains(#[trigger] client[j])
                &&& next.negotiated is None <==> forall|i: int|
                    0 <= i < client.len() ==> !server.contains(#[trigger] client[i])
            }
        }),
{
    let next = session.observed(forward, kex);
    if next.client is Some && next.server is Some {
        law_agreed_is_first_common(next.client->Some_0, next.server->Some_0);
    }
}

/// Noting an announcement adds its methods to those of its host, new or known, and changes no
/// other host.
pub proof fn law_noting_adds_methods(
    hosts: Map<Text, Seq<Text>>,
    host: Text,
    kex: Seq<Text>,
    name: Text,
)
    ensures
        noted(hosts, host, kex).dom() == hosts.dom().insert(host),
        noted(hosts, host, kex)[host].contains(name) <==> (hosts.contains_key(host)
            && hosts[host].contains(name)) || kex.contains(name),
        forall|other: Text|
            other != host && hosts.contains_key(other) ==> #[trigger] noted(hosts, host, kex)[other]
                == hosts[other],
{
    law_names_are_gathered(known_names(hosts, host), kex);
    assert(noted(hosts, host, kex).dom() =~= hosts.dom().insert(host));
}

/// The method that came in last stands last, and the others stay in their order; a list of one
/// method brings in that method.
pub proof fn law_latest_method_stands_last(names: Seq<Text>, name: Text, i: int)
    requires
        names.no_duplicates(),
    ensures
        with_name(names, name).last() == name,
        !names.contains(name) ==> with_name(names, name).drop_last() == names,
        0 <= i < names.len() && names[i] == name ==> with_name(names, name).drop_last() == names.take(i)
            + names.skip(i + 1),
        with_names(names, Seq::empty()) == names,
        with_names(names, seq![name]) == with_name(names, name),
{
    assert(seq![name].drop_last() =~= Seq::empty());
    assert(with_names(names, Seq::empty()) == names);
    if !names.contains(name) {
        assert(with_name(names, name).drop_last() =~= names);
    }
    if 0 <= i < names.len() && names[i] == name {
        assert(names.index_of(name) == i);
        assert(with_name(names, name).drop_last() =~= names.take(i) + names.skip(i + 1));
    }
}

/// Methods that are all new to a host and differ from each other come to stand behind the known
/// ones, as they are listed.
pub proof fn law_methods_come_in_as_listed(names: Seq<Text>, list: Seq<Text>)
    requires
        list.no_duplicates(),
        forall|i: int| 0 <= i < list.len() ==> !names.contains(#[trigger] list[i]),
    ensures
        with_names(names, list) == names + list,
    decreases list.len(),
{
    if list.len() == 0 {
        assert(names + list =~= names);
    } else {
        let shorter = list.drop_last();
        assert forall|i: int| 0 <= i < shorter.len() implies !names.contains(#[trigger] shorter[i]) by {
            assert(shorter[i] == list[i]);
        }
        law_methods_come_in_as_listed(names, shorter);
        let before = names + shorter;
        assert(!before.contains(list.last())) by {
            if before.contains(list.last()) {
                let i = before.index_of(list.last());
                if i < names.len() {
                    assert(names[i] == list[list.len() - 1]);
                } else {
                    assert(shorter[i - names.len()] == list.last());
                }
            }
        }
        assert(names + list =~= before.push(list.last()));
    }
}

/// Lists that come in one after the other have the effect of one list that joins them.
pub proof fn law_lists_come_in_one_after_the_other(
    names: Seq<Text>,
    first: Seq<Text>,
    second: Seq<Text>,
)
    ensures
        with_names(names, first + second) == with_names(with_names(names, first), second),
    decreases second.len(),
{
    if second.len() == 0 {
        assert(first + second =~= first);
    } else {
        law_lists_come_in_one_after_the_other(names, first, second.drop_last());
        assert((first + second).drop_last() =~= first + second.drop_last());
        assert((first + second).last() == second.last());
    }
}

/// Whatever was captured, a session has the announcement of its client, and it has agreed
/// exactly when it has that of its server too and the two have a method in common: on the
/// client's first such method.
pub proof fn law_agreed_in_every_capture(
    seen: Seq<(Option<LayersView>, Seq<u8>)>,
    flow: FlowView,
    name: Text,
)
    requires
        after_all(seen).sessions.contains_key(flow),
    ensures
        ({
            let session = after_all(seen).sessions[flow];
            let client = session.client->Some_0;
            let server = session.server->Some_0;
            &&& session.client is Some
            &&& session.negotiated == Some(name) ==> session.server is Some && server.contains(name)
                && exists|i: int|
                0 <= i < client.len() && #[trigger] client[i] == name && forall|j: int|
                    0 <= j < i ==> !server.contains(#[trigger] client[j])
            &&& session.server is Some && session.negotiated is None ==> forall|i: int|
                0 <= i < client.len() ==> !server.contains(#[trigger] client[i])
        }),
{
    law_every_capture_sound(seen);
    let session = after_all(seen).sessions[flow];
    if session.server is Some {
        law_agreed_is_first_common(session.client->Some_0, session.server->Some_0);
    }
}

} // verus!
