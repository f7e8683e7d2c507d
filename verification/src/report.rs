//! The findings of a survey, as a report shows them.

use vstd::prelude::*;
use crate::catalog::KexAlgo;
use crate::ssh::{FlowView, HostTable, SessionView, SshSessions};
use crate::table::{views, DistinctSet, Key, Table};
use crate::text::{endpoint, law_endpoint_injective, texts, Text};

verus! {

// ---------------------------------------------------------------------------------------
// Lines of the report
// ---------------------------------------------------------------------------------------

/// A session of a report, whichever its protocol.
pub struct ResultView {
    pub source: Text,
    pub source_port: u16,
    pub destination: Text,
    pub destination_port: u16,
    pub pqc_status: Text,
}

/// A TLS session of a report.
#[derive(Ord, PartialOrd, Eq, PartialEq, Hash)]
pub struct TlsSessionResult {
    pub source: String,
    pub source_port: u16,
    pub destination: String,
    pub destination_port: u16,
    pub pqc_status: String,
}

impl TlsSessionResult {
    /// A session from one address and port to another.
    pub fn new(
        source: String,
        source_port: u16,
        destination: String,
        port: u16,
        pqc_status: String,
    ) -> (result: Self)
        ensures
            result == (TlsSessionResult {
                source,
                source_port,
                destination,
                destination_port: port,
                pqc_status,
            }),
    {
        Self { source, source_port, destination_port: port, destination, pqc_status }
    }
}

impl View for TlsSessionResult {
    type V = ResultView;

    open spec fn view(&self) -> ResultView {
        ResultView {
            source: self.source@,
            source_port: self.source_port,
            destination: self.destination@,
            destination_port: self.destination_port,
            pqc_status: self.pqc_status@,
        }
    }
}

impl Key for TlsSessionResult {
    fn same(&self, other: &Self) -> (same: bool) {
        self.source == other.source && self.source_port == other.source_port && self.destination
            == other.destination && self.destination_port == other.destination_port
            && self.pqc_status == other.pqc_status
    }
}

/// An SSH session of a report.
#[derive(Ord, PartialOrd, Eq, PartialEq, Hash)]
pub struct SshSessionResult {
    pub source: String,
    pub source_port: u16,
    pub destination: String,
    pub destination_port: u16,
    pub pqc_status: String,
}

impl SshSessionResult {
    /// A session from one address and port to another.
    pub fn new(
        source: String,
        source_port: u16,
        destination: String,
        port: u16,
        pqc_status: String,
    ) -> (result: Self)
        ensures
            result == (SshSessionResult {
                source,
                source_port,
                destination,
                destination_port: port,
                pqc_status,
            }),
    {
        Self { source, source_port, destination_port: port, destination, pqc_status }
    }
}

impl View for SshSessionResult {
    type V = ResultView;

    open spec fn view(&self) -> ResultView {
        ResultView {
            source: self.source@,
            source_port: self.source_port,
            destination: self.destination@,
            destination_port: self.destination_port,
            pqc_status: self.pqc_status@,
        }
    }
}

impl Key for SshSessionResult {
    fn same(&self, other: &Self) -> (same: bool) {
        self.source == other.source && self.source_port == other.source_port && self.destination
            == other.destination && self.destination_port == other.destination_port
            && self.pqc_status == other.pqc_status
    }
}

// ---------------------------------------------------------------------------------------
// SSH hosts
// ---------------------------------------------------------------------------------------

/// What is known of key-exchange methods, by their names.
pub type KexCatalog = Table<String, KexAlgo>;

/// Whether a method is known to be post-quantum.
pub open spec fn is_pqc(algos: Map<Text, KexAlgo>, name: Text) -> bool {
    algos.contains_key(name) && algos[name].pqc
}

/// Whether one of the methods is known to be post-quantum.
pub open spec fn any_pqc(algos: Map<Text, KexAlgo>, names: Seq<Text>) -> bool {
    exists|i: int| 0 <= i < names.len() && is_pqc(algos, #[trigger] names[i])
}

/// What a report says of an SSH host.
pub open spec fn host_status(pqc: bool) -> Text {
    if pqc {
        "PQC Supported"@
    } else {
        "No Support"@
    }
}

/// The hosts that announced a post-quantum method.
pub open spec fn pqc_ssh_hosts(caps: Map<Text, Seq<Text>>, algos: Map<Text, KexAlgo>) -> Set<Text> {
    Set::new(|h: Text| caps.contains_key(h) && any_pqc(algos, caps[h]))
}

/// What a report says of each SSH host.
pub open spec fn ssh_host_statuses(
    caps: Map<Text, Seq<Text>>,
    algos: Map<Text, KexAlgo>,
) -> Map<Text, Text> {
    Map::new(|h: Text| caps.contains_key(h), |h: Text| host_status(any_pqc(algos, caps[h])))
}

/// Whether one of the methods in a list is known to be post-quantum.
fn has_pqc(algos: &KexCatalog, names: &Vec<String>) -> (found: bool)
    requires
        algos.wf(),
    ensures
        found == any_pqc(algos@, texts(names@)),
{
    let mut found = false;
    let mut i: usize = 0;
    while i < names.len()
        invariant
            i <= names.len(),
            algos.wf(),
            found == any_pqc(algos@, texts(names@).take(i as int)),
        decreases names.len() - i,
    {
        let ghost before = texts(names@).take(i as int);
        let ghost after = texts(names@).take(i + 1);
        assert(after =~= before.push(names[i as int]@));
        if let Some(algo) = algos.get(&names[i]) {
            if algo.pqc {
                found = true;
            }
        }
        proof {
            if any_pqc(algos@, before) {
                let j = choose|j: int| 0 <= j < before.len() && is_pqc(algos@, #[trigger] before[j]);
                assert(is_pqc(algos@, after[j]));
            }
            if is_pqc(algos@, names[i as int]@) {
                assert(is_pqc(algos@, after[i as int]));
            }
            if any_pqc(algos@, after) {
                let j = choose|j: int| 0 <= j < after.len() && is_pqc(algos@, #[trigger] after[j]);
                if j < i {
                    assert(is_pqc(algos@, before[j]));
                }
            }
        }
        i = i + 1;
    }
    assert(texts(names@).take(names.len() as int) =~= texts(names@));
    found
}

/// What is reported of SSH hosts.
pub struct SshHosts {
    /// The hosts that announced anything.
    pub hosts: DistinctSet<String>,
    /// Whether a host supports post-quantum cryptography, in words.
    pub statuses: Table<String, String>,
}

/// Sums the SSH hosts up. They are added to all hosts, those that announced a post-quantum
/// method to all post-quantum hosts.
pub fn ssh_host_report(
    host_caps: &HostTable,
    algos: &KexCatalog,
    hosts: &mut DistinctSet<String>,
    pqc_hosts: &mut DistinctSet<String>,
) -> (found: SshHosts)
    requires
        host_caps.wf(),
        algos.wf(),
        old(hosts).wf(),
        old(pqc_hosts).wf(),
    ensures
        final(hosts).wf(),
        final(pqc_hosts).wf(),
        found.hosts.wf(),
        found.statuses.wf(),
        found.hosts@ == host_caps@.dom(),
        found.statuses@ == ssh_host_statuses(host_caps@, algos@),
        final(hosts)@ == old(hosts)@.union(host_caps@.dom()),
        final(pqc_hosts)@ == old(pqc_hosts)@.union(pqc_ssh_hosts(host_caps@, algos@)),
{
    let ghost order = host_caps.order();
    let ghost caps = host_caps@;
    proof {
        host_caps.lemma_order();
    }
    let mut ssh_hosts: DistinctSet<String> = DistinctSet::new();
    let mut statuses: Table<String, String> = Table::new();
    let count: usize = host_caps.len();
    let mut i: usize = 0;
    while i < count
        invariant
            i <= count,
            count == order.len(),
            order == host_caps.order(),
            order.to_set() == caps.dom(),
            caps == host_caps@,
            host_caps.wf(),
            algos.wf(),
            hosts.wf(),
            pqc_hosts.wf(),
            ssh_hosts.wf(),
            statuses.wf(),
            ssh_hosts@ == order.take(i as int).to_set(),
            hosts@ == old(hosts)@.union(order.take(i as int).to_set()),
            pqc_hosts@ == old(pqc_hosts)@.union(
                Set::new(|h: Text| order.take(i as int).contains(h) && any_pqc(algos@, caps[h])),
            ),
            statuses@ == Map::new(
                |h: Text| order.take(i as int).contains(h),
                |h: Text| host_status(any_pqc(algos@, caps[h])),
            ),
        decreases count - i,
    {
        let ghost before = order.take(i as int);
        let ghost after = order.take(i + 1);
        assert(after =~= before.push(order[i as int]));
        assert forall|h: Text| after.contains(h) <==> before.contains(h) || h == order[i as int] by {
            if before.contains(h) {
                let j = before.index_of(h);
                assert(after[j] == h);
            }
            assert(after[i as int] == order[i as int]);
        }
        let host = host_caps.key_at(i);
        let names = host_caps.value_at(i).supported_names();
        ssh_hosts.insert(host.clone());
        hosts.insert(host.clone());
        let pqc = has_pqc(algos, &names);
        if pqc {
            pqc_hosts.insert(host.clone());
            statuses.insert(host.clone(), "PQC Supported".to_owned());
        } else {
            statuses.insert(host.clone(), "No Support".to_owned());
        }
        assert(ssh_hosts@ =~= after.to_set());
        assert(hosts@ =~= old(hosts)@.union(after.to_set()));
        assert(pqc_hosts@ =~= old(pqc_hosts)@.union(
            Set::new(|h: Text| after.contains(h) && any_pqc(algos@, caps[h])),
        ));
        assert(statuses@ =~= Map::new(
            |h: Text| after.contains(h),
            |h: Text| host_status(any_pqc(algos@, caps[h])),
        ));
        i = i + 1;
    }
    assert(order.take(count as int) =~= order);
    assert forall|h: Text| order.contains(h) <==> caps.contains_key(h) by {
        assert(order.to_set().contains(h) == caps.dom().contains(h));
    }
    assert(pqc_hosts@ =~= old(pqc_hosts)@.union(pqc_ssh_hosts(caps, algos@)));
    assert(statuses@ =~= ssh_host_statuses(caps, algos@));
    SshHosts { hosts: ssh_hosts, statuses }
}

// ---------------------------------------------------------------------------------------
// SSH sessions
// ---------------------------------------------------------------------------------------

/// A session that agreed on a method.
pub struct NegotiatedFlow {
    /// The client's end, as `address:port`.
    pub src: String,
    /// The server's end, as `address:port`.
    pub dst: String,
    /// The method.
    pub kex: String,
}

/// What a [`NegotiatedFlow`] holds.
pub struct NegotiatedView {
    pub flow: FlowView,
    pub kex: Text,
}

impl View for NegotiatedFlow {
    type V = NegotiatedView;

    open spec fn view(&self) -> NegotiatedView {
        NegotiatedView { flow: FlowView { src: self.src@, dst: self.dst@ }, kex: self.kex@ }
    }
}

/// Those of the flows whose sessions agreed on a method, with the method.
pub open spec fn negotiated_among(
    flows: Seq<FlowView>,
    sessions: Map<FlowView, SessionView>,
) -> Seq<NegotiatedView> {
    flows.filter_map(
        |flow: FlowView|
            match sessions[flow].negotiated {
                Some(kex) => Some(NegotiatedView { flow, kex }),
                None => None,
            },
    )
}

/// A session is listed exactly when it agreed on a method, and with that method.
pub proof fn law_negotiated_sessions_listed(
    flows: Seq<FlowView>,
    sessions: Map<FlowView, SessionView>,
    line: NegotiatedView,
)
    ensures
        negotiated_among(flows, sessions).contains(line) <==> flows.contains(line.flow)
            && sessions[line.flow].negotiated == Some(line.kex),
    decreases flows.len(),
{
    let listed = negotiated_among(flows, sessions);
    if flows.len() > 0 {
        let fewer = flows.drop_last();
        let before = negotiated_among(fewer, sessions);
        let last = flows.last();
        law_negotiated_sessions_listed(fewer, sessions, line);
        assert(flows.contains(line.flow) <==> fewer.contains(line.flow) || line.flow == last) by {
            if fewer.contains(line.flow) {
                assert(flows[fewer.index_of(line.flow)] == line.flow);
            }
            assert(flows[flows.len() - 1] == last);
            if flows.contains(line.flow) && line.flow != last {
                assert(fewer[flows.index_of(line.flow)] == line.flow);
            }
        }
        if let Some(kex) = sessions[last].negotiated {
            let own = NegotiatedView { flow: last, kex };
            assert(listed =~= before.push(own));
            assert(listed[before.len() as int] == own);
            if before.contains(line) {
                assert(listed[before.index_of(line)] == line);
            }
            if listed.contains(line) && line != own {
                assert(before[listed.index_of(line)] == line);
            }
        }
    }
}

/// The sessions that agreed on a method, in the order in which they were first seen.
pub fn negotiated_flows(sessions: &SshSessions) -> (found: Vec<NegotiatedFlow>)
    requires
        sessions.wf(),
    ensures
        views(found@) == negotiated_among(sessions.order(), sessions@),
        found.len() <= sessions@.dom().len(),
{
    let ghost order = sessions.order();
    let mut found: Vec<NegotiatedFlow> = Vec::new();
    let count: usize = sessions.len();
    let mut i: usize = 0;
    assert(views(found@) =~= negotiated_among(order.take(0), sessions@));
    while i < count
        invariant
            i <= count,
            count == order.len(),
            order == sessions.order(),
            sessions.wf(),
            found.len() <= i,
            views(found@) == negotiated_among(order.take(i as int), sessions@),
        decreases count - i,
    {
        assert(order.take(i + 1).drop_last() =~= order.take(i as int));
        if let Some(agreed) = sessions.value_at(i).negotiated() {
            let flow = sessions.key_at(i);
            let line = NegotiatedFlow {
                src: flow.src().to_owned(),
                dst: flow.dst().to_owned(),
                kex: agreed.kex().to_owned(),
            };
            assert(views(found@.push(line)) =~= views(found@).push(line@));
            found.push(line);
        }
        i = i + 1;
    }
    assert(order.take(count as int) =~= order);
    found
}

/// A session that agreed on a method, with its ends taken apart.
pub struct SshSessionEntry {
    pub source_ip: String,
    pub source_port: u16,
    pub destination_ip: String,
    pub destination_port: u16,
    pub kex: String,
}

/// What an [`SshSessionEntry`] holds.
pub struct SshEntryView {
    pub source_ip: Text,
    pub source_port: u16,
    pub destination_ip: Text,
    pub destination_port: u16,
    pub kex: Text,
}

impl View for SshSessionEntry {
    type V = SshEntryView;

    open spec fn view(&self) -> SshEntryView {
        SshEntryView {
            source_ip: self.source_ip@,
            source_port: self.source_port,
            destination_ip: self.destination_ip@,
            destination_port: self.destination_port,
            kex: self.kex@,
        }
    }
}

/// What a report says of an SSH session.
pub open spec fn session_status(pqc: bool) -> Text {
    if pqc {
        "PQC Supported"@
    } else {
        "PQC NOT Supported"@
    }
}

/// The line of a session.
pub open spec fn ssh_line(entry: SshEntryView, algos: Map<Text, KexAlgo>) -> ResultView {
    ResultView {
        source: entry.source_ip,
        source_port: entry.source_port,
        destination: entry.destination_ip,
        destination_port: entry.destination_port,
        pqc_status: session_status(is_pqc(algos, entry.kex)),
    }
}

/// The lines that a session gives its source: one if its method is known, else none.
pub open spec fn ssh_lines(entry: SshEntryView, algos: Map<Text, KexAlgo>) -> Set<ResultView> {
    if algos.contains_key(entry.kex) {
        Set::empty().insert(ssh_line(entry, algos))
    } else {
        Set::empty()
    }
}

/// The lines of a source; none, if it has none yet.
pub open spec fn lines_of<A>(lines: Map<Text, Set<A>>, source: Text) -> Set<A> {
    if lines.contains_key(source) {
        lines[source]
    } else {
        Set::empty()
    }
}

/// The lines of each source: all its sessions with a method that is known.
pub open spec fn ssh_results(entries: Seq<SshEntryView>, algos: Map<Text, KexAlgo>) -> Map<
    Text,
    Set<ResultView>,
>
    decreases entries.len(),
{
    if entries.len() == 0 {
        Map::empty()
    } else {
        let before = ssh_results(entries.drop_last(), algos);
        let entry = entries.last();
        before.insert(
            entry.source_ip,
            lines_of(before, entry.source_ip).union(ssh_lines(entry, algos)),
        )
    }
}

/// How many sessions agreed on a post-quantum method.
pub open spec fn ssh_pqc_count(entries: Seq<SshEntryView>, algos: Map<Text, KexAlgo>) -> nat {
    entries.filter(|e: SshEntryView| is_pqc(algos, e.kex)).len()
}

/// What is reported of SSH sessions.
pub struct SshSessionLines {
    /// How many of them agreed on a post-quantum method.
    pub pqc_count: usize,
    /// The sessions, by the address of their source.
    pub results: Table<String, DistinctSet<SshSessionResult>>,
}

/// Sums the SSH sessions up.
pub fn ssh_session_report(entries: &Vec<SshSessionEntry>, algos: &KexCatalog) -> (found:
    SshSessionLines)
    requires
        algos.wf(),
    ensures
        found.results.wf(),
        found.results@ == ssh_results(views(entries@), algos@),
        found.pqc_count == ssh_pqc_count(views(entries@), algos@),
        found.pqc_count <= entries.len(),
{
    let ghost all = views(entries@);
    let mut pqc_count: usize = 0;
    let mut results: Table<String, DistinctSet<SshSessionResult>> = Table::new();
    let mut i: usize = 0;
    reveal(Seq::filter);
    assert(all.take(0).len() == 0);
    while i < entries.len()
        invariant
            i <= entries.len(),
            all == views(entries@),
            algos.wf(),
            results.wf(),
            results@ == ssh_results(all.take(i as int), algos@),
            pqc_count == ssh_pqc_count(all.take(i as int), algos@),
            pqc_count <= i,
        decreases entries.len() - i,
    {
        let ghost before = results@;
        assert(all.take(i + 1).drop_last() =~= all.take(i as int));
        let entry = &entries[i];
        assert(all.take(i + 1).last() == entry@);
        reveal(Seq::filter);
        if !results.contains_key(&entry.source_ip) {
            results.insert(entry.source_ip.clone(), DistinctSet::new());
        }
        assert(results@ =~= before.insert(entry@.source_ip, lines_of(before, entry@.source_ip)));
        if let Some(algo) = algos.get(&entry.kex) {
            let description: String = if algo.pqc {
                pqc_count = pqc_count + 1;
                "PQC Supported".to_owned()
            } else {
                "PQC NOT Supported".to_owned()
            };
            if let Some(lines) = results.get_mut(&entry.source_ip) {
                lines.insert(
                    SshSessionResult::new(
                        entry.source_ip.clone(),
                        entry.source_port,
                        entry.destination_ip.clone(),
                        entry.destination_port,
                        description,
                    ),
                );
            }
        }
        assert(results@[entry@.source_ip] =~= lines_of(before, entry@.source_ip).union(
            ssh_lines(entry@, algos@),
        ));
        assert(results@ =~= ssh_results(all.take(i + 1), algos@));
        i = i + 1;
    }
    assert(all.take(entries.len() as int) =~= all);
    SshSessionLines { pqc_count, results }
}

/// A source is shown exactly when a session of it agreed on a method, and with all its
/// sessions whose method is known: in which order they come does not matter.
pub proof fn law_all_ssh_sessions_shown(
    entries: Seq<SshEntryView>,
    algos: Map<Text, KexAlgo>,
    source: Text,
    line: ResultView,
)
    ensures
        ssh_results(entries, algos).contains_key(source) <==> exists|i: int|
            0 <= i < entries.len() && (#[trigger] entries[i]).source_ip == source,
        lines_of(ssh_results(entries, algos), source).contains(line) <==> exists|i: int|
            0 <= i < entries.len() && (#[trigger] entries[i]).source_ip == source
                && algos.contains_key(entries[i].kex) && ssh_line(entries[i], algos) == line,
    decreases entries.len(),
{
    if entries.len() > 0 {
        let fewer = entries.drop_last();
        let n = entries.len() - 1;
        law_all_ssh_sessions_shown(fewer, algos, source, line);
        assert(entries[n] == entries.last());
        if exists|i: int| 0 <= i < fewer.len() && (#[trigger] fewer[i]).source_ip == source {
            let i = choose|i: int| 0 <= i < fewer.len() && (#[trigger] fewer[i]).source_ip == source;
            assert(entries[i].source_ip == source);
        }
        if exists|i: int| 0 <= i < entries.len() && (#[trigger] entries[i]).source_ip == source {
            let i = choose|i: int|
                0 <= i < entries.len() && (#[trigger] entries[i]).source_ip == source;
            if i < n {
                assert(fewer[i].source_ip == source);
            }
        }
        if exists|i: int|
            0 <= i < fewer.len() && (#[trigger] fewer[i]).source_ip == source && algos.contains_key(
                fewer[i].kex,
            ) && ssh_line(fewer[i], algos) == line {
            let i = choose|i: int|
                0 <= i < fewer.len() && (#[trigger] fewer[i]).source_ip == source
                    && algos.contains_key(fewer[i].kex) && ssh_line(fewer[i], algos) == line;
            assert(entries[i] == fewer[i]);
        }
        if exists|i: int|
            0 <= i < entries.len() && (#[trigger] entries[i]).source_ip == source
                && algos.contains_key(entries[i].kex) && ssh_line(entries[i], algos) == line {
            let i = choose|i: int|
                0 <= i < entries.len() && (#[trigger] entries[i]).source_ip == source
                    && algos.contains_key(entries[i].kex) && ssh_line(entries[i], algos) == line;
            if i < n {
                assert(fewer[i] == entries[i]);
            }
        }
    }
}

/// The methods that the given sessions agreed on.
pub open spec fn entry_methods(entries: Seq<SshEntryView>) -> Seq<Text> {
    entries.map_values(|e: SshEntryView| e.kex)
}

/// The methods that the sessions of a table agreed on, in the order of the table.
pub open spec fn agreed_methods(
    flows: Seq<FlowView>,
    sessions: Map<FlowView, SessionView>,
) -> Seq<Text> {
    negotiated_among(flows, sessions).map_values(|line: NegotiatedView| line.kex)
}

/// Whether a session agreed on a post-quantum method.
pub open spec fn uses_pqc(session: SessionView, algos: Map<Text, KexAlgo>) -> bool {
    session.negotiated matches Some(kex) && is_pqc(algos, kex)
}

/// The sessions that agreed on a post-quantum method.
pub open spec fn pqc_sessions(
    sessions: Map<FlowView, SessionView>,
    algos: Map<Text, KexAlgo>,
) -> Set<FlowView> {
    sessions.dom().filter(|flow: FlowView| uses_pqc(sessions[flow], algos))
}

proof fn lemma_count_by_methods(entries: Seq<SshEntryView>, algos: Map<Text, KexAlgo>)
    ensures
        ssh_pqc_count(entries, algos) == entry_methods(entries).filter(
            |name: Text| is_pqc(algos, name),
        ).len(),
    decreases entries.len(),
{
    reveal(Seq::filter);
    let methods = entry_methods(entries);
    if entries.len() > 0 {
        lemma_count_by_methods(entries.drop_last(), algos);
        assert(methods.drop_last() =~= entry_methods(entries.drop_last()));
        assert(methods.last() == entries.last().kex);
    }
}

proof fn lemma_agreed_count(
    flows: Seq<FlowView>,
    sessions: Map<FlowView, SessionView>,
    algos: Map<Text, KexAlgo>,
)
    ensures
        agreed_methods(flows, sessions).filter(|name: Text| is_pqc(algos, name)).len()
            == flows.filter(|flow: FlowView| uses_pqc(sessions[flow], algos)).len(),
    decreases flows.len(),
{
    reveal(Seq::filter);
    let methods = agreed_methods(flows, sessions);
    if flows.len() > 0 {
        let fewer = flows.drop_last();
        lemma_agreed_count(fewer, sessions, algos);
        if let Some(kex) = sessions[flows.last()].negotiated {
            let line = NegotiatedView { flow: flows.last(), kex };
            assert(negotiated_among(flows, sessions) =~= negotiated_among(fewer, sessions).push(line));
            assert(methods.drop_last() =~= agreed_methods(fewer, sessions));
            assert(methods.last() == kex);
        } else {
            assert(negotiated_among(flows, sessions) =~= negotiated_among(fewer, sessions));
        }
    }
}

proof fn lemma_kept_once(flows: Seq<FlowView>, keep: spec_fn(FlowView) -> bool)
    requires
        flows.no_duplicates(),
    ensures
        flows.filter(keep).no_duplicates(),
        forall|flow: FlowView| flows.filter(keep).contains(flow) ==> flows.contains(flow),
    decreases flows.len(),
{
    reveal(Seq::filter);
    if flows.len() > 0 {
        let fewer = flows.drop_last();
        let before = fewer.filter(keep);
        let kept = flows.filter(keep);
        lemma_kept_once(fewer, keep);
        assert forall|flow: FlowView| #[trigger] fewer.contains(flow) implies flows.contains(flow)
            && flow != flows.last() by {
            assert(flows[fewer.index_of(flow)] == flow);
        }
        assert forall|i: int| 0 <= i < before.len() implies #[trigger] before[i] != flows.last() by {
            assert(before.contains(before[i]));
            assert(fewer.contains(before[i]));
        }
        assert forall|flow: FlowView| kept.contains(flow) implies flows.contains(flow) by {
            let i = kept.index_of(flow);
            if i < before.len() {
                assert(before[i] == flow);
                assert(before.contains(flow));
                assert(fewer.contains(flow));
            } else {
                assert(flows[flows.len() - 1] == flow);
            }
        }
    }
}

/// Where the sessions of a table are counted by the methods that they agreed on, as many
/// count as post-quantum as agreed on a post-quantum method, and so no more than there are
/// sessions.
pub proof fn law_pqc_sessions_counted(
    entries: Seq<SshEntryView>,
    flows: Seq<FlowView>,
    sessions: Map<FlowView, SessionView>,
    algos: Map<Text, KexAlgo>,
)
    requires
        flows.no_duplicates(),
        flows.to_set() == sessions.dom(),
        entry_methods(entries) == agreed_methods(flows, sessions),
    ensures
        ssh_pqc_count(entries, algos) == pqc_sessions(sessions, algos).len(),
        ssh_pqc_count(entries, algos) <= sessions.dom().len(),
{
    let pqc = |flow: FlowView| uses_pqc(sessions[flow], algos);
    let kept = flows.filter(pqc);
    lemma_count_by_methods(entries, algos);
    lemma_agreed_count(flows, sessions, algos);
    lemma_kept_once(flows, pqc);
    assert(kept.to_set() =~= pqc_sessions(sessions, algos)) by {
        assert forall|flow: FlowView| #[trigger] kept.to_set().contains(flow) implies pqc_sessions(
            sessions,
            algos,
        ).contains(flow) by {
            flows.lemma_filter_pred(pqc, kept.index_of(flow));
            assert(flows.contains(flow));
            assert(flows.to_set().contains(flow));
        }
        assert forall|flow: FlowView| #[trigger] pqc_sessions(sessions, algos).contains(
            flow,
        ) implies kept.to_set().contains(flow) by {
            assert(flows.to_set().contains(flow));
            flows.lemma_filter_contains(pqc, flows.index_of(flow));
        }
    }
    flows.unique_seq_to_set();
    kept.unique_seq_to_set();
    flows.lemma_filter_len(pqc);
}

/// Whether an entry is a session that agreed on a method, with its ends taken apart.
pub open spec fn taken_apart(entry: SshEntryView, line: NegotiatedView) -> bool {
    &&& endpoint(entry.source_ip, entry.source_port) == line.flow.src
    &&& endpoint(entry.destination_ip, entry.destination_port) == line.flow.dst
    &&& entry.kex == line.kex
}

/// Whether the entries are the sessions that agreed on a method, one for one.
pub open spec fn one_for_one(entries: Seq<SshEntryView>, lines: Seq<NegotiatedView>) -> bool {
    &&& entries.len() == lines.len()
    &&& forall|i: int| 0 <= i < entries.len() ==> taken_apart(#[trigger] entries[i], lines[i])
}

/// Whether a session that stands under a flow gives a line of the report: it agreed on a
/// method that is known, the line has its two ends, and says what the method is.
pub open spec fn gives_line(
    sessions: Map<FlowView, SessionView>,
    flow: FlowView,
    algos: Map<Text, KexAlgo>,
    line: ResultView,
) -> bool {
    &&& sessions.contains_key(flow)
    &&& flow.src == endpoint(line.source, line.source_port)
    &&& flow.dst == endpoint(line.destination, line.destination_port)
    &&& sessions[flow].negotiated matches Some(kex) && algos.contains_key(kex) && line.pqc_status
        == session_status(is_pqc(algos, kex))
}

/// Whether a session that stands under a flow agreed on a method and has its client at an
/// address.
pub open spec fn agreed_from(
    sessions: Map<FlowView, SessionView>,
    flow: FlowView,
    source: Text,
    port: u16,
) -> bool {
    &&& sessions.contains_key(flow)
    &&& sessions[flow].negotiated is Some
    &&& flow.src == endpoint(source, port)
}

/// Whether the lines of each source are those of its sessions: a source is shown exactly when
/// a session of it agreed on a method, and its lines are exactly those that sessions give.
pub open spec fn shows_sessions(
    results: Map<Text, Set<ResultView>>,
    sessions: Map<FlowView, SessionView>,
    algos: Map<Text, KexAlgo>,
) -> bool {
    &&& forall|source: Text| #[trigger]
        results.contains_key(source) <==> exists|flow: FlowView, port: u16| #[trigger]
            agreed_from(sessions, flow, source, port)
    &&& forall|source: Text, line: ResultView| #[trigger]
        lines_of(results, source).contains(line) <==> line.source == source && exists|flow: FlowView|
         #[trigger] gives_line(sessions, flow, algos, line)
}

proof fn lemma_source_shown(
    entries: Seq<SshEntryView>,
    flows: Seq<FlowView>,
    sessions: Map<FlowView, SessionView>,
    algos: Map<Text, KexAlgo>,
    source: Text,
)
    requires
        flows.to_set() == sessions.dom(),
        one_for_one(entries, negotiated_among(flows, sessions)),
    ensures
        ssh_results(entries, algos).contains_key(source) <==> exists|flow: FlowView, port: u16| #[trigger]
            agreed_from(sessions, flow, source, port),
{
    let lines = negotiated_among(flows, sessions);
    let any = ResultView {
        source,
        source_port: 0,
        destination: source,
        destination_port: 0,
        pqc_status: source,
    };
    law_all_ssh_sessions_shown(entries, algos, source, any);
    if ssh_results(entries, algos).contains_key(source) {
        let i = choose|i: int| 0 <= i < entries.len() && (#[trigger] entries[i]).source_ip == source;
        assert(lines.contains(lines[i]));
        law_negotiated_sessions_listed(flows, sessions, lines[i]);
        assert(flows.to_set().contains(lines[i].flow));
        assert(agreed_from(sessions, lines[i].flow, source, entries[i].source_port));
    }
    if exists|flow: FlowView, port: u16| #[trigger] agreed_from(sessions, flow, source, port) {
        let (flow, port) = choose|flow: FlowView, port: u16| #[trigger]
            agreed_from(sessions, flow, source, port);
        let line = NegotiatedView { flow, kex: sessions[flow].negotiated->Some_0 };
        assert(flows.to_set().contains(flow));
        law_negotiated_sessions_listed(flows, sessions, line);
        let i = lines.index_of(line);
        assert(taken_apart(entries[i], lines[i]));
        law_endpoint_injective(entries[i].source_ip, entries[i].source_port, source, port);
    }
}

proof fn lemma_line_shown(
    entries: Seq<SshEntryView>,
    flows: Seq<FlowView>,
    sessions: Map<FlowView, SessionView>,
    algos: Map<Text, KexAlgo>,
    source: Text,
    line: ResultView,
)
    requires
        flows.to_set() == sessions.dom(),
        one_for_one(entries, negotiated_among(flows, sessions)),
    ensures
        lines_of(ssh_results(entries, algos), source).contains(line) <==> line.source == source
            && exists|flow: FlowView| #[trigger] gives_line(sessions, flow, algos, line),
{
    let lines = negotiated_among(flows, sessions);
    law_all_ssh_sessions_shown(entries, algos, source, line);
    if lines_of(ssh_results(entries, algos), source).contains(line) {
        let i = choose|i: int|
            0 <= i < entries.len() && (#[trigger] entries[i]).source_ip == source
                && algos.contains_key(entries[i].kex) && ssh_line(entries[i], algos) == line;
        assert(lines.contains(lines[i]));
        law_negotiated_sessions_listed(flows, sessions, lines[i]);
        assert(flows.to_set().contains(lines[i].flow));
        assert(gives_line(sessions, lines[i].flow, algos, line));
    }
    if line.source == source && exists|flow: FlowView| #[trigger]
        gives_line(sessions, flow, algos, line) {
        let flow = choose|flow: FlowView| #[trigger] gives_line(sessions, flow, algos, line);
        let agreed = NegotiatedView { flow, kex: sessions[flow].negotiated->Some_0 };
        assert(flows.to_set().contains(flow));
        law_negotiated_sessions_listed(flows, sessions, agreed);
        let i = lines.index_of(agreed);
        let entry = entries[i];
        assert(taken_apart(entry, lines[i]));
        law_endpoint_injective(entry.source_ip, entry.source_port, line.source, line.source_port);
        law_endpoint_injective(
            entry.destination_ip,
            entry.destination_port,
            line.destination,
            line.destination_port,
        );
        assert(ssh_line(entry, algos) == line);
    }
}

/// Where the entries are the sessions of a table that agreed on a method, one for one and with
/// their ends taken apart, the report shows each of these sessions whose method is known with
/// a line of its own, under the address of its client, and shows nothing else.
pub proof fn law_report_shows_sessions(
    entries: Seq<SshEntryView>,
    flows: Seq<FlowView>,
    sessions: Map<FlowView, SessionView>,
    algos: Map<Text, KexAlgo>,
)
    requires
        flows.to_set() == sessions.dom(),
        one_for_one(entries, negotiated_among(flows, sessions)),
    ensures
        shows_sessions(ssh_results(entries, algos), sessions, algos),
        entry_methods(entries) == agreed_methods(flows, sessions),
{
    let results = ssh_results(entries, algos);
    assert forall|source: Text| #[trigger]
        results.contains_key(source) <==> exists|flow: FlowView, port: u16| #[trigger]
            agreed_from(sessions, flow, source, port) by {
        lemma_source_shown(entries, flows, sessions, algos, source);
    }
    assert forall|source: Text, line: ResultView| #[trigger]
        lines_of(results, source).contains(line) <==> line.source == source && exists|flow: FlowView|
         #[trigger] gives_line(sessions, flow, algos, line) by {
        lemma_line_shown(entries, flows, sessions, algos, source, line);
    }
    assert(entry_methods(entries) =~= agreed_methods(flows, sessions)) by {
        assert forall|i: int| 0 <= i < entries.len() implies #[trigger] entry_methods(entries)[i]
            == agreed_methods(flows, sessions)[i] by {
            assert(taken_apart(entries[i], negotiated_among(flows, sessions)[i]));
        }
    }
}

/// A session that agreed on a known method is shown: the lines of its client's address hold
/// the line with its ends and its method.
pub proof fn law_negotiated_session_shown(
    entries: Seq<SshEntryView>,
    flows: Seq<FlowView>,
    sessions: Map<FlowView, SessionView>,
    algos: Map<Text, KexAlgo>,
    session: SshEntryView,
    flow: FlowView,
)
    requires
        one_for_one(entries, negotiated_among(flows, sessions)),
        flows.contains(flow),
        sessions[flow].negotiated == Some(session.kex),
        taken_apart(session, NegotiatedView { flow, kex: session.kex }),
        algos.contains_key(session.kex),
    ensures
        lines_of(ssh_results(entries, algos), session.source_ip).contains(ssh_line(session, algos)),
{
    let lines = negotiated_among(flows, sessions);
    let agreed = NegotiatedView { flow, kex: session.kex };
    law_negotiated_sessions_listed(flows, sessions, agreed);
    let i = lines.index_of(agreed);
    let entry = entries[i];
    assert(taken_apart(entry, lines[i]));
    law_endpoint_injective(
        entry.source_ip,
        entry.source_port,
        session.source_ip,
        session.source_port,
    );
    law_endpoint_injective(
        entry.destination_ip,
        entry.destination_port,
        session.destination_ip,
        session.destination_port,
    );
    law_all_ssh_sessions_shown(entries, algos, session.source_ip, ssh_line(session, algos));
    assert(entry == session);
}

// ---------------------------------------------------------------------------------------
// What the catalog and the sessions decide
// ---------------------------------------------------------------------------------------

/// Whether a host supports post-quantum cryptography is decided by the marks that the catalog
/// gives its methods, and by nothing else: it does exactly when one of them is listed as
/// post-quantum.
pub proof fn law_host_status_by_catalog(
    caps: Map<Text, Seq<Text>>,
    algos: Map<Text, KexAlgo>,
    host: Text,
)
    ensures
        ssh_host_statuses(caps, algos).contains_key(host) <==> caps.contains_key(host),
        caps.contains_key(host) && (exists|i: int|
            0 <= i < caps[host].len() && algos.contains_key(#[trigger] caps[host][i])
                && algos[caps[host][i]].pqc) ==> ssh_host_statuses(caps, algos)[host]
            == "PQC Supported"@ && pqc_ssh_hosts(caps, algos).contains(host),
        caps.contains_key(host) && (forall|i: int|
            0 <= i < caps[host].len() && algos.contains_key(#[trigger] caps[host][i])
                ==> !algos[caps[host][i]].pqc) ==> ssh_host_statuses(caps, algos)[host]
            == "No Support"@ && !pqc_ssh_hosts(caps, algos).contains(host),
        !caps.contains_key(host) ==> !pqc_ssh_hosts(caps, algos).contains(host),
{
    if caps.contains_key(host) && (exists|i: int|
        0 <= i < caps[host].len() && algos.contains_key(#[trigger] caps[host][i])
            && algos[caps[host][i]].pqc) {
        let i = choose|i: int|
            0 <= i < caps[host].len() && algos.contains_key(#[trigger] caps[host][i])
                && algos[caps[host][i]].pqc;
        assert(is_pqc(algos, caps[host][i]));
    }
}

/// The lines of a source are those of its sessions whose method is listed, each with both
/// ends of the session and with what the catalog says of the method, and no others.
pub proof fn law_ssh_lines_by_fields(
    entries: Seq<SshEntryView>,
    algos: Map<Text, KexAlgo>,
    source: Text,
    line: ResultView,
)
    ensures
        ssh_results(entries, algos).contains_key(source) <==> exists|i: int|
            0 <= i < entries.len() && (#[trigger] entries[i]).source_ip == source,
        ssh_results(entries, algos).contains_key(source) ==> (ssh_results(entries, algos)[source].contains(
            line,
        ) <==> exists|i: int| #![trigger entries[i]]
            {
                &&& 0 <= i < entries.len()
                &&& entries[i].source_ip == source
                &&& algos.contains_key(entries[i].kex)
                &&& line.source == entries[i].source_ip
                &&& line.source_port == entries[i].source_port
                &&& line.destination == entries[i].destination_ip
                &&& line.destination_port == entries[i].destination_port
                &&& algos[entries[i].kex].pqc ==> line.pqc_status == "PQC Supported"@
                &&& !algos[entries[i].kex].pqc ==> line.pqc_status == "PQC NOT Supported"@
            }),
{
    law_all_ssh_sessions_shown(entries, algos, source, line);
    assert forall|i: int| #![trigger entries[i]]
        0 <= i < entries.len() && algos.contains_key(entries[i].kex) implies (ssh_line(entries[i], algos)
        == line <==> {
        &&& line.source == entries[i].source_ip
        &&& line.source_port == entries[i].source_port
        &&& line.destination == entries[i].destination_ip
        &&& line.destination_port == entries[i].destination_port
        &&& algos[entries[i].kex].pqc ==> line.pqc_status == "PQC Supported"@
        &&& !algos[entries[i].kex].pqc ==> line.pqc_status == "PQC NOT Supported"@
    }) by {}
}

/// A session counts as post-quantum exactly when the catalog lists its method as such: each
/// such session adds one to the count, and no other session adds to it.
pub proof fn law_ssh_count_by_catalog(
    entries: Seq<SshEntryView>,
    entry: SshEntryView,
    algos: Map<Text, KexAlgo>,
)
    ensures
        ssh_pqc_count(Seq::empty(), algos) == 0,
        algos.contains_key(entry.kex) && algos[entry.kex].pqc ==> ssh_pqc_count(
            entries.push(entry),
            algos,
        ) == ssh_pqc_count(entries, algos) + 1,
        !(algos.contains_key(entry.kex) && algos[entry.kex].pqc) ==> ssh_pqc_count(
            entries.push(entry),
            algos,
        ) == ssh_pqc_count(entries, algos),
{
    reveal(Seq::filter);
    assert(entries.push(entry).drop_last() =~= entries);
}

/// The post-quantum sessions of a table are those that agreed on a method which the catalog
/// lists as such.
pub proof fn law_pqc_sessions_by_catalog(
    sessions: Map<FlowView, SessionView>,
    algos: Map<Text, KexAlgo>,
    flow: FlowView,
    kex: Text,
)
    ensures
        pqc_sessions(sessions, algos).contains(flow) ==> sessions.contains_key(flow)
            && sessions[flow].negotiated is Some && algos.contains_key(
            sessions[flow].negotiated->Some_0,
        ) && algos[sessions[flow].negotiated->Some_0].pqc,
        sessions.contains_key(flow) && sessions[flow].negotiated == Some(kex) && algos.contains_key(kex)
            && algos[kex].pqc ==> pqc_sessions(sessions, algos).contains(flow),
{
}

/// Sessions are listed one after the other: one that agreed on a method gives one line, with
/// its flow and the method, and one that did not gives none.
pub proof fn law_sessions_listed_in_order(
    flows: Seq<FlowView>,
    flow: FlowView,
    sessions: Map<FlowView, SessionView>,
)
    ensures
        negotiated_among(Seq::empty(), sessions).len() == 0,
        sessions[flow].negotiated is None ==> negotiated_among(flows.push(flow), sessions)
            == negotiated_among(flows, sessions),
        sessions[flow].negotiated matches Some(kex) ==> {
            let lines = negotiated_among(flows.push(flow), sessions);
            &&& lines.len() == negotiated_among(flows, sessions).len() + 1
            &&& lines.drop_last() == negotiated_among(flows, sessions)
            &&& lines.last().flow == flow
            &&& lines.last().kex == kex
        },
{
    assert(flows.push(flow).drop_last() =~= flows);
    if let Some(kex) = sessions[flow].negotiated {
        let line = NegotiatedView { flow, kex };
        assert(negotiated_among(flows.push(flow), sessions) =~= negotiated_among(flows, sessions).push(
            line,
        ));
        assert(negotiated_among(flows, sessions).push(line).drop_last() =~= negotiated_among(
            flows,
            sessions,
        ));
    } else {
        assert(negotiated_among(flows.push(flow), sessions) =~= negotiated_among(flows, sessions));
    }
}

/// Lines stand for the texts and numbers of their fields.
pub proof fn law_lines_stand_for_their_fields(ssh: SshSessionResult, tls: TlsSessionResult)
    ensures
        ssh@.source == ssh.source@,
        ssh@.source_port == ssh.source_port,
        ssh@.destination == ssh.destination@,
        ssh@.destination_port == ssh.destination_port,
        ssh@.pqc_status == ssh.pqc_status@,
        tls@.source == tls.source@,
        tls@.source_port == tls.source_port,
        tls@.destination == tls.destination@,
        tls@.destination_port == tls.destination_port,
        tls@.pqc_status == tls.pqc_status@,
{
}

/// Sessions stand for the texts and numbers of their fields.
pub proof fn law_sessions_stand_for_their_fields(entry: SshSessionEntry, agreed: NegotiatedFlow)
    ensures
        entry@.source_ip == entry.source_ip@,
        entry@.source_port == entry.source_port,
        entry@.destination_ip == entry.destination_ip@,
        entry@.destination_port == entry.destination_port,
        entry@.kex == entry.kex@,
        agreed@.flow.src == agreed.src@,
        agreed@.flow.dst == agreed.dst@,
        agreed@.kex == agreed.kex@,
{
}

} // verus!
