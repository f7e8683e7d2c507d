//! The whole report of a survey.

use vstd::prelude::*;
use std::collections::HashMap;
use crate::capture::{Capture, PacketTime};
use crate::catalog::{KexAlgo, TlsCipherSuite, TlsGroup};
use crate::report::{
    agreed_methods, any_pqc, entry_methods, is_pqc, law_host_status_by_catalog, law_pqc_sessions_counted, law_report_shows_sessions,
    negotiated_among, one_for_one, pqc_sessions, pqc_ssh_hosts, shows_sessions,
    ssh_host_report, ssh_host_statuses, ssh_pqc_count, ssh_results, ssh_session_report, KexCatalog,
    SshEntryView, SshSessionEntry, SshSessionResult, TlsSessionResult,
};
use crate::ssh::{HostTable, SshSessions};
use crate::table::{views, DistinctSet, Table};
use crate::text::Text;
use crate::tls_report::{
    groups_by_source, law_pqc_sources_by_marks, law_sources_are_addresses, offers_pqc, pqc_sources, sources, tls_cipher_report, tls_group_report,
    tls_pqc_count, tls_results, tls_session_report, withstands, OfferView, TlsEntryView,
    TlsOffer, TlsSessionEntry,
};

verus! {

/// The findings of a survey.
pub struct ReportResults {
    /// How many hosts announced anything.
    pub total_count: usize,
    /// How many of them support post-quantum cryptography.
    pub pqc_count: usize,
    pub ssh_total_count: usize,
    pub ssh_pqc_supported_count: usize,
    pub tls_total_count: usize,
    pub tls_pqc_supported_count: usize,
    pub packet_count: usize,
    /// The time of the first packet, if there was one.
    pub start_time: Option<PacketTime>,
    /// The time of the last packet, if there was one.
    pub end_time: Option<PacketTime>,
    pub ssh_host_capabilities: HostTable,
    pub ssh_hosts: DistinctSet<String>,
    pub ssh_hosts_pqc: Table<String, String>,
    pub ssh_sessions_results: Table<String, DistinctSet<SshSessionResult>>,
    pub tls_hosts: DistinctSet<String>,
    pub tls_hosts_pqc: Table<String, DistinctSet<String>>,
    pub tls_sessions_results: Table<String, DistinctSet<TlsSessionResult>>,
}

impl ReportResults {
    /// The sets and tables of the report hold nothing twice.
    pub open spec fn wf(self) -> bool {
        &&& self.ssh_host_capabilities.wf()
        &&& self.ssh_hosts.wf()
        &&& self.ssh_hosts_pqc.wf()
        &&& self.ssh_sessions_results.wf()
        &&& self.tls_hosts.wf()
        &&& self.tls_hosts_pqc.wf()
        &&& self.tls_sessions_results.wf()
    }
}

/// All hosts: those that announced SSH methods, and those that offered TLS groups.
pub open spec fn all_hosts(caps: Map<Text, Seq<Text>>, group_offers: Seq<OfferView>) -> Set<Text> {
    caps.dom().union(sources(group_offers))
}

/// All hosts that support post-quantum cryptography.
pub open spec fn all_pqc_hosts(
    caps: Map<Text, Seq<Text>>,
    algos: Map<Text, KexAlgo>,
    group_offers: Seq<OfferView>,
    groups: Map<u16, TlsGroup>,
) -> Set<Text> {
    pqc_ssh_hosts(caps, algos).union(pqc_sources(group_offers, groups))
}

/// Every post-quantum host is one of the hosts.
pub proof fn law_pqc_hosts_are_hosts(
    caps: Map<Text, Seq<Text>>,
    algos: Map<Text, KexAlgo>,
    group_offers: Seq<OfferView>,
    groups: Map<u16, TlsGroup>,
)
    ensures
        all_pqc_hosts(caps, algos, group_offers, groups).subset_of(all_hosts(caps, group_offers)),
{
    assert forall|h: Text| pqc_sources(group_offers, groups).contains(h) implies sources(
        group_offers,
    ).contains(h) by {
        let i = choose|i: int|
            0 <= i < group_offers.len() && (#[trigger] group_offers[i]).source_ip == h && offers_pqc(
                group_offers[i],
                groups,
            );
        let ips = group_offers.map_values(|o: OfferView| o.source_ip);
        assert(ips[i] == h);
    }
}

/// A host counts as post-quantum exactly when it announced a post-quantum SSH method or
/// offered a post-quantum TLS group.
pub proof fn law_pqc_host_has_shown_it(
    caps: Map<Text, Seq<Text>>,
    algos: Map<Text, KexAlgo>,
    group_offers: Seq<OfferView>,
    groups: Map<u16, TlsGroup>,
    host: Text,
)
    ensures
        all_pqc_hosts(caps, algos, group_offers, groups).contains(host) <==> (caps.contains_key(host)
            && any_pqc(algos, caps[host])) || exists|i: int|
            0 <= i < group_offers.len() && (#[trigger] group_offers[i]).source_ip == host && offers_pqc(
                group_offers[i],
                groups,
            ),
{
}

/// No more sessions agreed on a post-quantum method than there are.
pub proof fn law_pqc_sessions_are_sessions(
    ssh: Seq<SshEntryView>,
    algos: Map<Text, KexAlgo>,
    tls: Seq<TlsEntryView>,
    groups: Map<u16, TlsGroup>,
)
    ensures
        ssh_pqc_count(ssh, algos) <= ssh.len(),
        tls_pqc_count(tls, groups) <= tls.len(),
{
    ssh.lemma_filter_len(|e: SshEntryView| is_pqc(algos, e.kex));
    tls.lemma_filter_len(|e: TlsEntryView| withstands(groups, e.group));
}

/// Sums a survey up. The SSH sessions are given with their ends taken apart, the offers of
/// cipher suites and of groups with their addresses.
pub fn build_report(
    host_caps: HostTable,
    ssh_sessions: &SshSessions,
    ssh_entries: &Vec<SshSessionEntry>,
    cipher_offers: &Vec<TlsOffer>,
    group_offers: &Vec<TlsOffer>,
    tls_entries: &Vec<TlsSessionEntry>,
    algos: &KexCatalog,
    groups: &HashMap<u16, TlsGroup>,
    suites: &HashMap<u16, TlsCipherSuite>,
    capture: &Capture,
) -> (results: ReportResults)
    requires
        host_caps.wf(),
        ssh_sessions.wf(),
        algos.wf(),
    ensures
        results.wf(),
        results.total_count == all_hosts(host_caps@, views(group_offers@)).len(),
        results.pqc_count == all_pqc_hosts(
            host_caps@,
            algos@,
            views(group_offers@),
            groups@,
        ).len(),
        results.pqc_count <= results.total_count,
        results.ssh_total_count == ssh_sessions@.dom().len(),
        results.ssh_pqc_supported_count == ssh_pqc_count(views(ssh_entries@), algos@),
        results.ssh_pqc_supported_count <= ssh_entries@.len(),
        entry_methods(views(ssh_entries@)) == agreed_methods(ssh_sessions.order(), ssh_sessions@) ==> {
            &&& results.ssh_pqc_supported_count == pqc_sessions(ssh_sessions@, algos@).len()
            &&& results.ssh_pqc_supported_count <= results.ssh_total_count
        },
        results.tls_total_count == tls_entries@.len(),
        results.tls_pqc_supported_count == tls_pqc_count(views(tls_entries@), groups@),
        results.tls_pqc_supported_count <= results.tls_total_count,
        results.packet_count == capture.packet_count,
        results.start_time == capture.start_time,
        results.end_time == capture.end_time,
        results.ssh_host_capabilities == host_caps,
        results.ssh_hosts@ == host_caps@.dom(),
        results.ssh_hosts_pqc@ == ssh_host_statuses(host_caps@, algos@),
        results.ssh_sessions_results@ == ssh_results(views(ssh_entries@), algos@),
        one_for_one(
            views(ssh_entries@),
            negotiated_among(ssh_sessions.order(), ssh_sessions@),
        ) ==> {
            &&& shows_sessions(results.ssh_sessions_results@, ssh_sessions@, algos@)
            &&& results.ssh_pqc_supported_count == pqc_sessions(ssh_sessions@, algos@).len()
        },
        results.tls_hosts@ == sources(views(cipher_offers@)),
        results.tls_hosts_pqc@ == groups_by_source(views(group_offers@), groups@),
        results.tls_sessions_results@ == tls_results(views(tls_entries@), groups@),
{
    let mut hosts: DistinctSet<String> = DistinctSet::new();
    let mut pqc_hosts: DistinctSet<String> = DistinctSet::new();
    let ssh = ssh_host_report(&host_caps, algos, &mut hosts, &mut pqc_hosts);
    let ssh_lines = ssh_session_report(ssh_entries, algos);
    let offered = tls_cipher_report(cipher_offers, suites);
    let tls_hosts_pqc = tls_group_report(group_offers, groups, &mut hosts, &mut pqc_hosts);
    let tls_lines = tls_session_report(tls_entries, groups);
    proof {
        assert(hosts@ =~= all_hosts(host_caps@, views(group_offers@)));
        assert(pqc_hosts@ =~= all_pqc_hosts(host_caps@, algos@, views(group_offers@), groups@));
        law_pqc_hosts_are_hosts(host_caps@, algos@, views(group_offers@), groups@);
        hosts.lemma_order();
        ssh_sessions.lemma_order();
        if one_for_one(
            views(ssh_entries@),
            negotiated_among(ssh_sessions.order(), ssh_sessions@),
        ) {
            law_report_shows_sessions(
                views(ssh_entries@),
                ssh_sessions.order(),
                ssh_sessions@,
                algos@,
            );
        }
        if entry_methods(views(ssh_entries@)) == agreed_methods(ssh_sessions.order(), ssh_sessions@) {
            law_pqc_sessions_counted(
                views(ssh_entries@),
                ssh_sessions.order(),
                ssh_sessions@,
                algos@,
            );
        }
        vstd::set_lib::lemma_len_subset(pqc_hosts@, hosts@);
    }
    ReportResults {
        total_count: hosts.len(),
        pqc_count: pqc_hosts.len(),
        ssh_total_count: ssh_sessions.len(),
        ssh_pqc_supported_count: ssh_lines.pqc_count,
        tls_total_count: tls_entries.len(),
        tls_pqc_supported_count: tls_lines.pqc_count,
        packet_count: capture.packet_count,
        start_time: capture.start_time,
        end_time: capture.end_time,
        ssh_host_capabilities: host_caps,
        ssh_hosts: ssh.hosts,
        ssh_hosts_pqc: ssh.statuses,
        ssh_sessions_results: ssh_lines.results,
        tls_hosts: offered.hosts,
        tls_hosts_pqc,
        tls_sessions_results: tls_lines.results,
    }
}

/// The hosts are those that announced SSH methods and those that TLS groups were offered from,
/// and no others.
pub proof fn law_hosts_announced_or_offered(
    caps: Map<Text, Seq<Text>>,
    group_offers: Seq<OfferView>,
    host: Text,
)
    ensures
        all_hosts(caps, group_offers).contains(host) <==> caps.contains_key(host) || exists|i: int|
            0 <= i < group_offers.len() && (#[trigger] group_offers[i]).source_ip == host,
{
    law_sources_are_addresses(group_offers, host);
}

/// The post-quantum hosts are those that announced an SSH method which the catalog lists as
/// post-quantum, and those that offered a TLS group which it marks as hybrid or post-quantum,
/// and no others.
pub proof fn law_pqc_hosts_by_catalog(
    caps: Map<Text, Seq<Text>>,
    algos: Map<Text, KexAlgo>,
    group_offers: Seq<OfferView>,
    groups: Map<u16, TlsGroup>,
    host: Text,
)
    ensures
        all_pqc_hosts(caps, algos, group_offers, groups).contains(host) <==> (caps.contains_key(host)
            && exists|i: int|
            0 <= i < caps[host].len() && algos.contains_key(#[trigger] caps[host][i])
                && algos[caps[host][i]].pqc) || exists|i: int, k: int|
         #![trigger group_offers[i].ids[k]]
            {
                &&& 0 <= i < group_offers.len()
                &&& group_offers[i].source_ip == host
                &&& 0 <= k < group_offers[i].ids.len()
                &&& groups.contains_key(group_offers[i].ids[k])
                &&& groups[group_offers[i].ids[k]].hybrid || groups[group_offers[i].ids[k]].pqc
            },
{
    law_host_status_by_catalog(caps, algos, host);
    law_pqc_sources_by_marks(group_offers, groups, host);
}

} // verus!
