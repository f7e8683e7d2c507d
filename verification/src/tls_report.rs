//! What a report shows of TLS hosts and sessions.

use vstd::prelude::*;
use std::collections::HashMap;
use crate::catalog::{grade, PqcGrade, TlsCipherSuite, TlsGroup};
use crate::report::{lines_of, ResultView, TlsSessionResult};
use crate::table::{views, DistinctSet, Table};
use crate::text::{decimal, decimal_text, Text};

verus! {

/// What one end of a connection offered: the numbers of cipher suites or of groups.
pub struct TlsOffer {
    /// The end, as `address:port`.
    pub key: String,
    /// Its address.
    pub source_ip: String,
    /// The numbers.
    pub ids: Vec<u16>,
}

/// What a [`TlsOffer`] holds.
pub struct OfferView {
    pub key: Text,
    pub source_ip: Text,
    pub ids: Seq<u16>,
}

impl View for TlsOffer {
    type V = OfferView;

    open spec fn view(&self) -> OfferView {
        OfferView { key: self.key@, source_ip: self.source_ip@, ids: self.ids@ }
    }
}

/// The addresses that offers came from.
pub open spec fn sources(offers: Seq<OfferView>) -> Set<Text> {
    offers.map_values(|o: OfferView| o.source_ip).to_set()
}

proof fn lemma_sources(offers: Seq<OfferView>)
    ensures
        offers.len() == 0 ==> sources(offers) == Set::<Text>::empty(),
        offers.len() > 0 ==> sources(offers) == sources(offers.drop_last()).insert(
            offers.last().source_ip,
        ),
{
    let ips = offers.map_values(|o: OfferView| o.source_ip);
    if offers.len() == 0 {
        assert(ips.to_set() =~= Set::empty());
    } else {
        let fewer = offers.drop_last().map_values(|o: OfferView| o.source_ip);
        assert(ips =~= fewer.push(offers.last().source_ip));
        assert forall|t: Text| ips.contains(t) <==> fewer.contains(t) || t == offers.last().source_ip by {
            if fewer.contains(t) {
                let i = fewer.index_of(t);
                assert(ips[i] == t);
            }
            assert(ips[fewer.len() as int] == offers.last().source_ip);
        }
        assert(ips.to_set() =~= fewer.to_set().insert(offers.last().source_ip));
    }
}

// ---------------------------------------------------------------------------------------
// Cipher suites
// ---------------------------------------------------------------------------------------

/// The name of a cipher suite; its number, if it is not known.
pub open spec fn suite_text(suites: Map<u16, TlsCipherSuite>, id: u16) -> Text {
    if suites.contains_key(id) {
        suites[id].name@
    } else {
        decimal(id as nat)
    }
}

/// The names of cipher suites.
pub open spec fn suite_texts(suites: Map<u16, TlsCipherSuite>, ids: Seq<u16>) -> Set<Text> {
    Set::new(|t: Text| exists|i: int| 0 <= i < ids.len() && suite_text(suites, #[trigger] ids[i]) == t)
}

/// The cipher suites of each address: those of the offer that comes last.
pub open spec fn suites_by_source(
    offers: Seq<OfferView>,
    suites: Map<u16, TlsCipherSuite>,
) -> Map<Text, Set<Text>>
    decreases offers.len(),
{
    if offers.len() == 0 {
        Map::empty()
    } else {
        suites_by_source(offers.drop_last(), suites).insert(
            offers.last().source_ip,
            suite_texts(suites, offers.last().ids),
        )
    }
}

fn name_suites(suites: &HashMap<u16, TlsCipherSuite>, ids: &Vec<u16>) -> (names: DistinctSet<String>)
    ensures
        names.wf(),
        names@ == suite_texts(suites@, ids@),
{
    let mut names: DistinctSet<String> = DistinctSet::new();
    let mut i: usize = 0;
    assert(names@ =~= suite_texts(suites@, ids@.take(0)));
    while i < ids.len()
        invariant
            i <= ids.len(),
            names.wf(),
            names@ == suite_texts(suites@, ids@.take(i as int)),
        decreases ids.len() - i,
    {
        let ghost before = ids@.take(i as int);
        let ghost after = ids@.take(i + 1);
        let id: u16 = ids[i];
        let name: String = match suites.get(&id) {
            Some(suite) => suite.name.clone(),
            None => decimal_text(id),
        };
        assert(name@ == suite_text(suites@, id));
        names.insert(name);
        assert forall|t: Text| #![auto]
            suite_texts(suites@, after).contains(t) <==> suite_texts(suites@, before).contains(t) || t
                == suite_text(suites@, id) by {
            if suite_texts(suites@, before).contains(t) {
                let j = choose|j: int|
                    0 <= j < before.len() && suite_text(suites@, #[trigger] before[j]) == t;
                assert(suite_text(suites@, after[j]) == t);
            }
            assert(after[i as int] == id);
            if suite_texts(suites@, after).contains(t) {
                let j = choose|j: int|
                    0 <= j < after.len() && suite_text(suites@, #[trigger] after[j]) == t;
                if j < i {
                    assert(suite_text(suites@, before[j]) == t);
                }
            }
        }
        assert(names@ =~= suite_texts(suites@, after));
        i = i + 1;
    }
    assert(ids@.take(ids.len() as int) =~= ids@);
    names
}

/// What is reported of the cipher suites that were offered.
pub struct TlsSuites {
    /// The addresses that offers came from.
    pub hosts: DistinctSet<String>,
    /// The names of the cipher suites, by the address of their source.
    pub suites: Table<String, DistinctSet<String>>,
}

/// Sums the offers of cipher suites up, in the given order.
pub fn tls_cipher_report(offers: &Vec<TlsOffer>, suites: &HashMap<u16, TlsCipherSuite>) -> (found:
    TlsSuites)
    ensures
        found.hosts.wf(),
        found.suites.wf(),
        found.hosts@ == sources(views(offers@)),
        found.suites@ == suites_by_source(views(offers@), suites@),
{
    let ghost all = views(offers@);
    let mut hosts: DistinctSet<String> = DistinctSet::new();
    let mut by_source: Table<String, DistinctSet<String>> = Table::new();
    let mut i: usize = 0;
    proof {
        lemma_sources(all.take(0));
    }
    while i < offers.len()
        invariant
            i <= offers.len(),
            all == views(offers@),
            hosts.wf(),
            by_source.wf(),
            hosts@ == sources(all.take(i as int)),
            by_source@ == suites_by_source(all.take(i as int), suites@),
        decreases offers.len() - i,
    {
        let offer = &offers[i];
        proof {
            assert(all.take(i + 1).drop_last() =~= all.take(i as int));
            assert(all.take(i + 1).last() == offer@);
            lemma_sources(all.take(i + 1));
        }
        hosts.insert(offer.source_ip.clone());
        by_source.insert(offer.source_ip.clone(), name_suites(suites, &offer.ids));
        i = i + 1;
    }
    assert(all.take(offers.len() as int) =~= all);
    TlsSuites { hosts, suites: by_source }
}

/// Whether the offer at place `i` is the last one that came from `source`.
pub open spec fn last_from(offers: Seq<OfferView>, source: Text, i: int) -> bool {
    &&& 0 <= i < offers.len()
    &&& offers[i].source_ip == source
    &&& forall|j: int| i < j < offers.len() ==> (#[trigger] offers[j]).source_ip != source
}

/// An address has cipher suites exactly when an offer of them came from it, and it has those
/// of its last offer.
pub proof fn law_last_suites_count(
    offers: Seq<OfferView>,
    suites: Map<u16, TlsCipherSuite>,
    source: Text,
)
    ensures
        suites_by_source(offers, suites).dom() == sources(offers),
        sources(offers).contains(source) ==> exists|i: int| #[trigger]
            last_from(offers, source, i) && suites_by_source(offers, suites)[source] == suite_texts(
                suites,
                offers[i].ids,
            ),
    decreases offers.len(),
{
    lemma_sources(offers);
    if offers.len() > 0 {
        let fewer = offers.drop_last();
        let n = offers.len() - 1;
        law_last_suites_count(fewer, suites, source);
        if offers[n].source_ip == source {
            assert(last_from(offers, source, n));
        } else if sources(fewer).contains(source) {
            let i = choose|i: int| #[trigger]
                last_from(fewer, source, i) && suites_by_source(fewer, suites)[source] == suite_texts(
                    suites,
                    fewer[i].ids,
                );
            assert(offers[i] == fewer[i]);
            assert forall|j: int| i < j < offers.len() implies (#[trigger] offers[j]).source_ip
                != source by {
                if j < n {
                    assert(fewer[j] == offers[j]);
                }
            }
            assert(last_from(offers, source, i));
        }
    }
    assert(suites_by_source(offers, suites).dom() =~= sources(offers));
}

// ---------------------------------------------------------------------------------------
// Groups
// ---------------------------------------------------------------------------------------

/// Whether a group is known to be post-quantum, alone or with a classical one.
pub open spec fn withstands(groups: Map<u16, TlsGroup>, id: u16) -> bool {
    groups.contains_key(id) && (groups[id].hybrid || groups[id].pqc)
}

/// What a report says of a group that an end of a connection offered.
pub open spec fn group_text(key: Text, group: TlsGroup) -> Text {
    key + " supports "@ + group.name@ + match grade(group) {
        PqcGrade::Hybrid => " a hybrid algorithm"@,
        PqcGrade::Full => " which is pure PQC"@,
        PqcGrade::Classical => " which is not PQC safe"@,
    }
}

/// What a report says of an offer: a text for each group that is known.
pub open spec fn group_texts(offer: OfferView, groups: Map<u16, TlsGroup>) -> Set<Text> {
    Set::new(
        |t: Text|
            exists|i: int|
                0 <= i < offer.ids.len() && groups.contains_key(#[trigger] offer.ids[i]) && group_text(
                    offer.key,
                    groups[offer.ids[i]],
                ) == t,
    )
}

/// Whether an offer holds a group that is known to be post-quantum.
pub open spec fn offers_pqc(offer: OfferView, groups: Map<u16, TlsGroup>) -> bool {
    exists|i: int| 0 <= i < offer.ids.len() && withstands(groups, #[trigger] offer.ids[i])
}

/// The addresses that offered a group that is known to be post-quantum.
pub open spec fn pqc_sources(offers: Seq<OfferView>, groups: Map<u16, TlsGroup>) -> Set<Text> {
    Set::new(
        |t: Text|
            exists|i: int|
                0 <= i < offers.len() && (#[trigger] offers[i]).source_ip == t && offers_pqc(
                    offers[i],
                    groups,
                ),
    )
}

/// What a report says of each address: the texts of all its offers.
pub open spec fn groups_by_source(offers: Seq<OfferView>, groups: Map<u16, TlsGroup>) -> Map<
    Text,
    Set<Text>,
>
    decreases offers.len(),
{
    if offers.len() == 0 {
        Map::empty()
    } else {
        let before = groups_by_source(offers.drop_last(), groups);
        let offer = offers.last();
        before.insert(
            offer.source_ip,
            lines_of(before, offer.source_ip).union(group_texts(offer, groups)),
        )
    }
}

fn describe_group(key: &String, group: &TlsGroup) -> (text: String)
    ensures
        text@ == group_text(key@, *group),
{
    let mut text: String = key.clone();
    text.append(" supports ");
    text.append(group.name.as_str());
    match group.grade() {
        PqcGrade::Hybrid => {
            text.append(" a hybrid algorithm");
        },
        PqcGrade::Full => {
            text.append(" which is pure PQC");
        },
        PqcGrade::Classical => {
            text.append(" which is not PQC safe");
        },
    }
    text
}

/// Adds the texts of an offer, and says whether it holds a group that is known to be
/// post-quantum.
fn describe_offer(
    offer: &TlsOffer,
    groups: &HashMap<u16, TlsGroup>,
    described: &mut DistinctSet<String>,
) -> (pqc: bool)
    requires
        old(described).wf(),
    ensures
        final(described).wf(),
        final(described)@ == old(described)@.union(group_texts(offer@, groups@)),
        pqc == offers_pqc(offer@, groups@),
{
    let ghost whole = offer@;
    let ghost part = |n: int| OfferView { ids: whole.ids.take(n), ..whole };
    let mut pqc = false;
    let mut i: usize = 0;
    assert(described@ =~= old(described)@.union(group_texts(part(0), groups@)));
    while i < offer.ids.len()
        invariant
            i <= offer.ids.len(),
            whole == offer@,
            part == (|n: int| OfferView { ids: whole.ids.take(n), ..whole }),
            described.wf(),
            described@ == old(described)@.union(group_texts(part(i as int), groups@)),
            pqc == offers_pqc(part(i as int), groups@),
        decreases offer.ids.len() - i,
    {
        let ghost before = part(i as int);
        let ghost after = part(i + 1);
        let id: u16 = offer.ids[i];
        assert(after.ids =~= before.ids.push(id));
        assert(after.ids[i as int] == id);
        proof {
            assert forall|t: Text| #![auto]
                group_texts(after, groups@).contains(t) <==> group_texts(before, groups@).contains(t)
                    || (groups@.contains_key(id) && t == group_text(whole.key, groups@[id])) by {
                if group_texts(before, groups@).contains(t) {
                    let j = choose|j: int|
                        0 <= j < before.ids.len() && groups@.contains_key(#[trigger] before.ids[j])
                            && group_text(before.key, groups@[before.ids[j]]) == t;
                    assert(after.ids[j] == before.ids[j]);
                }
                if group_texts(after, groups@).contains(t) {
                    let j = choose|j: int|
                        0 <= j < after.ids.len() && groups@.contains_key(#[trigger] after.ids[j])
                            && group_text(after.key, groups@[after.ids[j]]) == t;
                    if j < i {
                        assert(after.ids[j] == before.ids[j]);
                    }
                }
            }
            if offers_pqc(before, groups@) {
                let j = choose|j: int|
                    0 <= j < before.ids.len() && withstands(groups@, #[trigger] before.ids[j]);
                assert(after.ids[j] == before.ids[j]);
            }
            if offers_pqc(after, groups@) {
                let j = choose|j: int|
                    0 <= j < after.ids.len() && withstands(groups@, #[trigger] after.ids[j]);
                if j < i {
                    assert(after.ids[j] == before.ids[j]);
                }
            }
        }
        if let Some(group) = groups.get(&id) {
            if group.hybrid || group.pqc {
                pqc = true;
            }
            described.insert(describe_group(&offer.key, group));
        }
        assert(described@ =~= old(described)@.union(group_texts(after, groups@)));
        i = i + 1;
    }
    assert(part(offer.ids.len() as int).ids =~= whole.ids);
    assert(part(offer.ids.len() as int) == whole);
    pqc
}

/// Sums the offers of groups up. Their addresses are added to all
/// hosts, those that offered a post-quantum group to all post-quantum hosts.
pub fn tls_group_report(
    offers: &Vec<TlsOffer>,
    groups: &HashMap<u16, TlsGroup>,
    hosts: &mut DistinctSet<String>,
    pqc_hosts: &mut DistinctSet<String>,
) -> (found: Table<String, DistinctSet<String>>)
    requires
        old(hosts).wf(),
        old(pqc_hosts).wf(),
    ensures
        final(hosts).wf(),
        final(pqc_hosts).wf(),
        found.wf(),
        found@ == groups_by_source(views(offers@), groups@),
        final(hosts)@ == old(hosts)@.union(sources(views(offers@))),
        final(pqc_hosts)@ == old(pqc_hosts)@.union(pqc_sources(views(offers@), groups@)),
{
    let ghost all = views(offers@);
    let mut found: Table<String, DistinctSet<String>> = Table::new();
    let mut i: usize = 0;
    proof {
        lemma_sources(all.take(0));
        assert(hosts@ =~= old(hosts)@.union(sources(all.take(0))));
        assert(pqc_hosts@ =~= old(pqc_hosts)@.union(pqc_sources(all.take(0), groups@)));
    }
    while i < offers.len()
        invariant
            i <= offers.len(),
            all == views(offers@),
            hosts.wf(),
            pqc_hosts.wf(),
            found.wf(),
            found@ == groups_by_source(all.take(i as int), groups@),
            hosts@ == old(hosts)@.union(sources(all.take(i as int))),
            pqc_hosts@ == old(pqc_hosts)@.union(pqc_sources(all.take(i as int), groups@)),
        decreases offers.len() - i,
    {
        let ghost before = all.take(i as int);
        let ghost after = all.take(i + 1);
        let offer = &offers[i];
        proof {
            assert(after.drop_last() =~= before);
            assert(after[i as int] == offer@);
            lemma_sources(after);
            assert forall|t: Text| #![auto]
                pqc_sources(after, groups@).contains(t) <==> pqc_sources(before, groups@).contains(t)
                    || (t == offer@.source_ip && offers_pqc(offer@, groups@)) by {
                if pqc_sources(before, groups@).contains(t) {
                    let j = choose|j: int|
                        0 <= j < before.len() && (#[trigger] before[j]).source_ip == t && offers_pqc(
                            before[j],
                            groups@,
                        );
                    assert(after[j] == before[j]);
                }
                if pqc_sources(after, groups@).contains(t) {
                    let j = choose|j: int|
                        0 <= j < after.len() && (#[trigger] after[j]).source_ip == t && offers_pqc(
                            after[j],
                            groups@,
                        );
                    if j < i {
                        assert(after[j] == before[j]);
                    }
                }
            }
        }
        hosts.insert(offer.source_ip.clone());
        let ghost shown = found@;
        if !found.contains_key(&offer.source_ip) {
            found.insert(offer.source_ip.clone(), DistinctSet::new());
        }
        assert(found@ =~= shown.insert(offer@.source_ip, lines_of(shown, offer@.source_ip)));
        if let Some(described) = found.get_mut(&offer.source_ip) {
            if describe_offer(offer, groups, described) {
                pqc_hosts.insert(offer.source_ip.clone());
            }
        }
        assert(found@ =~= groups_by_source(after, groups@));
        assert(hosts@ =~= old(hosts)@.union(sources(after)));
        assert(pqc_hosts@ =~= old(pqc_hosts)@.union(pqc_sources(after, groups@)));
        i = i + 1;
    }
    assert(all.take(offers.len() as int) =~= all);
    found
}

/// An address is shown exactly when an offer of groups came from it, and with the texts of
/// all its offers: in which order they come does not matter.
pub proof fn law_all_group_offers_shown(
    offers: Seq<OfferView>,
    groups: Map<u16, TlsGroup>,
    source: Text,
    text: Text,
)
    ensures
        groups_by_source(offers, groups).dom() == sources(offers),
        lines_of(groups_by_source(offers, groups), source).contains(text) <==> exists|i: int|
            0 <= i < offers.len() && (#[trigger] offers[i]).source_ip == source && group_texts(
                offers[i],
                groups,
            ).contains(text),
    decreases offers.len(),
{
    lemma_sources(offers);
    if offers.len() > 0 {
        let fewer = offers.drop_last();
        let n = offers.len() - 1;
        law_all_group_offers_shown(fewer, groups, source, text);
        assert(offers[n] == offers.last());
        if exists|i: int|
            0 <= i < fewer.len() && (#[trigger] fewer[i]).source_ip == source && group_texts(
                fewer[i],
                groups,
            ).contains(text) {
            let i = choose|i: int|
                0 <= i < fewer.len() && (#[trigger] fewer[i]).source_ip == source && group_texts(
                    fewer[i],
                    groups,
                ).contains(text);
            assert(offers[i] == fewer[i]);
        }
        if exists|i: int|
            0 <= i < offers.len() && (#[trigger] offers[i]).source_ip == source && group_texts(
                offers[i],
                groups,
            ).contains(text) {
            let i = choose|i: int|
                0 <= i < offers.len() && (#[trigger] offers[i]).source_ip == source && group_texts(
                    offers[i],
                    groups,
                ).contains(text);
            if i < n {
                assert(fewer[i] == offers[i]);
            }
        }
    }
    assert(groups_by_source(offers, groups).dom() =~= sources(offers));
}

/// Every group that is known and that an address ever offered is shown for it.
pub proof fn law_offered_group_shown(
    offers: Seq<OfferView>,
    groups: Map<u16, TlsGroup>,
    i: int,
    j: int,
)
    requires
        0 <= i < offers.len(),
        0 <= j < offers[i].ids.len(),
        groups.contains_key(offers[i].ids[j]),
    ensures
        groups_by_source(offers, groups).contains_key(offers[i].source_ip),
        groups_by_source(offers, groups)[offers[i].source_ip].contains(
            group_text(offers[i].key, groups[offers[i].ids[j]]),
        ),
{
    let text = group_text(offers[i].key, groups[offers[i].ids[j]]);
    law_all_group_offers_shown(offers, groups, offers[i].source_ip, text);
    assert(group_texts(offers[i], groups).contains(text));
}

// ---------------------------------------------------------------------------------------
// Sessions
// ---------------------------------------------------------------------------------------

/// A TLS session, with the number of the group that it agreed on.
pub struct TlsSessionEntry {
    pub source_ip: String,
    pub source_port: u16,
    pub destination_ip: String,
    pub destination_port: u16,
    pub group: u16,
}

/// What a [`TlsSessionEntry`] holds.
pub struct TlsEntryView {
    pub source_ip: Text,
    pub source_port: u16,
    pub destination_ip: Text,
    pub destination_port: u16,
    pub group: u16,
}

impl View for TlsSessionEntry {
    type V = TlsEntryView;

    open spec fn view(&self) -> TlsEntryView {
        TlsEntryView {
            source_ip: self.source_ip@,
            source_port: self.source_port,
            destination_ip: self.destination_ip@,
            destination_port: self.destination_port,
            group: self.group,
        }
    }
}

/// What a report says of a TLS session.
pub open spec fn tls_status(g: PqcGrade) -> Text {
    match g {
        PqcGrade::Hybrid => "hybrid"@,
        PqcGrade::Full => "full"@,
        PqcGrade::Classical => "none"@,
    }
}

/// The line of a session.
pub open spec fn tls_line(entry: TlsEntryView, groups: Map<u16, TlsGroup>) -> ResultView {
    ResultView {
        source: entry.source_ip,
        source_port: entry.source_port,
        destination: entry.destination_ip,
        destination_port: entry.destination_port,
        pqc_status: tls_status(grade(groups[entry.group])),
    }
}

/// The lines of each source: all its sessions with a group that is known.
pub open spec fn tls_results(entries: Seq<TlsEntryView>, groups: Map<u16, TlsGroup>) -> Map<
    Text,
    Set<ResultView>,
>
    decreases entries.len(),
{
    if entries.len() == 0 {
        Map::empty()
    } else {
        let before = tls_results(entries.drop_last(), groups);
        let entry = entries.last();
        let lines = lines_of(before, entry.source_ip);
        before.insert(
            entry.source_ip,
            if groups.contains_key(entry.group) {
                lines.insert(tls_line(entry, groups))
            } else {
                lines
            },
        )
    }
}

/// How many sessions agreed on a post-quantum group.
pub open spec fn tls_pqc_count(entries: Seq<TlsEntryView>, groups: Map<u16, TlsGroup>) -> nat {
    entries.filter(|e: TlsEntryView| withstands(groups, e.group)).len()
}

/// What is reported of TLS sessions.
pub struct TlsSessionLines {
    /// How many of them agreed on a post-quantum group.
    pub pqc_count: usize,
    /// The sessions, by the address of their source.
    pub results: Table<String, DistinctSet<TlsSessionResult>>,
}

/// Sums the TLS sessions up.
pub fn tls_session_report(entries: &Vec<TlsSessionEntry>, groups: &HashMap<u16, TlsGroup>) -> (found:
    TlsSessionLines)
    ensures
        found.results.wf(),
        found.results@ == tls_results(views(entries@), groups@),
        found.pqc_count == tls_pqc_count(views(entries@), groups@),
        found.pqc_count <= entries.len(),
{
    let ghost all = views(entries@);
    let mut pqc_count: usize = 0;
    let mut results: Table<String, DistinctSet<TlsSessionResult>> = Table::new();
    let mut i: usize = 0;
    reveal(Seq::filter);
    assert(all.take(0).len() == 0);
    while i < entries.len()
        invariant
            i <= entries.len(),
            all == views(entries@),
            results.wf(),
            results@ == tls_results(all.take(i as int), groups@),
            pqc_count == tls_pqc_count(all.take(i as int), groups@),
            pqc_count <= i,
        decreases entries.len() - i,
    {
        let ghost before = results@;
        assert(all.take(i + 1).drop_last() =~= all.take(i as int));
        let entry = &entries[i];
        assert(all.take(i + 1).last() == entry@);
        reveal(Seq::filter);
        if !results.contains_key(&entry.source_ip) {
            results.insert(entry.source_ip.clone(), DistinctSet::new());
        }
        assert(results@ =~= before.insert(entry@.source_ip, lines_of(before, entry@.source_ip)));
        if let Some(group) = groups.get(&entry.group) {
            let description: String = match group.grade() {
                PqcGrade::Hybrid => {
                    pqc_count = pqc_count + 1;
                    "hybrid".to_owned()
                },
                PqcGrade::Full => {
                    pqc_count = pqc_count + 1;
                    "full".to_owned()
                },
                PqcGrade::Classical => "none".to_owned(),
            };
            if let Some(lines) = results.get_mut(&entry.source_ip) {
                lines.insert(
                    TlsSessionResult::new(
                        entry.source_ip.clone(),
                        entry.source_port,
                        entry.destination_ip.clone(),
                        entry.destination_port,
                        description,
                    ),
                );
            }
        }
        assert(results@ =~= tls_results(all.take(i + 1), groups@));
        i = i + 1;
    }
    assert(all.take(entries.len() as int) =~= all);
    TlsSessionLines { pqc_count, results }
}

/// A source is shown exactly when it has a session, and with all its sessions whose group
/// is known: in which order they come does not matter.
pub proof fn law_all_sessions_shown(
    entries: Seq<TlsEntryView>,
    groups: Map<u16, TlsGroup>,
    source: Text,
    line: ResultView,
)
    ensures
        tls_results(entries, groups).contains_key(source) <==> exists|i: int|
            0 <= i < entries.len() && (#[trigger] entries[i]).source_ip == source,
        lines_of(tls_results(entries, groups), source).contains(line) <==> exists|i: int|
            0 <= i < entries.len() && (#[trigger] entries[i]).source_ip == source
                && groups.contains_key(entries[i].group) && tls_line(entries[i], groups) == line,
    decreases entries.len(),
{
    if entries.len() > 0 {
        let fewer = entries.drop_last();
        let n = entries.len() - 1;
        law_all_sessions_shown(fewer, groups, source, line);
        assert forall|i: int| 0 <= i < n implies #[trigger] fewer[i] == entries[i] by {}
        assert(entries[n] == entries.last());
        if exists|i: int| 0 <= i < fewer.len() && (#[trigger] fewer[i]).source_ip == source {
            let i = choose|i: int| 0 <= i < fewer.len() && (#[trigger] fewer[i]).source_ip == source;
            assert(entries[i].source_ip == source);
        }
        if exists|i: int| 0 <= i < entries.len() && (#[trigger] entries[i]).source_ip == source {
            let i = choose|i: int|
                0 <= i < entries.len() && (#[trigger] entries[i]).source_ip == source;
            if i < n {
                assert(fewer[i].source_ip == source);
            }
        }
        if exists|i: int|
            0 <= i < fewer.len() && (#[trigger] fewer[i]).source_ip == source && groups.contains_key(
                fewer[i].group,
            ) && tls_line(fewer[i], groups) == line {
            let i = choose|i: int|
                0 <= i < fewer.len() && (#[trigger] fewer[i]).source_ip == source
                    && groups.contains_key(fewer[i].group) && tls_line(fewer[i], groups) == line;
            assert(entries[i] == fewer[i]);
        }
        if exists|i: int|
            0 <= i < entries.len() && (#[trigger] entries[i]).source_ip == source
                && groups.contains_key(entries[i].group) && tls_line(entries[i], groups) == line {
            let i = choose|i: int|
                0 <= i < entries.len() && (#[trigger] entries[i]).source_ip == source
                    && groups.contains_key(entries[i].group) && tls_line(entries[i], groups) == line;
            if i < n {
                assert(fewer[i] == entries[i]);
            }
        }
    }
}

// ---------------------------------------------------------------------------------------
// What the catalog and the sessions decide
// ---------------------------------------------------------------------------------------

/// The addresses that offers came from are those of the offers, and no others.
pub proof fn law_sources_are_addresses(offers: Seq<OfferView>, source: Text)
    ensures
        sources(offers).contains(source) <==> exists|i: int|
            0 <= i < offers.len() && (#[trigger] offers[i]).source_ip == source,
{
    let ips = offers.map_values(|o: OfferView| o.source_ip);
    if exists|i: int| 0 <= i < offers.len() && (#[trigger] offers[i]).source_ip == source {
        let i = choose|i: int| 0 <= i < offers.len() && (#[trigger] offers[i]).source_ip == source;
        assert(ips[i] == source);
    }
    if sources(offers).contains(source) {
        let i = ips.index_of(source);
        assert(offers[i].source_ip == source);
    }
}

/// The cipher suites of an address are those of its last offer: each by its name where the
/// catalog lists it, else by its number.
pub proof fn law_suites_by_catalog(
    offers: Seq<OfferView>,
    suites: Map<u16, TlsCipherSuite>,
    i: int,
    text: Text,
)
    requires
        0 <= i < offers.len(),
        forall|j: int| i < j < offers.len() ==> (#[trigger] offers[j]).source_ip != offers[i].source_ip,
    ensures
        suites_by_source(offers, suites).contains_key(offers[i].source_ip),
        suites_by_source(offers, suites)[offers[i].source_ip].contains(text) <==> exists|k: int|
         #![trigger offers[i].ids[k]]
            {
                &&& 0 <= k < offers[i].ids.len()
                &&& suites.contains_key(offers[i].ids[k]) ==> text == suites[offers[i].ids[k]].name@
                &&& !suites.contains_key(offers[i].ids[k]) ==> text == decimal(
                    offers[i].ids[k] as nat,
                )
            },
{
    let source = offers[i].source_ip;
    law_last_suites_count(offers, suites, source);
    law_sources_are_addresses(offers, source);
    let last = choose|j: int| #[trigger]
        last_from(offers, source, j) && suites_by_source(offers, suites)[source] == suite_texts(
            suites,
            offers[j].ids,
        );
    assert(last == i);
}

/// What is said of the groups that an address offered: for each offer and each of its groups
/// that the catalog lists, which end offered it, the name of the group, and its grade by its
/// two marks; and nothing else.
pub proof fn law_group_texts_by_marks(
    offers: Seq<OfferView>,
    groups: Map<u16, TlsGroup>,
    source: Text,
    text: Text,
)
    ensures
        groups_by_source(offers, groups).contains_key(source) <==> exists|i: int|
            0 <= i < offers.len() && (#[trigger] offers[i]).source_ip == source,
        groups_by_source(offers, groups).contains_key(source) ==> (groups_by_source(
            offers,
            groups,
        )[source].contains(text) <==> exists|i: int, k: int| #![trigger offers[i].ids[k]]
            {
                let group = groups[offers[i].ids[k]];
                let start = offers[i].key + " supports "@ + group.name@;
                &&& 0 <= i < offers.len()
                &&& offers[i].source_ip == source
                &&& 0 <= k < offers[i].ids.len()
                &&& groups.contains_key(offers[i].ids[k])
                &&& group.hybrid ==> text == start + " a hybrid algorithm"@
                &&& !group.hybrid && group.pqc ==> text == start + " which is pure PQC"@
                &&& !group.hybrid && !group.pqc ==> text == start + " which is not PQC safe"@
            }),
{
    law_all_group_offers_shown(offers, groups, source, text);
    law_sources_are_addresses(offers, source);
    let shown = lines_of(groups_by_source(offers, groups), source);
    if shown.contains(text) {
        let i = choose|i: int|
            0 <= i < offers.len() && (#[trigger] offers[i]).source_ip == source && group_texts(
                offers[i],
                groups,
            ).contains(text);
        let k = choose|k: int|
            0 <= k < offers[i].ids.len() && groups.contains_key(#[trigger] offers[i].ids[k])
                && group_text(offers[i].key, groups[offers[i].ids[k]]) == text;
        let id = offers[i].ids[k];
        assert(groups.contains_key(id));
    }
    assert forall|i: int, k: int| #![trigger offers[i].ids[k]]
        {
            let group = groups[offers[i].ids[k]];
            let start = offers[i].key + " supports "@ + group.name@;
            &&& 0 <= i < offers.len()
            &&& offers[i].source_ip == source
            &&& 0 <= k < offers[i].ids.len()
            &&& groups.contains_key(offers[i].ids[k])
            &&& group.hybrid ==> text == start + " a hybrid algorithm"@
            &&& !group.hybrid && group.pqc ==> text == start + " which is pure PQC"@
            &&& !group.hybrid && !group.pqc ==> text == start + " which is not PQC safe"@
        } implies shown.contains(text) by {
        assert(group_texts(offers[i], groups).contains(text));
    }
}

/// An address supports post-quantum cryptography exactly when it offered a group that the
/// catalog marks as hybrid or as post-quantum, whatever else it says of the group.
pub proof fn law_pqc_sources_by_marks(
    offers: Seq<OfferView>,
    groups: Map<u16, TlsGroup>,
    source: Text,
)
    ensures
        pqc_sources(offers, groups).contains(source) <==> exists|i: int, k: int|
         #![trigger offers[i].ids[k]]
            {
                &&& 0 <= i < offers.len()
                &&& offers[i].source_ip == source
                &&& 0 <= k < offers[i].ids.len()
                &&& groups.contains_key(offers[i].ids[k])
                &&& groups[offers[i].ids[k]].hybrid || groups[offers[i].ids[k]].pqc
            },
{
    if pqc_sources(offers, groups).contains(source) {
        let i = choose|i: int|
            0 <= i < offers.len() && (#[trigger] offers[i]).source_ip == source && offers_pqc(
                offers[i],
                groups,
            );
        let k = choose|k: int|
            0 <= k < offers[i].ids.len() && withstands(groups, #[trigger] offers[i].ids[k]);
        let id = offers[i].ids[k];
        assert(groups.contains_key(id));
    }
    assert forall|i: int, k: int| #![trigger offers[i].ids[k]]
        {
            &&& 0 <= i < offers.len()
            &&& offers[i].source_ip == source
            &&& 0 <= k < offers[i].ids.len()
            &&& groups.contains_key(offers[i].ids[k])
            &&& groups[offers[i].ids[k]].hybrid || groups[offers[i].ids[k]].pqc
        } implies pqc_sources(offers, groups).contains(source) by {
        assert(withstands(groups, offers[i].ids[k]));
        assert(offers_pqc(offers[i], groups));
    }
}

/// The lines of a source are those of its sessions whose group is listed, each with both ends
/// of the session and with the grade of the group by its two marks, and no others.
pub proof fn law_tls_lines_by_fields(
    entries: Seq<TlsEntryView>,
    groups: Map<u16, TlsGroup>,
    source: Text,
    line: ResultView,
)
    ensures
        tls_results(entries, groups).contains_key(source) <==> exists|i: int|
            0 <= i < entries.len() && (#[trigger] entries[i]).source_ip == source,
        tls_results(entries, groups).contains_key(source) ==> (tls_results(entries, groups)[source].contains(
            line,
        ) <==> exists|i: int| #![trigger entries[i]]
            {
                let group = groups[entries[i].group];
                &&& 0 <= i < entries.len()
                &&& entries[i].source_ip == source
                &&& groups.contains_key(entries[i].group)
                &&& line.source == entries[i].source_ip
                &&& line.source_port == entries[i].source_port
                &&& line.destination == entries[i].destination_ip
                &&& line.destination_port == entries[i].destination_port
                &&& group.hybrid ==> line.pqc_status == "hybrid"@
                &&& !group.hybrid && group.pqc ==> line.pqc_status == "full"@
                &&& !group.hybrid && !group.pqc ==> line.pqc_status == "none"@
            }),
{
    law_all_sessions_shown(entries, groups, source, line);
    assert forall|i: int| #![trigger entries[i]]
        0 <= i < entries.len() && groups.contains_key(entries[i].group) implies (tls_line(
        entries[i],
        groups,
    ) == line <==> {
        let group = groups[entries[i].group];
        &&& line.source == entries[i].source_ip
        &&& line.source_port == entries[i].source_port
        &&& line.destination == entries[i].destination_ip
        &&& line.destination_port == entries[i].destination_port
        &&& group.hybrid ==> line.pqc_status == "hybrid"@
        &&& !group.hybrid && group.pqc ==> line.pqc_status == "full"@
        &&& !group.hybrid && !group.pqc ==> line.pqc_status == "none"@
    }) by {}
}

/// A session counts as post-quantum exactly when the catalog marks its group as hybrid or as
/// post-quantum: each such session adds one to the count, and no other session adds to it.
pub proof fn law_tls_count_by_marks(
    entries: Seq<TlsEntryView>,
    entry: TlsEntryView,
    groups: Map<u16, TlsGroup>,
)
    ensures
        tls_pqc_count(Seq::empty(), groups) == 0,
        groups.contains_key(entry.group) && (groups[entry.group].hybrid || groups[entry.group].pqc)
            ==> tls_pqc_count(entries.push(entry), groups) == tls_pqc_count(entries, groups) + 1,
        !(groups.contains_key(entry.group) && (groups[entry.group].hybrid || groups[entry.group].pqc))
            ==> tls_pqc_count(entries.push(entry), groups) == tls_pqc_count(entries, groups),
{
    reveal(Seq::filter);
    assert(entries.push(entry).drop_last() =~= entries);
}

/// Offers and sessions stand for the texts and numbers of their fields.
pub proof fn law_findings_stand_for_their_fields(offer: TlsOffer, entry: TlsSessionEntry)
    ensures
        offer@.key == offer.key@,
        offer@.source_ip == offer.source_ip@,
        offer@.ids == offer.ids@,
        entry@.source_ip == entry.source_ip@,
        entry@.source_port == entry.source_port,
        entry@.destination_ip == entry.destination_ip@,
        entry@.destination_port == entry.destination_port,
        entry@.group == entry.group,
{
}

} // verus!
