//! What is known of key-exchange methods, TLS groups and TLS cipher suites.

use vstd::prelude::*;
use std::collections::HashMap;
use crate::table::Value;

verus! {

/// A key-exchange method of SSH.
#[derive(Debug)]
pub struct KexAlgo {
    pub pqc: bool,
    pub broken: bool,
    pub hybrid: Option<bool>,
    pub desc: Option<String>,
    pub href: Option<String>,
}

impl View for KexAlgo {
    type V = KexAlgo;

    open spec fn view(&self) -> KexAlgo {
        *self
    }
}

impl Value for KexAlgo {
    open spec fn valid(&self) -> bool {
        true
    }
}

/// A key-exchange group of TLS.
#[derive(Debug)]
pub struct TlsGroup {
    pub name: String,
    pub group_id: u16,
    pub pqc: bool,
    pub hybrid: bool,
    pub obsolete: bool,
    pub insecure: bool,
    pub desc: String,
    pub href: String,
}

impl Clone for TlsGroup {
    fn clone(&self) -> (copy: Self)
        ensures
            copy == *self,
    {
        TlsGroup {
            name: self.name.clone(),
            group_id: self.group_id,
            pqc: self.pqc,
            hybrid: self.hybrid,
            obsolete: self.obsolete,
            insecure: self.insecure,
            desc: self.desc.clone(),
            href: self.href.clone(),
        }
    }
}

/// A cipher suite of TLS.
#[derive(Debug)]
pub struct TlsCipherSuite {
    pub name: String,
    pub cipher_suite_id: u16,
    pub obsolete: bool,
    pub insecure: bool,
    pub desc: String,
    pub href: String,
}

/// How far a group withstands quantum computers.
#[derive(Clone, Copy, Debug, PartialEq, Eq, Structural)]
pub enum PqcGrade {
    /// It joins a post-quantum method with a classical one.
    Hybrid,
    /// It is a post-quantum method alone.
    Full,
    /// It is a classical method.
    Classical,
}

/// How far a group withstands quantum computers. A group that is marked as hybrid counts as
/// such, whatever its other mark.
pub open spec fn grade(group: TlsGroup) -> PqcGrade {
    if group.hybrid {
        PqcGrade::Hybrid
    } else if group.pqc {
        PqcGrade::Full
    } else {
        PqcGrade::Classical
    }
}

impl TlsGroup {
    /// How far the group withstands quantum computers.
    pub fn grade(&self) -> (g: PqcGrade)
        ensures
            g == grade(*self),
            g == PqcGrade::Hybrid <==> self.hybrid,
            g == PqcGrade::Full <==> !self.hybrid && self.pqc,
            g == PqcGrade::Classical <==> !self.hybrid && !self.pqc,
    {
        if self.hybrid {
            PqcGrade::Hybrid
        } else if self.pqc {
            PqcGrade::Full
        } else {
            PqcGrade::Classical
        }
    }
}

/// The groups by their numbers. Each gets the name that it is listed under; of several with
/// one number the last counts.
pub open spec fn group_index(listed: Seq<(String, TlsGroup)>) -> Map<u16, TlsGroup>
    decreases listed.len(),
{
    if listed.len() == 0 {
        Map::empty()
    } else {
        let (name, group) = listed.last();
        group_index(listed.drop_last()).insert(group.group_id, TlsGroup { name, ..group })
    }
}

/// Arranges groups, which are listed by name, by their numbers.
pub fn groups_by_id(listed: Vec<(String, TlsGroup)>) -> (groups: HashMap<u16, TlsGroup>)
    ensures
        groups@ == group_index(listed@),
{
    let ghost all = listed@;
    let mut groups: HashMap<u16, TlsGroup> = HashMap::new();
    for entry in it: listed.into_iter()
        invariant
            it.seq() == all,
            groups@ == group_index(all.take(it.index() as int)),
    {
        assert(all.take(it.index() + 1).drop_last() =~= all.take(it.index() as int));
        let (name, mut group) = entry;
        group.name = name;
        groups.insert(group.group_id, group);
    }
    assert(all.take(all.len() as int) =~= all);
    groups
}

/// The cipher suites by their numbers. Each gets the name that it is listed under; of
/// several with one number the last counts.
pub open spec fn suite_index(listed: Seq<(String, TlsCipherSuite)>) -> Map<u16, TlsCipherSuite>
    decreases listed.len(),
{
    if listed.len() == 0 {
        Map::empty()
    } else {
        let (name, suite) = listed.last();
        suite_index(listed.drop_last()).insert(
            suite.cipher_suite_id,
            TlsCipherSuite { name, ..suite },
        )
    }
}

/// Arranges cipher suites, which are listed by name, by their numbers.
pub fn suites_by_id(listed: Vec<(String, TlsCipherSuite)>) -> (suites: HashMap<u16, TlsCipherSuite>)
    ensures
        suites@ == suite_index(listed@),
{
    let ghost all = listed@;
    let mut suites: HashMap<u16, TlsCipherSuite> = HashMap::new();
    for entry in it: listed.into_iter()
        invariant
            it.seq() == all,
            suites@ == suite_index(all.take(it.index() as int)),
    {
        assert(all.take(it.index() + 1).drop_last() =~= all.take(it.index() as int));
        let (name, mut suite) = entry;
        suite.name = name;
        suites.insert(suite.cipher_suite_id, suite);
    }
    assert(all.take(all.len() as int) =~= all);
    suites
}

/// A group is found by its number exactly when one with that number is listed; it stands
/// under its own number, and it is the last one listed with it, under its listed name.
pub proof fn law_group_found_by_number(listed: Seq<(String, TlsGroup)>, id: u16)
    ensures
        group_index(listed).contains_key(id) <==> exists|i: int|
            0 <= i < listed.len() && (#[trigger] listed[i]).1.group_id == id,
        group_index(listed).contains_key(id) ==> exists|i: int|
            0 <= i < listed.len() && group_index(listed)[id] == (TlsGroup {
                name: listed[i].0,
                ..#[trigger] listed[i].1
            }) && listed[i].1.group_id == id && forall|j: int|
                i < j < listed.len() ==> (#[trigger] listed[j]).1.group_id != id,
    decreases listed.len(),
{
    if listed.len() > 0 {
        let shorter = listed.drop_last();
        law_group_found_by_number(shorter, id);
        let n = listed.len() - 1;
        if listed[n].1.group_id != id {
            if group_index(shorter).contains_key(id) {
                let i = choose|i: int|
                    0 <= i < shorter.len() && group_index(shorter)[id] == (TlsGroup {
                        name: shorter[i].0,
                        ..#[trigger] shorter[i].1
                    }) && shorter[i].1.group_id == id && forall|j: int|
                        i < j < shorter.len() ==> (#[trigger] shorter[j]).1.group_id != id;
                assert(listed[i] == shorter[i]);
                assert forall|j: int| i < j < listed.len() implies (#[trigger] listed[j]).1.group_id != id by {
                    if j < n {
                        assert(shorter[j] == listed[j]);
                    }
                }
            } else {
                assert forall|i: int| 0 <= i < listed.len() implies (#[trigger] listed[i]).1.group_id != id by {
                    if i < n {
                        assert(shorter[i] == listed[i]);
                    }
                }
            }
        }
    }
}

/// A cipher suite is found by its number exactly when one with that number is listed; it stands
/// under its own number, and it is the last one listed with it, under its listed name.
pub proof fn law_suite_found_by_number(listed: Seq<(String, TlsCipherSuite)>, id: u16)
    ensures
        suite_index(listed).contains_key(id) <==> exists|i: int|
            0 <= i < listed.len() && (#[trigger] listed[i]).1.cipher_suite_id == id,
        suite_index(listed).contains_key(id) ==> exists|i: int|
            0 <= i < listed.len() && suite_index(listed)[id] == (TlsCipherSuite {
                name: listed[i].0,
                ..#[trigger] listed[i].1
            }) && listed[i].1.cipher_suite_id == id && forall|j: int|
                i < j < listed.len() ==> (#[trigger] listed[j]).1.cipher_suite_id != id,
    decreases listed.len(),
{
    if listed.len() > 0 {
        let shorter = listed.drop_last();
        law_suite_found_by_number(shorter, id);
        let n = listed.len() - 1;
        if listed[n].1.cipher_suite_id != id {
            if suite_index(shorter).contains_key(id) {
                let i = choose|i: int|
                    0 <= i < shorter.len() && suite_index(shorter)[id] == (TlsCipherSuite {
                        name: shorter[i].0,
                        ..#[trigger] shorter[i].1
                    }) && shorter[i].1.cipher_suite_id == id && forall|j: int|
                        i < j < shorter.len() ==> (#[trigger] shorter[j]).1.cipher_suite_id != id;
                assert(listed[i] == shorter[i]);
                assert forall|j: int| i < j < listed.len() implies (#[trigger] listed[j]).1.cipher_suite_id != id by {
                    if j < n {
                        assert(shorter[j] == listed[j]);
                    }
                }
            } else {
                assert forall|i: int| 0 <= i < listed.len() implies (#[trigger] listed[i]).1.cipher_suite_id != id by {
                    if i < n {
                        assert(shorter[i] == listed[i]);
                    }
                }
            }
        }
    }
}

/// The grade of a group follows from its two marks alone, whatever its name, its number and
/// its other fields.
pub proof fn law_grade_follows_from_marks(group: TlsGroup, other: TlsGroup)
    ensures
        grade(group) == PqcGrade::Hybrid <==> group.hybrid,
        grade(group) == PqcGrade::Full <==> !group.hybrid && group.pqc,
        grade(group) == PqcGrade::Classical <==> !group.hybrid && !group.pqc,
        group.hybrid == other.hybrid && group.pqc == other.pqc ==> grade(group) == grade(other),
{
}

/// What is known of a key-exchange method is what its fields say.
pub proof fn law_method_stands_for_its_fields(algo: KexAlgo)
    ensures
        algo@.pqc == algo.pqc,
        algo@ == algo,
{
}

} // verus!
