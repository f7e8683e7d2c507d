use pqcdump::catalog::{groups_by_id, suites_by_id, PqcGrade, TlsCipherSuite, TlsGroup};

fn group(group_id: u16, pqc: bool, hybrid: bool) -> TlsGroup {
    TlsGroup {
        name: String::new(),
        group_id,
        pqc,
        hybrid,
        obsolete: false,
        insecure: false,
        desc: "d".to_string(),
        href: "h".to_string(),
    }
}

fn suite(cipher_suite_id: u16) -> TlsCipherSuite {
    TlsCipherSuite {
        name: String::new(),
        cipher_suite_id,
        obsolete: true,
        insecure: false,
        desc: "d".to_string(),
        href: "h".to_string(),
    }
}

#[test]
fn groups_are_found_by_number_under_their_listed_name() {
    let groups = groups_by_id(vec![
        ("x25519".to_string(), group(29, false, false)),
        ("X25519MLKEM768".to_string(), group(4588, true, true)),
    ]);
    assert_eq!(groups.len(), 2);
    assert_eq!(groups[&29].name, "x25519");
    assert_eq!(groups[&4588].name, "X25519MLKEM768");
    assert_eq!(groups[&4588].desc, "d");
    assert!(!groups.contains_key(&1));
}

#[test]
fn last_group_with_a_number_counts() {
    let groups = groups_by_id(vec![
        ("old".to_string(), group(7, false, false)),
        ("new".to_string(), group(7, true, false)),
    ]);
    assert_eq!(groups.len(), 1);
    assert_eq!(groups[&7].name, "new");
    assert!(groups[&7].pqc);
}

#[test]
fn suites_are_found_by_number_under_their_listed_name() {
    let suites = suites_by_id(vec![
        ("A".to_string(), suite(1)),
        ("B".to_string(), suite(2)),
        ("C".to_string(), suite(1)),
    ]);
    assert_eq!(suites.len(), 2);
    assert_eq!(suites[&1].name, "C");
    assert_eq!(suites[&2].name, "B");
    assert!(suites[&2].obsolete);
}

#[test]
fn hybrid_mark_comes_first() {
    assert_eq!(group(1, true, true).grade(), PqcGrade::Hybrid);
    assert_eq!(group(1, false, true).grade(), PqcGrade::Hybrid);
    assert_eq!(group(1, true, false).grade(), PqcGrade::Full);
    assert_eq!(group(1, false, false).grade(), PqcGrade::Classical);
}

#[test]
fn copy_of_a_group_has_all_its_fields() {
    let g = group(4588, true, true);
    let copy = g.clone();
    assert_eq!((copy.group_id, copy.pqc, copy.hybrid), (4588, true, true));
    assert_eq!((copy.desc, copy.href), (g.desc, g.href));
}
