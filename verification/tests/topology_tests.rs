use mongo_topology::error::{Error, ErrorKind};
use mongo_topology::host::Host;
use mongo_topology::server::{ServerDescription, ServerType};
use mongo_topology::topology::{
    distinct_hosts, has_distinct_hosts, seed_candidates, seeds_settled, TopologyDescription, TopologyType,
};

fn member(name: &str, port: u64, stype: ServerType, set_name: &str) -> (Host, ServerDescription) {
    let mut d = ServerDescription::new();
    d.stype = stype;
    d.set_name = set_name.to_string();
    (Host::new(name.to_string(), port), d)
}

fn primaries(t: &TopologyDescription) -> usize {
    t.servers.iter().filter(|e| e.1.stype == ServerType::RSPrimary).count()
}

#[test]
fn bootstrap_with_one_primary_succeeds() {
    let t = TopologyDescription::bootstrap(vec![
        member("a", 1, ServerType::RSSecondary, "rs0"),
        member("b", 2, ServerType::RSPrimary, "rs0"),
        member("c", 3, ServerType::RSArbiter, "rs0"),
    ])
    .unwrap();
    assert_eq!(t.ttype, TopologyType::ReplicaSetWithPrimary);
    assert_eq!(t.set_name, "rs0");
    assert_eq!(t.servers.len(), 3);
    assert_eq!(primaries(&t), 1);
    assert_eq!(t.servers[1].0, Host::new("b".to_string(), 2));
    assert_eq!(t.servers[1].1.stype, ServerType::RSPrimary);
    assert_eq!(t.compute_type(), TopologyType::ReplicaSetWithPrimary);
}

#[test]
fn bootstrap_without_primary_fails() {
    let e = TopologyDescription::bootstrap(vec![
        member("a", 1, ServerType::RSSecondary, "rs0"),
        member("b", 2, ServerType::RSSecondary, "rs0"),
    ])
    .unwrap_err();
    assert_eq!(e.kind, ErrorKind::Discovery);
    assert_eq!(e.name, "no primary");
}

#[test]
fn bootstrap_with_two_primaries_fails() {
    let e = TopologyDescription::bootstrap(vec![
        member("a", 1, ServerType::RSPrimary, "rs0"),
        member("b", 2, ServerType::RSSecondary, "rs0"),
        member("c", 3, ServerType::RSPrimary, "rs0"),
    ])
    .unwrap_err();
    assert_eq!(e.kind, ErrorKind::Discovery);
    assert_eq!(e.name, "multiple primaries");
}

#[test]
fn bootstrap_without_candidates_fails() {
    let e = TopologyDescription::bootstrap(Vec::new()).unwrap_err();
    assert_eq!(e.kind, ErrorKind::Discovery);
    assert_eq!(e.name, "no hosts");
}

#[test]
fn seed_candidates_takes_first_usable_answer() {
    let down = || Err(Error::new(ErrorKind::Connection, "probe", "refused", String::new()));
    let responses = vec![
        down(),
        Ok(Vec::new()),
        Ok(vec![Host::new("a".to_string(), 1)]),
        Ok(vec![Host::new("b".to_string(), 2)]),
    ];
    assert_eq!(seed_candidates(&responses).unwrap(), 2);
    let none = vec![down(), Ok(Vec::new())];
    let e = seed_candidates(&none).unwrap_err();
    assert_eq!(e.kind, ErrorKind::Discovery);
    assert_eq!(e.name, "no hosts");
    assert_eq!(seed_candidates(&Vec::new()).unwrap_err().name, "no hosts");
}

#[test]
fn new_topology_is_unknown() {
    let t = TopologyDescription::new();
    assert_eq!(t.ttype, TopologyType::Unknown);
    assert!(t.set_name.is_empty());
    assert!(t.servers.is_empty());
    assert_eq!(t.compute_type(), TopologyType::Unknown);
}

#[test]
fn update_server_admits_and_replaces() {
    let mut t = TopologyDescription::new();
    let (h, d) = member("a", 1, ServerType::Unknown, "");
    assert!(t.update_server(h, d).is_none());
    assert_eq!(t.ttype, TopologyType::Unknown);
    assert_eq!(t.servers.len(), 1);
    let (h, d) = member("a", 1, ServerType::RSSecondary, "rs0");
    assert!(t.update_server(h, d).is_none());
    assert_eq!(t.servers.len(), 1);
    assert_eq!(t.set_name, "rs0");
    assert_eq!(t.ttype, TopologyType::ReplicaSetNoPrimary);
    let (h, d) = member("b", 2, ServerType::RSPrimary, "rs0");
    assert!(t.update_server(h, d).is_none());
    assert_eq!(t.servers.len(), 2);
    assert_eq!(t.ttype, TopologyType::ReplicaSetWithPrimary);
    assert_eq!(t.find(&Host::new("b".to_string(), 2)), Some(1));
    assert_eq!(t.find(&Host::new("b".to_string(), 3)), None);
}

#[test]
fn update_server_latest_primary_wins() {
    let mut t = TopologyDescription::bootstrap(vec![
        member("a", 1, ServerType::RSPrimary, "rs0"),
        member("b", 2, ServerType::RSSecondary, "rs0"),
    ])
    .unwrap();
    let (h, d) = member("b", 2, ServerType::RSPrimary, "rs0");
    let demoted = t.update_server(h, d);
    assert_eq!(demoted, Some(Host::new("a".to_string(), 1)));
    assert_eq!(t.servers[0].1.stype, ServerType::Unknown);
    assert_eq!(t.servers[0].1.set_name, "rs0");
    assert_eq!(t.servers[1].1.stype, ServerType::RSPrimary);
    assert_eq!(primaries(&t), 1);
    assert_eq!(t.ttype, TopologyType::ReplicaSetWithPrimary);
}

#[test]
fn update_server_keeps_set_name_and_excludes_strangers() {
    let mut t = TopologyDescription::bootstrap(vec![member("a", 1, ServerType::RSPrimary, "rs0")]).unwrap();
    let (h, d) = member("x", 9, ServerType::RSPrimary, "other");
    assert!(t.update_server(h, d).is_none());
    assert_eq!(t.set_name, "rs0");
    assert_eq!(t.servers.len(), 2);
    assert_eq!(t.servers[0].1.stype, ServerType::RSPrimary);
    assert_eq!(t.servers[1].1.stype, ServerType::RSPrimary);
    assert_eq!(t.servers[1].1.set_name, "other");
    let (h, d) = member("a", 1, ServerType::Unknown, "rs0");
    assert!(t.update_server(h, d).is_none());
    assert_eq!(t.ttype, TopologyType::ReplicaSetNoPrimary);
}

#[test]
fn update_server_primary_loss_is_seen() {
    let mut t = TopologyDescription::bootstrap(vec![
        member("a", 1, ServerType::RSPrimary, "rs0"),
        member("b", 2, ServerType::RSSecondary, "rs0"),
    ])
    .unwrap();
    let mut d = ServerDescription::new();
    d.set_name = "rs0".to_string();
    d.set_err(Error::new(ErrorKind::Connection, "monitor", "refused", String::new()));
    assert!(t.update_server(Host::new("a".to_string(), 1), d).is_none());
    assert_eq!(t.ttype, TopologyType::ReplicaSetNoPrimary);
    assert_eq!(t.servers.len(), 2);
    assert_eq!(primaries(&t), 0);
}

#[test]
fn admit_hosts_adds_unknown_hosts_once() {
    let mut t = TopologyDescription::bootstrap(vec![
        member("a", 1, ServerType::RSPrimary, "rs0"),
        member("b", 2, ServerType::RSSecondary, "rs0"),
    ])
    .unwrap();
    let reported = vec![
        Host::new("b".to_string(), 2),
        Host::new("c".to_string(), 3),
        Host::new("c".to_string(), 3),
        Host::new("a".to_string(), 9),
    ];
    let admitted = t.admit_hosts(&reported);
    assert_eq!(admitted, vec![Host::new("c".to_string(), 3), Host::new("a".to_string(), 9)]);
    assert_eq!(t.servers.len(), 4);
    assert_eq!(t.servers[2].0, Host::new("c".to_string(), 3));
    assert_eq!(t.servers[2].1.stype, ServerType::Unknown);
    assert!(t.servers[2].1.set_name.is_empty());
    assert_eq!(t.servers[3].0, Host::new("a".to_string(), 9));
    assert_eq!(t.servers[0].1.stype, ServerType::RSPrimary);
    assert_eq!(t.ttype, TopologyType::ReplicaSetWithPrimary);
    assert_eq!(t.set_name, "rs0");
    assert!(t.admit_hosts(&reported).is_empty());
    assert!(t.is_consistent());
}

#[test]
fn retire_removes_the_entry_at_once() {
    let mut t = TopologyDescription::bootstrap(vec![
        member("a", 1, ServerType::RSPrimary, "rs0"),
        member("b", 2, ServerType::RSSecondary, "rs0"),
        member("c", 3, ServerType::RSArbiter, "rs0"),
    ])
    .unwrap();
    assert!(t.retire(&Host::new("z".to_string(), 1)).is_none());
    assert_eq!(t.servers.len(), 3);
    let d = t.retire(&Host::new("a".to_string(), 1)).unwrap();
    assert_eq!(d.stype, ServerType::RSPrimary);
    assert_eq!(t.servers.len(), 2);
    assert_eq!(t.servers[0].0, Host::new("b".to_string(), 2));
    assert_eq!(t.servers[1].0, Host::new("c".to_string(), 3));
    assert_eq!(t.ttype, TopologyType::ReplicaSetNoPrimary);
    assert_eq!(t.set_name, "rs0");
    t.retire(&Host::new("b".to_string(), 2)).unwrap();
    t.retire(&Host::new("c".to_string(), 3)).unwrap();
    assert_eq!(t.ttype, TopologyType::Unknown);
}

#[test]
fn is_consistent_detects_hand_made_conflicts() {
    let mut t = TopologyDescription::bootstrap(vec![
        member("a", 1, ServerType::RSPrimary, "rs0"),
        member("b", 2, ServerType::RSSecondary, "rs0"),
    ])
    .unwrap();
    assert!(t.is_consistent());
    t.servers[1].1.stype = ServerType::RSPrimary;
    assert!(!t.is_consistent());
    t.servers[1].1.set_name = "other".to_string();
    assert!(t.is_consistent());
    t.ttype = TopologyType::Unknown;
    assert!(!t.is_consistent());
}

#[test]
fn counts_as_member_goes_by_set_name() {
    let t = TopologyDescription::bootstrap(vec![member("a", 1, ServerType::RSPrimary, "rs0")]).unwrap();
    assert!(t.counts_as_member(&member("b", 2, ServerType::RSSecondary, "rs0").1));
    assert!(!t.counts_as_member(&member("b", 2, ServerType::RSSecondary, "rs1").1));
    assert!(!t.counts_as_member(&member("b", 2, ServerType::Unknown, "").1));
    let fresh = TopologyDescription::new();
    assert!(fresh.counts_as_member(&member("b", 2, ServerType::RSSecondary, "rs1").1));
}

#[test]
fn seed_candidates_stops_at_a_malformed_answer() {
    let responses = vec![
        Err(Error::new(ErrorKind::Connection, "probe", "refused", String::new())),
        Err(Error::new(ErrorKind::MalformedResponse, "probe", "bad hosts", "not an array".to_string())),
        Ok(vec![Host::new("a".to_string(), 1)]),
    ];
    let e = seed_candidates(&responses).unwrap_err();
    assert_eq!(e.kind, ErrorKind::MalformedResponse);
    assert_eq!(e.to_text(), "ERR | probe | bad hosts => not an array");
    let format = vec![
        Ok(Vec::new()),
        Err(Error::new(ErrorKind::Format, "probe", "error parsing hosts", "b:xyz".to_string())),
        Ok(vec![Host::new("a".to_string(), 1)]),
    ];
    assert_eq!(seed_candidates(&format).unwrap_err().kind, ErrorKind::Format);
    let later = vec![
        Ok(vec![Host::new("a".to_string(), 1)]),
        Err(Error::new(ErrorKind::MalformedResponse, "probe", "bad", String::new())),
    ];
    assert_eq!(seed_candidates(&later).unwrap(), 0);
}

#[test]
fn seeds_settled_at_the_first_answer_that_counts() {
    let down = || Err(Error::new(ErrorKind::Connection, "probe", "refused", String::new()));
    assert!(!seeds_settled(&Vec::new()));
    assert!(!seeds_settled(&vec![down(), Ok(Vec::new())]));
    assert!(seeds_settled(&vec![down(), Ok(vec![Host::new("a".to_string(), 1)])]));
    assert!(seeds_settled(&vec![
        down(),
        Err(Error::new(ErrorKind::MalformedResponse, "probe", "bad", String::new()))
    ]));
}

#[test]
fn reported_hosts_come_from_members_only() {
    let t = TopologyDescription::bootstrap(vec![member("a", 1, ServerType::RSPrimary, "rs0")]).unwrap();
    let mut d = member("b", 2, ServerType::RSSecondary, "rs0").1;
    d.hosts = vec![Host::new("a".to_string(), 1), Host::new("b".to_string(), 2)];
    d.passives = vec![Host::new("p".to_string(), 3)];
    d.arbiters = vec![Host::new("r".to_string(), 4)];
    assert_eq!(
        t.reported_hosts(&d),
        vec![
            Host::new("a".to_string(), 1),
            Host::new("b".to_string(), 2),
            Host::new("p".to_string(), 3),
            Host::new("r".to_string(), 4)
        ]
    );
    d.set_name = "other".to_string();
    assert!(t.reported_hosts(&d).is_empty());
}

#[test]
fn bootstrap_refuses_a_host_named_twice() {
    let e = TopologyDescription::bootstrap(vec![
        member("a", 1, ServerType::RSPrimary, "rs0"),
        member("b", 2, ServerType::RSSecondary, "rs0"),
        member("b", 2, ServerType::RSSecondary, "rs0"),
    ])
    .unwrap_err();
    assert_eq!(e.kind, ErrorKind::Discovery);
    assert_eq!(e.name, "duplicate host");
    let e = TopologyDescription::bootstrap(vec![
        member("b", 2, ServerType::RSSecondary, "rs0"),
        member("b", 2, ServerType::RSSecondary, "rs0"),
    ])
    .unwrap_err();
    assert_eq!(e.name, "no primary");
    let e = TopologyDescription::bootstrap(vec![
        member("a", 1, ServerType::RSPrimary, "rs0"),
        member("a", 1, ServerType::RSPrimary, "rs0"),
    ])
    .unwrap_err();
    assert_eq!(e.name, "multiple primaries");
}

#[test]
fn distinct_hosts_keeps_first_mentions() {
    let hosts = vec![
        Host::new("a".to_string(), 1),
        Host::new("b".to_string(), 2),
        Host::new("a".to_string(), 1),
        Host::new("a".to_string(), 2),
        Host::new("b".to_string(), 2),
    ];
    assert_eq!(
        distinct_hosts(&hosts),
        vec![Host::new("a".to_string(), 1), Host::new("b".to_string(), 2), Host::new("a".to_string(), 2)]
    );
    assert!(distinct_hosts(&Vec::new()).is_empty());
}

#[test]
fn a_host_with_two_entries_is_inconsistent() {
    let mut t = TopologyDescription::bootstrap(vec![
        member("a", 1, ServerType::RSPrimary, "rs0"),
        member("b", 2, ServerType::RSSecondary, "rs0"),
    ])
    .unwrap();
    assert!(has_distinct_hosts(&t.servers));
    assert!(t.is_consistent());
    t.servers.push(member("b", 2, ServerType::RSSecondary, "rs0"));
    assert!(!has_distinct_hosts(&t.servers));
    assert!(!t.is_consistent());
}

#[test]
fn update_server_never_makes_a_second_entry() {
    let mut t = TopologyDescription::new();
    for round in 0..3 {
        let (h, d) = member("a", 1, ServerType::RSSecondary, "rs0");
        t.update_server(h, d);
        let (h, d) = member("b", 2, ServerType::RSPrimary, "rs0");
        t.update_server(h, d);
        t.admit_hosts(&vec![Host::new("a".to_string(), 1), Host::new("c".to_string(), 3)]);
        assert_eq!(t.servers.len(), 3, "round {}", round);
        assert!(t.is_consistent());
    }
}
