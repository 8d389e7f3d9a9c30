use mongo_topology::error::{Error, ErrorKind};
use mongo_topology::host::Host;
use mongo_topology::server::{IsMasterResult, ServerDescription, ServerType};
use std::collections::BTreeMap;

fn response() -> IsMasterResult {
    IsMasterResult {
        is_master: false,
        is_secondary: false,
        arbiter_only: false,
        is_replica_set: false,
        msg: String::new(),
        set_name: String::new(),
        min_wire_version: 0,
        max_wire_version: 0,
        me: None,
        hosts: Vec::new(),
        passives: Vec::new(),
        arbiters: Vec::new(),
        tags: BTreeMap::new(),
        election_id: None,
        primary: None,
    }
}

fn by_precedence(
    msg: bool,
    hosts: bool,
    set_name: bool,
    is_master: bool,
    secondary: bool,
    arbiter: bool,
    is_replica_set: bool,
) -> ServerType {
    if msg {
        return ServerType::Mongos;
    }
    if !hosts && !set_name {
        return ServerType::Standalone;
    }
    if is_master && set_name {
        return ServerType::RSPrimary;
    }
    if secondary && set_name {
        return ServerType::RSSecondary;
    }
    if arbiter && set_name {
        return ServerType::RSArbiter;
    }
    if set_name {
        return ServerType::RSOther;
    }
    if is_replica_set {
        return ServerType::RSGhost;
    }
    ServerType::Unknown
}

#[test]
fn role_table_is_exhaustive() {
    let mut seen = 0;
    for bits in 0u32..128 {
        let flag = |n: u32| bits & (1 << n) != 0;
        let mut r = response();
        if flag(0) {
            r.msg = "isdbgrid".to_string();
        }
        if flag(1) {
            r.hosts = vec![Host::new("a".to_string(), 1)];
        }
        if flag(2) {
            r.set_name = "rs0".to_string();
        }
        r.is_master = flag(3);
        r.is_secondary = flag(4);
        r.arbiter_only = flag(5);
        r.is_replica_set = flag(6);
        let expected = by_precedence(flag(0), flag(1), flag(2), flag(3), flag(4), flag(5), flag(6));
        assert_eq!(r.server_type(), expected, "combination {}", bits);
        let mut d = ServerDescription::new();
        d.update(r);
        assert_eq!(d.stype, expected, "combination {}", bits);
        seen += 1;
    }
    assert_eq!(seen, 128);
}

#[test]
fn role_table_named_rows() {
    let mut r = response();
    assert_eq!(r.server_type(), ServerType::Standalone);
    r.msg = "isdbgrid".to_string();
    r.set_name = "rs0".to_string();
    r.is_master = true;
    assert_eq!(r.server_type(), ServerType::Mongos);
    r.msg = String::new();
    assert_eq!(r.server_type(), ServerType::RSPrimary);
    r.is_secondary = true;
    assert_eq!(r.server_type(), ServerType::RSPrimary);
    r.is_master = false;
    r.arbiter_only = true;
    assert_eq!(r.server_type(), ServerType::RSSecondary);
    r.is_secondary = false;
    assert_eq!(r.server_type(), ServerType::RSArbiter);
    r.arbiter_only = false;
    assert_eq!(r.server_type(), ServerType::RSOther);
    r.set_name = String::new();
    r.hosts = vec![Host::new("a".to_string(), 1)];
    r.is_master = true;
    assert_eq!(r.server_type(), ServerType::Unknown);
    r.is_replica_set = true;
    assert_eq!(r.server_type(), ServerType::RSGhost);
}

#[test]
fn new_description_is_unknown_and_empty() {
    let d = ServerDescription::new();
    assert_eq!(d.stype, ServerType::Unknown);
    assert!(d.err.is_none());
    assert!(d.round_trip_time.is_none());
    assert_eq!(d.min_wire_version, 0);
    assert_eq!(d.max_wire_version, 0);
    assert!(d.me.is_none());
    assert!(d.hosts.is_empty() && d.passives.is_empty() && d.arbiters.is_empty());
    assert!(d.tags.is_empty());
    assert!(d.set_name.is_empty());
    assert!(d.election_id.is_none());
    assert!(d.primary.is_none());
}

#[test]
fn update_takes_every_field_over() {
    let mut r = response();
    r.is_master = true;
    r.set_name = "rs0".to_string();
    r.min_wire_version = 2;
    r.max_wire_version = 6;
    r.me = Some(Host::new("a".to_string(), 1));
    r.hosts = vec![Host::new("a".to_string(), 1), Host::new("b".to_string(), 2)];
    r.passives = vec![Host::new("c".to_string(), 3)];
    r.arbiters = vec![Host::new("d".to_string(), 4)];
    r.tags.insert("dc".to_string(), "east".to_string());
    let id = bson::oid::ObjectId::from_bytes([1, 2, 3, 4, 5, 6, 7, 8, 9, 10, 11, 12]);
    r.election_id = Some(id);
    r.primary = Some(Host::new("a".to_string(), 1));
    let mut d = ServerDescription::new();
    d.round_trip_time = Some(15);
    d.update(r);
    assert_eq!(d.stype, ServerType::RSPrimary);
    assert_eq!(d.min_wire_version, 2);
    assert_eq!(d.max_wire_version, 6);
    assert_eq!(d.me, Some(Host::new("a".to_string(), 1)));
    assert_eq!(d.hosts, vec![Host::new("a".to_string(), 1), Host::new("b".to_string(), 2)]);
    assert_eq!(d.passives, vec![Host::new("c".to_string(), 3)]);
    assert_eq!(d.arbiters, vec![Host::new("d".to_string(), 4)]);
    assert_eq!(d.tags.get("dc").map(|s| s.as_str()), Some("east"));
    assert_eq!(d.set_name, "rs0");
    assert_eq!(d.election_id, Some(id));
    assert_eq!(d.primary, Some(Host::new("a".to_string(), 1)));
    assert_eq!(d.round_trip_time, Some(15));
    assert!(d.err.is_none());
}

#[test]
fn set_err_always_yields_unknown_with_error() {
    let all = [
        ServerType::Standalone,
        ServerType::Mongos,
        ServerType::RSPrimary,
        ServerType::RSSecondary,
        ServerType::RSArbiter,
        ServerType::RSOther,
        ServerType::RSGhost,
        ServerType::Unknown,
    ];
    for t in all {
        let mut d = ServerDescription::new();
        d.stype = t;
        d.hosts = vec![Host::new("a".to_string(), 1)];
        d.set_name = "rs0".to_string();
        d.set_err(Error::new(ErrorKind::Connection, "monitor", "refused", "down".to_string()));
        assert_eq!(d.stype, ServerType::Unknown);
        let e = d.err.as_ref().unwrap();
        assert_eq!(e.kind, ErrorKind::Connection);
        assert_eq!(e.to_text(), "ERR | monitor | refused => down");
        assert_eq!(d.hosts, vec![Host::new("a".to_string(), 1)]);
        assert_eq!(d.set_name, "rs0");
    }
}

#[test]
fn record_probe_updates_or_records_error() {
    let mut d = ServerDescription::new();
    let mut r = response();
    r.is_secondary = true;
    r.set_name = "rs0".to_string();
    r.hosts = vec![Host::new("a".to_string(), 1)];
    d.record_probe(Ok(r));
    assert_eq!(d.stype, ServerType::RSSecondary);
    assert!(d.err.is_none());
    d.record_probe(Err(Error::new(ErrorKind::MalformedResponse, "monitor", "bad", "x".to_string())));
    assert_eq!(d.stype, ServerType::Unknown);
    assert_eq!(d.err.as_ref().unwrap().kind, ErrorKind::MalformedResponse);
    assert_eq!(d.hosts.len(), 1);
    let mut again = response();
    again.is_master = true;
    again.set_name = "rs0".to_string();
    d.record_probe(Ok(again));
    assert_eq!(d.stype, ServerType::RSPrimary);
}
