//! What is known of one server: its role and the metadata of its last probe.

use vstd::prelude::*;
use vstd::string::*;
use std::collections::BTreeMap;
use crate::error::Error;
use crate::host::Host;

verus! {

/// The opaque identifier of one primary election, as `bson::oid::ObjectId`
/// holds it. The library only carries such a value from a probe response into
/// a description and never looks inside.
#[verifier::external_type_specification]
#[verifier::external_body]
pub struct ExObjectId(bson::oid::ObjectId);

/// The role of a server within a server set.
#[derive(Clone, Copy, Debug, PartialEq, Eq, Structural)]
pub enum ServerType {
    Standalone,
    Mongos,
    RSPrimary,
    RSSecondary,
    RSArbiter,
    RSOther,
    RSGhost,
    Unknown,
}

/// The fields of a successful admin status probe.
#[derive(Clone, Debug)]
pub struct IsMasterResult {
    pub is_master: bool,
    pub is_secondary: bool,
    pub arbiter_only: bool,
    pub is_replica_set: bool,
    pub msg: String,
    pub set_name: String,
    pub min_wire_version: i64,
    pub max_wire_version: i64,
    pub me: Option<Host>,
    pub hosts: Vec<Host>,
    pub passives: Vec<Host>,
    pub arbiters: Vec<Host>,
    pub tags: BTreeMap<String, String>,
    pub election_id: Option<bson::oid::ObjectId>,
    pub primary: Option<Host>,
}

/// Server information gathered from server monitoring.
#[derive(Clone, Debug)]
pub struct ServerDescription {
    pub stype: ServerType,
    pub err: Option<Error>,
    pub round_trip_time: Option<i64>,
    pub min_wire_version: i64,
    pub max_wire_version: i64,
    pub me: Option<Host>,
    pub hosts: Vec<Host>,
    pub passives: Vec<Host>,
    pub arbiters: Vec<Host>,
    pub tags: BTreeMap<String, String>,
    pub set_name: String,
    pub election_id: Option<bson::oid::ObjectId>,
    pub primary: Option<Host>,
}

/// The role a probe response stands for, by precedence: the first rule that
/// applies decides.
///
/// 1. a non-empty `msg` marks a router;
/// 2. no hosts, no set name and no `msg` mark a standalone server;
/// 3. within a named set, `is_master`, then `is_secondary`, then
///    `arbiter_only` decide, and a member with none of them is `RSOther`;
/// 4. without a set name, `is_replica_set` marks a ghost;
/// 5. anything else is unknown.
pub open spec fn role_of(
    msg: Seq<char>,
    hosts: int,
    set_name: Seq<char>,
    is_master: bool,
    is_secondary: bool,
    arbiter_only: bool,
    is_replica_set: bool,
) -> ServerType {
    if msg.len() > 0 {
        ServerType::Mongos
    } else if hosts == 0 && set_name.len() == 0 {
        ServerType::Standalone
    } else if is_master && set_name.len() > 0 {
        ServerType::RSPrimary
    } else if is_secondary && set_name.len() > 0 {
        ServerType::RSSecondary
    } else if arbiter_only && set_name.len() > 0 {
        ServerType::RSArbiter
    } else if set_name.len() > 0 {
        ServerType::RSOther
    } else if is_replica_set {
        ServerType::RSGhost
    } else {
        ServerType::Unknown
    }
}

/// What a description is after a successful probe: the role the response
/// stands for, the response's fields, and the error and round-trip time that
/// were on record.
pub open spec fn after_update(before: ServerDescription, ismaster: IsMasterResult) -> ServerDescription {
    ServerDescription {
        stype: ismaster.role(),
        err: before.err,
        round_trip_time: before.round_trip_time,
        min_wire_version: ismaster.min_wire_version,
        max_wire_version: ismaster.max_wire_version,
        me: ismaster.me,
        hosts: ismaster.hosts,
        passives: ismaster.passives,
        arbiters: ismaster.arbiters,
        tags: ismaster.tags,
        set_name: ismaster.set_name,
        election_id: ismaster.election_id,
        primary: ismaster.primary,
    }
}

/// What a description is after a failed probe: role `Unknown`, the error on
/// record, and every other field as it was.
pub open spec fn after_error(before: ServerDescription, err: Error) -> ServerDescription {
    ServerDescription { stype: ServerType::Unknown, err: Some(err), ..before }
}

impl IsMasterResult {
    /// The role this response stands for.
    pub open spec fn role(&self) -> ServerType {
        role_of(
            self.msg@,
            self.hosts@.len() as int,
            self.set_name@,
            self.is_master,
            self.is_secondary,
            self.arbiter_only,
            self.is_replica_set,
        )
    }

    /// Derives the role of the responding server. Pure: no field is changed
    /// and nothing but the response is consulted.
    pub fn server_type(&self) -> (t: ServerType)
        ensures
            t == self.role(),
    {
        let hosts_empty = self.hosts.len() == 0;
        let set_name_empty = self.set_name.as_str().is_empty();
        let msg_empty = self.msg.as_str().is_empty();
        if msg_empty && set_name_empty && hosts_empty {
            ServerType::Standalone
        } else if !msg_empty {
            ServerType::Mongos
        } else if set_name_empty {
            if self.is_replica_set {
                ServerType::RSGhost
            } else {
                ServerType::Unknown
            }
        } else if self.is_master {
            ServerType::RSPrimary
        } else if self.is_secondary {
            ServerType::RSSecondary
        } else if self.arbiter_only {
            ServerType::RSArbiter
        } else {
            ServerType::RSOther
        }
    }
}

impl ServerDescription {
    /// Whether this is the description every server starts with: role unknown,
    /// no error, no measurements, empty lists and names.
    pub open spec fn is_initial(&self) -> bool {
        &&& self.stype == ServerType::Unknown
        &&& self.err.is_none()
        &&& self.round_trip_time.is_none()
        &&& self.min_wire_version == 0
        &&& self.max_wire_version == 0
        &&& self.me.is_none()
        &&& self.hosts@.len() == 0
        &&& self.passives@.len() == 0
        &&& self.arbiters@.len() == 0
        &&& self.tags@.len() == 0
        &&& self.set_name@.len() == 0
        &&& self.election_id.is_none()
        &&& self.primary.is_none()
    }

    /// Returns a default, unknown server description.
    pub fn new() -> (d: ServerDescription)
        ensures
            d.is_initial(),
    {
        ServerDescription {
            stype: ServerType::Unknown,
            err: None,
            round_trip_time: None,
            min_wire_version: 0,
            max_wire_version: 0,
            me: None,
            hosts: Vec::new(),
            passives: Vec::new(),
            arbiters: Vec::new(),
            tags: BTreeMap::new(),
            set_name: String::new(),
            election_id: None,
            primary: None,
        }
    }

    /// Updates the description from a successful probe: the role is derived
    /// from the response, every other reported field is taken over as it is,
    /// and the recorded error and round-trip time stay as they were.
    pub fn update(&mut self, ismaster: IsMasterResult)
        ensures
            *final(self) == after_update(*old(self), ismaster),
    {
        self.stype = ismaster.server_type();
        self.min_wire_version = ismaster.min_wire_version;
        self.max_wire_version = ismaster.max_wire_version;
        self.me = ismaster.me;
        self.hosts = ismaster.hosts;
        self.passives = ismaster.passives;
        self.arbiters = ismaster.arbiters;
        self.tags = ismaster.tags;
        self.set_name = ismaster.set_name;
        self.election_id = ismaster.election_id;
        self.primary = ismaster.primary;
    }

    /// Records an encountered error and reverts the role to `Unknown`,
    /// whatever it was. Everything else, the known host lists included, is
    /// retained so that a later probe can pick up where this one failed.
    pub fn set_err(&mut self, err: Error)
        ensures
            *final(self) == after_error(*old(self), err),
            final(self).stype == ServerType::Unknown,
            final(self).err.is_some(),
    {
        self.err = Some(err);
        self.stype = ServerType::Unknown;
    }

    /// One monitoring cycle's bookkeeping: a successful probe updates the
    /// description, a failed one records its error. The server is never
    /// dropped here; a failure only leaves it `Unknown` until the next probe.
    pub fn record_probe(&mut self, outcome: Result<IsMasterResult, Error>)
        ensures
            *final(self) == match outcome {
                Ok(ismaster) => after_update(*old(self), ismaster),
                Err(e) => after_error(*old(self), e),
            },
    {
        match outcome {
            Ok(ismaster) => self.update(ismaster),
            Err(e) => self.set_err(e),
        }
    }
}

/// A role is `RSPrimary`, `RSSecondary`, `RSArbiter` or `RSOther` only under a
/// set name and without a `msg`; a router is marked by `msg` alone; and the
/// role is a primary's exactly when `is_master` is reported under a set name
/// and without a `msg`.
pub proof fn lemma_role_table(
    msg: Seq<char>,
    hosts: int,
    set_name: Seq<char>,
    is_master: bool,
    is_secondary: bool,
    arbiter_only: bool,
    is_replica_set: bool,
)
    requires
        hosts >= 0,
    ensures
        ({
            let t = role_of(msg, hosts, set_name, is_master, is_secondary, arbiter_only, is_replica_set);
            &&& (t == ServerType::Mongos <==> msg.len() > 0)
            &&& (t == ServerType::Standalone <==> msg.len() == 0 && hosts == 0 && set_name.len() == 0)
            &&& (t == ServerType::RSPrimary <==> msg.len() == 0 && set_name.len() > 0 && is_master)
            &&& (t == ServerType::RSSecondary <==> msg.len() == 0 && set_name.len() > 0 && !is_master
                && is_secondary)
            &&& (t == ServerType::RSArbiter <==> msg.len() == 0 && set_name.len() > 0 && !is_master
                && !is_secondary && arbiter_only)
            &&& (t == ServerType::RSOther <==> msg.len() == 0 && set_name.len() > 0 && !is_master
                && !is_secondary && !arbiter_only)
            &&& (t == ServerType::RSGhost <==> msg.len() == 0 && set_name.len() == 0 && hosts > 0
                && is_replica_set)
            &&& (t == ServerType::Unknown <==> msg.len() == 0 && set_name.len() == 0 && hosts > 0
                && !is_replica_set)
        }),
{
}

} // verus!
