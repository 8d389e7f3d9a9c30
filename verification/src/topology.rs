//! The aggregated view of a server set, and how a seed list becomes one.

use vstd::prelude::*;
use vstd::string::*;
use crate::error::{Error, ErrorKind};
use crate::host::{views, Host, HostView};
use crate::server::{IsMasterResult, ServerDescription, ServerType};

verus! {

/// The overall state of a topology. `Single` is the state of a direct
/// connection to one server; aggregation over a set never yields it.
#[derive(Clone, Copy, Debug, PartialEq, Eq, Structural)]
pub enum TopologyType {
    Single,
    ReplicaSetWithPrimary,
    ReplicaSetNoPrimary,
    Unknown,
}

/// The known servers of a set, each under its host and in the order in which
/// they were admitted, with the set's name and overall state.
#[derive(Clone, Debug)]
pub struct TopologyDescription {
    pub ttype: TopologyType,
    pub set_name: String,
    pub servers: Vec<(Host, ServerDescription)>,
}

/// The name a topology goes by once a member has reported `reported`: its own
/// if it has one, else the reported one. A name, once there, never changes.
pub open spec fn adopted_name(current: Seq<char>, reported: Seq<char>) -> Seq<char> {
    if current.len() == 0 {
        reported
    } else {
        current
    }
}

/// Whether a server takes part in the set named `set_name`: it does if it
/// reports that name, and every server does while the set has no name yet.
pub open spec fn is_member(d: ServerDescription, set_name: Seq<char>) -> bool {
    set_name.len() == 0 || d.set_name@ == set_name
}

/// Whether a server counts as the primary of the set named `set_name`.
pub open spec fn is_active_primary(d: ServerDescription, set_name: Seq<char>) -> bool {
    d.stype == ServerType::RSPrimary && is_member(d, set_name)
}

/// Whether some entry counts as the set's primary.
pub open spec fn has_primary(s: Seq<(Host, ServerDescription)>, set_name: Seq<char>) -> bool {
    exists|i: int| 0 <= i < s.len() && is_active_primary((#[trigger] s[i]).1, set_name)
}

/// Whether at most one entry counts as the set's primary.
pub open spec fn primary_unique(s: Seq<(Host, ServerDescription)>, set_name: Seq<char>) -> bool {
    forall|i: int, j: int|
        0 <= i < s.len() && 0 <= j < s.len() && is_active_primary((#[trigger] s[i]).1, set_name)
            && is_active_primary((#[trigger] s[j]).1, set_name) ==> i == j
}

/// Whether some entry reports a set name.
pub open spec fn any_named(s: Seq<(Host, ServerDescription)>) -> bool {
    exists|i: int| 0 <= i < s.len() && (#[trigger] s[i]).1.set_name@.len() > 0
}

/// The overall state that a collection of servers amounts to: with a primary
/// if one counts as such, else without one if any server reports a set name,
/// else unknown.
pub open spec fn overall_type(s: Seq<(Host, ServerDescription)>, set_name: Seq<char>) -> TopologyType {
    if has_primary(s, set_name) {
        TopologyType::ReplicaSetWithPrimary
    } else if any_named(s) {
        TopologyType::ReplicaSetNoPrimary
    } else {
        TopologyType::Unknown
    }
}

/// Whether the entry at `p` is classified as a primary and no other entry is.
pub open spec fn sole_primary_at(s: Seq<(Host, ServerDescription)>, p: int) -> bool {
    &&& 0 <= p < s.len()
    &&& s[p].1.stype == ServerType::RSPrimary
    &&& forall|i: int| 0 <= i < s.len() && i != p ==> (#[trigger] s[i]).1.stype != ServerType::RSPrimary
}

/// Whether no entry is classified as a primary.
pub open spec fn no_primary(s: Seq<(Host, ServerDescription)>) -> bool {
    forall|i: int| 0 <= i < s.len() ==> (#[trigger] s[i]).1.stype != ServerType::RSPrimary
}

/// Whether two different entries are classified as primaries.
pub open spec fn many_primaries(s: Seq<(Host, ServerDescription)>) -> bool {
    exists|i: int, j: int|
        0 <= i < j < s.len() && (#[trigger] s[i]).1.stype == ServerType::RSPrimary && (
        #[trigger] s[j]).1.stype == ServerType::RSPrimary
}

/// Whether no two entries stand under the same host.
pub open spec fn hosts_distinct(s: Seq<(Host, ServerDescription)>) -> bool {
    forall|i: int, j: int| 0 <= i < j < s.len() ==> (#[trigger] s[i]).0@ != (#[trigger] s[j]).0@
}

/// Whether `i` is the first position whose entry stands under `host`.
pub open spec fn holds_at(s: Seq<(Host, ServerDescription)>, host: HostView, i: int) -> bool {
    &&& 0 <= i < s.len()
    &&& s[i].0@ == host
    &&& forall|j: int| 0 <= j < i ==> (#[trigger] s[j]).0@ != host
}

/// Whether no entry stands under `host`.
pub open spec fn absent(s: Seq<(Host, ServerDescription)>, host: HostView) -> bool {
    forall|j: int| 0 <= j < s.len() ==> (#[trigger] s[j]).0@ != host
}

/// Where the description of `host` belongs: at its entry if it has one, else
/// behind the last entry.
pub open spec fn slot_for(s: Seq<(Host, ServerDescription)>, host: HostView) -> int {
    if absent(s, host) {
        s.len() as int
    } else {
        choose|i: int| holds_at(s, host, i)
    }
}

/// What becomes of a recorded description when another server is accepted as
/// primary (`yields`): one that counted as primary falls back to `Unknown`,
/// with everything else kept; any other stays as it is.
pub open spec fn settled(d: ServerDescription, set_name: Seq<char>, yields: bool) -> ServerDescription {
    if yields && is_active_primary(d, set_name) {
        ServerDescription { stype: ServerType::Unknown, ..d }
    } else {
        d
    }
}

/// Whether each candidate's role is the one its probe response stands for,
/// and every response reports the set name `set_name` and no `msg`.
pub open spec fn classified_from(
    s: Seq<(Host, ServerDescription)>,
    responses: Seq<IsMasterResult>,
    set_name: Seq<char>,
) -> bool {
    &&& s.len() == responses.len()
    &&& set_name.len() > 0
    &&& forall|i: int|
        0 <= i < s.len() ==> {
            &&& (#[trigger] s[i]).1.stype == responses[i].role()
            &&& responses[i].set_name@ == set_name
            &&& responses[i].msg@.len() == 0
        }
}

/// Among candidates of one named set, none of them a router, the responses'
/// `is_master` flags decide the bootstrap: the sole candidate that reports
/// `is_master` is the sole primary.
pub proof fn lemma_one_master_is_sole_primary(
    s: Seq<(Host, ServerDescription)>,
    responses: Seq<IsMasterResult>,
    set_name: Seq<char>,
    p: int,
)
    requires
        classified_from(s, responses, set_name),
        0 <= p < s.len(),
        responses[p].is_master,
        forall|i: int| 0 <= i < s.len() && i != p ==> !(#[trigger] responses[i]).is_master,
    ensures
        sole_primary_at(s, p),
{
    assert(s[p].1.stype == responses[p].role());
    assert forall|i: int| 0 <= i < s.len() && i != p implies (#[trigger] s[i]).1.stype
        != ServerType::RSPrimary by {
        assert(!responses[i].is_master);
    }
}

/// Among candidates of one named set, none of them a router: where no
/// response reports `is_master` there is no primary, and where two do there
/// are several.
pub proof fn lemma_masters_missing_or_many(
    s: Seq<(Host, ServerDescription)>,
    responses: Seq<IsMasterResult>,
    set_name: Seq<char>,
)
    requires
        classified_from(s, responses, set_name),
    ensures
        (forall|i: int| 0 <= i < s.len() ==> !(#[trigger] responses[i]).is_master) ==> no_primary(s),
        (exists|i: int, j: int|
            0 <= i < j < s.len() && (#[trigger] responses[i]).is_master && (#[trigger] responses[j]).is_master)
            ==> many_primaries(s),
{
    if forall|i: int| 0 <= i < s.len() ==> !(#[trigger] responses[i]).is_master {
        assert forall|i: int| 0 <= i < s.len() implies (#[trigger] s[i]).1.stype
            != ServerType::RSPrimary by {
            assert(!responses[i].is_master);
        }
    }
    if exists|i: int, j: int|
        0 <= i < j < s.len() && (#[trigger] responses[i]).is_master && (#[trigger] responses[j]).is_master {
        let (i, j) = choose|i: int, j: int|
            0 <= i < j < s.len() && (#[trigger] responses[i]).is_master && (#[trigger] responses[j]).is_master;
        assert(s[i].1.stype == ServerType::RSPrimary);
        assert(s[j].1.stype == ServerType::RSPrimary);
    }
}

/// The hosts that the entries stand under, in order.
pub open spec fn entry_hosts(s: Seq<(Host, ServerDescription)>) -> Seq<HostView> {
    s.map_values(|e: (Host, ServerDescription)| e.0@)
}

/// The hosts among `reported` that are not among `known`, each once, in the
/// order in which `reported` first names them.
pub open spec fn fresh_hosts(known: Seq<HostView>, reported: Seq<HostView>) -> Seq<HostView>
    decreases reported.len(),
{
    if reported.len() == 0 {
        Seq::empty()
    } else if known.contains(reported.first()) {
        fresh_hosts(known, reported.drop_first())
    } else {
        seq![reported.first()] + fresh_hosts(known.push(reported.first()), reported.drop_first())
    }
}

/// Whether a seed's answer can start discovery: it came, and names hosts.
pub open spec fn is_usable(response: Result<Vec<Host>, Error>) -> bool {
    response.is_ok() && response.unwrap()@.len() > 0
}

/// Whether discovery passes a seed's answer over and goes on to the next
/// seed: the seed was unreachable, or it named no host.
pub open spec fn is_passed_over(response: Result<Vec<Host>, Error>) -> bool {
    match response {
        Ok(list) => list@.len() == 0,
        Err(e) => e@.kind == ErrorKind::Connection,
    }
}

/// Whether every seed's answer is passed over.
pub open spec fn all_passed_over(responses: Seq<Result<Vec<Host>, Error>>) -> bool {
    forall|j: int| 0 <= j < responses.len() ==> is_passed_over(#[trigger] responses[j])
}

/// Whether the answer at `i` is the first that is not passed over.
pub open spec fn decides_at(responses: Seq<Result<Vec<Host>, Error>>, i: int) -> bool {
    &&& 0 <= i < responses.len()
    &&& !is_passed_over(responses[i])
    &&& forall|j: int| 0 <= j < i ==> is_passed_over(#[trigger] responses[j])
}

/// Whether `e` is the error of the answer that decides, where that answer is
/// a failure.
pub open spec fn seed_fails_with(responses: Seq<Result<Vec<Host>, Error>>, e: crate::error::ErrorView) -> bool {
    exists|i: int| #[trigger] decides_at(responses, i) && responses[i].is_err() && e == responses[i].unwrap_err()@
}

/// Picks the seed answer that discovery goes on with.
///
/// The answers are taken in seed order. An unreachable seed and one that
/// names no host are passed over. The first other answer decides: if it names
/// hosts, it is the one picked; if it is a failure of any kind but a
/// connection error, discovery ends with that error. Where every answer was
/// passed over, discovery fails with "no hosts".
pub fn seed_candidates(responses: &Vec<Result<Vec<Host>, Error>>) -> (r: Result<usize, Error>)
    ensures
        match r {
            Ok(i) => decides_at(responses@, i as int) && is_usable(responses@[i as int]),
            Err(e) => if all_passed_over(responses@) {
                e@.kind == ErrorKind::Discovery && e@.name == "no hosts"@
            } else {
                seed_fails_with(responses@, e@)
            },
        },
{
    let mut i: usize = 0;
    while i < responses.len()
        invariant
            i <= responses.len(),
            forall|j: int| 0 <= j < i ==> is_passed_over(#[trigger] responses@[j]),
        decreases responses.len() - i,
    {
        match &responses[i] {
            Ok(list) => {
                if list.len() > 0 {
                    assert(decides_at(responses@, i as int));
                    return Ok(i);
                }
            },
            Err(e) => {
                match e.kind {
                    ErrorKind::Connection => {},
                    _ => {
                        let failure = e.duplicate();
                        proof {
                            assert(decides_at(responses@, i as int));
                            assert(seed_fails_with(responses@, failure@));
                            assert(!all_passed_over(responses@));
                        }
                        return Err(failure);
                    },
                }
            },
        }
        i += 1;
    }
    Err(
        Error::new(
            ErrorKind::Discovery,
            "topology::bootstrap",
            "no hosts",
            "no seed reported any host".to_owned(),
        ),
    )
}

/// Whether the seed stage is settled, so that no further seed need be
/// probed: it is as soon as one answer is not passed over.
pub fn seeds_settled(responses: &Vec<Result<Vec<Host>, Error>>) -> (b: bool)
    ensures
        b == !all_passed_over(responses@),
{
    let mut i: usize = 0;
    while i < responses.len()
        invariant
            i <= responses.len(),
            forall|j: int| 0 <= j < i ==> is_passed_over(#[trigger] responses@[j]),
        decreases responses.len() - i,
    {
        let passed = match &responses[i] {
            Ok(list) => list.len() == 0,
            Err(e) => match e.kind {
                ErrorKind::Connection => true,
                _ => false,
            },
        };
        if !passed {
            assert(!is_passed_over(responses@[i as int]));
            return true;
        }
        i += 1;
    }
    false
}

/// Checks that no two entries stand under the same host.
pub fn has_distinct_hosts(servers: &Vec<(Host, ServerDescription)>) -> (b: bool)
    ensures
        b == hosts_distinct(servers@),
{
    let mut i: usize = 0;
    while i < servers.len()
        invariant
            i <= servers.len(),
            forall|a: int, b: int| 0 <= a < b < i ==> (#[trigger] servers@[a]).0@ != (#[trigger] servers@[b]).0@,
        decreases servers.len() - i,
    {
        let mut j: usize = 0;
        while j < i
            invariant
                j <= i,
                i < servers.len(),
                forall|a: int| 0 <= a < j ==> (#[trigger] servers@[a]).0@ != servers@[i as int].0@,
            decreases i - j,
        {
            if servers[j].0.same_as(&servers[i].0) {
                assert(servers@[j as int].0@ == servers@[i as int].0@);
                return false;
            }
            j += 1;
        }
        i += 1;
    }
    true
}

/// The hosts of a list, each once, in the order in which the list first names
/// them.
pub fn distinct_hosts(hosts: &Vec<Host>) -> (r: Vec<Host>)
    ensures
        views(r@) == fresh_hosts(Seq::empty(), views(hosts@)),
        forall|i: int, j: int| 0 <= i < j < r@.len() ==> (#[trigger] r@[i])@ != (#[trigger] r@[j])@,
{
    let mut t = TopologyDescription::new();
    let ghost start = t.servers@;
    let r = t.admit_hosts(hosts);
    proof {
        assert(entry_hosts(start) =~= Seq::<HostView>::empty());
        assert forall|i: int, j: int| 0 <= i < j < r@.len() implies (#[trigger] r@[i])@ != (
        #[trigger] r@[j])@ by {
            assert(t.servers@[0 + i].0@ == r@[i]@);
            assert(t.servers@[0 + j].0@ == r@[j]@);
        }
    }
    r
}

/// Appends a copy of each host of `from` to `out`.
pub fn copy_hosts(out: &mut Vec<Host>, from: &Vec<Host>)
    ensures
        views(final(out)@) == views(old(out)@) + views(from@),
{
    let ghost start = out@;
    let mut i: usize = 0;
    proof {
        assert(views(start) + views(from@.take(0)) =~= views(start));
    }
    while i < from.len()
        invariant
            i <= from.len(),
            views(out@) == views(start) + views(from@.take(i as int)),
        decreases from.len() - i,
    {
        let ghost prior = out@;
        let h = from[i].duplicate();
        out.push(h);
        proof {
            assert(views(out@) =~= views(prior).push(h@));
            assert(views(from@.take(i + 1)) =~= views(from@.take(i as int)).push(from@[i as int]@));
            assert(views(out@) =~= views(start) + views(from@.take(i + 1)));
        }
        i += 1;
    }
    proof {
        assert(from@.take(i as int) =~= from@);
    }
}

impl TopologyDescription {
    /// The invariant of a topology: no host has two entries, at most one
    /// entry counts as primary, and the overall state is the one its servers
    /// amount to.
    pub open spec fn wf(&self) -> bool {
        &&& hosts_distinct(self.servers@)
        &&& primary_unique(self.servers@, self.set_name@)
        &&& self.ttype == overall_type(self.servers@, self.set_name@)
    }

    /// A topology that knows no server yet.
    pub fn new() -> (t: TopologyDescription)
        ensures
            t.wf(),
            t.ttype == TopologyType::Unknown,
            t.set_name@.len() == 0,
            t.servers@.len() == 0,
    {
        TopologyDescription { ttype: TopologyType::Unknown, set_name: String::new(), servers: Vec::new() }
    }

    /// Builds the initial topology from the classified candidates.
    ///
    /// Exactly one candidate must be a primary, and no host may be a candidate
    /// twice. Then every candidate is admitted as given, the set takes the
    /// primary's set name, and the state is `ReplicaSetWithPrimary`.
    /// Otherwise nothing is built: without candidates the error is
    /// "no hosts", without a primary "no primary", with several
    /// "multiple primaries", and with one primary but a host named twice
    /// "duplicate host".
    pub fn bootstrap(candidates: Vec<(Host, ServerDescription)>) -> (r: Result<TopologyDescription, Error>)
        ensures
            match r {
                Ok(t) => {
                    &&& t.wf()
                    &&& t.ttype == TopologyType::ReplicaSetWithPrimary
                    &&& t.servers == candidates
                    &&& exists|p: int| #[trigger]
                        sole_primary_at(candidates@, p) && t.set_name@ == candidates@[p].1.set_name@
                },
                Err(e) => {
                    &&& e@.kind == ErrorKind::Discovery
                    &&& if candidates@.len() == 0 {
                        e@.name == "no hosts"@
                    } else if no_primary(candidates@) {
                        e@.name == "no primary"@
                    } else if many_primaries(candidates@) {
                        e@.name == "multiple primaries"@
                    } else {
                        !hosts_distinct(candidates@) && e@.name == "duplicate host"@
                    }
                },
            },
    {
        if candidates.len() == 0 {
            return Err(
                Error::new(
                    ErrorKind::Discovery,
                    "topology::bootstrap",
                    "no hosts",
                    "no candidate host to classify".to_owned(),
                ),
            );
        }
        let mut count: u8 = 0;
        let mut first: usize = 0;
        let mut i: usize = 0;
        while i < candidates.len()
            invariant
                i <= candidates.len(),
                count <= 2,
                count == 0 ==> no_primary(candidates@.take(i as int)),
                count == 1 ==> sole_primary_at(candidates@.take(i as int), first as int),
                count == 2 ==> many_primaries(candidates@.take(i as int)),
            decreases candidates.len() - i,
        {
            let ghost before = candidates@.take(i as int);
            let ghost after = candidates@.take(i + 1);
            proof {
                assert forall|j: int| 0 <= j < i implies #[trigger] after[j] == before[j] by {}
                assert(after[i as int] == candidates@[i as int]);
            }
            if candidates[i].1.stype == ServerType::RSPrimary {
                if count == 0 {
                    first = i;
                    count = 1;
                    assert(sole_primary_at(after, first as int)) by {
                        assert forall|j: int| 0 <= j < after.len() && j != first implies (
                        #[trigger] after[j]).1.stype != ServerType::RSPrimary by {
                            assert(before[j].1.stype != ServerType::RSPrimary);
                        }
                    }
                } else if count == 1 {
                    count = 2;
                    assert(many_primaries(after)) by {
                        assert(after[first as int].1.stype == ServerType::RSPrimary);
                        assert(after[i as int].1.stype == ServerType::RSPrimary);
                    }
                } else {
                    assert(many_primaries(after)) by {
                        let (a, b) = choose|a: int, b: int|
                            0 <= a < b < before.len() && (#[trigger] before[a]).1.stype
                                == ServerType::RSPrimary && (#[trigger] before[b]).1.stype
                                == ServerType::RSPrimary;
                        assert(after[a].1.stype == ServerType::RSPrimary);
                        assert(after[b].1.stype == ServerType::RSPrimary);
                    }
                }
            } else {
                proof {
                    if count == 0 {
                        assert forall|j: int| 0 <= j < after.len() implies (#[trigger] after[j]).1.stype
                            != ServerType::RSPrimary by {
                            if j < i {
                                assert(before[j].1.stype != ServerType::RSPrimary);
                            }
                        }
                    } else if count == 1 {
                        assert(before[first as int] == after[first as int]);
                        assert forall|j: int| 0 <= j < after.len() && j != first implies (
                        #[trigger] after[j]).1.stype != ServerType::RSPrimary by {
                            if j < i {
                                assert(before[j].1.stype != ServerType::RSPrimary);
                            }
                        }
                    } else {
                        let (a, b) = choose|a: int, b: int|
                            0 <= a < b < before.len() && (#[trigger] before[a]).1.stype
                                == ServerType::RSPrimary && (#[trigger] before[b]).1.stype
                                == ServerType::RSPrimary;
                        assert(after[a].1.stype == ServerType::RSPrimary);
                        assert(after[b].1.stype == ServerType::RSPrimary);
                    }
                }
            }
            i += 1;
        }
        proof {
            assert(candidates@.take(i as int) =~= candidates@);
        }
        if count == 0 {
            Err(
                Error::new(
                    ErrorKind::Discovery,
                    "topology::bootstrap",
                    "no primary",
                    "could not find primary".to_owned(),
                ),
            )
        } else if count == 1 {
            proof {
                assert(candidates@[first as int].1.stype == ServerType::RSPrimary);
                assert(!no_primary(candidates@));
                assert(!many_primaries(candidates@)) by {
                    if many_primaries(candidates@) {
                        let (a, b) = choose|a: int, b: int|
                            0 <= a < b < candidates@.len() && (#[trigger] candidates@[a]).1.stype
                                == ServerType::RSPrimary && (#[trigger] candidates@[b]).1.stype
                                == ServerType::RSPrimary;
                        assert(a == first && b == first);
                    }
                }
            }
            if !has_distinct_hosts(&candidates) {
                return Err(
                    Error::new(
                        ErrorKind::Discovery,
                        "topology::bootstrap",
                        "duplicate host",
                        "a host is named twice among the candidates".to_owned(),
                    ),
                );
            }
            let set_name = candidates[first].1.set_name.clone();
            let t = TopologyDescription {
                ttype: TopologyType::ReplicaSetWithPrimary,
                set_name,
                servers: candidates,
            };
            proof {
                assert(sole_primary_at(t.servers@, first as int));
                assert(is_active_primary(t.servers@[first as int].1, t.set_name@));
                assert(has_primary(t.servers@, t.set_name@));
            }
            Ok(t)
        } else {
            proof {
                let (a, b) = choose|a: int, b: int|
                    0 <= a < b < candidates@.len() && (#[trigger] candidates@[a]).1.stype
                        == ServerType::RSPrimary && (#[trigger] candidates@[b]).1.stype
                        == ServerType::RSPrimary;
                assert(!no_primary(candidates@));
                assert(many_primaries(candidates@));
            }
            Err(
                Error::new(
                    ErrorKind::Discovery,
                    "topology::bootstrap",
                    "multiple primaries",
                    "replica set cannot contain multiple primaries".to_owned(),
                ),
            )
        }
    }

    /// The position of the entry of `host`: the first that stands under it.
    pub fn find(&self, host: &Host) -> (r: Option<usize>)
        ensures
            match r {
                Some(i) => holds_at(self.servers@, host@, i as int),
                None => absent(self.servers@, host@),
            },
    {
        let mut i: usize = 0;
        while i < self.servers.len()
            invariant
                i <= self.servers.len(),
                forall|j: int| 0 <= j < i ==> (#[trigger] self.servers@[j]).0@ != host@,
            decreases self.servers.len() - i,
        {
            if self.servers[i].0.same_as(host) {
                return Some(i);
            }
            i += 1;
        }
        None
    }

    /// Records what a monitor has learned of `host`.
    ///
    /// A topology without a name adopts the set name that the description
    /// reports. The description takes the place of the host's entry, or is
    /// admitted behind the last entry where the host is new. A description
    /// from another set is kept as it is, but does not count as a member.
    ///
    /// Two servers may claim to be primary at once. The rule here is that the
    /// most recent report wins: when the description counts as primary, every
    /// other entry that did falls back to `Unknown`, and the host of such an
    /// entry is returned, so that the conflict is on record.
    pub fn update_server(&mut self, host: Host, desc: ServerDescription) -> (demoted: Option<Host>)
        requires
            old(self).wf(),
        ensures
            final(self).wf(),
            final(self).set_name@ == adopted_name(old(self).set_name@, desc.set_name@),
            old(self).set_name@.len() > 0 ==> final(self).set_name@ == old(self).set_name@,
            ({
                let before = old(self).servers@;
                let after = final(self).servers@;
                let name = final(self).set_name@;
                let k = slot_for(before, host@);
                let yields = is_active_primary(desc, name);
                &&& after.len() == if k == before.len() {
                    before.len() + 1
                } else {
                    before.len()
                }
                &&& after[k].0@ == host@
                &&& after[k].1 == desc
                &&& forall|j: int|
                    0 <= j < before.len() && j != k ==> (#[trigger] after[j]).0 == before[j].0 && after[j].1
                        == settled(before[j].1, name, yields)
                &&& match demoted {
                    Some(h) => yields && exists|j: int|
                        0 <= j < before.len() && j != k && is_active_primary((#[trigger] before[j]).1, name)
                            && h@ == before[j].0@,
                    None => !yields || forall|j: int|
                        0 <= j < before.len() && j != k ==> !is_active_primary(
                            (#[trigger] before[j]).1,
                            name,
                        ),
                }
            }),
    {
        if self.set_name.as_str().is_empty() && !desc.set_name.as_str().is_empty() {
            self.set_name = desc.set_name.clone();
        }
        let ghost before = old(self).servers@;
        let ghost name = self.set_name@;
        let k = match self.find(&host) {
            Some(i) => i,
            None => self.servers.len(),
        };
        proof {
            if !absent(before, host@) {
                let c = choose|c: int| holds_at(before, host@, c);
                assert(holds_at(before, host@, k as int));
                assert(c == k);
            }
            assert(k == slot_for(before, host@));
            assert(k < before.len() ==> holds_at(before, host@, k as int));
            assert(k == before.len() ==> absent(before, host@));
        }
        let nameless = self.set_name.as_str().is_empty();
        let yields = desc.stype == ServerType::RSPrimary && (nameless || desc.set_name == self.set_name);
        proof {
            if desc.set_name@ == name {
                assert(desc.set_name@ =~= name);
            }
            assert(yields == is_active_primary(desc, name));
        }
        let mut demoted: Option<Host> = None;
        if yields {
            let mut j: usize = 0;
            while j < self.servers.len()
                invariant
                    j <= self.servers.len(),
                    self.servers@.len() == before.len(),
                    self.set_name@ == name,
                    nameless == (name.len() == 0),
                    k <= before.len(),
                    forall|m: int|
                        0 <= m < j && m != k ==> (#[trigger] self.servers@[m]).0 == before[m].0
                            && self.servers@[m].1 == settled(before[m].1, name, true),
                    forall|m: int|
                        j <= m < before.len() || (m == k && k < before.len()) ==> #[trigger] self.servers@[m]
                            == before[m],
                    match demoted {
                        Some(h) => exists|m: int|
                            0 <= m < j && m != k && is_active_primary((#[trigger] before[m]).1, name) && h@
                                == before[m].0@,
                        None => forall|m: int|
                            0 <= m < j && m != k ==> !is_active_primary((#[trigger] before[m]).1, name),
                    },
                decreases self.servers.len() - j,
            {
                if j != k {
                    let d = &self.servers[j].1;
                    let counts = d.stype == ServerType::RSPrimary && (nameless || d.set_name == self.set_name);
                    proof {
                        if d.set_name@ == name {
                            assert(d.set_name@ =~= name);
                        }
                        assert(counts == is_active_primary(before[j as int].1, name));
                    }
                    if counts {
                        demoted = Some(self.servers[j].0.duplicate());
                        self.servers[j].1.stype = ServerType::Unknown;
                    }
                }
                j += 1;
            }
        }
        let ghost settled_servers = self.servers@;
        if k < self.servers.len() {
            self.servers.set(k, (host, desc));
        } else {
            self.servers.push((host, desc));
        }
        proof {
            let after = self.servers@;
            assert forall|m: int| 0 <= m < before.len() && m != k implies (#[trigger] after[m]).0
                == before[m].0 && after[m].1 == settled(before[m].1, name, yields) by {
                assert(after[m] == settled_servers[m]);
            }
            assert forall|a: int, b: int| 0 <= a < b < after.len() implies (#[trigger] after[a]).0@ != (
            #[trigger] after[b]).0@ by {
                if a < before.len() {
                    assert(after[a].0@ == before[a].0@);
                }
                if b < before.len() {
                    assert(after[b].0@ == before[b].0@);
                } else {
                    assert(before[a].0@ != host@);
                }
            }
            assert forall|a: int, b: int|
                0 <= a < after.len() && 0 <= b < after.len() && is_active_primary(
                    (#[trigger] after[a]).1,
                    name,
                ) && is_active_primary((#[trigger] after[b]).1, name) implies a == b by {
                if yields {
                    if a != k {
                        assert(after[a].1 == settled(before[a].1, name, yields));
                    }
                    if b != k {
                        assert(after[b].1 == settled(before[b].1, name, yields));
                    }
                } else {
                    assert(a != k && b != k);
                    assert(after[a].1 == before[a].1);
                    assert(after[b].1 == before[b].1);
                    assert(is_active_primary(before[a].1, old(self).set_name@));
                    assert(is_active_primary(before[b].1, old(self).set_name@));
                }
            }
        }
        self.ttype = self.compute_type();
        demoted
    }

    /// Whether a description counts as a member's: whether it reports the
    /// set's name, or the set has none yet.
    pub fn counts_as_member(&self, d: &ServerDescription) -> (b: bool)
        ensures
            b == is_member(*d, self.set_name@),
    {
        proof {
            if d.set_name@ == self.set_name@ {
                assert(d.set_name@ =~= self.set_name@);
            }
        }
        self.set_name.as_str().is_empty() || d.set_name == self.set_name
    }

    /// The hosts by which a description expands the topology: those it lists
    /// as hosts, passives and arbiters, in that order, where it counts as a
    /// member's; none where it comes from another set.
    pub fn reported_hosts(&self, d: &ServerDescription) -> (reported: Vec<Host>)
        ensures
            views(reported@) == if is_member(*d, self.set_name@) {
                views(d.hosts@) + views(d.passives@) + views(d.arbiters@)
            } else {
                Seq::empty()
            },
    {
        let mut reported: Vec<Host> = Vec::new();
        if self.counts_as_member(d) {
            copy_hosts(&mut reported, &d.hosts);
            copy_hosts(&mut reported, &d.passives);
            copy_hosts(&mut reported, &d.arbiters);
            proof {
                assert(views(reported@) =~= views(d.hosts@) + views(d.passives@) + views(d.arbiters@));
            }
        } else {
            proof {
                assert(views(reported@) =~= Seq::<HostView>::empty());
            }
        }
        reported
    }

    /// Admits the hosts that a member reports and the topology does not know.
    ///
    /// Each such host gets an entry behind the last one, with the description
    /// every server starts with; a host reported twice is admitted once. The
    /// entries that were there stay as they are, and so do the set's name and
    /// overall state. The hosts admitted are returned, in the order in which
    /// the report first names them, which is the order of their new entries,
    /// for the caller to start monitoring them.
    pub fn admit_hosts(&mut self, reported: &Vec<Host>) -> (admitted: Vec<Host>)
        requires
            old(self).wf(),
        ensures
            final(self).wf(),
            final(self).ttype == old(self).ttype,
            final(self).set_name == old(self).set_name,
            views(admitted@) == fresh_hosts(entry_hosts(old(self).servers@), views(reported@)),
            final(self).servers@.len() == old(self).servers@.len() + admitted@.len(),
            final(self).servers@.take(old(self).servers@.len() as int) == old(self).servers@,
            forall|i: int|
                0 <= i < admitted@.len() ==> {
                    let e = #[trigger] final(self).servers@[old(self).servers@.len() + i];
                    e.0@ == admitted@[i]@ && e.1.is_initial()
                },
            forall|j: int| 0 <= j < reported@.len() ==> !absent(final(self).servers@, (#[trigger] reported@[j])@),
    {
        let ghost before = self.servers@;
        let ghost name = self.set_name@;
        let ghost named = views(reported@);
        let mut admitted: Vec<Host> = Vec::new();
        let mut j: usize = 0;
        proof {
            assert(named.skip(0) =~= named);
            assert(views(admitted@) + fresh_hosts(entry_hosts(before), named) =~= fresh_hosts(
                entry_hosts(before),
                named,
            ));
        }
        while j < reported.len()
            invariant
                j <= reported.len(),
                self.set_name == old(self).set_name,
                self.ttype == old(self).ttype,
                name == self.set_name@,
                named == views(reported@),
                self.wf(),
                self.servers@.len() == before.len() + admitted@.len(),
                self.servers@.take(before.len() as int) == before,
                fresh_hosts(entry_hosts(before), named) == views(admitted@) + fresh_hosts(
                    entry_hosts(self.servers@),
                    named.skip(j as int),
                ),
                forall|i: int|
                    0 <= i < admitted@.len() ==> {
                        let e = #[trigger] self.servers@[before.len() + i];
                        e.0@ == admitted@[i]@ && e.1.is_initial()
                    },
                forall|m: int| 0 <= m < j ==> !absent(self.servers@, (#[trigger] reported@[m])@),
            decreases reported.len() - j,
        {
            let ghost prior = self.servers@;
            let ghost sofar = admitted@;
            let ghost h = reported@[j as int]@;
            proof {
                assert(named.skip(j as int).first() == h);
                assert(named.skip(j as int).drop_first() =~= named.skip(j + 1));
            }
            match self.find(&reported[j]) {
                Some(at) => {
                    proof {
                        assert(entry_hosts(prior)[at as int] == h);
                        assert(entry_hosts(prior).contains(h));
                    }
                },
                None => {
                    let fresh = ServerDescription::new();
                    self.servers.push((reported[j].duplicate(), fresh));
                    admitted.push(reported[j].duplicate());
                    proof {
                        let now = self.servers@;
                        let last = prior.len() as int;
                        assert(!entry_hosts(prior).contains(h)) by {
                            if entry_hosts(prior).contains(h) {
                                let w = choose|w: int| 0 <= w < prior.len() && entry_hosts(prior)[w] == h;
                                assert(prior[w].0@ == h);
                            }
                        }
                        assert(entry_hosts(now) =~= entry_hosts(prior).push(h));
                        assert(views(admitted@) =~= views(sofar).push(h));
                        assert(views(sofar) + (seq![h] + fresh_hosts(
                            entry_hosts(now),
                            named.skip(j + 1),
                        )) =~= views(admitted@) + fresh_hosts(entry_hosts(now), named.skip(j + 1)));
                        assert(now.take(before.len() as int) =~= prior.take(before.len() as int));
                        assert(!is_active_primary(now[last].1, name));
                        assert forall|a: int, b: int| 0 <= a < b < now.len() implies (#[trigger] now[a]).0@ != (
                        #[trigger] now[b]).0@ by {
                            assert(now[a] == prior[a]);
                            if b < last {
                                assert(now[b] == prior[b]);
                            } else {
                                assert(prior[a].0@ != h);
                            }
                        }
                        assert forall|a: int, b: int|
                            0 <= a < now.len() && 0 <= b < now.len() && is_active_primary(
                                (#[trigger] now[a]).1,
                                name,
                            ) && is_active_primary((#[trigger] now[b]).1, name) implies a == b by {
                            assert(now[a] == prior[a]);
                            assert(now[b] == prior[b]);
                        }
                        if has_primary(prior, name) {
                            let w = choose|w: int|
                                0 <= w < prior.len() && is_active_primary((#[trigger] prior[w]).1, name);
                            assert(is_active_primary(now[w].1, name));
                        }
                        if has_primary(now, name) {
                            let w = choose|w: int|
                                0 <= w < now.len() && is_active_primary((#[trigger] now[w]).1, name);
                            assert(is_active_primary(prior[w].1, name));
                        }
                        if any_named(prior) {
                            let w = choose|w: int|
                                0 <= w < prior.len() && (#[trigger] prior[w]).1.set_name@.len() > 0;
                            assert(now[w].1.set_name@.len() > 0);
                        }
                        if any_named(now) {
                            let w = choose|w: int| 0 <= w < now.len() && (#[trigger] now[w]).1.set_name@.len() > 0;
                            assert(prior[w].1.set_name@.len() > 0);
                        }
                        assert forall|i: int| 0 <= i < admitted@.len() implies ({
                            let e = #[trigger] now[before.len() + i];
                            e.0@ == admitted@[i]@ && e.1.is_initial()
                        }) by {
                            if i < sofar.len() {
                                assert(now[before.len() + i] == prior[before.len() + i]);
                            }
                        }
                        assert forall|m: int| 0 <= m <= j implies !absent(now, (#[trigger] reported@[m])@) by {
                            if m < j {
                                let w = choose|w: int|
                                    0 <= w < prior.len() && (#[trigger] prior[w]).0@ == reported@[m]@;
                                assert(now[w].0@ == reported@[m]@);
                            } else {
                                assert(now[last].0@ == reported@[m]@);
                            }
                        }
                    }
                },
            }
            j += 1;
        }
        proof {
            assert(views(admitted@) + Seq::<HostView>::empty() =~= views(admitted@));
        }
        admitted
    }

    /// Retires a host at once: its entry, the first under that host, leaves
    /// the topology, the later entries move up, and the overall state is
    /// worked out anew. The description that was on record is handed back.
    /// A host without an entry changes nothing.
    pub fn retire(&mut self, host: &Host) -> (removed: Option<ServerDescription>)
        requires
            old(self).wf(),
        ensures
            final(self).wf(),
            final(self).set_name == old(self).set_name,
            match removed {
                None => absent(old(self).servers@, host@) && *final(self) == *old(self),
                Some(d) => {
                    let k = slot_for(old(self).servers@, host@);
                    &&& holds_at(old(self).servers@, host@, k)
                    &&& d == old(self).servers@[k].1
                    &&& final(self).servers@ == old(self).servers@.remove(k)
                },
            },
    {
        let ghost before = self.servers@;
        let ghost name = self.set_name@;
        match self.find(host) {
            None => None,
            Some(k) => {
                proof {
                    let c = choose|c: int| holds_at(before, host@, c);
                    assert(c == k);
                }
                let entry = self.servers.remove(k);
                proof {
                    let after = self.servers@;
                    assert forall|a: int, b: int|
                        0 <= a < after.len() && 0 <= b < after.len() && is_active_primary(
                            (#[trigger] after[a]).1,
                            name,
                        ) && is_active_primary((#[trigger] after[b]).1, name) implies a == b by {
                        let a0 = if a < k { a } else { a + 1 };
                        let b0 = if b < k { b } else { b + 1 };
                        assert(after[a] == before[a0]);
                        assert(after[b] == before[b0]);
                    }
                    assert forall|a: int, b: int| 0 <= a < b < after.len() implies (#[trigger] after[a]).0@ != (
                    #[trigger] after[b]).0@ by {
                        let a0 = if a < k { a } else { a + 1 };
                        let b0 = if b < k { b } else { b + 1 };
                        assert(after[a] == before[a0]);
                        assert(after[b] == before[b0]);
                    }
                }
                self.ttype = self.compute_type();
                Some(entry.1)
            },
        }
    }

    /// Checks the invariant at run time, for callers that built or changed a
    /// topology by hand.
    pub fn is_consistent(&self) -> (b: bool)
        ensures
            b == self.wf(),
    {
        let ghost s = self.servers@;
        let ghost name = self.set_name@;
        let nameless = self.set_name.as_str().is_empty();
        let mut count: u8 = 0;
        let mut first: usize = 0;
        let mut i: usize = 0;
        while i < self.servers.len()
            invariant
                i <= self.servers.len(),
                s == self.servers@,
                name == self.set_name@,
                nameless == (name.len() == 0),
                count <= 2,
                count == 0 ==> forall|j: int| 0 <= j < i ==> !is_active_primary((#[trigger] s[j]).1, name),
                count == 1 ==> first < i && is_active_primary(s[first as int].1, name) && forall|j: int|
                    0 <= j < i && j != first ==> !is_active_primary((#[trigger] s[j]).1, name),
                count == 2 ==> exists|a: int, b: int|
                    0 <= a < b < i && is_active_primary((#[trigger] s[a]).1, name) && is_active_primary(
                        (#[trigger] s[b]).1,
                        name,
                    ),
            decreases self.servers.len() - i,
        {
            let d = &self.servers[i].1;
            let counts = d.stype == ServerType::RSPrimary && (nameless || d.set_name == self.set_name);
            proof {
                if d.set_name@ == name {
                    assert(d.set_name@ =~= name);
                }
                assert(counts == is_active_primary(s[i as int].1, name));
            }
            if counts {
                if count == 0 {
                    first = i;
                    count = 1;
                } else if count == 1 {
                    count = 2;
                    assert(is_active_primary(s[first as int].1, name) && is_active_primary(
                        s[i as int].1,
                        name,
                    ));
                }
            }
            i += 1;
        }
        proof {
            if count == 2 {
                let (a, b) = choose|a: int, b: int|
                    0 <= a < b < s.len() && is_active_primary((#[trigger] s[a]).1, name) && is_active_primary(
                        (#[trigger] s[b]).1,
                        name,
                    );
                assert(!primary_unique(s, name));
            } else {
                assert(primary_unique(s, name));
            }
        }
        count <= 1 && has_distinct_hosts(&self.servers) && self.ttype == self.compute_type()
    }

    /// Works out the overall state from the servers as they stand.
    pub fn compute_type(&self) -> (t: TopologyType)
        ensures
            t == overall_type(self.servers@, self.set_name@),
    {
        let nameless = self.set_name.as_str().is_empty();
        let mut primary = false;
        let mut named = false;
        let mut i: usize = 0;
        while i < self.servers.len()
            invariant
                i <= self.servers.len(),
                nameless == (self.set_name@.len() == 0),
                primary == has_primary(self.servers@.take(i as int), self.set_name@),
                named == any_named(self.servers@.take(i as int)),
            decreases self.servers.len() - i,
        {
            let ghost before = self.servers@.take(i as int);
            let ghost after = self.servers@.take(i + 1);
            let d = &self.servers[i].1;
            let counts = d.stype == ServerType::RSPrimary && (nameless || d.set_name == self.set_name);
            let has_name = !d.set_name.as_str().is_empty();
            proof {
                assert(after[i as int] == self.servers@[i as int]);
                assert forall|j: int| 0 <= j < i implies #[trigger] after[j] == before[j] by {}
                assert(counts == is_active_primary(*d, self.set_name@)) by {
                    if d.set_name@ == self.set_name@ {
                        assert(d.set_name@ =~= self.set_name@);
                    }
                }
                if has_primary(before, self.set_name@) {
                    let w = choose|w: int|
                        0 <= w < before.len() && is_active_primary((#[trigger] before[w]).1, self.set_name@);
                    assert(is_active_primary(after[w].1, self.set_name@));
                }
                if any_named(before) {
                    let w = choose|w: int| 0 <= w < before.len() && (#[trigger] before[w]).1.set_name@.len() > 0;
                    assert(after[w].1.set_name@.len() > 0);
                }
                if has_primary(after, self.set_name@) && !counts {
                    let w = choose|w: int|
                        0 <= w < after.len() && is_active_primary((#[trigger] after[w]).1, self.set_name@);
                    assert(is_active_primary(before[w].1, self.set_name@));
                }
                if any_named(after) && !has_name {
                    let w = choose|w: int| 0 <= w < after.len() && (#[trigger] after[w]).1.set_name@.len() > 0;
                    assert(before[w].1.set_name@.len() > 0);
                }
            }
            if counts {
                primary = true;
            }
            if has_name {
                named = true;
            }
            i += 1;
        }
        proof {
            assert(self.servers@.take(i as int) =~= self.servers@);
        }
        if primary {
            TopologyType::ReplicaSetWithPrimary
        } else if named {
            TopologyType::ReplicaSetNoPrimary
        } else {
            TopologyType::Unknown
        }
    }
}

} // verus!
