//! The legacy direct connection to a replica set: one primary, found from a
//! seed list, serves as the target of every send and receive.
//!
//! The functions here make the decisions; the caller owns the sockets. It
//! probes the hosts it is told to probe, hands the responses back, and carries
//! out the transmissions that [`ReplicaSetConnection::send`] and
//! [`ReplicaSetConnection::recv`] hand it.

use vstd::prelude::*;
use vstd::string::*;
use crate::error::{Error, ErrorKind, ErrorView};
use crate::host::{parse_host, parsed_host, views, Host, HostView};
use crate::response::{field_of, found_view, item_view, lookup, Field, FieldView};
use crate::server::role_of;
use crate::topology::{all_passed_over, copy_hosts, decides_at, is_usable, seed_candidates, seed_fails_with};

verus! {

/// The role buckets of the legacy connection.
#[allow(non_camel_case_types)]
#[derive(Clone, Copy, Debug, PartialEq, Eq, Structural)]
pub enum ServerType {
    PRIMARY,
    SECONDARY,
    OTHER,
}

/// The known hosts of a set, one bucket per role, each in discovery order.
#[derive(Clone, Debug)]
pub struct HostBuckets {
    pub primary: Vec<Host>,
    pub secondary: Vec<Host>,
    pub other: Vec<Host>,
}

/// A payload on its way to the designated send target.
#[derive(Debug)]
pub struct Transmission {
    pub target: Host,
    pub payload: Vec<u8>,
}

/// A connection to a replica set through its primary.
///
/// `hosts` is `None` until a reconnect has classified the members. `send_to`
/// and `recv_from` are the target slots: `None` means that no target is
/// designated.
#[derive(Debug)]
pub struct ReplicaSetConnection {
    pub seed: Vec<Host>,
    pub hosts: Option<HostBuckets>,
    pub recv_from: Option<Host>,
    pub send_to: Option<Host>,
}

/// The view of an optional host.
pub open spec fn slot_view(slot: Option<Host>) -> Option<HostView> {
    match slot {
        Some(h) => Some(h@),
        None => None,
    }
}

/// Whether an array element names a host: it is a string, and the string is an
/// address.
pub open spec fn item_is_host(item: Option<Seq<char>>) -> bool {
    item.is_some() && parsed_host(item.unwrap()).is_some()
}

/// Whether `k` is the position of the first element that names no host.
pub open spec fn first_bad_item(items: Seq<Option<Seq<char>>>, k: int) -> bool {
    &&& 0 <= k < items.len()
    &&& !item_is_host(items[k])
    &&& forall|j: int| 0 <= j < k ==> item_is_host(#[trigger] items[j])
}

/// The kind of error an element that names no host gives: one that is no
/// string makes the response malformed, one that is no address is a format
/// error.
pub open spec fn bad_item_kind(item: Option<Seq<char>>) -> ErrorKind {
    if item.is_none() {
        ErrorKind::MalformedResponse
    } else {
        ErrorKind::Format
    }
}

/// The name of the error an element that names no host gives.
pub open spec fn bad_item_name(item: Option<Seq<char>>) -> Seq<char> {
    if item.is_none() {
        "isMaster runcommand response in unexpected format"@
    } else {
        "error parsing hosts"@
    }
}

/// Whether an array is turned down with an error of kind `kind` and name
/// `name`: some element names no host, and the first such element gives that
/// kind and that name.
pub open spec fn rejects_list(items: Seq<Option<Seq<char>>>, kind: ErrorKind, name: Seq<char>) -> bool {
    exists|k: int|
        #[trigger] first_bad_item(items, k) && kind == bad_item_kind(items[k]) && name == bad_item_name(
            items[k],
        )
}

/// The hosts that an array of addresses names, in order.
pub open spec fn listed_hosts(items: Seq<Option<Seq<char>>>) -> Seq<HostView> {
    Seq::new(items.len(), |i: int| parsed_host(items[i].unwrap()).unwrap())
}

/// The boolean a field holds, if it is present and a boolean.
pub open spec fn flag_of(field: Option<FieldView>) -> Option<bool> {
    match field {
        Some(FieldView::Flag(b)) => Some(b),
        _ => None,
    }
}

/// The text a field holds: its string, or nothing where it is absent. A
/// field of another type holds no text.
pub open spec fn text_of(field: Option<FieldView>) -> Option<Seq<char>> {
    match field {
        None => Some(Seq::empty()),
        Some(FieldView::Text(t)) => Some(t),
        _ => None,
    }
}

/// The number of elements a field lists: none where it is absent. A field
/// that is no array lists nothing.
pub open spec fn count_of(field: Option<FieldView>) -> Option<int> {
    match field {
        None => Some(0),
        Some(FieldView::List(items)) => Some(items.len() as int),
        _ => None,
    }
}

/// The bucket of a role: primaries and secondaries of a replica set have
/// their own, every other role is `OTHER`.
pub open spec fn bucket_of(role: crate::server::ServerType) -> ServerType {
    match role {
        crate::server::ServerType::RSPrimary => ServerType::PRIMARY,
        crate::server::ServerType::RSSecondary => ServerType::SECONDARY,
        _ => ServerType::OTHER,
    }
}

/// The bucket a response puts its sender in: that of the role which the
/// role table gives for its fields.
///
/// `ismaster` must be a boolean; if it is false, `secondary` must be one too.
/// `setName` and `msg` must be strings and `hosts` an array, where they are
/// present. Otherwise the response classifies nothing.
pub open spec fn classified(
    ismaster: Option<FieldView>,
    secondary: Option<FieldView>,
    set_name: Option<FieldView>,
    msg: Option<FieldView>,
    hosts: Option<FieldView>,
) -> Option<ServerType> {
    if flag_of(ismaster).is_none() || text_of(set_name).is_none() || text_of(msg).is_none() || count_of(
        hosts,
    ).is_none() {
        None
    } else if !flag_of(ismaster).unwrap() && flag_of(secondary).is_none() {
        None
    } else {
        Some(
            bucket_of(
                role_of(
                    text_of(msg).unwrap(),
                    count_of(hosts).unwrap(),
                    text_of(set_name).unwrap(),
                    flag_of(ismaster).unwrap(),
                    flag_of(secondary) == Some(true),
                    false,
                    false,
                ),
            ),
        )
    }
}

/// Whether `r` is what reading the member list out of `field` gives.
///
/// An absent field is an empty list. An array whose elements all name hosts is
/// the list of those hosts. Any other array is turned down by its first
/// element that names none, and a field of any other type is a malformed
/// response.
pub open spec fn reads_hosts(field: Option<FieldView>, r: Result<Vec<Host>, Error>) -> bool {
    match field {
        None => r.is_ok() && r.unwrap()@.len() == 0,
        Some(FieldView::List(items)) => match r {
            Ok(list) => {
                &&& forall|i: int| 0 <= i < items.len() ==> item_is_host(#[trigger] items[i])
                &&& views(list@) == listed_hosts(items)
            },
            Err(e) => rejects_list(items, e@.kind, e@.name),
        },
        Some(_) => {
            &&& r.is_err()
            &&& r.unwrap_err()@.kind == ErrorKind::MalformedResponse
            &&& r.unwrap_err()@.name == "isMaster runcommand response in unexpected format"@
        },
    }
}

/// Whether `r` is what classifying a responder by its fields gives: the
/// bucket that [`classified`] names, or a malformed-response error exactly
/// when it names none.
pub open spec fn reads_server_type(
    ismaster: Option<FieldView>,
    secondary: Option<FieldView>,
    set_name: Option<FieldView>,
    msg: Option<FieldView>,
    hosts: Option<FieldView>,
    r: Result<ServerType, Error>,
) -> bool {
    match r {
        Ok(t) => classified(ismaster, secondary, set_name, msg, hosts) == Some(t),
        Err(e) => {
            &&& classified(ismaster, secondary, set_name, msg, hosts).is_none()
            &&& e@.kind == ErrorKind::MalformedResponse
            &&& e@.name == "isMaster runcommand response in unexpected format"@
        },
    }
}

/// Whether `list` is the member list of the seed answer that decides, where
/// that answer names hosts.
pub open spec fn seed_gives(responses: Seq<Result<Vec<Host>, Error>>, list: Seq<HostView>) -> bool {
    exists|i: int|
        #[trigger] decides_at(responses, i) && is_usable(responses[i]) && list == views(responses[i].unwrap()@)
}

/// Whether no candidate failed to classify.
pub open spec fn none_failed(c: Seq<(Host, Result<ServerType, Error>)>) -> bool {
    forall|i: int| 0 <= i < c.len() ==> (#[trigger] c[i]).1.is_ok()
}

/// Whether `i` is the position of the first candidate that failed to
/// classify.
pub open spec fn first_failure_at(c: Seq<(Host, Result<ServerType, Error>)>, i: int) -> bool {
    &&& 0 <= i < c.len()
    &&& c[i].1.is_err()
    &&& forall|j: int| 0 <= j < i ==> (#[trigger] c[j]).1.is_ok()
}

/// Whether `e` is the error of the first candidate that failed to classify.
pub open spec fn fails_with(c: Seq<(Host, Result<ServerType, Error>)>, e: ErrorView) -> bool {
    exists|i: int| #[trigger] first_failure_at(c, i) && e == c[i].1.unwrap_err()@
}

/// The hosts that were classified as `t`, in order.
pub open spec fn hosts_of_type(c: Seq<(Host, Result<ServerType, Error>)>, t: ServerType) -> Seq<HostView>
    decreases c.len(),
{
    if c.len() == 0 {
        Seq::empty()
    } else {
        let rest = hosts_of_type(c.drop_last(), t);
        if c.last().1.is_ok() && c.last().1.unwrap() == t {
            rest.push(c.last().0@)
        } else {
            rest
        }
    }
}

/// The messages of the failures among `outcomes`, in order, each on a line of
/// its own behind a tab.
pub open spec fn failure_text(outcomes: Seq<Result<(), Error>>) -> Seq<char>
    decreases outcomes.len(),
{
    if outcomes.len() == 0 {
        Seq::empty()
    } else {
        let rest = failure_text(outcomes.drop_last());
        match outcomes.last() {
            Ok(_) => rest,
            Err(e) => rest + "\n\t"@ + e@.text(),
        }
    }
}

/// Whether no outcome is a failure.
pub open spec fn all_ok(outcomes: Seq<Result<(), Error>>) -> bool {
    forall|i: int| 0 <= i < outcomes.len() ==> (#[trigger] outcomes[i]).is_ok()
}

/// Whether `part` occurs in `whole` as a run of consecutive characters.
pub open spec fn occurs_in(part: Seq<char>, whole: Seq<char>) -> bool {
    exists|k: int|
        0 <= k && k + part.len() <= whole.len() && #[trigger] whole.subrange(k, k + part.len()) == part
}

/// The combined text of a teardown holds the message of every host that
/// failed.
pub proof fn lemma_failure_text_holds_each_message(outcomes: Seq<Result<(), Error>>, i: int)
    requires
        0 <= i < outcomes.len(),
        outcomes[i].is_err(),
    ensures
        occurs_in(outcomes[i].unwrap_err()@.text(), failure_text(outcomes)),
    decreases outcomes.len(),
{
    let whole = failure_text(outcomes);
    let rest = failure_text(outcomes.drop_last());
    let part = outcomes[i].unwrap_err()@.text();
    if i == outcomes.len() - 1 {
        let lead = rest + "\n\t"@;
        assert(whole == lead + part);
        assert(whole.subrange(lead.len() as int, (lead.len() + part.len()) as int) =~= part);
    } else {
        lemma_failure_text_holds_each_message(outcomes.drop_last(), i);
        let k = choose|k: int|
            0 <= k && k + part.len() <= rest.len() && #[trigger] rest.subrange(k, k + part.len()) == part;
        assert(whole.subrange(0, rest.len() as int) =~= rest);
        assert(whole.subrange(k, k + part.len()) =~= rest.subrange(k, k + part.len()));
    }
}

/// Hosts that disconnected cleanly add nothing to the combined text: with
/// such a host last, the text is that of the hosts before it, and where no
/// host failed it is empty.
pub proof fn lemma_failure_text_skips_successes(outcomes: Seq<Result<(), Error>>)
    ensures
        all_ok(outcomes) ==> failure_text(outcomes).len() == 0,
        outcomes.len() > 0 && outcomes.last().is_ok() ==> failure_text(outcomes) == failure_text(
            outcomes.drop_last(),
        ),
    decreases outcomes.len(),
{
    if outcomes.len() > 0 {
        lemma_failure_text_skips_successes(outcomes.drop_last());
        if all_ok(outcomes) {
            assert(outcomes.last().is_ok());
            assert forall|j: int| 0 <= j < outcomes.drop_last().len() implies (
            #[trigger] outcomes.drop_last()[j]).is_ok() by {
                assert(outcomes[j].is_ok());
            }
        }
    }
}

/// Reads the member list out of a looked-up `hosts` field.
///
/// An absent field is an empty list. A present one must be an array of
/// addresses: a field of another type is a malformed response, and so is the
/// first element that is no string; the first string that is no address is a
/// format error. Nothing is returned unless every element is a host.
pub fn hosts_from_field(field: Option<Field>) -> (r: Result<Vec<Host>, Error>)
    ensures
        reads_hosts(found_view(field), r),
{
    match field {
        None => Ok(Vec::new()),
        Some(Field::List(entries)) => {
            let ghost items = entries@.map_values(|it: Option<String>| item_view(it));
            assert(found_view(field) == Some(FieldView::List(items)));
            let mut list: Vec<Host> = Vec::new();
            let mut i: usize = 0;
            while i < entries.len()
                invariant
                    i <= entries.len(),
                    found_view(field) == Some(FieldView::List(items)),
                    items == entries@.map_values(|it: Option<String>| item_view(it)),
                    list@.len() == i,
                    forall|j: int| 0 <= j < i ==> item_is_host(#[trigger] items[j]),
                    forall|j: int|
                        0 <= j < i ==> (#[trigger] list@[j])@ == parsed_host(
                            items[j].unwrap(),
                        ).unwrap(),
                decreases entries.len() - i,
            {
                match &entries[i] {
                    None => {
                        let e = malformed("hosts field: expected a list of host strings");
                        assert(first_bad_item(items, i as int));
                        assert(rejects_list(items, e@.kind, e@.name));
                        return Err(e);
                    },
                    Some(text) => match parse_host(text.as_str()) {
                        Ok(h) => {
                            list.push(h);
                        },
                        Err(e) => {
                            let mut detail = "-->\n".to_owned();
                            detail.append(e.to_text().as_str());
                            let wrapped = Error::new(
                                ErrorKind::Format,
                                "conn_replica::connect",
                                "error parsing hosts",
                                detail,
                            );
                            assert(first_bad_item(items, i as int));
                            assert(rejects_list(items, wrapped@.kind, wrapped@.name));
                            return Err(wrapped);
                        },
                    },
                }
                i += 1;
            }
            assert(views(list@) =~= listed_hosts(items));
            Ok(list)
        },
        Some(_) => Err(
            Error::new(
                ErrorKind::MalformedResponse,
                "conn_replica::connect",
                "isMaster runcommand response in unexpected format",
                "hosts field: expected an array of hosts".to_owned(),
            ),
        ),
    }
}

/// Reads the member list that a probe response reports under `hosts`: what
/// [`hosts_from_field`] makes of that field.
pub fn hosts_in(doc: &bson::Document) -> (r: Result<Vec<Host>, Error>)
    ensures
        reads_hosts(field_of(*doc, "hosts"@), r),
{
    hosts_from_field(lookup(doc, "hosts"))
}

/// Classifies a responder from its looked-up `ismaster`, `secondary`,
/// `setName`, `msg` and `hosts` fields: the bucket that [`classified`] names,
/// or a malformed-response error exactly when it names none.
pub fn server_type_from_fields(
    ismaster: Option<Field>,
    secondary: Option<Field>,
    set_name: Option<Field>,
    msg: Option<Field>,
    hosts: Option<Field>,
) -> (r: Result<ServerType, Error>)
    ensures
        reads_server_type(
            found_view(ismaster),
            found_view(secondary),
            found_view(set_name),
            found_view(msg),
            found_view(hosts),
            r,
        ),
{
    let is_master = match ismaster {
        None => { return Err(malformed("no \"ismaster\" field")); },
        Some(Field::Flag(b)) => b,
        Some(_) => { return Err(malformed("\"ismaster\" field non-boolean")); },
    };
    let named = match set_name {
        None => false,
        Some(Field::Text(t)) => !t.as_str().is_empty(),
        Some(_) => { return Err(malformed("\"setName\" field non-string")); },
    };
    let routed = match msg {
        None => false,
        Some(Field::Text(t)) => !t.as_str().is_empty(),
        Some(_) => { return Err(malformed("\"msg\" field non-string")); },
    };
    match hosts {
        None => {},
        Some(Field::List(_)) => {},
        Some(_) => { return Err(malformed("\"hosts\" field non-array")); },
    }
    if is_master {
        if named && !routed {
            Ok(ServerType::PRIMARY)
        } else {
            Ok(ServerType::OTHER)
        }
    } else {
        let is_secondary = match secondary {
            None => { return Err(malformed("no \"secondary\" field")); },
            Some(Field::Flag(b)) => b,
            Some(_) => { return Err(malformed("\"secondary\" field non-boolean")); },
        };
        if named && !routed && is_secondary {
            Ok(ServerType::SECONDARY)
        } else {
            Ok(ServerType::OTHER)
        }
    }
}

/// Classifies the sender of a probe response by the role table, from its
/// `ismaster`, `secondary`, `setName`, `msg` and `hosts` fields.
pub fn server_type_in(doc: &bson::Document) -> (r: Result<ServerType, Error>)
    ensures
        reads_server_type(
            field_of(*doc, "ismaster"@),
            field_of(*doc, "secondary"@),
            field_of(*doc, "setName"@),
            field_of(*doc, "msg"@),
            field_of(*doc, "hosts"@),
            r,
        ),
{
    let ismaster = lookup(doc, "ismaster");
    let secondary = lookup(doc, "secondary");
    let set_name = lookup(doc, "setName");
    let msg = lookup(doc, "msg");
    let hosts = lookup(doc, "hosts");
    server_type_from_fields(ismaster, secondary, set_name, msg, hosts)
}

impl ReplicaSetConnection {
    /// Whether discovery has left exactly one primary on record.
    pub open spec fn has_single_primary(&self) -> bool {
        self.hosts.is_some() && self.hosts.unwrap().primary@.len() == 1
    }

    /// Every host on record, bucket after bucket: primaries, then secondaries,
    /// then the others.
    pub open spec fn known_hosts(&self) -> Seq<HostView> {
        match self.hosts {
            None => Seq::empty(),
            Some(b) => views(b.primary@) + views(b.secondary@) + views(b.other@),
        }
    }

    /// A connection over the given seed addresses: nothing discovered yet, no
    /// target designated.
    pub fn new(seed_pairs: Vec<(String, u64)>) -> (c: ReplicaSetConnection)
        ensures
            c.seed@.len() == seed_pairs@.len(),
            forall|i: int|
                0 <= i < seed_pairs@.len() ==> (#[trigger] c.seed@[i])@ == (HostView {
                    name: seed_pairs@[i].0@,
                    port: seed_pairs@[i].1,
                }),
            c.hosts.is_none(),
            c.recv_from.is_none(),
            c.send_to.is_none(),
    {
        let mut seed: Vec<Host> = Vec::new();
        let mut i: usize = 0;
        while i < seed_pairs.len()
            invariant
                i <= seed_pairs.len(),
                seed@.len() == i,
                forall|j: int|
                    0 <= j < i ==> (#[trigger] seed@[j])@ == (HostView {
                        name: seed_pairs@[j].0@,
                        port: seed_pairs@[j].1,
                    }),
            decreases seed_pairs.len() - i,
        {
            let pair = &seed_pairs[i];
            seed.push(Host::new(pair.0.clone(), pair.1));
            i += 1;
        }
        ReplicaSetConnection { seed, hosts: None, recv_from: None, send_to: None }
    }

    /// Whether a first connect may go ahead: it may unless hosts are already
    /// on record, which is a usage error.
    pub fn connect(&self) -> (r: Result<(), Error>)
        ensures
            r.is_ok() == self.hosts.is_none(),
            r.is_err() ==> r.unwrap_err()@.kind == ErrorKind::Usage && r.unwrap_err()@.name
                == "already connected"@,
    {
        if self.hosts.is_some() {
            Err(Error::new(ErrorKind::Usage, "conn_replica::connect", "already connected", String::new()))
        } else {
            Ok(())
        }
    }

    /// Opens a reconnect with the seeds' answers, taken in seed order.
    ///
    /// Any earlier record and target designation is dropped. An unreachable
    /// seed and one that names no host are passed over; the first other
    /// answer decides. If it names hosts, they are the candidates returned.
    /// If it is a failure, a malformed `hosts` field or an address that does
    /// not parse, the reconnect ends with that error. Where every seed was
    /// passed over it ends with the "no hosts" discovery error.
    pub fn seed_stage(&mut self, responses: &Vec<Result<Vec<Host>, Error>>) -> (r: Result<Vec<Host>, Error>)
        ensures
            final(self).seed == old(self).seed,
            final(self).hosts.is_none(),
            final(self).send_to.is_none(),
            final(self).recv_from.is_none(),
            match r {
                Ok(list) => seed_gives(responses@, views(list@)),
                Err(e) => if all_passed_over(responses@) {
                    e@.kind == ErrorKind::Discovery && e@.name == "no hosts"@
                } else {
                    seed_fails_with(responses@, e@)
                },
            },
    {
        self.hosts = None;
        self.send_to = None;
        self.recv_from = None;
        match seed_candidates(responses) {
            Err(e) => Err(e),
            Ok(i) => {
                let mut list: Vec<Host> = Vec::new();
                match &responses[i] {
                    Ok(hosts) => {
                        copy_hosts(&mut list, hosts);
                        proof {
                            assert(views(list@) =~= views(hosts@));
                            assert(decides_at(responses@, i as int));
                            assert(seed_gives(responses@, views(list@)));
                        }
                    },
                    Err(_) => {},
                }
                Ok(list)
            },
        }
    }

    /// Takes the outcome of classifying each candidate and, where discovery
    /// succeeded, records the members and names the primary to connect to.
    ///
    /// Any earlier record and target designation is dropped first. Discovery
    /// succeeds when every candidate was classified and exactly one of them is
    /// a primary: the members are then on record by role, in the order given.
    /// Otherwise nothing is kept. The error is that of the first candidate
    /// that failed to classify, or else the "no primary" discovery error with
    /// no primary and the "multiple primaries" one with several.
    pub fn reconnect(&mut self, classified: Vec<(Host, Result<ServerType, Error>)>) -> (r: Result<
        Host,
        Error,
    >)
        ensures
            final(self).seed == old(self).seed,
            final(self).send_to.is_none(),
            final(self).recv_from.is_none(),
            match r {
                Ok(h) => {
                    &&& none_failed(classified@)
                    &&& hosts_of_type(classified@, ServerType::PRIMARY).len() == 1
                    &&& h@ == hosts_of_type(classified@, ServerType::PRIMARY)[0]
                    &&& final(self).hosts.is_some()
                    &&& views(final(self).hosts.unwrap().primary@) == hosts_of_type(
                        classified@,
                        ServerType::PRIMARY,
                    )
                    &&& views(final(self).hosts.unwrap().secondary@) == hosts_of_type(
                        classified@,
                        ServerType::SECONDARY,
                    )
                    &&& views(final(self).hosts.unwrap().other@) == hosts_of_type(
                        classified@,
                        ServerType::OTHER,
                    )
                },
                Err(e) => {
                    &&& final(self).hosts.is_none()
                    &&& if none_failed(classified@) {
                        &&& hosts_of_type(classified@, ServerType::PRIMARY).len() != 1
                        &&& e@.kind == ErrorKind::Discovery
                        &&& e@.name == if hosts_of_type(classified@, ServerType::PRIMARY).len() == 0 {
                            "no primary"@
                        } else {
                            "multiple primaries"@
                        }
                    } else {
                        fails_with(classified@, e@)
                    }
                },
            },
    {
        self.hosts = None;
        self.send_to = None;
        self.recv_from = None;
        let mut primary: Vec<Host> = Vec::new();
        let mut secondary: Vec<Host> = Vec::new();
        let mut other: Vec<Host> = Vec::new();
        let mut i: usize = 0;
        while i < classified.len()
            invariant
                i <= classified.len(),
                self.seed == old(self).seed,
                self.hosts.is_none(),
                self.send_to.is_none(),
                self.recv_from.is_none(),
                forall|j: int| 0 <= j < i ==> (#[trigger] classified@[j]).1.is_ok(),
                views(primary@) == hosts_of_type(classified@.take(i as int), ServerType::PRIMARY),
                views(secondary@) == hosts_of_type(classified@.take(i as int), ServerType::SECONDARY),
                views(other@) == hosts_of_type(classified@.take(i as int), ServerType::OTHER),
            decreases classified.len() - i,
        {
            let entry = &classified[i];
            let h = entry.0.duplicate();
            let ghost before_p = primary@;
            let ghost before_s = secondary@;
            let ghost before_o = other@;
            match &entry.1 {
                Err(e) => {
                    let failure = e.duplicate();
                    proof {
                        assert(first_failure_at(classified@, i as int));
                        assert(fails_with(classified@, failure@));
                        assert(!none_failed(classified@));
                    }
                    return Err(failure);
                },
                Ok(ServerType::PRIMARY) => primary.push(h),
                Ok(ServerType::SECONDARY) => secondary.push(h),
                Ok(ServerType::OTHER) => other.push(h),
            }
            proof {
                assert(classified@.take(i + 1).drop_last() =~= classified@.take(i as int));
                assert(classified@.take(i + 1).last() == classified@[i as int]);
                assert(views(before_p.push(h)) =~= views(before_p).push(h@));
                assert(views(before_s.push(h)) =~= views(before_s).push(h@));
                assert(views(before_o.push(h)) =~= views(before_o).push(h@));
            }
            i += 1;
        }
        proof {
            assert(classified@.take(i as int) =~= classified@);
            assert(none_failed(classified@));
        }
        if primary.len() == 1 {
            let chosen = primary[0].duplicate();
            self.hosts = Some(HostBuckets { primary, secondary, other });
            Ok(chosen)
        } else if primary.len() < 1 {
            Err(
                Error::new(
                    ErrorKind::Discovery,
                    "conn_replica::connect",
                    "no primary",
                    "could not find primary".to_owned(),
                ),
            )
        } else {
            Err(
                Error::new(
                    ErrorKind::Discovery,
                    "conn_replica::connect",
                    "multiple primaries",
                    "replica set cannot contain multiple primaries".to_owned(),
                ),
            )
        }
    }

    /// Takes note of how connecting to the primary went.
    ///
    /// A failure is handed back as it is and leaves no target. After a
    /// success the one primary on record becomes the target of both sending
    /// and receiving; without exactly one primary on record there is nothing
    /// to designate, which is a usage error.
    pub fn primary_connected(&mut self, outcome: Result<(), Error>) -> (r: Result<(), Error>)
        ensures
            final(self).seed == old(self).seed,
            final(self).hosts == old(self).hosts,
            match outcome {
                Err(e) => r == outcome && final(self).send_to.is_none() && final(self).recv_from.is_none(),
                Ok(_) => if old(self).has_single_primary() {
                    &&& r.is_ok()
                    &&& slot_view(final(self).send_to) == Some(old(self).hosts.unwrap().primary@[0]@)
                    &&& slot_view(final(self).recv_from) == Some(old(self).hosts.unwrap().primary@[0]@)
                } else {
                    &&& r.is_err()
                    &&& r.unwrap_err()@.kind == ErrorKind::Usage
                    &&& r.unwrap_err()@.name == "no primary"@
                    &&& final(self).send_to.is_none()
                    &&& final(self).recv_from.is_none()
                },
            },
    {
        self.send_to = None;
        self.recv_from = None;
        match outcome {
            Err(e) => Err(e),
            Ok(_) => {
                match &self.hosts {
                    Some(b) => {
                        if b.primary.len() == 1 {
                            let to = b.primary[0].duplicate();
                            let from = b.primary[0].duplicate();
                            self.send_to = Some(to);
                            self.recv_from = Some(from);
                            return Ok(());
                        }
                    },
                    None => {},
                }
                Err(
                    Error::new(
                        ErrorKind::Usage,
                        "conn_replica::connect",
                        "no primary",
                        "no single primary on record to designate".to_owned(),
                    ),
                )
            },
        }
    }

    /// Prepares sending `data`: names the send target and hands the payload
    /// over untouched. Without a designated target this is the no-target
    /// usage error. The target slot is the same before and after.
    pub fn send(&self, data: Vec<u8>) -> (r: Result<Transmission, Error>)
        ensures
            match r {
                Ok(t) => {
                    &&& self.send_to.is_some()
                    &&& t.target@ == self.send_to.unwrap()@
                    &&& t.payload == data
                },
                Err(e) => {
                    &&& self.send_to.is_none()
                    &&& e@.kind == ErrorKind::Usage
                    &&& e@.name == "no send_to server"@
                },
            },
    {
        match &self.send_to {
            None => Err(
                Error::new(
                    ErrorKind::Usage,
                    "conn_replica::send",
                    "no send_to server",
                    "no server specified to which to send".to_owned(),
                ),
            ),
            Some(server) => Ok(Transmission { target: server.duplicate(), payload: data }),
        }
    }

    /// Prepares receiving: names the receive target, or fails with the
    /// no-target usage error where none is designated. The target slot is the
    /// same before and after.
    pub fn recv(&self) -> (r: Result<Host, Error>)
        ensures
            match r {
                Ok(h) => self.recv_from.is_some() && h@ == self.recv_from.unwrap()@,
                Err(e) => {
                    &&& self.recv_from.is_none()
                    &&& e@.kind == ErrorKind::Usage
                    &&& e@.name == "no recv_from server"@
                },
            },
    {
        match &self.recv_from {
            None => Err(
                Error::new(
                    ErrorKind::Usage,
                    "conn_replica::recv",
                    "no recv_from server",
                    "no server specified from which to recv_from".to_owned(),
                ),
            ),
            Some(server) => Ok(server.duplicate()),
        }
    }

    /// Forgets the set: empties the record of hosts and both target slots, and
    /// returns every host that was on record, bucket after bucket, for the
    /// caller to disconnect. [`disconnect_result`] combines what comes of it.
    pub fn disconnect(&mut self) -> (targets: Vec<Host>)
        ensures
            views(targets@) == old(self).known_hosts(),
            final(self).seed == old(self).seed,
            final(self).hosts.is_none(),
            final(self).send_to.is_none(),
            final(self).recv_from.is_none(),
    {
        self.send_to = None;
        self.recv_from = None;
        match self.hosts.take() {
            None => Vec::new(),
            Some(b) => {
                let mut targets = b.primary;
                let mut secondary = b.secondary;
                let mut other = b.other;
                let ghost p = targets@;
                let ghost s = secondary@;
                let ghost o = other@;
                targets.append(&mut secondary);
                targets.append(&mut other);
                proof {
                    assert(views(p + s + o) =~= views(p) + views(s) + views(o));
                }
                targets
            },
        }
    }
}

/// The error for a response that lacks a field or holds one of the wrong type.
fn malformed(detail: &str) -> (e: Error)
    ensures
        e@ == (ErrorView {
            kind: ErrorKind::MalformedResponse,
            site: "conn_replica::connect"@,
            name: "isMaster runcommand response in unexpected format"@,
            detail: detail@,
        }),
{
    Error::new(
        ErrorKind::MalformedResponse,
        "conn_replica::connect",
        "isMaster runcommand response in unexpected format",
        detail.to_owned(),
    )
}

/// Combines the outcomes of disconnecting each host of a set.
///
/// Succeeds exactly when every host did. Otherwise the one error returned
/// carries the message of every failure, in order, and of nothing else.
pub fn disconnect_result(outcomes: &Vec<Result<(), Error>>) -> (r: Result<(), Error>)
    ensures
        match r {
            Ok(_) => all_ok(outcomes@),
            Err(e) => {
                &&& !all_ok(outcomes@)
                &&& e@ == (ErrorView {
                    kind: ErrorKind::Disconnect,
                    site: "conn_replica::disconnect"@,
                    name: "error disconnecting"@,
                    detail: failure_text(outcomes@),
                })
            },
        },
{
    let mut err = String::new();
    let mut failed = false;
    let mut i: usize = 0;
    while i < outcomes.len()
        invariant
            i <= outcomes.len(),
            err@ == failure_text(outcomes@.take(i as int)),
            failed == !all_ok(outcomes@.take(i as int)),
        decreases outcomes.len() - i,
    {
        proof {
            assert(outcomes@.take(i + 1).drop_last() =~= outcomes@.take(i as int));
            assert(outcomes@.take(i + 1).last() == outcomes@[i as int]);
        }
        match &outcomes[i] {
            Ok(_) => {
                proof {
                    if all_ok(outcomes@.take(i as int)) {
                        assert forall|j: int| 0 <= j < i + 1 implies (#[trigger] outcomes@.take(
                            i + 1,
                        )[j]).is_ok() by {
                            if j < i {
                                assert(outcomes@.take(i as int)[j].is_ok());
                            }
                        }
                    } else {
                        let j = choose|j: int|
                            0 <= j < i && !(#[trigger] outcomes@.take(i as int)[j]).is_ok();
                        assert(!outcomes@.take(i + 1)[j].is_ok());
                    }
                }
            },
            Err(e) => {
                err.append("\n\t");
                err.append(e.to_text().as_str());
                failed = true;
                proof {
                    assert(!outcomes@.take(i + 1)[i as int].is_ok());
                }
            },
        }
        i += 1;
    }
    proof {
        assert(outcomes@.take(i as int) =~= outcomes@);
    }
    if failed {
        Err(Error::new(ErrorKind::Disconnect, "conn_replica::disconnect", "error disconnecting", err))
    } else {
        Ok(())
    }
}

} // verus!
