//! Server addresses and their textual form `address[:port]`.

use vstd::prelude::*;
use vstd::string::*;
use crate::error::{Error, ErrorKind};

verus! {

/// The port assumed when an address names none.
pub const DEFAULT_PORT: u64 = 27017;

/// The address of one server process.
#[derive(Clone, Debug, PartialEq, Eq)]
pub struct Host {
    pub host_name: String,
    pub port: u64,
}

/// The mathematical content of a [`Host`]. Two hosts are the same host exactly
/// when their views are equal.
pub struct HostView {
    pub name: Seq<char>,
    pub port: u64,
}

impl View for Host {
    type V = HostView;

    open spec fn view(&self) -> HostView {
        HostView { name: self.host_name@, port: self.port }
    }
}

/// The views of a list of hosts, in order.
pub open spec fn views(hosts: Seq<Host>) -> Seq<HostView> {
    hosts.map_values(|h: Host| h@)
}

/// Whether `c` is one of the ten decimal digits.
pub open spec fn is_digit(c: char) -> bool {
    '0' as u32 <= c as u32 <= '9' as u32
}

/// The number a digit stands for.
pub open spec fn digit_value(c: char) -> nat {
    if is_digit(c) {
        (c as u32 - '0' as u32) as nat
    } else {
        0
    }
}

/// The number that a run of decimal digits denotes.
pub open spec fn decimal_value(s: Seq<char>) -> nat
    decreases s.len(),
{
    if s.len() == 0 {
        0
    } else {
        10 * decimal_value(s.drop_last()) + digit_value(s.last())
    }
}

/// Whether `s` is an acceptable port: one or more decimal digits whose value
/// fits the port's integer type.
pub open spec fn is_port_text(s: Seq<char>) -> bool {
    &&& s.len() > 0
    &&& forall|i: int| 0 <= i < s.len() ==> is_digit(#[trigger] s[i])
    &&& decimal_value(s) <= u64::MAX
}

/// Whether `i` is the position of the first colon of `s`.
pub open spec fn first_colon_at(s: Seq<char>, i: int) -> bool {
    &&& 0 <= i < s.len()
    &&& s[i] == ':'
    &&& forall|j: int| 0 <= j < i ==> s[j] != ':'
}

/// Whether `s` holds no colon at all.
pub open spec fn has_no_colon(s: Seq<char>) -> bool {
    forall|j: int| 0 <= j < s.len() ==> s[j] != ':'
}

/// What an address text denotes. Without a colon the whole text is the address
/// and the port is the default. With one, the text before the first colon is
/// the address and the text after it must be a port; otherwise the text denotes
/// nothing.
pub open spec fn parsed_host(s: Seq<char>) -> Option<HostView> {
    if has_no_colon(s) {
        Some(HostView { name: s, port: DEFAULT_PORT })
    } else {
        let i = choose|i: int| first_colon_at(s, i);
        let digits = s.subrange(i + 1, s.len() as int);
        if is_port_text(digits) {
            Some(HostView { name: s.subrange(0, i), port: decimal_value(digits) as u64 })
        } else {
            None
        }
    }
}

/// A prefix of a digit run never denotes more than the whole run.
pub proof fn lemma_decimal_prefix(s: Seq<char>, k: int)
    requires
        0 <= k <= s.len(),
    ensures
        decimal_value(s.take(k)) <= decimal_value(s),
    decreases s.len() - k,
{
    if k == s.len() {
        assert(s.take(k) =~= s);
    } else {
        assert(s.take(k + 1).drop_last() =~= s.take(k));
        lemma_decimal_prefix(s, k + 1);
    }
}

/// Reads a port number: `Some` of the value exactly when the text is a port.
pub fn parse_port(digits: &str) -> (r: Option<u64>)
    ensures
        r.is_some() == is_port_text(digits@),
        r.is_some() ==> r.unwrap() == decimal_value(digits@),
{
    let n = digits.unicode_len();
    if n == 0 {
        return None;
    }
    let mut acc: u64 = 0;
    let mut k: usize = 0;
    while k < n
        invariant
            k <= n,
            n == digits@.len(),
            forall|j: int| 0 <= j < k ==> is_digit(#[trigger] digits@[j]),
            acc == decimal_value(digits@.take(k as int)),
        decreases n - k,
    {
        let c = digits.get_char(k);
        let code: u32 = c as u32;
        if code < '0' as u32 || code > '9' as u32 {
            return None;
        }
        let d: u64 = (code - '0' as u32) as u64;
        proof {
            assert(digits@.take(k + 1).drop_last() =~= digits@.take(k as int));
            assert(digits@.take(k + 1).last() == c);
            lemma_decimal_prefix(digits@, k + 1);
        }
        if acc > (u64::MAX - d) / 10 {
            return None;
        }
        acc = acc * 10 + d;
        k += 1;
    }
    proof {
        assert(digits@.take(n as int) =~= digits@);
    }
    Some(acc)
}

impl Host {
    /// A host from its address and port.
    pub fn new(host_name: String, port: u64) -> (h: Host)
        ensures
            h@ == (HostView { name: host_name@, port }),
    {
        Host { host_name, port }
    }

    /// An independent copy of the host.
    pub fn duplicate(&self) -> (h: Host)
        ensures
            h@ == self@,
    {
        Host { host_name: self.host_name.clone(), port: self.port }
    }

    /// Equality by value: same address and same port.
    pub fn same_as(&self, other: &Host) -> (b: bool)
        ensures
            b == (self@ == other@),
    {
        let names = self.host_name == other.host_name;
        proof {
            if self.host_name@ == other.host_name@ {
                assert(self.host_name@ =~= other.host_name@);
            }
        }
        names && self.port == other.port
    }
}

/// Reads an address of the form `address[:port]`.
///
/// Succeeds exactly on the texts that [`parsed_host`] gives a meaning, with
/// that meaning; every other text is a format error.
pub fn parse_host(host_str: &str) -> (r: Result<Host, Error>)
    ensures
        match r {
            Ok(h) => parsed_host(host_str@) == Some(h@),
            Err(e) => {
                &&& parsed_host(host_str@).is_none()
                &&& e@.kind == ErrorKind::Format
                &&& e@.name == "unexpected host string format"@
            },
        },
{
    let n = host_str.unicode_len();
    let mut i: usize = 0;
    while i < n && host_str.get_char(i) != ':'
        invariant
            i <= n,
            n == host_str@.len(),
            forall|j: int| 0 <= j < i ==> host_str@[j] != ':',
        decreases n - i,
    {
        i += 1;
    }
    if i == n {
        return Ok(Host { host_name: host_str.to_owned(), port: DEFAULT_PORT });
    }
    proof {
        assert(first_colon_at(host_str@, i as int));
        let c = choose|c: int| first_colon_at(host_str@, c);
        assert(c == i);
    }
    let name = host_str.substring_char(0, i);
    let digits = host_str.substring_char(i + 1, n);
    match parse_port(digits) {
        Some(port) => Ok(Host { host_name: name.to_owned(), port }),
        None => {
            let mut detail = "host string should be \"address:port\", found ".to_owned();
            detail.append(host_str);
            Err(Error::new(ErrorKind::Format, "parse_host", "unexpected host string format", detail))
        },
    }
}

} // verus!
