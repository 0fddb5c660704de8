//! The decisions of a load balancer: which upstream servers are in use, which
//! of them takes the next connection, how many requests a client may send,
//! and what to answer when a request cannot be served.
//!
//! Connections, requests and responses are handled elsewhere. What is decided
//! here is decided from plain values and handed back as plain values.

use crate::chance::random_below;
use vstd::prelude::*;

verus! {

/// The status code of a request that cannot be understood.
pub const BAD_REQUEST: u16 = 400;

/// The status code of a request whose body is too large.
pub const PAYLOAD_TOO_LARGE: u16 = 413;

/// The status code of a client that sent too many requests.
pub const TOO_MANY_REQUESTS: u16 = 429;

/// The status code of a failure between the balancer and an upstream server.
pub const BAD_GATEWAY: u16 = 502;

/// The status code of a connection that failed.
pub const SERVICE_UNAVAILABLE: u16 = 503;

/// The status code with which a healthy server answers a health check.
pub const OK: u16 = 200;

/// Whether an upstream server is fit to take connections.
#[derive(Clone, Copy, Debug, PartialEq, Eq, Structural)]
pub enum UpstreamState {
    Health,
    Ill,
}

/// What a health check found of one upstream server.
#[derive(Debug, PartialEq, Eq)]
pub struct UpStream {
    pub address: String,
    pub state: UpstreamState,
}

/// Why a request could not be read from a client.
#[derive(Clone, Copy, Debug, PartialEq, Eq, Structural)]
pub enum RequestError {
    /// The client closed the connection after this many bytes of a request.
    IncompleteRequest(usize),
    /// The bytes are no request.
    MalformedRequest,
    /// The content length is no number.
    InvalidContentLength,
    /// The body is shorter or longer than the content length says.
    ContentLengthMismatch,
    /// The body is larger than the balancer accepts.
    RequestBodyTooLarge,
    /// The connection failed.
    ConnectionError,
}

/// What to do with a connection after a request on it was dealt with.
#[derive(Clone, Copy, Debug, PartialEq, Eq, Structural)]
pub enum Verdict {
    /// Hand the request to the upstream server.
    Forward,
    /// Answer with this status code and wait for the next request.
    Reply(u16),
    /// Answer with this status code and close the connection.
    ReplyAndClose(u16),
    /// Close the connection without an answer.
    Close,
}

/// The requests of one client in the current minute.
#[derive(Debug, PartialEq, Eq)]
pub struct Traffic {
    pub client: String,
    pub requests: u64,
}

/// The state that a health check with the status code `code` shows.
pub open spec fn state_for(code: u16) -> UpstreamState {
    if code == OK {
        UpstreamState::Health
    } else {
        UpstreamState::Ill
    }
}

/// The status code that tells a client of `error`.
pub open spec fn status_for(error: RequestError) -> u16 {
    match error {
        RequestError::IncompleteRequest(_) => BAD_REQUEST,
        RequestError::MalformedRequest => BAD_REQUEST,
        RequestError::InvalidContentLength => BAD_REQUEST,
        RequestError::ContentLengthMismatch => BAD_REQUEST,
        RequestError::RequestBodyTooLarge => PAYLOAD_TOO_LARGE,
        RequestError::ConnectionError => SERVICE_UNAVAILABLE,
    }
}

/// What to do when a request could not be read: a client that closed the
/// connection between two requests, and a connection that failed, are let
/// go; anything else is answered with its status code, and the connection
/// stays open.
pub open spec fn verdict_on(error: RequestError) -> Verdict {
    match error {
        RequestError::IncompleteRequest(read) if read == 0 => Verdict::Close,
        RequestError::ConnectionError => Verdict::Close,
        _ => Verdict::Reply(status_for(error)),
    }
}

/// `addresses` without every occurrence of `address`.
pub open spec fn without(addresses: Seq<Seq<char>>, address: Seq<char>) -> Seq<Seq<char>>
    decreases addresses.len(),
{
    if addresses.len() == 0 {
        addresses
    } else if addresses.last() == address {
        without(addresses.drop_last(), address)
    } else {
        without(addresses.drop_last(), address).push(addresses.last())
    }
}

/// The upstream addresses after a health check found `address` in `state`:
/// an ill server leaves the list, a healthy one joins it at the end unless
/// it is there already.
pub open spec fn after_check(
    addresses: Seq<Seq<char>>,
    address: Seq<char>,
    state: UpstreamState,
) -> Seq<Seq<char>> {
    match state {
        UpstreamState::Ill => without(addresses, address),
        UpstreamState::Health => if addresses.contains(address) {
            addresses
        } else {
            addresses.push(address)
        },
    }
}

/// The requests counted for `client`.
pub open spec fn requests_of(traffic: Seq<Traffic>, client: Seq<char>) -> nat
    decreases traffic.len(),
{
    if traffic.len() == 0 {
        0
    } else if traffic.last().client@ == client {
        traffic.last().requests as nat
    } else {
        requests_of(traffic.drop_last(), client)
    }
}

/// The count after one more request, which stays at the largest number that
/// the counter holds.
pub open spec fn one_more(requests: nat) -> nat {
    if requests < u64::MAX {
        requests + 1
    } else {
        requests
    }
}

/// What remains of a list after an address was taken out holds that address
/// no more, and holds every other address as before.
pub proof fn lemma_without(addresses: Seq<Seq<char>>, address: Seq<char>)
    ensures
        !without(addresses, address).contains(address),
        forall|other: Seq<char>|
            other != address ==> (without(addresses, address).contains(other)
                <==> addresses.contains(other)),
        without(addresses, address).len() <= addresses.len(),
    decreases addresses.len(),
{
    if addresses.len() > 0 {
        let init = addresses.drop_last();
        let last = addresses.last();
        lemma_without(init, address);
        let rest = without(init, address);
        let all = without(addresses, address);
        assert(addresses[addresses.len() - 1] == last);
        if all.contains(address) {
            let k = choose|k: int| 0 <= k < all.len() && all[k] == address;
            if k < rest.len() {
                assert(rest[k] == address);
                assert(rest.contains(address));
            }
        }
        assert forall|other: Seq<char>| other != address implies (all.contains(other)
            <==> addresses.contains(other)) by {
            if all.contains(other) {
                let k = choose|k: int| 0 <= k < all.len() && all[k] == other;
                if k < rest.len() {
                    assert(rest[k] == other);
                    assert(rest.contains(other));
                    assert(init.contains(other));
                    let i = choose|i: int| 0 <= i < init.len() && init[i] == other;
                    assert(addresses[i] == other);
                }
            }
            if addresses.contains(other) {
                let i = choose|i: int| 0 <= i < addresses.len() && addresses[i] == other;
                if i < init.len() {
                    assert(init[i] == other);
                    assert(init.contains(other));
                    assert(rest.contains(other));
                    let k = choose|k: int| 0 <= k < rest.len() && rest[k] == other;
                    assert(all[k] == other);
                } else {
                    assert(all[all.len() - 1] == other);
                }
            }
        }
    }
}

/// The state that a health check with the status code `code` shows.
pub fn health_of(code: u16) -> (state: UpstreamState)
    ensures
        state == state_for(code),
{
    if code == OK {
        UpstreamState::Health
    } else {
        UpstreamState::Ill
    }
}

/// The status code that tells a client of `error`.
pub fn status_of(error: RequestError) -> (code: u16)
    ensures
        code == status_for(error),
{
    match error {
        RequestError::IncompleteRequest(_) => BAD_REQUEST,
        RequestError::MalformedRequest => BAD_REQUEST,
        RequestError::InvalidContentLength => BAD_REQUEST,
        RequestError::ContentLengthMismatch => BAD_REQUEST,
        RequestError::RequestBodyTooLarge => PAYLOAD_TOO_LARGE,
        RequestError::ConnectionError => SERVICE_UNAVAILABLE,
    }
}

/// What to do when a request could not be read.
pub fn on_unreadable(error: RequestError) -> (verdict: Verdict)
    ensures
        verdict == verdict_on(error),
{
    match error {
        RequestError::IncompleteRequest(read) => {
            if read == 0 {
                Verdict::Close
            } else {
                Verdict::Reply(status_of(error))
            }
        },
        RequestError::ConnectionError => Verdict::Close,
        _ => Verdict::Reply(status_of(error)),
    }
}

/// What to do when the upstream server could not be reached, or did not
/// answer, for a request: the client is told of a bad gateway and let go.
pub fn on_upstream_failure() -> (verdict: Verdict)
    ensures
        verdict == Verdict::ReplyAndClose(BAD_GATEWAY),
{
    Verdict::ReplyAndClose(BAD_GATEWAY)
}

/// What the balancer knows while it runs.
pub struct ProxyState {
    active_health_check_interval: usize,
    active_health_check_path: String,
    max_requests_per_minute: usize,
    upstream_addresses: Vec<String>,
    traffic_record: Vec<Traffic>,
}

impl ProxyState {
    /// The upstream servers in use, in the order they joined.
    pub closed spec fn upstreams(&self) -> Seq<Seq<char>> {
        self.upstream_addresses@.map_values(|a: String| a@)
    }

    /// The requests counted for each client in the current minute.
    pub closed spec fn traffic(&self) -> Seq<Traffic> {
        self.traffic_record@
    }

    /// The most requests that one client may send in a minute; 0 for no
    /// limit.
    pub closed spec fn limit(&self) -> usize {
        self.max_requests_per_minute
    }

    /// The seconds between two rounds of health checks.
    pub closed spec fn check_interval(&self) -> usize {
        self.active_health_check_interval
    }

    /// The path that a health check asks each server for.
    pub closed spec fn check_path(&self) -> Seq<char> {
        self.active_health_check_path@
    }

    /// The requests counted for `client` in the current minute.
    pub open spec fn requests(&self, client: Seq<char>) -> nat {
        requests_of(self.traffic(), client)
    }

    /// The state of a balancer that starts with these upstream servers and
    /// has counted no request yet.
    pub fn new(
        upstream_addresses: Vec<String>,
        active_health_check_interval: usize,
        active_health_check_path: String,
        max_requests_per_minute: usize,
    ) -> (state: ProxyState)
        ensures
            state.upstreams() == upstream_addresses@.map_values(|a: String| a@),
            state.traffic() == Seq::<Traffic>::empty(),
            state.limit() == max_requests_per_minute,
            state.check_interval() == active_health_check_interval,
            state.check_path() == active_health_check_path@,
    {
        ProxyState {
            active_health_check_interval,
            active_health_check_path,
            max_requests_per_minute,
            upstream_addresses,
            traffic_record: Vec::new(),
        }
    }

    /// How many upstream servers are in use.
    pub fn upstream_count(&self) -> (n: usize)
        ensures
            n == self.upstreams().len(),
    {
        self.upstream_addresses.len()
    }

    /// The address of upstream server `index`.
    pub fn upstream(&self, index: usize) -> (address: Option<&String>)
        ensures
            match address {
                Some(a) => index < self.upstreams().len() && a@ == self.upstreams()[index as int],
                None => index >= self.upstreams().len(),
            },
    {
        if index < self.upstream_addresses.len() {
            Some(&self.upstream_addresses[index])
        } else {
            None
        }
    }

    /// Whether `address` is among the upstream servers in use.
    pub fn has_upstream(&self, address: &String) -> (found: bool)
        ensures
            found == self.upstreams().contains(address@),
    {
        let mut i: usize = 0;
        while i < self.upstream_addresses.len()
            invariant
                i <= self.upstream_addresses@.len(),
                forall|k: int| 0 <= k < i ==> self.upstreams()[k] != address@,
            decreases self.upstream_addresses@.len() - i,
        {
            if self.upstream_addresses[i] == *address {
                assert(self.upstreams()[i as int] == address@);
                return true;
            }
            i += 1;
        }
        false
    }

    /// Takes note of what a health check found: an ill server leaves the
    /// list of upstream servers, a healthy one joins it unless it is there.
    pub fn note_health(&mut self, checked: &UpStream)
        ensures
            final(self).upstreams() == after_check(
                old(self).upstreams(),
                checked.address@,
                checked.state,
            ),
            final(self).traffic() == old(self).traffic(),
            final(self).limit() == old(self).limit(),
            final(self).check_interval() == old(self).check_interval(),
            final(self).check_path() == old(self).check_path(),
    {
        match checked.state {
            UpstreamState::Ill => {
                let ghost before = self.upstreams();
                let mut kept: Vec<String> = Vec::new();
                let mut i: usize = 0;
                while i < self.upstream_addresses.len()
                    invariant
                        i <= self.upstream_addresses@.len(),
                        self.upstreams() == before,
                        *self == *old(self),
                        kept@.map_values(|a: String| a@) == without(
                            before.take(i as int),
                            checked.address@,
                        ),
                    decreases self.upstream_addresses@.len() - i,
                {
                    let ghost upto = before.take(i + 1);
                    proof {
                        assert(upto.drop_last() =~= before.take(i as int));
                        assert(upto.last() == self.upstream_addresses@[i as int]@);
                    }
                    if self.upstream_addresses[i] != checked.address {
                        let ghost shown = kept@.map_values(|a: String| a@);
                        kept.push(self.upstream_addresses[i].clone());
                        proof {
                            assert(kept@.map_values(|a: String| a@) =~= shown.push(upto.last()));
                        }
                    }
                    i += 1;
                }
                proof {
                    assert(before.take(i as int) =~= before);
                }
                self.upstream_addresses = kept;
            },
            UpstreamState::Health => {
                if !self.has_upstream(&checked.address) {
                    let ghost shown = self.upstreams();
                    self.upstream_addresses.push(checked.address.clone());
                    proof {
                        assert(self.upstreams() =~= shown.push(checked.address@));
                    }
                }
            },
        }
    }

    /// Picks at random the upstream server that takes the next connection.
    /// `None` if no server is in use.
    pub fn pick_upstream(&self) -> (index: Option<usize>)
        ensures
            match index {
                Some(i) => i < self.upstreams().len(),
                None => self.upstreams().len() == 0,
            },
    {
        let n: usize = self.upstream_addresses.len();
        if n == 0 {
            None
        } else {
            Some(random_below(n))
        }
    }

    /// Takes upstream server `index` out of use, as after a connection to it
    /// failed. The servers after it move up by one.
    pub fn drop_upstream(&mut self, index: usize)
        requires
            index < old(self).upstreams().len(),
        ensures
            final(self).upstreams() == old(self).upstreams().remove(index as int),
            final(self).traffic() == old(self).traffic(),
            final(self).limit() == old(self).limit(),
            final(self).check_interval() == old(self).check_interval(),
            final(self).check_path() == old(self).check_path(),
    {
        let ghost before = self.upstreams();
        let _ = self.upstream_addresses.remove(index);
        proof {
            assert(self.upstreams() =~= before.remove(index as int));
        }
    }

    /// Counts one request of `client` and says whether it may pass. Without
    /// a limit nothing is counted and every request passes. With one, the
    /// request passes as long as the client has sent no more than the limit
    /// in the current minute, this request included.
    pub fn allow(&mut self, client: &String) -> (allowed: bool)
        ensures
            final(self).upstreams() == old(self).upstreams(),
            final(self).limit() == old(self).limit(),
            final(self).check_interval() == old(self).check_interval(),
            final(self).check_path() == old(self).check_path(),
            old(self).limit() == 0 ==> allowed && final(self).traffic() == old(self).traffic(),
            old(self).limit() != 0 ==> {
                &&& final(self).requests(client@) == one_more(old(self).requests(client@))
                &&& allowed == (final(self).requests(client@) <= old(self).limit())
                &&& forall|other: Seq<char>|
                    other != client@ ==> final(self).requests(other) == old(self).requests(other)
            },
    {
        if self.max_requests_per_minute == 0 {
            return true;
        }
        let ghost before = self.traffic_record@;
        let limit: u64 = self.max_requests_per_minute as u64;
        let mut i: usize = self.traffic_record.len();
        while i > 0
            invariant
                i <= self.traffic_record@.len(),
                *self == *old(self),
                self.traffic_record@ == before,
                limit == self.max_requests_per_minute,
                limit != 0,
                forall|k: int| i <= k < before.len() ==> before[k].client@ != client@,
            decreases i,
        {
            i -= 1;
            if self.traffic_record[i].client == *client {
                let count: u64 = self.traffic_record[i].requests;
                let next: u64 = if count < u64::MAX {
                    count + 1
                } else {
                    count
                };
                self.traffic_record.set(i, Traffic { client: client.clone(), requests: next });
                proof {
                    lemma_counted(before, client@, i as int);
                    lemma_counted(self.traffic_record@, client@, i as int);
                    assert forall|other: Seq<char>| other != client@ implies requests_of(
                        self.traffic_record@,
                        other,
                    ) == requests_of(before, other) by {
                        lemma_count_elsewhere(before, self.traffic_record@, other, i as int);
                    }
                }
                return next <= limit;
            }
        }
        self.traffic_record.push(Traffic { client: client.clone(), requests: 1 });
        proof {
            assert(self.traffic_record@.drop_last() =~= before);
            lemma_uncounted(before, client@);
        }
        1 <= limit
    }

    /// Starts a new minute: no client has sent a request yet.
    pub fn reset_traffic(&mut self)
        ensures
            final(self).traffic() == Seq::<Traffic>::empty(),
            final(self).upstreams() == old(self).upstreams(),
            final(self).limit() == old(self).limit(),
            final(self).check_interval() == old(self).check_interval(),
            final(self).check_path() == old(self).check_path(),
    {
        self.traffic_record = Vec::new();
    }

    /// What to do with a request that was read from `client`: it is counted,
    /// and handed on unless the client has sent too many.
    pub fn on_request(&mut self, client: &String) -> (verdict: Verdict)
        ensures
            final(self).upstreams() == old(self).upstreams(),
            final(self).limit() == old(self).limit(),
            old(self).limit() == 0 ==> verdict == Verdict::Forward && final(self).traffic() == old(
                self,
            ).traffic(),
            old(self).limit() != 0 ==> {
                &&& final(self).requests(client@) == one_more(old(self).requests(client@))
                &&& verdict == if final(self).requests(client@) <= old(self).limit() {
                    Verdict::Forward
                } else {
                    Verdict::ReplyAndClose(TOO_MANY_REQUESTS)
                }
            },
    {
        if self.allow(client) {
            Verdict::Forward
        } else {
            Verdict::ReplyAndClose(TOO_MANY_REQUESTS)
        }
    }
}

/// The count of a client is that of the last entry with its name.
proof fn lemma_counted(traffic: Seq<Traffic>, client: Seq<char>, at: int)
    requires
        0 <= at < traffic.len(),
        traffic[at].client@ == client,
        forall|k: int| at < k < traffic.len() ==> traffic[k].client@ != client,
    ensures
        requests_of(traffic, client) == traffic[at].requests,
    decreases traffic.len(),
{
    if at < traffic.len() - 1 {
        assert(traffic.last().client@ != client);
        lemma_counted(traffic.drop_last(), client, at);
    }
}

/// A client without an entry has sent no request.
proof fn lemma_uncounted(traffic: Seq<Traffic>, client: Seq<char>)
    requires
        forall|k: int| 0 <= k < traffic.len() ==> traffic[k].client@ != client,
    ensures
        requests_of(traffic, client) == 0,
    decreases traffic.len(),
{
    if traffic.len() > 0 {
        assert(traffic.last().client@ != client);
        lemma_uncounted(traffic.drop_last(), client);
    }
}

/// A change to the entry of one client leaves the counts of all others.
proof fn lemma_count_elsewhere(a: Seq<Traffic>, b: Seq<Traffic>, other: Seq<char>, at: int)
    requires
        a.len() == b.len(),
        0 <= at < a.len(),
        a[at].client@ == b[at].client@,
        a[at].client@ != other,
        forall|k: int| 0 <= k < a.len() && k != at ==> a[k] == b[k],
    ensures
        requests_of(a, other) == requests_of(b, other),
    decreases a.len(),
{
    if at < a.len() - 1 {
        assert(a.last() == b.last());
        if a.last().client@ != other {
            lemma_count_elsewhere(a.drop_last(), b.drop_last(), other, at);
        }
    } else {
        assert(a.drop_last() =~= b.drop_last());
    }
}

} // verus!
