use vstd::prelude::*;
use vstd::string::StringExecFns;
use std::collections::VecDeque;
use std::sync::mpsc::Receiver;
use std::sync::mpsc::SyncSender;
use crate::net::Error;
use crate::net::channel::Delivery;
use crate::net::channel::Received;
use crate::net::channel::bounded_channel;
use crate::net::channel::deliver;
use crate::net::channel::try_deliver;
use crate::net::channel::try_receive;
use crate::net::table::HostPort;
use crate::net::table::HostPortTable;

verus! {

/// How many messages each of the two channels between a resolver and its
/// client can buffer.
pub const CHANNEL_CAPACITY: usize = 1024;

/// A socket address, as plain values: an IPv4 address and port, or an IPv6
/// address, port, flow label and scope.
#[derive(Clone, Copy, Debug, PartialEq, Eq, Hash)]
pub enum SocketAddress {
    V4 { octets: [u8; 4], port: u16 },
    V6 { segments: [u16; 8], port: u16, flowinfo: u32, scope_id: u32 },
}

/// A request to resolve `host` for connecting on `port`, to be answered by
/// the time `timeout` (milliseconds since the Unix epoch).
///
/// Two requests are equal when they name the same host and port, whatever
/// their deadlines.
#[derive(Debug)]
pub struct DNSRequest {
    pub host: String,
    pub port: u16,
    pub timeout: u128,
}

/// Whether a deadline has passed at time `now`.
pub open spec fn expired(timeout: u128, now: u128) -> bool {
    now > timeout
}

/// The table key of a request: its host name and port.
pub open spec fn request_key(request: DNSRequest) -> HostPort {
    (request.host@, request.port)
}

impl DNSRequest {
    pub fn new(host: String, port: u16, timeout: u128) -> (r: DNSRequest)
        ensures
            r.host == host,
            r.port == port,
            r.timeout == timeout,
    {
        DNSRequest { host: host, port: port, timeout: timeout }
    }

    /// Whether the request's deadline has passed at time `now`.
    pub fn is_timed_out(&self, now: u128) -> (b: bool)
        ensures
            b == expired(self.timeout, now),
    {
        now > self.timeout
    }
}

impl PartialEq for DNSRequest {
    fn eq(&self, other: &DNSRequest) -> (r: bool) {
        self.host == other.host && self.port == other.port
    }
}

impl vstd::std_specs::cmp::PartialEqSpecImpl for DNSRequest {
    open spec fn obeys_eq_spec() -> bool {
        true
    }

    open spec fn eq_spec(&self, other: &DNSRequest) -> bool {
        self.host@ == other.host@ && self.port == other.port
    }
}

impl Eq for DNSRequest {
}

impl Clone for DNSRequest {
    fn clone(&self) -> (r: DNSRequest)
        ensures
            r == *self,
    {
        DNSRequest { host: self.host.clone(), port: self.port, timeout: self.timeout }
    }
}

/// A copy of a list of addresses.
pub fn copy_addresses(addrs: &Vec<SocketAddress>) -> (r: Vec<SocketAddress>)
    ensures
        r@ == addrs@,
{
    let mut r: Vec<SocketAddress> = Vec::new();
    let n = addrs.len();
    let mut i: usize = 0;
    while i < n
        invariant
            n == addrs@.len(),
            0 <= i <= n,
            r@ == addrs@.subrange(0, i as int),
        decreases n - i,
    {
        r.push(addrs[i]);
        i = i + 1;
        assert(r@ =~= addrs@.subrange(0, i as int));
    }
    assert(r@ =~= addrs@);
    r
}

/// The answer to a request: the addresses the host resolved to, or why it
/// did not resolve.
#[derive(Debug, PartialEq)]
pub struct DNSResponse {
    pub request: DNSRequest,
    pub result: Result<Vec<SocketAddress>, String>,
}

/// Two responses are copies of each other: the same request, and the same
/// addresses or the same error text.
pub open spec fn same_response(a: DNSResponse, b: DNSResponse) -> bool {
    &&& a.request == b.request
    &&& match (a.result, b.result) {
        (Ok(x), Ok(y)) => x@ == y@,
        (Err(x), Err(y)) => x == y,
        _ => false,
    }
}

impl Clone for DNSResponse {
    fn clone(&self) -> (r: DNSResponse)
        ensures
            same_response(r, *self),
    {
        let result = match &self.result {
            Ok(addrs) => Ok(copy_addresses(addrs)),
            Err(text) => Err(text.clone()),
        };
        DNSResponse { request: self.request.clone(), result: result }
    }
}

/// `response` answers `request` with the error text `text`.
pub open spec fn is_error_response(response: DNSResponse, request: DNSRequest, text: Seq<char>) -> bool {
    &&& response.request == request
    &&& response.result matches Err(e) && e@ == text
}

impl DNSResponse {
    pub fn new(request: DNSRequest, result: Result<Vec<SocketAddress>, String>) -> (r: DNSResponse)
        ensures
            r.request == request,
            r.result == result,
    {
        DNSResponse { request: request, result: result }
    }

    /// A response that reports `errstr` as the reason `request` failed.
    pub fn error(request: DNSRequest, errstr: String) -> (r: DNSResponse)
        ensures
            r.request == request,
            r.result == Err::<Vec<SocketAddress>, String>(errstr),
    {
        DNSResponse { request: request, result: Err(errstr) }
    }

    /// The response to `request` once the system resolver has been asked:
    /// `lookup` is the addresses it gave, or the description of its error.
    /// An empty list of addresses counts as a failure.
    pub fn from_lookup(request: DNSRequest, lookup: Result<Vec<SocketAddress>, String>) -> (r:
        DNSResponse)
        ensures
            r.request == request,
            match lookup {
                Err(detail) => r.result matches Err(e) && e@ == "DNS resolve error: "@ + detail@,
                Ok(addrs) => if addrs@.len() == 0 {
                    r.result matches Err(e) && e@ == "DNS resolve error: got zero addresses"@
                } else {
                    r.result == Ok::<Vec<SocketAddress>, String>(addrs)
                },
            },
    {
        match lookup {
            Err(detail) => {
                let mut text = "DNS resolve error: ".to_owned();
                text.append(detail.as_str());
                DNSResponse::error(request, text)
            },
            Ok(addrs) => {
                if addrs.len() == 0 {
                    DNSResponse::error(request, "DNS resolve error: got zero addresses".to_owned())
                } else {
                    DNSResponse::new(request, Ok(addrs))
                }
            },
        }
    }
}

/// The character of a decimal digit.
pub open spec fn digit_char(d: nat) -> char {
    (48 + d) as char
}

/// The decimal numeral of `n`, without leading zeros.
pub open spec fn decimal(n: nat) -> Seq<char>
    decreases n,
{
    if n < 10 {
        seq![digit_char(n)]
    } else {
        decimal(n / 10) + seq![digit_char(n % 10)]
    }
}

fn digit_text(d: u16) -> (s: &'static str)
    requires
        d < 10,
    ensures
        s@ == seq![digit_char(d as nat)],
{
    proof {
        reveal_strlit("0");
        reveal_strlit("1");
        reveal_strlit("2");
        reveal_strlit("3");
        reveal_strlit("4");
        reveal_strlit("5");
        reveal_strlit("6");
        reveal_strlit("7");
        reveal_strlit("8");
        reveal_strlit("9");
    }
    let s = if d == 0 {
        "0"
    } else if d == 1 {
        "1"
    } else if d == 2 {
        "2"
    } else if d == 3 {
        "3"
    } else if d == 4 {
        "4"
    } else if d == 5 {
        "5"
    } else if d == 6 {
        "6"
    } else if d == 7 {
        "7"
    } else if d == 8 {
        "8"
    } else {
        "9"
    };
    assert(s@ =~= seq![digit_char(d as nat)]);
    s
}

/// Appends the decimal numeral of `n` to `out`.
fn append_decimal(out: &mut String, n: u16)
    ensures
        final(out)@ == old(out)@ + decimal(n as nat),
    decreases n,
{
    if n >= 10 {
        append_decimal(out, n / 10);
    }
    out.append(digit_text(n % 10));
    proof {
        if n >= 10 {
            assert(decimal(n as nat) == decimal((n / 10) as nat) + seq![digit_char((n % 10) as nat)]);
        }
    }
    assert(final(out)@ =~= old(out)@ + decimal(n as nat));
}


/// Specifies `<String as Hash>::hash`, which feeds the string to the hasher;
/// nothing is stated of the hasher's new state.
pub assume_specification<H: core::hash::Hasher>[ <String as core::hash::Hash>::hash::<H> ](
    s: &String,
    state: &mut H,
);

/// Specifies `<u16 as Hash>::hash`, which feeds the number to the hasher;
/// nothing is stated of the hasher's new state.
pub assume_specification<H: core::hash::Hasher>[ <u16 as core::hash::Hash>::hash::<H> ](
    n: &u16,
    state: &mut H,
);

/// Hashes the host and the port only, as equality compares only those.
impl core::hash::Hash for DNSRequest {
    fn hash<H: core::hash::Hasher>(&self, state: &mut H) {
        self.host.hash(state);
        self.port.hash(state);
    }
}


/// What the resolver makes of a request before any network work: an answer
/// it already has, or the request to hand to the system resolver.
#[derive(Debug)]
pub enum Resolution {
    /// The request is answered.
    Answered(DNSResponse),
    /// The host has to be looked up by the system resolver.
    Lookup(DNSRequest),
}

/// `resolution` is what a resolver with the fixed answers `fixed` makes of
/// `request`: the fixed addresses where there are some for its host and
/// port, else a lookup of the request.
pub open spec fn resolves_as(
    fixed: Map<HostPort, Vec<SocketAddress>>,
    request: DNSRequest,
    resolution: Resolution,
) -> bool {
    if fixed.contains_key(request_key(request)) {
        &&& resolution matches Resolution::Answered(response)
        &&& response.request == request
        &&& response.result matches Ok(addrs)
        &&& addrs@ == fixed[request_key(request)]@
    } else {
        resolution == Resolution::Lookup(request)
    }
}

/// What one attempt to take a request off the inbound channel led to.
#[derive(Debug)]
pub enum DrainStep {
    /// A request joined the queue.
    Queued,
    /// A request was refused; this response is to be sent back.
    Refused(DNSResponse),
    /// No request was waiting: the round of draining is over.
    Finished,
    /// The client has gone away.
    Broken,
}

/// Whether a request arriving at time `now` joins a queue holding `queue`
/// under the limit `limit`: its deadline has not passed and there is room.
pub open spec fn admits(queue: Seq<DNSRequest>, limit: u64, now: u128, req: DNSRequest) -> bool {
    !expired(req.timeout, now) && queue.len() < limit
}

/// The queue and outcome of draining, starting from `queue` with `count`
/// requests queued so far, that meets `events` in order: each event is what
/// a read of the inbound channel found and, for a refused request, what
/// became of sending the refusal. A request that is admitted joins the back;
/// a refusal that finds the client gone ends with `ConnectionBroken`; an
/// empty channel ends with the count; a disconnected one with
/// `ConnectionBroken`. Running out of events ends with the count.
pub open spec fn drain_run(
    queue: Seq<DNSRequest>,
    limit: u64,
    now: u128,
    events: Seq<(Received<DNSRequest>, Delivery)>,
    count: nat,
) -> (Seq<DNSRequest>, Result<nat, Error>)
    decreases events.len(),
{
    if events.len() == 0 {
        (queue, Ok(count))
    } else {
        match events[0].0 {
            Received::Message(req) => if admits(queue, limit, now, req) {
                drain_run(queue.push(req), limit, now, events.drop_first(), count + 1)
            } else if events[0].1 == Delivery::Disconnected {
                (queue, Err(Error::ConnectionBroken))
            } else {
                drain_run(queue, limit, now, events.drop_first(), count)
            },
            Received::Empty => (queue, Ok(count)),
            Received::Disconnected => (queue, Err(Error::ConnectionBroken)),
        }
    }
}

/// `queue` and `r` are the queue and the outcome that `run` describes.
pub open spec fn drain_result(
    run: (Seq<DNSRequest>, Result<nat, Error>),
    queue: Seq<DNSRequest>,
    r: Result<usize, Error>,
) -> bool {
    &&& queue == run.0
    &&& match run.1 {
        Ok(n) => r == Ok::<usize, Error>(n as usize),
        Err(e) => r == Err::<usize, Error>(e),
    }
}

/// The resolver's side of the asynchronous DNS service: a queue of requests
/// waiting to be resolved, bounded by `max_inflight`, and fixed answers for
/// some host names.
pub struct DNSResolver {
    queries: VecDeque<DNSRequest>,
    inbound: Receiver<DNSRequest>,
    outbound: SyncSender<DNSResponse>,
    max_inflight: u64,
    hardcoded: HostPortTable<Vec<SocketAddress>>,
}

impl DNSResolver {
    /// The requests waiting to be resolved, oldest first.
    pub closed spec fn queued(&self) -> Seq<DNSRequest> {
        self.queries@
    }

    /// The most requests that may wait at once.
    pub closed spec fn limit(&self) -> u64 {
        self.max_inflight
    }

    /// The fixed answers, by host name and port.
    pub closed spec fn fixed_answers(&self) -> Map<HostPort, Vec<SocketAddress>> {
        self.hardcoded@
    }

    /// The channel end on which the resolver takes requests from its client.
    pub closed spec fn inbound_channel(&self) -> Receiver<DNSRequest> {
        self.inbound
    }

    /// The channel end on which the resolver sends responses to its client.
    pub closed spec fn outbound_channel(&self) -> SyncSender<DNSResponse> {
        self.outbound
    }

    /// The queue holds no more requests than the limit allows, and the fixed
    /// answers form a table.
    #[verifier::type_invariant]
    closed spec fn wf(&self) -> bool {
        &&& self.queries@.len() <= self.max_inflight
        &&& self.hardcoded.wf()
    }

    /// A resolver that lets up to `max_inflight` requests wait, and the client
    /// connected to it by two channels of `CHANNEL_CAPACITY` messages each.
    pub fn new(max_inflight: u64) -> (r: (DNSResolver, DNSClient))
        ensures
            r.0.queued() == Seq::<DNSRequest>::empty(),
            r.0.queued().len() <= r.0.limit(),
            r.0.limit() == max_inflight,
            r.0.fixed_answers() == Map::<HostPort, Vec<SocketAddress>>::empty(),
            r.1.pending() == Map::<HostPort, PendingLookup>::empty(),
    {
        let (dns_chan_tx, dns_chan_rx) = bounded_channel(CHANNEL_CAPACITY);
        let (socket_chan_tx, socket_chan_rx) = bounded_channel(CHANNEL_CAPACITY);
        let client = DNSClient::new(socket_chan_tx, dns_chan_rx);
        let resolver = DNSResolver {
            queries: VecDeque::new(),
            inbound: socket_chan_rx,
            outbound: dns_chan_tx,
            max_inflight: max_inflight,
            hardcoded: HostPortTable::new(),
        };
        (resolver, client)
    }

    /// Fixes the answer for `host` and `port` to `addrs`, in place of any
    /// earlier fixed answer for them.
    pub fn add_hardcoded(&mut self, host: &str, port: u16, addrs: Vec<SocketAddress>)
        ensures
            final(self).inbound_channel() == old(self).inbound_channel(),
            final(self).outbound_channel() == old(self).outbound_channel(),
            final(self).queued().len() <= final(self).limit(),
            final(self).fixed_answers() == old(self).fixed_answers().insert((host@, port), addrs),
            final(self).queued() == old(self).queued(),
            final(self).limit() == old(self).limit(),
    {
        proof {
            use_type_invariant(&*self);
        }
        let mut hardcoded = HostPortTable::new();
        std::mem::swap(&mut hardcoded, &mut self.hardcoded);
        hardcoded.insert(host.to_owned(), port, addrs);
        self.hardcoded = hardcoded;
    }

    /// Answers `req` from the fixed answers where they have its host and
    /// port; else asks for a lookup of it.
    pub fn resolve(&self, req: DNSRequest) -> (r: Resolution)
        ensures
            resolves_as(self.fixed_answers(), req, r),
    {
        proof {
            use_type_invariant(self);
        }
        match self.hardcoded.get(req.host.as_str(), req.port) {
            Some(addrs) => {
                let addrs = copy_addresses(addrs);
                Resolution::Answered(DNSResponse::new(req, Ok(addrs)))
            },
            None => Resolution::Lookup(req),
        }
    }

    /// Takes in one request that arrived at time `now`: a request whose
    /// deadline has passed is refused, as is one that finds the queue full;
    /// any other joins the back of the queue. Gives back the refusal to send
    /// to the client, if any.
    pub fn admit_request(&mut self, req: DNSRequest, now: u128) -> (r: Option<DNSResponse>)
        ensures
            final(self).inbound_channel() == old(self).inbound_channel(),
            final(self).outbound_channel() == old(self).outbound_channel(),
            final(self).queued().len() <= final(self).limit(),
            final(self).limit() == old(self).limit(),
            final(self).fixed_answers() == old(self).fixed_answers(),
            if expired(req.timeout, now) {
                &&& final(self).queued() == old(self).queued()
                &&& r matches Some(resp) && is_error_response(resp, req, "DNS request timed out"@)
            } else if old(self).queued().len() < old(self).limit() {
                &&& final(self).queued() == old(self).queued().push(req)
                &&& r is None
            } else {
                &&& final(self).queued() == old(self).queued()
                &&& r matches Some(resp) && is_error_response(
                    resp,
                    req,
                    "Too many DNS requests in-flight"@,
                )
            },
    {
        proof {
            use_type_invariant(&*self);
        }
        if req.is_timed_out(now) {
            Some(DNSResponse::error(req, "DNS request timed out".to_owned()))
        } else if (self.queries.len() as u64) < self.max_inflight {
            let mut queries = VecDeque::new();
            std::mem::swap(&mut queries, &mut self.queries);
            queries.push_back(req);
            self.queries = queries;
            None
        } else {
            Some(DNSResponse::error(req, "Too many DNS requests in-flight".to_owned()))
        }
    }

    /// Takes in what one attempt to read the inbound channel at time `now`
    /// found: a request is admitted as `admit_request` does, and comes back
    /// as `Queued` or as the refusal to send; an empty channel ends the round
    /// (`Finished`); a channel whose client has gone away gives `Broken`.
    pub fn take_arrival(&mut self, arrival: Received<DNSRequest>, now: u128) -> (step: DrainStep)
        ensures
            final(self).inbound_channel() == old(self).inbound_channel(),
            final(self).outbound_channel() == old(self).outbound_channel(),
            final(self).queued().len() <= final(self).limit(),
            final(self).limit() == old(self).limit(),
            final(self).fixed_answers() == old(self).fixed_answers(),
            match arrival {
                Received::Message(req) => if expired(req.timeout, now) {
                    &&& final(self).queued() == old(self).queued()
                    &&& step matches DrainStep::Refused(resp) && is_error_response(
                        resp,
                        req,
                        "DNS request timed out"@,
                    )
                } else if old(self).queued().len() < old(self).limit() {
                    &&& final(self).queued() == old(self).queued().push(req)
                    &&& step is Queued
                } else {
                    &&& final(self).queued() == old(self).queued()
                    &&& step matches DrainStep::Refused(resp) && is_error_response(
                        resp,
                        req,
                        "Too many DNS requests in-flight"@,
                    )
                },
                Received::Empty => final(self).queued() == old(self).queued() && step is Finished,
                Received::Disconnected => final(self).queued() == old(self).queued() && step is Broken,
            },
    {
        proof {
            use_type_invariant(&*self);
        }
        match arrival {
            Received::Message(req) => match self.admit_request(req, now) {
                None => DrainStep::Queued,
                Some(refusal) => DrainStep::Refused(refusal),
            },
            Received::Empty => DrainStep::Finished,
            Received::Disconnected => DrainStep::Broken,
        }
    }

    /// Whether sending a refusal back ended in finding the client gone, which
    /// ends the draining with an error; a full channel drops the refusal and
    /// draining goes on.
    pub fn refusal_breaks(delivery: Delivery) -> (b: bool)
        ensures
            b == (delivery == Delivery::Disconnected),
    {
        match delivery {
            Delivery::Disconnected => true,
            Delivery::Sent => false,
            Delivery::Full => false,
        }
    }

    /// Takes up to `max_inflight` requests off the inbound channel, admitting
    /// each as `admit_request` does at time `now` and sending refusals back.
    /// Gives back how many requests were queued; fails when either channel's
    /// other end has gone away.
    ///
    /// What the channels hand over depends on the client's thread; whatever
    /// it was, the outcome is that of `drain_run` over the arrivals met, in
    /// order, each with what became of its refusal, if it had one.
    pub fn drain_inbox(&mut self, now: u128) -> (r: Result<usize, Error>)
        ensures
            final(self).inbound_channel() == old(self).inbound_channel(),
            final(self).outbound_channel() == old(self).outbound_channel(),
            final(self).queued().len() <= final(self).limit(),
            final(self).limit() == old(self).limit(),
            final(self).fixed_answers() == old(self).fixed_answers(),
            old(self).limit() == 0 ==> r == Ok::<usize, Error>(0) && final(self).queued() == old(self).queued(),
            exists|events: Seq<(Received<DNSRequest>, Delivery)>|
                events.len() <= old(self).limit() && drain_result(
                    drain_run(old(self).queued(), old(self).limit(), now, events, 0),
                    final(self).queued(),
                    r,
                ),
            old(self).queued().len() <= final(self).queued().len(),
            final(self).queued().subrange(0, old(self).queued().len() as int) == old(self).queued(),
            forall|i: int|
                old(self).queued().len() <= i < final(self).queued().len() ==> !expired(
                    #[trigger] final(self).queued()[i].timeout,
                    now,
                ),
            match r {
                Ok(n) => n == final(self).queued().len() - old(self).queued().len() && n <= old(self).limit(),
                Err(e) => e == Error::ConnectionBroken,
            },
    {
        broadcast use vstd::std_specs::vecdeque::group_vec_dequeue_axioms;

        proof {
            use_type_invariant(&*self);
        }
        let ghost start = self.queries@;
        let ghost mut events: Seq<(Received<DNSRequest>, Delivery)> = Seq::empty();
        let mut received: usize = 0;
        let limit = self.max_inflight;
        let mut round: u64 = 0;
        proof {
            assert forall|rest: Seq<(Received<DNSRequest>, Delivery)>|
                #[trigger] drain_run(start, limit, now, events + rest, 0) == drain_run(
                    start,
                    limit,
                    now,
                    rest,
                    0,
                ) by {
                assert(events + rest =~= rest);
            }
        }
        while round < limit
            invariant
                self.queries@.len() <= limit,
                self.max_inflight == limit,
                limit == old(self).limit(),
                self.inbound == old(self).inbound_channel(),
                self.outbound == old(self).outbound_channel(),
                self.fixed_answers() == old(self).fixed_answers(),
                start == old(self).queued(),
                start.len() <= self.queries@.len(),
                self.queries@.subrange(0, start.len() as int) == start,
                forall|i: int|
                    start.len() <= i < self.queries@.len() ==> !expired(
                        #[trigger] self.queries@[i].timeout,
                        now,
                    ),
                received == self.queries@.len() - start.len(),
                received <= round,
                round <= limit,
                events.len() == round,
                forall|rest: Seq<(Received<DNSRequest>, Delivery)>|
                    #[trigger] drain_run(start, limit, now, events + rest, 0) == drain_run(
                        self.queries@,
                        limit,
                        now,
                        rest,
                        received as nat,
                    ),
            decreases limit - round,
        {
            let arrival = try_receive(&self.inbound);
            let ghost arrived = arrival;
            let ghost q = self.queries@;
            let ghost before_events = events;
            let step = self.take_arrival(arrival, now);
            let ghost mut delivery = Delivery::Sent;
            match step {
                DrainStep::Queued => {
                    assert(self.queries.len() == self.queries@.len());
                    received = received + 1;
                    assert(self.queries@.subrange(0, start.len() as int) =~= start) by {
                        assert(q.subrange(0, start.len() as int) == start);
                    }
                },
                DrainStep::Refused(refusal) => {
                    let outcome = try_deliver(&self.outbound, refusal);
                    proof {
                        delivery = outcome;
                    }
                    if Self::refusal_breaks(outcome) {
                        proof {
                            let e = (arrived, delivery);
                            assert(drain_run(start, limit, now, before_events + seq![e], 0)
                                == drain_run(q, limit, now, seq![e], received as nat));
                            events = before_events.push(e);
                            assert(events =~= before_events + seq![e]);
                        }
                        return Err(Error::ConnectionBroken);
                    }
                },
                DrainStep::Finished => {
                    proof {
                        let e = (arrived, delivery);
                        assert(drain_run(start, limit, now, before_events + seq![e], 0)
                            == drain_run(q, limit, now, seq![e], received as nat));
                        events = before_events.push(e);
                        assert(events =~= before_events + seq![e]);
                    }
                    return Ok(received);
                },
                DrainStep::Broken => {
                    proof {
                        let e = (arrived, delivery);
                        assert(drain_run(start, limit, now, before_events + seq![e], 0)
                            == drain_run(q, limit, now, seq![e], received as nat));
                        events = before_events.push(e);
                        assert(events =~= before_events + seq![e]);
                    }
                    return Err(Error::ConnectionBroken);
                },
            }
            proof {
                let e = (arrived, delivery);
                assert forall|rest: Seq<(Received<DNSRequest>, Delivery)>|
                    #[trigger] drain_run(start, limit, now, before_events.push(e) + rest, 0) == drain_run(
                        self.queries@,
                        limit,
                        now,
                        rest,
                        received as nat,
                    ) by {
                    let longer = seq![e] + rest;
                    assert(before_events.push(e) + rest =~= before_events + longer);
                    assert(drain_run(start, limit, now, before_events + longer, 0) == drain_run(
                        q,
                        limit,
                        now,
                        longer,
                        if step is Queued { (received - 1) as nat } else { received as nat },
                    ));
                    assert(longer[0] == e);
                    assert(longer.drop_first() =~= rest);
                }
                events = before_events.push(e);
            }
            round = round + 1;
        }
        proof {
            assert(drain_run(start, limit, now, events + Seq::empty(), 0) == drain_run(
                self.queries@,
                limit,
                now,
                Seq::empty(),
                received as nat,
            ));
            assert(events + Seq::<(Received<DNSRequest>, Delivery)>::empty() =~= events);
        }
        Ok(received)
    }

    /// Takes the oldest waiting request off the queue, if there is one: at
    /// time `now`, a request whose deadline has passed is answered with a
    /// timeout error, and any other is resolved as `resolve` does.
    pub fn handle_query(&mut self, now: u128) -> (r: Option<Resolution>)
        ensures
            final(self).inbound_channel() == old(self).inbound_channel(),
            final(self).outbound_channel() == old(self).outbound_channel(),
            final(self).queued().len() <= final(self).limit(),
            final(self).limit() == old(self).limit(),
            final(self).fixed_answers() == old(self).fixed_answers(),
            old(self).queued().len() == 0 ==> r is None && final(self).queued() == old(self).queued(),
            old(self).queued().len() > 0 ==> {
                let req = old(self).queued()[0];
                &&& final(self).queued() == old(self).queued().drop_first()
                &&& r matches Some(res) && if expired(req.timeout, now) {
                    res matches Resolution::Answered(resp) && is_error_response(
                        resp,
                        req,
                        "DNS request timed out"@,
                    )
                } else {
                    resolves_as(old(self).fixed_answers(), req, res)
                }
            },
    {
        proof {
            use_type_invariant(&*self);
        }
        let mut queries = VecDeque::new();
        std::mem::swap(&mut queries, &mut self.queries);
        let front = queries.pop_front();
        self.queries = queries;
        let req = match front {
            Some(r) => r,
            None => {
                return None;
            },
        };
        assert(self.queries@ =~= old(self).queued().drop_first());
        if req.is_timed_out(now) {
            return Some(Resolution::Answered(DNSResponse::error(req, "DNS request timed out".to_owned())));
        }
        let resolution = self.resolve(req);
        Some(resolution)
    }

    /// The most requests that may wait at once.
    pub fn max_inflight(&self) -> (n: u64)
        ensures
            n == self.limit(),
    {
        self.max_inflight
    }

    /// Sends `response` to the client without waiting; gives back what became
    /// of it.
    pub fn reply(&self, response: DNSResponse) -> Delivery {
        try_deliver(&self.outbound, response)
    }
}


/// How long the resolver thread waits when a round of draining found no
/// request, in milliseconds.
pub const IDLE_SLEEP_MS: u64 = 100;

/// What the resolver thread has just seen.
#[derive(Debug)]
pub enum ResolverEvent {
    /// Draining the inbox ended so.
    Drained(Result<usize, Error>),
    /// There was no waiting request to serve.
    NothingToServe,
    /// A request was served, and sending its response ended so.
    Replied(Delivery),
}

/// What the resolver thread does next.
#[derive(Clone, Copy, Debug, PartialEq, Eq)]
pub enum ResolverAction {
    /// Drain the inbox.
    Drain,
    /// Serve the oldest waiting request and send the response.
    Serve,
    /// Wait this many milliseconds, then drain the inbox.
    SleepThenDrain(u64),
    /// Wait this many milliseconds, then serve.
    SleepThenServe(u64),
    /// End the thread.
    Stop,
}

/// The resolver thread's decisions. It drains the inbox, then serves up to
/// `limit` waiting requests before draining again; `served` counts the
/// requests served since the last drain. A drain that fails ends the thread;
/// one that queued nothing is followed by a pause; serving stops early when
/// the queue is empty or the client is found gone.
pub fn resolver_next(served: u64, limit: u64, event: ResolverEvent) -> (r: (u64, ResolverAction))
    requires
        event is Replied ==> served < limit,
    ensures
        match event {
            ResolverEvent::Drained(Err(_)) => r == (0u64, ResolverAction::Stop),
            ResolverEvent::Drained(Ok(n)) => r == (
                0u64,
                if n == 0 {
                    if limit > 0 {
                        ResolverAction::SleepThenServe(IDLE_SLEEP_MS)
                    } else {
                        ResolverAction::SleepThenDrain(IDLE_SLEEP_MS)
                    }
                } else if limit > 0 {
                    ResolverAction::Serve
                } else {
                    ResolverAction::Drain
                },
            ),
            ResolverEvent::NothingToServe => r == (served, ResolverAction::Drain),
            ResolverEvent::Replied(d) => if d == Delivery::Disconnected {
                r == (served, ResolverAction::Drain)
            } else {
                r == (
                    (served + 1) as u64,
                    if served + 1 < limit {
                        ResolverAction::Serve
                    } else {
                        ResolverAction::Drain
                    },
                )
            },
        },
{
    match event {
        ResolverEvent::Drained(Err(_)) => (0, ResolverAction::Stop),
        ResolverEvent::Drained(Ok(n)) => {
            let action = if n == 0 {
                if limit > 0 {
                    ResolverAction::SleepThenServe(IDLE_SLEEP_MS)
                } else {
                    ResolverAction::SleepThenDrain(IDLE_SLEEP_MS)
                }
            } else if limit > 0 {
                ResolverAction::Serve
            } else {
                ResolverAction::Drain
            };
            (0, action)
        },
        ResolverEvent::NothingToServe => (served, ResolverAction::Drain),
        ResolverEvent::Replied(Delivery::Disconnected) => (served, ResolverAction::Drain),
        ResolverEvent::Replied(_) => {
            let next = served + 1;
            if next < limit {
                (next, ResolverAction::Serve)
            } else {
                (next, ResolverAction::Drain)
            }
        },
    }
}

/// How a queued lookup has been answered.
#[derive(Debug)]
pub enum Answer {
    /// The resolver's response arrived in time.
    Resolved(DNSResponse),
    /// The lookup ran out of time; the error response will carry this
    /// deadline.
    TimedOut(u128),
}

/// A lookup the client has queued: the deadline it was first queued with,
/// and its answer once there is one.
#[derive(Debug)]
pub struct PendingLookup {
    pub timeout: u128,
    pub answer: Option<Answer>,
}

/// The lookups after `(host, port)` has been queued with deadline `timeout`:
/// the lookup waits for an answer again, and keeps the deadline it was
/// first queued with where it was already known.
pub open spec fn queued(
    m: Map<HostPort, PendingLookup>,
    key: HostPort,
    timeout: u128,
) -> Map<HostPort, PendingLookup> {
    let deadline = if m.contains_key(key) { m[key].timeout } else { timeout };
    m.insert(key, PendingLookup { timeout: deadline, answer: None })
}

/// The lookups at time `now` once every lookup whose deadline has passed is
/// answered with a timeout, whatever answer it had.
pub open spec fn expire(m: Map<HostPort, PendingLookup>, now: u128) -> Map<HostPort, PendingLookup> {
    Map::new(
        |k: HostPort| m.contains_key(k),
        |k: HostPort|
            if expired(m[k].timeout, now) {
                PendingLookup { timeout: m[k].timeout, answer: Some(Answer::TimedOut(m[k].timeout)) }
            } else {
                m[k]
            },
    )
}

/// Whether `response`, arriving at time `now`, answers a lookup in `m` in
/// time.
pub open spec fn counts(m: Map<HostPort, PendingLookup>, response: DNSResponse, now: u128) -> bool {
    m.contains_key(request_key(response.request)) && !expired(response.request.timeout, now)
}

/// The lookups once `response` has arrived at time `now`: a response for no
/// queued lookup is dropped; one whose request's deadline has passed answers
/// its lookup with a timeout; any other answers its lookup.
pub open spec fn receive(m: Map<HostPort, PendingLookup>, response: DNSResponse, now: u128) -> Map<
    HostPort,
    PendingLookup,
> {
    let key = request_key(response.request);
    if !m.contains_key(key) {
        m
    } else if expired(response.request.timeout, now) {
        m.insert(
            key,
            PendingLookup {
                timeout: m[key].timeout,
                answer: Some(Answer::TimedOut(response.request.timeout)),
            },
        )
    } else {
        m.insert(key, PendingLookup { timeout: m[key].timeout, answer: Some(Answer::Resolved(response)) })
    }
}

/// The lookups once `responses` have arrived at time `now`, in order.
pub open spec fn receive_all(
    m: Map<HostPort, PendingLookup>,
    responses: Seq<DNSResponse>,
    now: u128,
) -> Map<HostPort, PendingLookup>
    decreases responses.len(),
{
    if responses.len() == 0 {
        m
    } else {
        receive(receive_all(m, responses.drop_last(), now), responses.last(), now)
    }
}

/// How many of `responses`, arriving in order at time `now`, answer a lookup
/// in time.
pub open spec fn accepted(m: Map<HostPort, PendingLookup>, responses: Seq<DNSResponse>, now: u128) -> nat
    decreases responses.len(),
{
    if responses.len() == 0 {
        0
    } else {
        accepted(m, responses.drop_last(), now) + if counts(
            receive_all(m, responses.drop_last(), now),
            responses.last(),
            now,
        ) {
            1nat
        } else {
            0nat
        }
    }
}

/// What taking in a batch of responses at time `now` does: the lookups go
/// from `before` to `after` as `expire` and then `receive_all` say, and the
/// outcome is the number of responses that answered a lookup in time, or an
/// error where the channel was found disconnected and none did.
pub open spec fn receive_outcome(
    before: Map<HostPort, PendingLookup>,
    responses: Seq<DNSResponse>,
    disconnected: bool,
    now: u128,
    after: Map<HostPort, PendingLookup>,
    outcome: Result<usize, Error>,
) -> bool {
    let n = accepted(expire(before, now), responses, now);
    &&& after == receive_all(expire(before, now), responses, now)
    &&& if disconnected && n == 0 {
        outcome matches Err(Error::RecvError(text)) && text@ == "Disconnected"@
    } else {
        outcome == Ok::<usize, Error>(n as usize)
    }
}

/// The responses among what a sequence of channel reads found, in order.
pub open spec fn messages_of(reads: Seq<Received<DNSResponse>>) -> Seq<DNSResponse>
    decreases reads.len(),
{
    if reads.len() == 0 {
        Seq::empty()
    } else {
        let earlier = messages_of(reads.drop_last());
        match reads.last() {
            Received::Message(m) => earlier.push(m),
            _ => earlier,
        }
    }
}

/// Whether the last of a sequence of channel reads found the other end gone.
pub open spec fn ends_disconnected(reads: Seq<Received<DNSResponse>>) -> bool {
    reads.len() > 0 && reads.last() is Disconnected
}

/// The text of the error for polling a lookup that was never queued.
pub open spec fn no_such_lookup_text(host: Seq<char>, port: u16) -> Seq<char> {
    "No such pending lookup: "@ + host + ":"@ + decimal(port as nat)
}

/// `response` is what polling `(host, port)` hands out for `answer`: the
/// response itself, or a timeout error for a request with that deadline.
pub open spec fn answer_response(answer: Answer, host: Seq<char>, port: u16, response: DNSResponse) -> bool {
    match answer {
        Answer::Resolved(r) => response == r,
        Answer::TimedOut(t) => {
            &&& response.request.host@ == host
            &&& response.request.port == port
            &&& response.request.timeout == t
            &&& response.result matches Err(e) && e@ == "DNS lookup timed out"@
        },
    }
}

/// The client's side of the asynchronous DNS service: the lookups it has
/// queued, by host name and port, and its two channels to the resolver.
pub struct DNSClient {
    requests: HostPortTable<PendingLookup>,
    requests_tx: SyncSender<DNSRequest>,
    requests_rx: Receiver<DNSResponse>,
}

/// Answers with a timeout every lookup in `requests` whose deadline has
/// passed at time `now`.
fn expire_lookups(requests: &mut HostPortTable<PendingLookup>, now: u128)
    requires
        old(requests).wf(),
    ensures
        final(requests).wf(),
        final(requests)@ == expire(old(requests)@, now),
{
    let ghost before = *requests;
    proof {
        before.lemma_positions();
    }
    let n = requests.len();
    let mut i: usize = 0;
    while i < n
        invariant
            requests.wf(),
            before.wf(),
            before == *old(requests),
            n == requests.size(),
            n == before.size(),
            0 <= i <= n,
            forall|j: int| 0 <= j < n ==> #[trigger] requests.key_at(j) == before.key_at(j),
            forall|j: int|
                0 <= j < i ==> #[trigger] requests.value_at(j) == expire(before@, now)[before.key_at(j)],
            forall|j: int| i <= j < n ==> #[trigger] requests.value_at(j) == before.value_at(j),
        decreases n - i,
    {
        let deadline = requests.entry(i).2.timeout;
        proof {
            before.lemma_positions();
            assert(before@[before.key_at(i as int)] == before.value_at(i as int));
        }
        if now > deadline {
            requests.set_value(i, PendingLookup { timeout: deadline, answer: Some(Answer::TimedOut(deadline)) });
        }
        i = i + 1;
    }
    proof {
        requests.lemma_positions();
        assert forall|k: HostPort| #[trigger] requests@.contains_key(k) == expire(before@, now).contains_key(k) by {
            if requests@.contains_key(k) {
                let j = choose|j: int| 0 <= j < requests.size() && requests.key_at(j) == k;
                assert(before@.contains_key(before.key_at(j)));
            }
            if before@.contains_key(k) {
                let j = choose|j: int| 0 <= j < before.size() && before.key_at(j) == k;
                assert(requests@.contains_key(requests.key_at(j)));
            }
        }
        assert forall|k: HostPort| #[trigger] requests@.contains_key(k) implies requests@[k] == expire(before@, now)[k] by {
            let j = choose|j: int| 0 <= j < requests.size() && requests.key_at(j) == k;
            assert(requests@[requests.key_at(j)] == requests.value_at(j));
        }
        assert(requests@ =~= expire(before@, now));
    }
}

/// Takes one response that arrived at time `now` into `requests`, as
/// `receive` says; gives back whether it answered a lookup in time.
fn take_response(requests: &mut HostPortTable<PendingLookup>, response: DNSResponse, now: u128) -> (counted: bool)
    requires
        old(requests).wf(),
    ensures
        final(requests).wf(),
        final(requests)@ == receive(old(requests)@, response, now),
        counted == counts(old(requests)@, response, now),
{
    proof {
        requests.lemma_positions();
    }
    match requests.find(response.request.host.as_str(), response.request.port) {
        None => false,
        Some(i) => {
            let deadline = requests.entry(i).2.timeout;
            if response.request.is_timed_out(now) {
                let late = response.request.timeout;
                requests.set_value(i, PendingLookup { timeout: deadline, answer: Some(Answer::TimedOut(late)) });
                false
            } else {
                requests.set_value(
                    i,
                    PendingLookup { timeout: deadline, answer: Some(Answer::Resolved(response)) },
                );
                true
            }
        },
    }
}

/// Timing out lookups and taking in responses keep every answer filed under
/// the host and port it answers.
proof fn lemma_answers_stay_matched(m: Map<HostPort, PendingLookup>, responses: Seq<DNSResponse>, now: u128)
    requires
        answers_match(m),
    ensures
        answers_match(expire(m, now)),
        answers_match(receive_all(m, responses, now)),
    decreases responses.len(),
{
    if responses.len() > 0 {
        lemma_answers_stay_matched(m, responses.drop_last(), now);
        law_receiving_keeps_lookups(m, responses.drop_last(), now);
        let before = receive_all(m, responses.drop_last(), now);
        let after = receive(before, responses.last(), now);
        assert forall|k: HostPort| #[trigger] after.contains_key(k) implies (after[k].answer matches Some(
            Answer::Resolved(r),
        ) ==> request_key(r.request) == k) by {
            assert(before.contains_key(k));
        }
    }
}

impl DNSClient {
    /// The queued lookups, by host name and port.
    pub closed spec fn pending(&self) -> Map<HostPort, PendingLookup> {
        self.requests@
    }

    /// The queued lookups form a table, and each answer recorded is filed
    /// under the host and port it answers.
    #[verifier::type_invariant]
    closed spec fn wf(&self) -> bool {
        &&& self.requests.wf()
        &&& answers_match(self.requests@)
    }

    /// The channel end on which the client sends requests to the resolver.
    pub closed spec fn request_channel(&self) -> SyncSender<DNSRequest> {
        self.requests_tx
    }

    /// The channel end from which the client takes the resolver's responses.
    pub closed spec fn response_channel(&self) -> Receiver<DNSResponse> {
        self.requests_rx
    }

    /// A client with no lookups that sends requests on `inbound` and takes
    /// responses from `outbound`.
    pub fn new(inbound: SyncSender<DNSRequest>, outbound: Receiver<DNSResponse>) -> (c: DNSClient)
        ensures
            c.pending() == Map::<HostPort, PendingLookup>::empty(),
            c.request_channel() == inbound,
            c.response_channel() == outbound,
    {
        DNSClient { requests_tx: inbound, requests_rx: outbound, requests: HostPortTable::new() }
    }

    /// Records what follows the sending of a request to resolve `host` for
    /// `port` by the time `timeout`: where it was delivered, the lookup is
    /// recorded as waiting; where it was not, nothing changes and the error
    /// says the query could not be queued.
    pub fn record_lookup(&mut self, delivered: bool, host: &str, port: u16, timeout: u128) -> (r: Result<
        (),
        Error,
    >)
        ensures
            final(self).request_channel() == old(self).request_channel(),
            final(self).response_channel() == old(self).response_channel(),
            delivered ==> r is Ok && final(self).pending() == queued(
                old(self).pending(),
                (host@, port),
                timeout,
            ),
            !delivered ==> {
                &&& final(self).pending() == old(self).pending()
                &&& r matches Err(Error::LookupError(text))
                &&& text@ == "Failed to queue DNS query"@
            },
    {
        proof {
            use_type_invariant(&*self);
        }
        if !delivered {
            return Err(Error::LookupError("Failed to queue DNS query".to_owned()));
        }
        let mut requests = HostPortTable::new();
        std::mem::swap(&mut requests, &mut self.requests);
        proof {
            requests.lemma_positions();
        }
        match requests.find(host, port) {
            Some(i) => {
                let deadline = requests.entry(i).2.timeout;
                requests.set_value(i, PendingLookup { timeout: deadline, answer: None });
            },
            None => {
                requests.insert(host.to_owned(), port, PendingLookup { timeout: timeout, answer: None });
            },
        }
        self.requests = requests;
        Ok(())
    }

    /// Sends the resolver a request to resolve `host` for `port` by the time
    /// `timeout`, and records the outcome as `record_lookup` does: the lookup
    /// waits where the request was delivered; otherwise nothing changes and
    /// the query could not be queued. Whether it is delivered depends on the
    /// resolver's thread.
    pub fn queue_lookup(&mut self, host: &str, port: u16, timeout: u128) -> (r: Result<(), Error>)
        ensures
            final(self).request_channel() == old(self).request_channel(),
            final(self).response_channel() == old(self).response_channel(),
            r is Ok ==> final(self).pending() == queued(old(self).pending(), (host@, port), timeout),
            r matches Err(e) ==> {
                &&& final(self).pending() == old(self).pending()
                &&& e matches Error::LookupError(text)
                &&& text@ == "Failed to queue DNS query"@
            },
    {
        let req = DNSRequest::new(host.to_owned(), port, timeout);
        let delivered = deliver(&self.requests_tx, req);
        self.record_lookup(delivered, host, port, timeout)
    }

    /// Takes in, at time `now`, the responses that arrived, oldest first, and
    /// whether the resolver was found gone after them: first every lookup
    /// whose deadline has passed is answered with a timeout, then each
    /// response is taken in as `receive` says. Gives back how many responses
    /// answered a lookup in time; fails where the resolver was gone and none
    /// did.
    pub fn accept_responses(
        &mut self,
        now: u128,
        responses: VecDeque<DNSResponse>,
        disconnected: bool,
    ) -> (r: Result<usize, Error>)
        ensures
            final(self).request_channel() == old(self).request_channel(),
            final(self).response_channel() == old(self).response_channel(),
            receive_outcome(old(self).pending(), responses@, disconnected, now, final(self).pending(), r),
    {
        broadcast use vstd::std_specs::vecdeque::group_vec_dequeue_axioms;

        proof {
            use_type_invariant(&*self);
        }
        let mut requests = HostPortTable::new();
        std::mem::swap(&mut requests, &mut self.requests);
        expire_lookups(&mut requests, now);
        let ghost start = requests@;
        let ghost all = responses@;
        let mut rest = responses;
        assert(rest.len() == all.len());
        let mut count: usize = 0;
        let ghost mut done: int = 0;
        loop
            invariant
                requests.wf(),
                all.len() <= usize::MAX,
                0 <= done <= all.len(),
                rest@ == all.subrange(done, all.len() as int),
                requests@ == receive_all(start, all.subrange(0, done), now),
                count == accepted(start, all.subrange(0, done), now),
                count <= done,
            ensures
                done == all.len(),
                requests.wf(),
                requests@ == receive_all(start, all.subrange(0, done), now),
                count == accepted(start, all.subrange(0, done), now),
            decreases all.len() - done,
        {
            let response = match rest.pop_front() {
                Some(resp) => resp,
                None => {
                    break ;
                },
            };
            proof {
                let prefix = all.subrange(0, done + 1);
                assert(prefix.drop_last() =~= all.subrange(0, done));
                assert(prefix.last() == response);
            }
            let counted = take_response(&mut requests, response, now);
            if counted {
                count = count + 1;
            }
            proof {
                done = done + 1;
                assert(rest@ =~= all.subrange(done, all.len() as int));
            }
        }
        proof {
            assert(all.subrange(0, done) =~= all);
            lemma_answers_stay_matched(old(self).pending(), Seq::empty(), now);
            lemma_answers_stay_matched(start, all, now);
        }
        self.requests = requests;
        if disconnected && count == 0 {
            return Err(Error::RecvError("Disconnected".to_owned()));
        }
        Ok(count)
    }

    /// Adds what one read of the response channel found to `batch`: a
    /// message joins the back, and reading goes on; an empty channel stops
    /// the reading; a disconnected one stops it and is recorded. Gives back
    /// whether to stop and whether the resolver was found gone.
    pub fn read_step(batch: &mut VecDeque<DNSResponse>, got: Received<DNSResponse>) -> (r: (
        bool,
        bool,
    ))
        ensures
            match got {
                Received::Message(m) => final(batch)@ == old(batch)@.push(m) && r == (false, false),
                Received::Empty => final(batch)@ == old(batch)@ && r == (true, false),
                Received::Disconnected => final(batch)@ == old(batch)@ && r == (true, true),
            },
    {
        match got {
            Received::Message(m) => {
                batch.push_back(m);
                (false, false)
            },
            Received::Empty => (true, false),
            Received::Disconnected => (true, true),
        }
    }

    /// Takes every response waiting on the channel from the resolver and
    /// takes them in at time `now` as `accept_responses` does.
    ///
    /// What the channel hands over depends on the resolver's thread; whatever
    /// the reads found, in order, the responses among them and whether the
    /// last read found the resolver gone are taken in as `receive_outcome`
    /// says.
    pub fn try_recv(&mut self, now: u128) -> (r: Result<usize, Error>)
        ensures
            final(self).request_channel() == old(self).request_channel(),
            final(self).response_channel() == old(self).response_channel(),
            exists|reads: Seq<Received<DNSResponse>>|
                reads.len() <= usize::MAX && (forall|i: int|
                    0 <= i < reads.len() - 1 ==> #[trigger] reads[i] is Message)
                    && receive_outcome(
                    old(self).pending(),
                    messages_of(reads),
                    ends_disconnected(reads),
                    now,
                    final(self).pending(),
                    r,
                ),
    {
        broadcast use vstd::std_specs::vecdeque::group_vec_dequeue_axioms;

        let mut batch: VecDeque<DNSResponse> = VecDeque::new();
        let mut disconnected = false;
        let ghost mut reads: Seq<Received<DNSResponse>> = Seq::empty();
        loop
            invariant_except_break
                batch@ == messages_of(reads),
                batch@.len() == reads.len(),
                forall|i: int| 0 <= i < reads.len() ==> #[trigger] reads[i] is Message,
                !disconnected,
            ensures
                batch@ == messages_of(reads),
                reads.len() <= usize::MAX,
                forall|i: int| 0 <= i < reads.len() - 1 ==> #[trigger] reads[i] is Message,
                disconnected == ends_disconnected(reads),
            decreases usize::MAX - batch@.len(),
        {
            if batch.len() >= usize::MAX {
                break ;
            }
            let got = try_receive(&self.requests_rx);
            let ghost g = got;
            let (stop, found_gone) = Self::read_step(&mut batch, got);
            proof {
                let longer = reads.push(g);
                assert(longer.drop_last() =~= reads);
                assert(longer.last() == g);
                reads = longer;
                assert(batch@ =~= messages_of(reads));
            }
            if stop {
                disconnected = found_gone;
                break ;
            }
        }
        let ghost responses = batch@;
        let r = self.accept_responses(now, batch, disconnected);
        assert(receive_outcome(old(self).pending(), messages_of(reads), ends_disconnected(reads), now, self.pending(), r));
        r
    }

    /// Hands out the answer to the lookup of `host` for `port`, if it has
    /// one, and forgets the lookup; fails where no such lookup is queued.
    pub fn poll_lookup(&mut self, host: &str, port: u16) -> (r: Result<Option<DNSResponse>, Error>)
        ensures
            final(self).request_channel() == old(self).request_channel(),
            final(self).response_channel() == old(self).response_channel(),
            ({
                let key = (host@, port);
                let m = old(self).pending();
                if !m.contains_key(key) {
                    &&& final(self).pending() == m
                    &&& r matches Err(Error::LookupError(text)) && text@ == no_such_lookup_text(host@, port)
                } else if m[key].answer is None {
                    &&& final(self).pending() == m
                    &&& r matches Ok(None)
                } else {
                    &&& final(self).pending() == m.remove(key)
                    &&& r matches Ok(Some(resp)) && answer_response(m[key].answer->0, host@, port, resp)
                }
            }),
            r matches Ok(Some(resp)) ==> resp.request.host@ == host@ && resp.request.port == port,
    {
        proof {
            use_type_invariant(&*self);
            self.requests.lemma_positions();
        }
        let i = match self.requests.find(host, port) {
            Some(i) => i,
            None => {
                let mut text = "No such pending lookup: ".to_owned();
                text.append(host);
                text.append(":");
                append_decimal(&mut text, port);
                proof {
                    reveal_strlit(":");
                    assert(text@ =~= no_such_lookup_text(host@, port));
                }
                return Err(Error::LookupError(text));
            },
        };
        if self.requests.entry(i).2.answer.is_none() {
            return Ok(None);
        }
        let mut requests = HostPortTable::new();
        std::mem::swap(&mut requests, &mut self.requests);
        let taken = requests.remove(host, port);
        self.requests = requests;
        match taken {
            Some(PendingLookup { timeout: _, answer: Some(Answer::Resolved(resp)) }) => Ok(Some(resp)),
            Some(PendingLookup { timeout: _, answer: Some(Answer::TimedOut(deadline)) }) => {
                let request = DNSRequest::new(host.to_owned(), port, deadline);
                Ok(Some(DNSResponse::error(request, "DNS lookup timed out".to_owned())))
            },
            _ => Ok(None),
        }
    }

    /// Forgets every lookup.
    pub fn clear_all_requests(&mut self)
        ensures
            final(self).request_channel() == old(self).request_channel(),
            final(self).response_channel() == old(self).response_channel(),
            final(self).pending() == Map::<HostPort, PendingLookup>::empty(),
    {
        let mut requests = HostPortTable::new();
        std::mem::swap(&mut requests, &mut self.requests);
        requests.clear();
        self.requests = requests;
    }
}


/// Queuing a lookup leaves it waiting for an answer, with the deadline it
/// was first queued with where it was already queued, and leaves every other
/// lookup as it was.
pub proof fn law_queued_lookup_waits(m: Map<HostPort, PendingLookup>, key: HostPort, timeout: u128)
    ensures
        queued(m, key, timeout).contains_key(key),
        queued(m, key, timeout)[key].answer is None,
        queued(m, key, timeout)[key].timeout == if m.contains_key(key) {
            m[key].timeout
        } else {
            timeout
        },
        forall|k: HostPort|
            k != key ==> (#[trigger] queued(m, key, timeout).contains_key(k) == m.contains_key(k) && (
            m.contains_key(k) ==> queued(m, key, timeout)[k] == m[k])),
{
}

/// At time `now`, every lookup whose deadline has passed is answered with a
/// timeout that carries its deadline; every other lookup is left as it was;
/// no lookup appears or disappears.
pub proof fn law_expired_lookups_time_out(m: Map<HostPort, PendingLookup>, now: u128, key: HostPort)
    requires
        m.contains_key(key),
    ensures
        expire(m, now).dom() == m.dom(),
        expired(m[key].timeout, now) ==> expire(m, now)[key] == (PendingLookup {
            timeout: m[key].timeout,
            answer: Some(Answer::TimedOut(m[key].timeout)),
        }),
        !expired(m[key].timeout, now) ==> expire(m, now)[key] == m[key],
{
    assert(expire(m, now).dom() =~= m.dom());
}

/// A response that arrives in time for a queued lookup answers it, and the
/// lookup keeps its deadline.
pub proof fn law_timely_response_answers(m: Map<HostPort, PendingLookup>, response: DNSResponse, now: u128)
    requires
        counts(m, response, now),
    ensures
        receive(m, response, now)[request_key(response.request)] == (PendingLookup {
            timeout: m[request_key(response.request)].timeout,
            answer: Some(Answer::Resolved(response)),
        }),
{
}

/// A response whose request's deadline has passed answers its lookup with a
/// timeout that carries that deadline.
pub proof fn law_late_response_times_out(m: Map<HostPort, PendingLookup>, response: DNSResponse, now: u128)
    requires
        m.contains_key(request_key(response.request)),
        expired(response.request.timeout, now),
    ensures
        receive(m, response, now)[request_key(response.request)].answer == Some(
            Answer::TimedOut(response.request.timeout),
        ),
{
}

/// A response for no queued lookup changes nothing and is not counted.
pub proof fn law_unrequested_response_dropped(m: Map<HostPort, PendingLookup>, response: DNSResponse, now: u128)
    requires
        !m.contains_key(request_key(response.request)),
    ensures
        receive(m, response, now) == m,
        !counts(m, response, now),
{
}

/// Taking in responses never adds or drops a lookup, and counts at most one
/// per response.
pub proof fn law_receiving_keeps_lookups(
    m: Map<HostPort, PendingLookup>,
    responses: Seq<DNSResponse>,
    now: u128,
)
    ensures
        receive_all(m, responses, now).dom() == m.dom(),
        accepted(m, responses, now) <= responses.len(),
    decreases responses.len(),
{
    if responses.len() > 0 {
        law_receiving_keeps_lookups(m, responses.drop_last(), now);
        let before = receive_all(m, responses.drop_last(), now);
        assert(receive(before, responses.last(), now).dom() =~= before.dom());
    }
}

/// A lookup queued with a deadline that has not passed, whose response then
/// arrives in time and alone, is answered with that response, and the
/// response is counted once; polling then hands the response out and
/// forgets the lookup, so that a second poll finds no such lookup.
pub proof fn law_answer_reaches_waiting_lookup(
    m: Map<HostPort, PendingLookup>,
    timeout: u128,
    response: DNSResponse,
    now: u128,
)
    requires
        !m.contains_key(request_key(response.request)),
        !expired(timeout, now),
        !expired(response.request.timeout, now),
    ensures
        ({
            let key = request_key(response.request);
            let after = receive_all(expire(queued(m, key, timeout), now), seq![response], now);
            &&& after.contains_key(key)
            &&& after[key].answer == Some(Answer::Resolved(response))
            &&& accepted(expire(queued(m, key, timeout), now), seq![response], now) == 1
            &&& !after.remove(key).contains_key(key)
        }),
{
    let key = request_key(response.request);
    let q = queued(m, key, timeout);
    let e = expire(q, now);
    assert(e.contains_key(key));
    assert(e[key] == q[key]);
    assert(seq![response].drop_last() =~= Seq::<DNSResponse>::empty());
    assert(seq![response].last() == response);
    let one = seq![response];
    assert(receive_all(e, one.drop_last(), now) == e);
    assert(accepted(e, one.drop_last(), now) == 0);
    assert(receive_all(e, one, now) == receive(e, response, now));
    assert(counts(e, response, now));
    assert(accepted(e, one, now) == 1);
}

/// Every answer recorded in `m` answers the host and port it is filed
/// under.
pub open spec fn answers_match(m: Map<HostPort, PendingLookup>) -> bool {
    forall|k: HostPort|
        #[trigger] m.contains_key(k) ==> (m[k].answer matches Some(Answer::Resolved(r)) ==> request_key(
            r.request,
        ) == k)
}

/// Queuing, timing out, taking in responses and forgetting a polled lookup
/// all file answers under the host and port they answer; and a lookup stays
/// queued through timeouts and responses, and through polls of other names,
/// until it is polled itself. So the answer that a poll of a name hands out
/// is for that name, and the lookup is gone afterwards.
pub proof fn law_lookups_answer_their_own_name(
    m: Map<HostPort, PendingLookup>,
    key: HostPort,
    other: HostPort,
    timeout: u128,
    responses: Seq<DNSResponse>,
    now: u128,
)
    requires
        answers_match(m),
        other != key,
    ensures
        answers_match(queued(m, key, timeout)),
        answers_match(expire(m, now)),
        answers_match(receive_all(m, responses, now)),
        answers_match(m.remove(key)),
        m.contains_key(key) ==> expire(m, now).contains_key(key),
        m.contains_key(key) ==> receive_all(m, responses, now).contains_key(key),
        m.contains_key(key) ==> m.remove(other).contains_key(key),
        !m.remove(key).contains_key(key),
    decreases responses.len(),
{
    law_receiving_keeps_lookups(m, responses, now);
    if responses.len() > 0 {
        law_lookups_answer_their_own_name(m, key, other, timeout, responses.drop_last(), now);
        let before = receive_all(m, responses.drop_last(), now);
        let after = receive(before, responses.last(), now);
        assert forall|k: HostPort| #[trigger] after.contains_key(k) implies (after[k].answer matches Some(
            Answer::Resolved(r),
        ) ==> request_key(r.request) == k) by {
            assert(before.contains_key(k));
        }
    }
}

/// One change of a client's lookups that leaves the lookup of `key` in
/// place: taking in responses at some time, as `try_recv` and
/// `accept_responses` do; a poll that hands nothing out; or a poll of another
/// name that hands its answer out.
pub open spec fn step_sparing(
    before: Map<HostPort, PendingLookup>,
    after: Map<HostPort, PendingLookup>,
    key: HostPort,
) -> bool {
    ||| exists|responses: Seq<DNSResponse>, now: u128|
        after == receive_all(expire(before, now), responses, now)
    ||| after == before
    ||| exists|other: HostPort| other != key && after == before.remove(other)
}

/// Once `(host, port)` is queued, through any run of client calls that
/// leave it in place, it stays queued, and whatever answer it has is for
/// that host and port; a poll of it then hands out a response for that host
/// and port (or nothing, while it waits), after which it is no longer
/// queued.
pub proof fn law_queued_lookup_answered_for_itself(
    m: Map<HostPort, PendingLookup>,
    key: HostPort,
    timeout: u128,
    trace: Seq<Map<HostPort, PendingLookup>>,
)
    requires
        answers_match(m),
        trace.len() > 0,
        trace[0] == queued(m, key, timeout),
        forall|i: int| 0 <= i < trace.len() - 1 ==> step_sparing(#[trigger] trace[i], trace[i + 1], key),
    ensures
        forall|i: int|
            0 <= i < trace.len() ==> {
                &&& (#[trigger] trace[i]).contains_key(key)
                &&& answers_match(trace[i])
                &&& trace[i][key].answer matches Some(Answer::Resolved(r)) ==> request_key(r.request) == key
            },
        !trace.last().remove(key).contains_key(key),
    decreases trace.len(),
{
    if trace.len() == 1 {
        assert(answers_match(trace[0]));
    } else {
        let shorter = trace.drop_last();
        assert forall|i: int| 0 <= i < shorter.len() - 1 implies step_sparing(
            #[trigger] shorter[i],
            shorter[i + 1],
            key,
        ) by {
            assert(shorter[i] == trace[i]);
            assert(shorter[i + 1] == trace[i + 1]);
            assert(step_sparing(trace[i], trace[i + 1], key));
        }
        law_queued_lookup_answered_for_itself(m, key, timeout, shorter);
        let n = trace.len() - 1;
        let before = trace[n - 1];
        let after = trace[n];
        assert(shorter[n - 1] == before);
        assert(before.contains_key(key) && answers_match(before));
        assert(step_sparing(trace[n - 1], trace[n], key));
        if exists|responses: Seq<DNSResponse>, now: u128|
            after == receive_all(expire(before, now), responses, now) {
            let (responses, now) = choose|responses: Seq<DNSResponse>, now: u128|
                after == receive_all(expire(before, now), responses, now);
            assert(key.0.push('x').len() != key.0.len());
            law_lookups_answer_their_own_name(before, key, (key.0.push('x'), key.1), timeout, Seq::empty(), now);
            let e = expire(before, now);
            assert(e.contains_key(key));
            law_receiving_keeps_lookups(e, responses, now);
            law_lookups_answer_their_own_name(e, key, (key.0.push('x'), key.1), timeout, responses, now);
        } else if after == before {
        } else {
            let other = choose|other: HostPort| other != key && after == before.remove(other);
            law_lookups_answer_their_own_name(before, other, key, timeout, Seq::empty(), 0);
        }
        assert forall|i: int| 0 <= i < trace.len() implies {
            &&& (#[trigger] trace[i]).contains_key(key)
            &&& answers_match(trace[i])
            &&& trace[i][key].answer matches Some(Answer::Resolved(r)) ==> request_key(r.request) == key
        } by {
            if i < n {
                assert(trace[i] == shorter[i]);
            }
        }
    }
}

/// Responses that arrive after their own request's deadline are never
/// counted and never become an answer: taking in any batch of them at time
/// `now` records no answer that was not there before, and counts none.
pub proof fn law_late_responses_never_answer(
    m: Map<HostPort, PendingLookup>,
    responses: Seq<DNSResponse>,
    now: u128,
)
    requires
        forall|i: int| 0 <= i < responses.len() ==> expired(#[trigger] responses[i].request.timeout, now),
    ensures
        accepted(m, responses, now) == 0,
        forall|k: HostPort|
            #[trigger] receive_all(m, responses, now).contains_key(k) ==> (receive_all(m, responses, now)[k].answer
                matches Some(Answer::Resolved(r)) ==> m[k].answer == Some(Answer::Resolved(r))),
    decreases responses.len(),
{
    law_receiving_keeps_lookups(m, responses, now);
    if responses.len() > 0 {
        let shorter = responses.drop_last();
        assert forall|i: int| 0 <= i < shorter.len() implies expired(#[trigger] shorter[i].request.timeout, now) by {
            assert(shorter[i] == responses[i]);
        }
        law_late_responses_never_answer(m, shorter, now);
        law_receiving_keeps_lookups(m, shorter, now);
        assert(expired(responses[responses.len() - 1].request.timeout, now));
    }
}

/// Draining never queues a request whose deadline has passed, and everything
/// it queues is a request it met, unchanged: for any arrivals, each request
/// that the run appends to the queue was read as a message in some event and
/// had not expired at time `now`.
pub proof fn law_drain_queues_only_timely_arrivals(
    queue: Seq<DNSRequest>,
    limit: u64,
    now: u128,
    events: Seq<(Received<DNSRequest>, Delivery)>,
    count: nat,
)
    ensures
        queue.len() <= drain_run(queue, limit, now, events, count).0.len(),
        drain_run(queue, limit, now, events, count).0.subrange(0, queue.len() as int) == queue,
        forall|j: int|
            queue.len() <= j < drain_run(queue, limit, now, events, count).0.len() ==> {
                let req = #[trigger] drain_run(queue, limit, now, events, count).0[j];
                &&& !expired(req.timeout, now)
                &&& exists|i: int| 0 <= i < events.len() && events[i].0 == Received::Message(req)
            },
    decreases events.len(),
{
    if events.len() > 0 {
        let rest = events.drop_first();
        if let Received::Message(req) = events[0].0 {
            if admits(queue, limit, now, req) {
                let q2 = queue.push(req);
                law_drain_queues_only_timely_arrivals(q2, limit, now, rest, count + 1);
                let out = drain_run(q2, limit, now, rest, count + 1).0;
                assert(out.subrange(0, queue.len() as int) =~= queue) by {
                    assert(out.subrange(0, q2.len() as int) == q2);
                    assert forall|x: int| 0 <= x < queue.len() implies out[x] == queue[x] by {
                        assert(out.subrange(0, q2.len() as int)[x] == q2[x]);
                    }
                }
                assert forall|j: int| queue.len() <= j < out.len() implies {
                    let r = #[trigger] out[j];
                    &&& !expired(r.timeout, now)
                    &&& exists|i: int| 0 <= i < events.len() && events[i].0 == Received::Message(r)
                } by {
                    if j == queue.len() {
                        assert(out[j] == out.subrange(0, q2.len() as int)[j]);
                        assert(out[j] == req);
                        assert(events[0].0 == Received::Message(req));
                    } else {
                        let i2 = choose|i: int| 0 <= i < rest.len() && rest[i].0 == Received::Message(out[j]);
                        assert(events[i2 + 1] == rest[i2]);
                    }
                }
            } else if events[0].1 != Delivery::Disconnected {
                law_drain_queues_only_timely_arrivals(queue, limit, now, rest, count);
                let out = drain_run(queue, limit, now, rest, count).0;
                assert forall|j: int| queue.len() <= j < out.len() implies {
                    let r = #[trigger] out[j];
                    &&& !expired(r.timeout, now)
                    &&& exists|i: int| 0 <= i < events.len() && events[i].0 == Received::Message(r)
                } by {
                    let i2 = choose|i: int| 0 <= i < rest.len() && rest[i].0 == Received::Message(out[j]);
                    assert(events[i2 + 1] == rest[i2]);
                }
            } else {
                assert(queue.subrange(0, queue.len() as int) =~= queue);
            }
        } else {
            assert(queue.subrange(0, queue.len() as int) =~= queue);
        }
    } else {
        assert(queue.subrange(0, queue.len() as int) =~= queue);
    }
}

/// A resolver whose fixed answers were just given addresses for a host and
/// port answers a request for them with those addresses, without a lookup.
pub proof fn law_fixed_answer_served(
    fixed: Map<HostPort, Vec<SocketAddress>>,
    addrs: Vec<SocketAddress>,
    request: DNSRequest,
    resolution: Resolution,
)
    requires
        resolves_as(fixed.insert(request_key(request), addrs), request, resolution),
    ensures
        ({
            &&& resolution matches Resolution::Answered(response)
            &&& response.request == request
            &&& response.result matches Ok(a)
            &&& a@ == addrs@
        }),
{
}

} // verus!
