//! The local DNS proxy: it asks one resolver after the other.

use vstd::prelude::*;
use crate::net::{IpAddr, Ipv4Addr, SocketAddr};

verus! {

/// The port of resolvers.
pub const DNS_PORT: u16 = 53;

/// A message as it goes over TCP: its length in two bytes, and the message.
pub open spec fn framed(message: Seq<u8>) -> Seq<u8> {
    seq![(message.len() / 256) as u8, (message.len() % 256) as u8] + message
}

/// The length that two bytes tell.
pub open spec fn told_length(high: u8, low: u8) -> int {
    high as int * 256 + low
}

/// A message as it goes over TCP.
pub fn frame(message: &[u8]) -> (r: Vec<u8>)
    requires
        message@.len() <= 65535,
    ensures
        r@ == framed(message@),
{
    let mut out: Vec<u8> = Vec::new();
    out.push((message.len() / 256) as u8);
    out.push((message.len() % 256) as u8);
    out.extend_from_slice(message);
    assert(out@ =~= framed(message@));
    out
}

/// The length of the message that two bytes announce; nothing for an empty
/// message, which is not read.
pub fn frame_length(high: u8, low: u8) -> (r: Option<usize>)
    ensures
        match r {
            Some(length) => length == told_length(high, low) && 0 < length <= 65535,
            None => told_length(high, low) == 0,
        },
{
    let length: usize = high as usize * 256 + low as usize;
    if length == 0 {
        None
    } else {
        Some(length)
    }
}

/// A message is read back from the form in which it goes over TCP.
pub proof fn lemma_frame_round_trip(message: Seq<u8>)
    requires
        message.len() <= 65535,
    ensures
        ({
            let sent = framed(message);
            &&& told_length(sent[0], sent[1]) == message.len()
            &&& sent.skip(2) == message
        }),
{
    assert(framed(message).skip(2) =~= message);
}

/// The addresses of resolvers.
pub open spec fn resolver_addresses(servers: Seq<Ipv4Addr>) -> Seq<SocketAddr> {
    servers.map_values(|ip: Ipv4Addr| SocketAddr { ip: IpAddr::V4(ip), port: DNS_PORT })
}

/// The addresses of resolvers.
pub fn upstreams(servers: &[Ipv4Addr]) -> (r: Vec<SocketAddr>)
    ensures
        r@ == resolver_addresses(servers@),
{
    let mut out: Vec<SocketAddr> = Vec::new();
    let mut i: usize = 0;
    while i < servers.len()
        invariant
            i <= servers@.len(),
            out@ == resolver_addresses(servers@.take(i as int)),
        decreases servers@.len() - i,
    {
        out.push(SocketAddr { ip: IpAddr::V4(servers[i]), port: DNS_PORT });
        i += 1;
        assert(out@ =~= resolver_addresses(servers@.take(i as int)));
    }
    assert(servers@.take(i as int) == servers@);
    out
}

/// What asking a resolver has brought.
#[derive(Debug, PartialEq, Eq)]
pub enum Asked {
    /// The client's own side is broken.
    Broken,
    /// The resolver did not answer.
    Silent,
    /// The resolver has announced an empty answer over TCP.
    Empty,
    /// The resolver has answered.
    Answered(Vec<u8>),
}

/// What to do with a query.
#[derive(Debug, PartialEq, Eq)]
pub enum ForwardStep {
    /// A resolver is asked.
    Ask(SocketAddr),
    /// The answer is handed to the client.
    Answer(Vec<u8>),
    /// The query is dropped.
    Drop,
}

/// What to do with a query once resolvers have been asked up to `next`, given
/// what asking the last one has brought. An answer that is announced as empty
/// counts as none.
pub open spec fn forward_next(
    upstreams: Seq<SocketAddr>,
    next: int,
    asked: Option<Asked>,
) -> ForwardStep {
    match asked {
        Some(Asked::Broken) => ForwardStep::Drop,
        Some(Asked::Answered(answer)) => ForwardStep::Answer(answer),
        _ => if 0 <= next < upstreams.len() {
            ForwardStep::Ask(upstreams[next])
        } else {
            ForwardStep::Drop
        },
    }
}

/// A query on its way: resolvers are asked in order until one answers.
#[derive(Debug)]
pub struct Forward {
    pub upstreams: Vec<SocketAddr>,
    pub next: usize,
}

impl Forward {
    /// A query that has not been asked yet.
    pub fn new(upstreams: Vec<SocketAddr>) -> (r: Forward)
        ensures
            r.upstreams@ == upstreams@,
            r.next == 0,
    {
        Forward { upstreams, next: 0 }
    }

    /// Decides what to do with the query, given what asking the last resolver
    /// has brought.
    pub fn step(&mut self, asked: Option<Asked>) -> (r: ForwardStep)
        ensures
            r == forward_next(old(self).upstreams@, old(self).next as int, asked),
            final(self).upstreams == old(self).upstreams,
            final(self).next == (if r is Ask {
                (old(self).next + 1) as usize
            } else {
                old(self).next
            }),
    {
        match asked {
            Some(Asked::Broken) => ForwardStep::Drop,
            Some(Asked::Answered(answer)) => ForwardStep::Answer(answer),
            _ => if self.next < self.upstreams.len() {
                let upstream = self.upstreams[self.next];
                self.next = self.next + 1;
                ForwardStep::Ask(upstream)
            } else {
                ForwardStep::Drop
            },
        }
    }
}

/// Every resolver is asked once, in order, as long as none answers.
pub proof fn lemma_resolvers_are_asked_in_order(upstreams: Seq<SocketAddr>, next: int)
    requires
        0 <= next <= upstreams.len(),
    ensures
        forall|asked: Option<Asked>|
            asked is None || asked == Some(Asked::Silent) || asked == Some(Asked::Empty)
                ==> #[trigger] forward_next(upstreams, next, asked) == (if next
                < upstreams.len() {
                ForwardStep::Ask(upstreams[next])
            } else {
                ForwardStep::Drop
            }),
{
}

/// What came of waiting for a query.
#[derive(Clone, Copy, Debug, PartialEq, Eq, Structural)]
pub enum Listened {
    /// A query, or a client with one.
    Query,
    /// An empty message.
    Empty,
    /// Nothing yet.
    Quiet,
    /// The socket is broken.
    Broken,
}

/// What the proxy does next.
#[derive(Clone, Copy, Debug, PartialEq, Eq, Structural)]
pub enum ListenStep {
    Serve,
    Wait,
    Stop,
}

/// Decides what the proxy does next.
pub fn proxy_step(listened: Listened) -> (r: ListenStep)
    ensures
        r == (match listened {
            Listened::Query => ListenStep::Serve,
            Listened::Empty => ListenStep::Wait,
            Listened::Quiet => ListenStep::Wait,
            Listened::Broken => ListenStep::Stop,
        }),
{
    match listened {
        Listened::Query => ListenStep::Serve,
        Listened::Empty => ListenStep::Wait,
        Listened::Quiet => ListenStep::Wait,
        Listened::Broken => ListenStep::Stop,
    }
}

/// Every resolver is asked at its own address, on the port of resolvers, and in
/// the order in which they are named.
pub proof fn lemma_resolver_addresses(servers: Seq<Ipv4Addr>)
    ensures
        resolver_addresses(servers).len() == servers.len(),
        forall|i: int|
            0 <= i < servers.len() ==> #[trigger] resolver_addresses(servers)[i] == (SocketAddr {
                ip: IpAddr::V4(servers[i]),
                port: 53,
            }),
{
}

/// The first answer is handed to the client, whole, and no other resolver is
/// asked; a client that is gone is given up.
pub proof fn lemma_first_answer_is_passed_on(
    upstreams: Seq<SocketAddr>,
    next: int,
    answer: Vec<u8>,
)
    ensures
        forward_next(upstreams, next, Some(Asked::Answered(answer))) == ForwardStep::Answer(answer),
        forward_next(upstreams, next, Some(Asked::Broken)) == ForwardStep::Drop,
{
}

/// A message goes over TCP with its length before it, the high byte first.
pub proof fn lemma_frames(message: Seq<u8>)
    requires
        message.len() <= 65535,
    ensures
        framed(message).len() == message.len() + 2,
        framed(message)[0] as int * 256 + framed(message)[1] as int == message.len(),
        forall|i: int| 0 <= i < message.len() ==> #[trigger] framed(message)[2 + i] == message[i],
{
}

} // verus!
